//! Rules that replace the URL of a page by another one before it is fetched.

use vstd::prelude::*;

use crate::pattern::{
    check_pattern, is_match, pattern_error, pattern_matches, pattern_replaced, replace_all,
};
use crate::text::{decimal, show_size};

verus! {

/// A rule of the configuration: where the pattern matches a URL, each match is
/// replaced.
#[derive(Debug)]
pub struct Rule {
    /// A regular expression.
    pub pattern: String,
    /// What replaces a match; `$1` stands for its first group.
    pub replace: String,
}

/// What a [`Rule`] holds.
#[verifier::ext_equal]
pub struct RuleView {
    pub pattern: Seq<char>,
    pub replace: Seq<char>,
}

impl View for Rule {
    type V = RuleView;

    open spec fn view(&self) -> RuleView {
        RuleView { pattern: self.pattern@, replace: self.replace@ }
    }
}

impl Clone for Rule {
    fn clone(&self) -> (r: Self)
        ensures
            r@ == self@,
    {
        Rule { pattern: self.pattern.clone(), replace: self.replace.clone() }
    }
}

impl Default for Rule {
    fn default() -> (r: Self)
        ensures
            r@ == (RuleView { pattern: seq![], replace: seq![] }),
    {
        Rule { pattern: String::new(), replace: String::new() }
    }
}

/// What a list of rules holds.
pub open spec fn rules_of(rules: Seq<Rule>) -> Seq<RuleView> {
    Seq::new(rules.len(), |i: int| rules[i]@)
}

/// A copy of a list of rules.
pub fn copy_rules(rules: &[Rule]) -> (r: Vec<Rule>)
    ensures
        rules_of(r@) == rules_of(rules@),
{
    let mut out: Vec<Rule> = Vec::new();
    let mut i: usize = 0;
    while i < rules.len()
        invariant
            i <= rules@.len(),
            out@.len() == i,
            forall|k: int| 0 <= k < i ==> (#[trigger] out@[k])@ == rules@[k]@,
        decreases rules@.len() - i,
    {
        out.push(rules[i].clone());
        i += 1;
    }
    assert(rules_of(out@) =~= rules_of(rules@));
    out
}

/// The first rule from `i` on whose pattern is not a regular expression, with the
/// reason.
pub open spec fn first_broken(rules: Seq<RuleView>, i: int) -> Option<(int, Seq<char>)>
    decreases rules.len() - i,
{
    if i < 0 || i >= rules.len() {
        None
    } else {
        match pattern_error(rules[i].pattern) {
            Some(message) => Some((i, message)),
            None => first_broken(rules, i + 1),
        }
    }
}

/// What the first rule from `i` on that matches makes of `url`; `url` itself
/// where none matches.
pub open spec fn rewritten_from(rules: Seq<RuleView>, url: Seq<char>, i: int) -> Seq<char>
    decreases rules.len() - i,
{
    if i < 0 || i >= rules.len() {
        url
    } else if pattern_matches(rules[i].pattern, url) {
        pattern_replaced(rules[i].pattern, url, rules[i].replace)
    } else {
        rewritten_from(rules, url, i + 1)
    }
}

/// What the rules make of `url`.
pub open spec fn rewritten(rules: Seq<RuleView>, url: Seq<char>) -> Seq<char> {
    rewritten_from(rules, url, 0)
}

/// Rules whose patterns are all regular expressions; at least one of them.
#[derive(Debug)]
pub struct Rewriter {
    rules: Vec<Rule>,
}

impl View for Rewriter {
    type V = Seq<RuleView>;

    closed spec fn view(&self) -> Seq<RuleView> {
        rules_of(self.rules@)
    }
}

impl Clone for Rewriter {
    fn clone(&self) -> (r: Self)
        ensures
            r@ == self@,
    {
        Rewriter { rules: copy_rules(self.rules.as_slice()) }
    }
}

impl Rewriter {
    /// Whether the patterns are regular expressions.
    pub open spec fn valid(self) -> bool {
        self@.len() > 0 && first_broken(self@, 0) is None
    }

    /// The rewriter for a list of rules, if it has any. The first rule whose
    /// pattern is not a regular expression is an error.
    pub fn new(rules: &[Rule]) -> (r: Result<Option<Self>, String>)
        ensures
            match r {
                Ok(None) => rules@.len() == 0,
                Ok(Some(rewriter)) => rewriter@ == rules_of(rules@) && rewriter.valid(),
                Err(message) => first_broken(rules_of(rules@), 0) matches Some(broken)
                    && message@ == "url_rewrites["@ + decimal(broken.0) + "]: "@ + broken.1,
            },
    {
        if rules.len() == 0 {
            return Ok(None);
        }
        let ghost all = rules_of(rules@);
        let mut i: usize = 0;
        while i < rules.len()
            invariant
                all == rules_of(rules@),
                i <= rules@.len(),
                first_broken(all, 0) == first_broken(all, i as int),
            decreases rules@.len() - i,
        {
            if let Some(error) = check_pattern(rules[i].pattern.as_str()) {
                let mut message = "url_rewrites[".to_owned();
                message.append(show_size(i).as_str());
                message.append("]: ");
                message.append(error.as_str());
                return Err(message);
            }
            i += 1;
        }
        Ok(Some(Rewriter { rules: copy_rules(rules) }))
    }

    /// What the first rule that matches makes of `raw_url`.
    pub fn apply(&self, raw_url: &str) -> (r: String)
        ensures
            r@ == rewritten(self@, raw_url@),
    {
        let mut i: usize = 0;
        while i < self.rules.len()
            invariant
                i <= self.rules@.len(),
                rewritten(self@, raw_url@) == rewritten_from(self@, raw_url@, i as int),
            decreases self.rules@.len() - i,
        {
            if is_match(self.rules[i].pattern.as_str(), raw_url) {
                return replace_all(
                    self.rules[i].pattern.as_str(),
                    raw_url,
                    self.rules[i].replace.as_str(),
                );
            }
            i += 1;
        }
        raw_url.to_owned()
    }
}

/// What an optional rewriter makes of a URL.
pub open spec fn applied(rewriter: Option<Rewriter>, url: Seq<char>) -> Seq<char> {
    match rewriter {
        Some(rewriter) => rewritten(rewriter@, url),
        None => url,
    }
}

/// What an optional rewriter makes of `raw_url`.
pub fn apply(rewriter: &Option<Rewriter>, raw_url: &str) -> (r: String)
    ensures
        r@ == applied(*rewriter, raw_url@),
{
    match rewriter {
        Some(rewriter) => rewriter.apply(raw_url),
        None => raw_url.to_owned(),
    }
}

/// A URL that no rule matches stays as it is.
pub proof fn law_unmatched_urls_stay(rules: Seq<RuleView>, url: Seq<char>)
    requires
        forall|i: int| 0 <= i < rules.len() ==> !pattern_matches(#[trigger] rules[i].pattern, url),
    ensures
        rewritten(rules, url) == url,
{
    lemma_unmatched(rules, url, 0);
}

proof fn lemma_unmatched(rules: Seq<RuleView>, url: Seq<char>, i: int)
    requires
        0 <= i,
        forall|k: int| i <= k < rules.len() ==> !pattern_matches(#[trigger] rules[k].pattern, url),
    ensures
        rewritten_from(rules, url, i) == url,
    decreases rules.len() - i,
{
    if i < rules.len() {
        lemma_unmatched(rules, url, i + 1);
    }
}

/// Only the first rule that matches counts: neither the rules behind it nor what
/// they would make of the result play a part.
pub proof fn law_first_match_decides(rules: Seq<RuleView>, url: Seq<char>, k: int)
    requires
        0 <= k < rules.len(),
        pattern_matches(rules[k].pattern, url),
        forall|i: int| 0 <= i < k ==> !pattern_matches(#[trigger] rules[i].pattern, url),
    ensures
        rewritten(rules, url) == pattern_replaced(rules[k].pattern, url, rules[k].replace),
{
    lemma_first_match(rules, url, 0, k);
}

proof fn lemma_first_match(rules: Seq<RuleView>, url: Seq<char>, i: int, k: int)
    requires
        0 <= i <= k < rules.len(),
        pattern_matches(rules[k].pattern, url),
        forall|j: int| i <= j < k ==> !pattern_matches(#[trigger] rules[j].pattern, url),
    ensures
        rewritten_from(rules, url, i) == pattern_replaced(rules[k].pattern, url, rules[k].replace),
    decreases k - i,
{
    if i < k {
        lemma_first_match(rules, url, i + 1, k);
    }
}

/// Rules are refused exactly if a pattern among them is broken; the first such rule is told
/// of, with its number and the reason.
pub proof fn law_the_first_broken_rule_is_told_of(rules: Seq<RuleView>, k: int)
    requires
        0 <= k <= rules.len(),
        forall|i: int| 0 <= i < k ==> pattern_error((#[trigger] rules[i]).pattern) is None,
        k < rules.len() ==> pattern_error(rules[k].pattern) is Some,
    ensures
        k == rules.len() ==> first_broken(rules, 0) is None,
        k < rules.len() ==> first_broken(rules, 0) == Some(
            (k, pattern_error(rules[k].pattern)->0),
        ),
{
    lemma_first_broken(rules, 0, k);
}

proof fn lemma_first_broken(rules: Seq<RuleView>, i: int, k: int)
    requires
        0 <= i <= k <= rules.len(),
        forall|j: int| i <= j < k ==> pattern_error((#[trigger] rules[j]).pattern) is None,
        k < rules.len() ==> pattern_error(rules[k].pattern) is Some,
    ensures
        first_broken(rules, i) == (if k < rules.len() {
            Some((k, pattern_error(rules[k].pattern)->0))
        } else {
            None
        }),
    decreases k - i,
{
    if i < k {
        assert(pattern_error(rules[i].pattern) is None);
        lemma_first_broken(rules, i + 1, k);
    }
}

/// Without rules every URL stays as it is; with rules it becomes what they make of it.
pub proof fn law_what_a_rewriter_does(rewriter: Rewriter, url: Seq<char>)
    ensures
        applied(None, url) == url,
        applied(Some(rewriter), url) == rewritten(rewriter@, url),
{
}

/// A rule is seen as its fields are.
pub proof fn law_what_a_rule_holds(record: Rule)
    ensures
        record@.pattern == record.pattern@,
        record@.replace == record.replace@,
{
}

/// A list of rules is seen as its rules are, in their order.
pub proof fn law_what_a_list_of_rules_holds(rules: Seq<Rule>)
    ensures
        rules_of(rules).len() == rules.len(),
        forall|i: int| 0 <= i < rules.len() ==> #[trigger] rules_of(rules)[i] == rules[i]@,
{
}

} // verus!
