//! Text as sequences of characters: trimming, splitting, searching, joining
//! and number formatting.

use vstd::prelude::*;

verus! {

/// `String::push` appends one character.
pub assume_specification[ String::push ](s: &mut String, c: char)
    ensures
        final(s)@ == old(s)@.push(c),
;

/// The characters with the Unicode `White_Space` property.
pub open spec fn is_white(c: char) -> bool {
    let n = c as u32;
    ||| 0x9 <= n <= 0xd
    ||| n == 0x20
    ||| n == 0x85
    ||| n == 0xa0
    ||| n == 0x1680
    ||| 0x2000 <= n <= 0x200a
    ||| n == 0x2028
    ||| n == 0x2029
    ||| n == 0x202f
    ||| n == 0x205f
    ||| n == 0x3000
}

/// Whether `c` is a white space character.
pub fn is_white_space(c: char) -> (r: bool)
    ensures
        r == is_white(c),
{
    let n: u32 = c as u32;
    (0x9 <= n && n <= 0xd) || n == 0x20 || n == 0x85 || n == 0xa0 || n == 0x1680 || (0x2000 <= n
        && n <= 0x200a) || n == 0x2028 || n == 0x2029 || n == 0x202f || n == 0x205f || n == 0x3000
}

/// The texts held by a sequence of strings.
pub open spec fn texts(v: Seq<String>) -> Seq<Seq<char>> {
    Seq::new(v.len(), |i: int| v[i]@)
}

/// The texts held by a sequence of string slices.
pub open spec fn slices(v: Seq<&str>) -> Seq<Seq<char>> {
    Seq::new(v.len(), |i: int| v[i]@)
}

/// The characters of `s`.
pub fn chars_of(s: &str) -> (r: Vec<char>)
    ensures
        r@ == s@,
{
    let mut out: Vec<char> = Vec::new();
    for c in it: s.chars()
        invariant
            it.seq() == s@,
            out@ == s@.take(it.index() as int),
    {
        out.push(c);
    }
    assert(s@.take(s@.len() as int) =~= s@);
    out
}

/// The text of `chars` from index `from` to index `to`.
pub fn string_of(chars: &Vec<char>, from: usize, to: usize) -> (r: String)
    requires
        from <= to <= chars@.len(),
    ensures
        r@ == chars@.subrange(from as int, to as int),
{
    let mut out = String::new();
    let mut i: usize = from;
    while i < to
        invariant
            from <= i <= to <= chars@.len(),
            out@ == chars@.subrange(from as int, i as int),
        decreases to - i,
    {
        out.push(chars[i]);
        i += 1;
        assert(chars@.subrange(from as int, i as int) =~= chars@.subrange(
            from as int,
            i - 1,
        ).push(chars@[i - 1]));
    }
    out
}

/// Whether two texts are the same.
pub fn same(a: &str, b: &str) -> (r: bool)
    ensures
        r == (a@ == b@),
{
    a.to_owned() == b.to_owned()
}

/// The first index from `i` on at which `p` does not hold, or the length.
pub open spec fn skip_while(s: Seq<char>, p: spec_fn(char) -> bool, i: int) -> int
    decreases s.len() - i,
{
    if i < 0 || i >= s.len() || !p(s[i]) {
        i
    } else {
        skip_while(s, p, i + 1)
    }
}

/// The least index down from `j` such that `p` holds from there to `j`.
pub open spec fn back_while(s: Seq<char>, p: spec_fn(char) -> bool, j: int) -> int
    decreases j,
{
    if j <= 0 || j > s.len() || !p(s[j - 1]) {
        j
    } else {
        back_while(s, p, j - 1)
    }
}

pub proof fn lemma_skip_while(s: Seq<char>, p: spec_fn(char) -> bool, i: int)
    requires
        0 <= i <= s.len(),
    ensures
        i <= skip_while(s, p, i) <= s.len(),
        skip_while(s, p, i) < s.len() ==> !p(s[skip_while(s, p, i)]),
        forall|k: int| i <= k < skip_while(s, p, i) ==> p(s[k]),
    decreases s.len() - i,
{
    if i < s.len() && p(s[i]) {
        lemma_skip_while(s, p, i + 1);
    }
}

pub proof fn lemma_back_while(s: Seq<char>, p: spec_fn(char) -> bool, j: int)
    requires
        0 <= j <= s.len(),
    ensures
        0 <= back_while(s, p, j) <= j,
        back_while(s, p, j) > 0 ==> !p(s[back_while(s, p, j) - 1]),
        forall|k: int| back_while(s, p, j) <= k < j ==> p(s[k]),
    decreases j,
{
    if j > 0 && p(s[j - 1]) {
        lemma_back_while(s, p, j - 1);
    }
}

/// The predicate of white space characters.
pub open spec fn white() -> spec_fn(char) -> bool {
    |c: char| is_white(c)
}

/// The predicate of the other characters.
pub open spec fn black() -> spec_fn(char) -> bool {
    |c: char| !is_white(c)
}

/// The predicate of one character.
pub open spec fn only(x: char) -> spec_fn(char) -> bool {
    |c: char| c == x
}

/// `s` without the characters at its start for which `p` holds.
pub open spec fn drop_front(s: Seq<char>, p: spec_fn(char) -> bool) -> Seq<char> {
    s.subrange(skip_while(s, p, 0), s.len() as int)
}

/// `s` without the characters at its end for which `p` holds.
pub open spec fn drop_back(s: Seq<char>, p: spec_fn(char) -> bool) -> Seq<char> {
    s.subrange(0, back_while(s, p, s.len() as int))
}

/// `s` without white space at either end.
pub open spec fn trimmed(s: Seq<char>) -> Seq<char> {
    drop_back(drop_front(s, white()), white())
}

/// Trimming makes no text longer.
pub proof fn lemma_trimmed_len(s: Seq<char>)
    ensures
        trimmed(s).len() <= s.len(),
{
    lemma_skip_while(s, white(), 0);
    let front = drop_front(s, white());
    lemma_back_while(front, white(), front.len() as int);
}

/// A text that neither begins nor ends with white space is trimmed already.
pub proof fn lemma_trimmed_already(s: Seq<char>)
    requires
        s.len() > 0,
        !is_white(s[0]),
        !is_white(s.last()),
    ensures
        trimmed(s) == s,
{
    assert(drop_front(s, white()) =~= s);
    assert(drop_back(s, white()) =~= s);
}

/// The words of `s` from index `i` on: its runs of characters that are not
/// white space.
pub open spec fn words_from(s: Seq<char>, i: int) -> Seq<Seq<char>>
    decreases s.len() - i,
{
    if i < 0 || i > s.len() {
        seq![]
    } else {
        let a = skip_while(s, white(), i);
        let b = skip_while(s, black(), a);
        if a >= s.len() {
            seq![]
        } else {
            proof {
                lemma_skip_while(s, white(), i);
                lemma_skip_while(s, black(), a + 1);
            }
            seq![s.subrange(a, b)] + words_from(s, b)
        }
    }
}

/// The words of a text.
pub open spec fn words_of(s: Seq<char>) -> Seq<Seq<char>> {
    words_from(s, 0)
}

/// `parts` with `sep` between each two neighbours.
pub open spec fn joined(parts: Seq<Seq<char>>, sep: Seq<char>) -> Seq<char>
    decreases parts.len(),
{
    if parts.len() == 0 {
        seq![]
    } else if parts.len() == 1 {
        parts[0]
    } else {
        joined(parts.drop_last(), sep) + sep + parts.last()
    }
}

fn skip_white(chars: &Vec<char>, from: usize) -> (r: usize)
    requires
        from <= chars@.len(),
    ensures
        r == skip_while(chars@, white(), from as int),
        from <= r <= chars@.len(),
        r < chars@.len() ==> !is_white(chars@[r as int]),
{
    let mut i: usize = from;
    while i < chars.len() && is_white_space(chars[i])
        invariant
            from <= i <= chars@.len(),
            skip_while(chars@, white(), from as int) == skip_while(chars@, white(), i as int),
        decreases chars@.len() - i,
    {
        i += 1;
    }
    i
}

fn skip_black(chars: &Vec<char>, from: usize) -> (r: usize)
    requires
        from <= chars@.len(),
    ensures
        r == skip_while(chars@, black(), from as int),
        from <= r <= chars@.len(),
{
    let mut i: usize = from;
    while i < chars.len() && !is_white_space(chars[i])
        invariant
            from <= i <= chars@.len(),
            skip_while(chars@, black(), from as int) == skip_while(chars@, black(), i as int),
        decreases chars@.len() - i,
    {
        i += 1;
    }
    i
}

/// The words of `s`: its runs of characters that are not white space.
pub fn words(s: &str) -> (r: Vec<String>)
    ensures
        texts(r@) == words_of(s@),
{
    let chars = chars_of(s);
    let mut out: Vec<String> = Vec::new();
    let mut i: usize = 0;
    loop
        invariant
            chars@ == s@,
            i <= chars@.len(),
            words_of(s@) == texts(out@) + words_from(s@, i as int),
        decreases chars@.len() - i,
    {
        let a = skip_white(&chars, i);
        let b = skip_black(&chars, a);
        if a >= chars.len() {
            assert(words_from(s@, i as int) =~= seq![]);
            assert(texts(out@) + words_from(s@, i as int) =~= texts(out@));
            return out;
        }
        proof {
            lemma_skip_while(s@, black(), a + 1);
        }
        let word = string_of(&chars, a, b);
        let ghost before = texts(out@);
        out.push(word);
        assert(texts(out@) =~= before.push(word@));
        assert(before + (seq![word@] + words_from(s@, b as int)) =~= texts(out@) + words_from(
            s@,
            b as int,
        ));
        i = b;
    }
}

/// `s` without the white space at its start.
pub fn trim_start(s: &str) -> (r: String)
    ensures
        r@ == drop_front(s@, white()),
{
    let chars = chars_of(s);
    let a = skip_white(&chars, 0);
    string_of(&chars, a, chars.len())
}

/// `s` without the white space at its end.
pub fn trim_end(s: &str) -> (r: String)
    ensures
        r@ == drop_back(s@, white()),
{
    let chars = chars_of(s);
    let mut j: usize = chars.len();
    while j > 0 && is_white_space(chars[j - 1])
        invariant
            chars@ == s@,
            j <= chars@.len(),
            back_while(s@, white(), s@.len() as int) == back_while(s@, white(), j as int),
        decreases j,
    {
        j -= 1;
    }
    string_of(&chars, 0, j)
}

/// `s` without the white space at either end.
pub fn trim(s: &str) -> (r: String)
    ensures
        r@ == trimmed(s@),
{
    let front = trim_start(s);
    trim_end(front.as_str())
}

/// `s` without the characters `c` at its start.
pub fn trim_start_matches(s: &str, c: char) -> (r: String)
    ensures
        r@ == drop_front(s@, only(c)),
{
    let chars = chars_of(s);
    let mut i: usize = 0;
    while i < chars.len() && chars[i] == c
        invariant
            chars@ == s@,
            i <= chars@.len(),
            skip_while(s@, only(c), 0) == skip_while(s@, only(c), i as int),
        decreases chars@.len() - i,
    {
        i += 1;
    }
    string_of(&chars, i, chars.len())
}

/// `s` without the characters `c` at its end.
pub fn trim_end_matches(s: &str, c: char) -> (r: String)
    ensures
        r@ == drop_back(s@, only(c)),
{
    let chars = chars_of(s);
    let mut j: usize = chars.len();
    while j > 0 && chars[j - 1] == c
        invariant
            chars@ == s@,
            j <= chars@.len(),
            back_while(s@, only(c), s@.len() as int) == back_while(s@, only(c), j as int),
        decreases j,
    {
        j -= 1;
    }
    string_of(&chars, 0, j)
}

/// The predicate of all characters but one.
pub open spec fn but(x: char) -> spec_fn(char) -> bool {
    |c: char| c != x
}

/// The first index of `x` in `s` from `i` on, or the length of `s`.
pub open spec fn index_of(s: Seq<char>, x: char, i: int) -> int {
    skip_while(s, but(x), i)
}

/// The first index of `x` in `chars` from `from` on, or their number.
pub fn find_char(chars: &Vec<char>, x: char, from: usize) -> (r: usize)
    requires
        from <= chars@.len(),
    ensures
        r == index_of(chars@, x, from as int),
        from <= r <= chars@.len(),
        r < chars@.len() ==> chars@[r as int] == x,
{
    let mut i: usize = from;
    while i < chars.len() && chars[i] != x
        invariant
            from <= i <= chars@.len(),
            index_of(chars@, x, from as int) == index_of(chars@, x, i as int),
        decreases chars@.len() - i,
    {
        i += 1;
    }
    i
}

/// A line without the carriage return before its line feed.
pub open spec fn without_cr(s: Seq<char>) -> Seq<char> {
    if s.len() > 0 && s.last() == '\r' {
        s.drop_last()
    } else {
        s
    }
}

/// The lines of `s` from index `i` on.
pub open spec fn lines_from(s: Seq<char>, i: int) -> Seq<Seq<char>>
    decreases s.len() - i,
{
    if i < 0 || i >= s.len() {
        seq![]
    } else {
        let k = index_of(s, '\n', i);
        if k >= s.len() {
            seq![s.subrange(i, s.len() as int)]
        } else {
            proof {
                lemma_skip_while(s, but('\n'), i);
            }
            seq![without_cr(s.subrange(i, k))] + lines_from(s, k + 1)
        }
    }
}

/// The lines of a text. A line ends with a line feed or with a carriage return
/// and a line feed; the end of the last line may be left out.
pub open spec fn lines_of(s: Seq<char>) -> Seq<Seq<char>> {
    lines_from(s, 0)
}

/// The lines of `s`.
pub fn lines(s: &str) -> (r: Vec<String>)
    ensures
        texts(r@) == lines_of(s@),
{
    let chars = chars_of(s);
    let mut out: Vec<String> = Vec::new();
    let mut i: usize = 0;
    while i < chars.len()
        invariant
            chars@ == s@,
            i <= chars@.len(),
            lines_of(s@) == texts(out@) + lines_from(s@, i as int),
        decreases chars@.len() - i,
    {
        let k = find_char(&chars, '\n', i);
        let ghost before = texts(out@);
        if k >= chars.len() {
            let line = string_of(&chars, i, chars.len());
            out.push(line);
            assert(texts(out@) =~= before.push(line@));
            assert(lines_from(s@, s@.len() as int) =~= seq![]);
            assert(before + seq![line@] =~= texts(out@) + lines_from(s@, s@.len() as int));
            i = chars.len();
        } else {
            let end: usize = if k > i && chars[k - 1] == '\r' {
                k - 1
            } else {
                k
            };
            let line = string_of(&chars, i, end);
            assert(line@ =~= without_cr(s@.subrange(i as int, k as int)));
            out.push(line);
            assert(texts(out@) =~= before.push(line@));
            assert(before + (seq![line@] + lines_from(s@, k + 1)) =~= texts(out@) + lines_from(
                s@,
                k + 1,
            ));
            i = k + 1;
        }
    }
    assert(texts(out@) + lines_from(s@, i as int) =~= texts(out@));
    out
}

/// `s` cut at the first `x`: what stands before it and what stands after it.
pub open spec fn cut(s: Seq<char>, x: char) -> Option<(Seq<char>, Seq<char>)> {
    let k = index_of(s, x, 0);
    if k < s.len() {
        Some((s.subrange(0, k), s.subrange(k + 1, s.len() as int)))
    } else {
        None
    }
}

/// `s` cut at the first `x`.
pub fn split_once(s: &str, x: char) -> (r: Option<(String, String)>)
    ensures
        match r {
            Some(pair) => cut(s@, x) == Some((pair.0@, pair.1@)),
            None => cut(s@, x) is None,
        },
{
    let chars = chars_of(s);
    let k = find_char(&chars, x, 0);
    if k < chars.len() {
        let before = string_of(&chars, 0, k);
        let after = string_of(&chars, k + 1, chars.len());
        Some((before, after))
    } else {
        None
    }
}

/// Whether `pat` stands in `s` at index `i`.
pub open spec fn matches_at(s: Seq<char>, pat: Seq<char>, i: int) -> bool {
    0 <= i && i + pat.len() <= s.len() && s.subrange(i, i + pat.len()) == pat
}

/// The first index from `i` on at which `pat` stands in `s`.
pub open spec fn find_from(s: Seq<char>, pat: Seq<char>, i: int) -> Option<int>
    decreases s.len() - i + 1,
{
    if i < 0 || i + pat.len() > s.len() {
        None
    } else if matches_at(s, pat, i) {
        Some(i)
    } else {
        find_from(s, pat, i + 1)
    }
}

pub proof fn lemma_find_from(s: Seq<char>, pat: Seq<char>, i: int)
    requires
        0 <= i,
    ensures
        match find_from(s, pat, i) {
            Some(k) => i <= k && matches_at(s, pat, k) && forall|j: int|
                i <= j < k ==> !matches_at(s, pat, j),
            None => forall|j: int| i <= j ==> !matches_at(s, pat, j),
        },
    decreases s.len() - i + 1,
{
    if i + pat.len() <= s.len() && !matches_at(s, pat, i) {
        lemma_find_from(s, pat, i + 1);
    }
}

/// Whether `pat` stands somewhere in `s`.
pub open spec fn occurs(s: Seq<char>, pat: Seq<char>) -> bool {
    exists|i: int| matches_at(s, pat, i)
}

/// Whether `s` begins with `pat`.
pub open spec fn begins(s: Seq<char>, pat: Seq<char>) -> bool {
    matches_at(s, pat, 0)
}

/// Whether `s` ends with `pat`.
pub open spec fn ends(s: Seq<char>, pat: Seq<char>) -> bool {
    matches_at(s, pat, s.len() - pat.len())
}

/// What follows `pat` at the start of `s`.
pub open spec fn after_prefix(s: Seq<char>, pat: Seq<char>) -> Option<Seq<char>> {
    if begins(s, pat) {
        Some(s.subrange(pat.len() as int, s.len() as int))
    } else {
        None
    }
}

fn stands_at(chars: &Vec<char>, pat: &Vec<char>, at: usize) -> (r: bool)
    requires
        at <= chars@.len(),
    ensures
        r == matches_at(chars@, pat@, at as int),
{
    if pat.len() > chars.len() - at {
        return false;
    }
    let n: usize = chars.len();
    let mut k: usize = 0;
    while k < pat.len()
        invariant
            k <= pat@.len(),
            at + pat@.len() <= chars@.len(),
            chars@.len() == n,
            forall|j: int| 0 <= j < k ==> chars@[at + j] == pat@[j],
        decreases pat@.len() - k,
    {
        if chars[at + k] != pat[k] {
            assert(chars@.subrange(at as int, at + pat@.len())[k as int] != pat@[k as int]);
            return false;
        }
        k += 1;
    }
    assert(chars@.subrange(at as int, at + pat@.len()) =~= pat@);
    true
}

/// The first index from `from` on at which `pat` stands in `chars`.
fn find_chars(chars: &Vec<char>, pat: &Vec<char>, from: usize) -> (r: Option<usize>)
    requires
        from <= chars@.len(),
    ensures
        match r {
            Some(k) => find_from(chars@, pat@, from as int) == Some(k as int) && from <= k && k
                + pat@.len() <= chars@.len(),
            None => find_from(chars@, pat@, from as int) is None,
        },
{
    let mut i: usize = from;
    while i < chars.len() && pat.len() <= chars.len() - i
        invariant
            from <= i <= chars@.len(),
            find_from(chars@, pat@, from as int) == find_from(chars@, pat@, i as int),
        decreases chars@.len() - i,
    {
        if stands_at(chars, pat, i) {
            return Some(i);
        }
        i += 1;
    }
    if pat.len() == 0 && i == chars.len() {
        assert(chars@.subrange(i as int, i as int) =~= pat@);
        return Some(i);
    }
    None
}

/// Whether `pat` stands somewhere in `s`.
pub fn contains(s: &str, pat: &str) -> (r: bool)
    ensures
        r == occurs(s@, pat@),
{
    let chars = chars_of(s);
    let wanted = chars_of(pat);
    proof {
        lemma_find_from(s@, pat@, 0);
    }
    find_chars(&chars, &wanted, 0).is_some()
}

/// Whether `s` begins with `pat`.
pub fn starts_with(s: &str, pat: &str) -> (r: bool)
    ensures
        r == begins(s@, pat@),
{
    stands_at(&chars_of(s), &chars_of(pat), 0)
}

/// Whether `s` ends with `pat`.
pub fn ends_with(s: &str, pat: &str) -> (r: bool)
    ensures
        r == ends(s@, pat@),
{
    let chars = chars_of(s);
    let wanted = chars_of(pat);
    if wanted.len() > chars.len() {
        return false;
    }
    stands_at(&chars, &wanted, chars.len() - wanted.len())
}

/// What follows `pat` at the start of `s`.
pub fn strip_prefix(s: &str, pat: &str) -> (r: Option<String>)
    ensures
        match r {
            Some(rest) => after_prefix(s@, pat@) == Some(rest@),
            None => after_prefix(s@, pat@) is None,
        },
{
    let chars = chars_of(s);
    let wanted = chars_of(pat);
    if stands_at(&chars, &wanted, 0) {
        Some(string_of(&chars, wanted.len(), chars.len()))
    } else {
        None
    }
}

/// The pieces of `s` from index `i` on that the occurrences of `sep` separate.
pub open spec fn split_from(s: Seq<char>, sep: Seq<char>, i: int) -> Seq<Seq<char>>
    decreases s.len() - i,
{
    if sep.len() == 0 || i < 0 || i > s.len() {
        seq![]
    } else {
        match find_from(s, sep, i) {
            None => seq![s.subrange(i, s.len() as int)],
            Some(k) => {
                proof {
                    lemma_find_from(s, sep, i);
                }
                seq![s.subrange(i, k)] + split_from(s, sep, k + sep.len())
            },
        }
    }
}

/// The pieces of `s` that the occurrences of `sep` separate.
pub open spec fn split_of(s: Seq<char>, sep: Seq<char>) -> Seq<Seq<char>> {
    split_from(s, sep, 0)
}

/// `s` with every occurrence of `pat` replaced.
pub open spec fn replaced(s: Seq<char>, pat: Seq<char>, with: Seq<char>) -> Seq<char> {
    joined(split_of(s, pat), with)
}

/// The pieces of `s` that the occurrences of `sep` separate.
pub fn split(s: &str, sep: &str) -> (r: Vec<String>)
    requires
        sep@.len() > 0,
    ensures
        texts(r@) == split_of(s@, sep@),
{
    let chars = chars_of(s);
    let wanted = chars_of(sep);
    let mut out: Vec<String> = Vec::new();
    let mut i: usize = 0;
    loop
        invariant
            chars@ == s@,
            wanted@ == sep@,
            sep@.len() > 0,
            i <= chars@.len(),
            split_of(s@, sep@) == texts(out@) + split_from(s@, sep@, i as int),
        decreases chars@.len() - i,
    {
        let ghost before = texts(out@);
        match find_chars(&chars, &wanted, i) {
            None => {
                let piece = string_of(&chars, i, chars.len());
                out.push(piece);
                assert(texts(out@) =~= before + seq![piece@]);
                return out;
            },
            Some(k) => {
                let piece = string_of(&chars, i, k);
                out.push(piece);
                assert(texts(out@) =~= before.push(piece@));
                let n: usize = chars.len();
                assert(k + wanted@.len() <= n);
                let next: usize = k + wanted.len();
                assert(before + (seq![piece@] + split_from(s@, sep@, next as int)) =~= texts(out@)
                    + split_from(s@, sep@, next as int));
                i = next;
            },
        }
    }
}

/// `parts` with `sep` between each two neighbours.
pub fn join(parts: &Vec<String>, sep: &str) -> (r: String)
    ensures
        r@ == joined(texts(parts@), sep@),
{
    let mut out = String::new();
    let mut i: usize = 0;
    while i < parts.len()
        invariant
            i <= parts@.len(),
            out@ == joined(texts(parts@).take(i as int), sep@),
        decreases parts@.len() - i,
    {
        let ghost done = texts(parts@).take(i as int);
        let ghost next = texts(parts@).take(i + 1);
        assert(next.drop_last() =~= done);
        assert(next.last() == parts@[i as int]@);
        if i > 0 {
            out.append(sep);
        } else {
            assert(seq![] + parts@[0]@ =~= parts@[0]@);
        }
        out.append(parts[i].as_str());
        i += 1;
    }
    assert(texts(parts@).take(i as int) =~= texts(parts@));
    out
}

/// `s` with every occurrence of `pat` replaced.
pub fn replace(s: &str, pat: &str, with: &str) -> (r: String)
    requires
        pat@.len() > 0,
    ensures
        r@ == replaced(s@, pat@, with@),
{
    join(&split(s, pat), with)
}

/// The words of `s`, one blank apart.
pub open spec fn collapsed(s: Seq<char>) -> Seq<char> {
    joined(words_of(s), " "@)
}

/// The words of `s`, one blank apart.
pub fn normalize_whitespace(s: &str) -> (r: String)
    ensures
        r@ == collapsed(s@),
{
    join(&words(s), " ")
}

/// An ASCII capital as a small letter, any other character as it is.
pub open spec fn lower_char(c: char) -> char {
    if 'A' <= c <= 'Z' {
        (c as u32 + 32) as char
    } else {
        c
    }
}

/// `s` with small letters for its ASCII capitals.
pub open spec fn lowered(s: Seq<char>) -> Seq<char> {
    Seq::new(s.len(), |i: int| lower_char(s[i]))
}

/// `s` with small letters for its ASCII capitals.
pub fn to_ascii_lowercase(s: &str) -> (r: String)
    ensures
        r@ == lowered(s@),
{
    let mut out = String::new();
    for c in it: s.chars()
        invariant
            it.seq() == s@,
            out@ == lowered(s@).take(it.index() as int),
    {
        let d: char = if 'A' <= c && c <= 'Z' {
            ((c as u8) + 32) as char
        } else {
            c
        };
        out.push(d);
        assert(lowered(s@).take(it.index() + 1) =~= lowered(s@).take(it.index() as int).push(d));
    }
    assert(lowered(s@).take(s@.len() as int) =~= lowered(s@));
    out
}

/// The digit for a number below ten.
pub open spec fn digit(d: int) -> char {
    (48 + d) as char
}

/// The decimal digits of a number.
pub open spec fn decimal(n: int) -> Seq<char>
    decreases n,
{
    if n < 10 {
        seq![digit(n)]
    } else {
        decimal(n / 10).push(digit(n % 10))
    }
}

/// A number has a decimal digit at least, and nothing else.
pub proof fn lemma_decimal(n: int)
    requires
        0 <= n,
    ensures
        decimal(n).len() > 0,
        forall|k: int| 0 <= k < decimal(n).len() ==> is_digit(#[trigger] decimal(n)[k]),
    decreases n,
{
    if n >= 10 {
        lemma_decimal(n / 10);
    }
}

/// The decimal digits of a number, after a minus sign where it is negative.
pub open spec fn signed(n: int) -> Seq<char> {
    if n < 0 {
        seq!['-'] + decimal(-n)
    } else {
        decimal(n)
    }
}

/// The decimal digits of `n`.
pub fn show(n: u64) -> (r: String)
    ensures
        r@ == decimal(n as int),
    decreases n,
{
    let mut out = if n < 10 {
        String::new()
    } else {
        show(n / 10)
    };
    let d: u8 = 48 + (n % 10) as u8;
    out.push(d as char);
    assert(n < 10 ==> out@ =~= seq![digit(n as int)]);
    out
}

/// The decimal digits of `n`.
pub fn show_size(n: usize) -> (r: String)
    ensures
        r@ == decimal(n as int),
{
    show(n as u64)
}

/// The hexadecimal digit for a number below sixteen.
pub open spec fn hex_digit(d: int) -> char {
    if d < 10 {
        (48 + d) as char
    } else {
        (87 + d) as char
    }
}

/// The last `width` hexadecimal digits of a number.
pub open spec fn hex(n: int, width: nat) -> Seq<char>
    decreases width,
{
    if width == 0 {
        seq![]
    } else {
        hex(n / 16, (width - 1) as nat).push(hex_digit(n % 16))
    }
}

/// The last `width` hexadecimal digits of `n`.
pub fn show_hex(n: u32, width: u32) -> (r: String)
    ensures
        r@ == hex(n as int, width as nat),
    decreases width,
{
    if width == 0 {
        return String::new();
    }
    let mut out = show_hex(n / 16, width - 1);
    let d: u8 = (n % 16) as u8;
    let code: u8 = if d < 10 {
        48 + d
    } else {
        87 + d
    };
    out.push(code as char);
    out
}

/// `count` blanks.
pub open spec fn blanks(count: int) -> Seq<char> {
    Seq::new(
        if count > 0 {
            count as nat
        } else {
            0
        },
        |i: int| ' ',
    )
}

/// `s` with blanks behind it, `width` characters wide at least.
pub open spec fn padded(s: Seq<char>, width: int) -> Seq<char> {
    s + blanks(width - s.len())
}

/// `s` with blanks behind it, `width` characters wide at least.
pub fn pad_right(s: &str, width: usize) -> (r: String)
    ensures
        r@ == padded(s@, width as int),
{
    let mut out = s.to_owned();
    let mut n: usize = char_count(s);
    let ghost start = s@.len();
    while n < width
        invariant
            start == s@.len(),
            start <= n,
            n <= width || n == start,
            out@ == s@ + blanks(n - start),
        decreases width - n,
    {
        out.push(' ');
        n += 1;
        assert(blanks(n - start) =~= blanks(n - 1 - start).push(' '));
    }
    assert(blanks(n - start) =~= blanks(width - start));
    out
}

/// The number of characters of `s`.
pub fn char_count(s: &str) -> (r: usize)
    ensures
        r == s@.len(),
{
    chars_of(s).len()
}

/// The first `n` characters of `s`.
pub fn take_chars(s: &str, n: usize) -> (r: String)
    ensures
        r@ == (if n < s@.len() {
            s@.take(n as int)
        } else {
            s@
        }),
{
    let chars = chars_of(s);
    let end: usize = if n < chars.len() {
        n
    } else {
        chars.len()
    };
    assert(s@.subrange(0, s@.len() as int) =~= s@);
    string_of(&chars, 0, end)
}

/// The number of bytes of a character in UTF-8.
pub open spec fn utf8_width(c: char) -> nat {
    let n = c as u32;
    if n < 0x80 {
        1
    } else if n < 0x800 {
        2
    } else if n < 0x10000 {
        3
    } else {
        4
    }
}

/// The number of bytes of a text in UTF-8.
pub open spec fn byte_len(s: Seq<char>) -> nat
    decreases s.len(),
{
    if s.len() == 0 {
        0
    } else {
        byte_len(s.drop_last()) + utf8_width(s.last())
    }
}

/// The number of bytes of a character in UTF-8.
pub fn width_of(c: char) -> (r: u128)
    ensures
        r == utf8_width(c),
{
    let n: u32 = c as u32;
    if n < 0x80 {
        1
    } else if n < 0x800 {
        2
    } else if n < 0x10000 {
        3
    } else {
        4
    }
}

/// The number of bytes of `s` in UTF-8.
pub fn bytes_of(s: &str) -> (r: u128)
    ensures
        r == byte_len(s@),
        r <= 4 * s@.len(),
        s@.len() <= usize::MAX,
{
    let chars = chars_of(s);
    let mut total: u128 = 0;
    let mut i: usize = 0;
    while i < chars.len()
        invariant
            chars@ == s@,
            i <= chars@.len(),
            total == byte_len(s@.take(i as int)),
            total <= 4 * i,
        decreases chars@.len() - i,
    {
        assert(s@.take(i + 1).drop_last() =~= s@.take(i as int));
        total = total + width_of(chars[i]);
        i += 1;
    }
    assert(s@.take(i as int) =~= s@);
    total
}

/// Why a text is not a number.
#[derive(Debug, Clone, Copy, PartialEq, Eq, Structural)]
pub enum NumberError {
    Empty,
    InvalidDigit,
    TooLarge,
}

impl NumberError {
    /// What is wrong, in words.
    pub open spec fn text(self) -> Seq<char> {
        match self {
            NumberError::Empty => "cannot parse integer from empty string"@,
            NumberError::InvalidDigit => "invalid digit found in string"@,
            NumberError::TooLarge => "number too large to fit in target type"@,
        }
    }

    /// What is wrong, in words.
    pub fn message(&self) -> (r: String)
        ensures
            r@ == self.text(),
    {
        match self {
            NumberError::Empty => "cannot parse integer from empty string".to_owned(),
            NumberError::InvalidDigit => "invalid digit found in string".to_owned(),
            NumberError::TooLarge => "number too large to fit in target type".to_owned(),
        }
    }
}

/// Whether `c` is an ASCII digit.
pub open spec fn is_digit(c: char) -> bool {
    '0' <= c <= '9'
}

/// The predicate of the ASCII digits.
pub open spec fn digits() -> spec_fn(char) -> bool {
    |c: char| is_digit(c)
}

/// The number that a text of digits denotes.
pub open spec fn value_of(s: Seq<char>) -> nat
    decreases s.len(),
{
    if s.len() == 0 {
        0
    } else {
        value_of(s.drop_last()) * 10 + (s.last() as nat - '0' as nat) as nat
    }
}

/// The number that `s` denotes, as a decimal number up to `max` with or without
/// a plus sign before it.
pub open spec fn number_of(s: Seq<char>, max: nat) -> Result<nat, NumberError> {
    if s.len() == 0 {
        Err(NumberError::Empty)
    } else {
        let body = if s[0] == '+' {
            s.subrange(1, s.len() as int)
        } else {
            s
        };
        let end = skip_while(body, digits(), 0);
        let value = value_of(body.subrange(0, end));
        if value > max {
            Err(NumberError::TooLarge)
        } else if end < body.len() || body.len() == 0 {
            Err(NumberError::InvalidDigit)
        } else {
            Ok(value)
        }
    }
}

/// The value of the digits of `chars` from `from` to `to`, or `cap + 1` or more
/// where it is above `cap`.
fn digits_value(chars: &Vec<char>, from: usize, to: usize, cap: u64) -> (r: u128)
    requires
        from <= to <= chars@.len(),
        forall|k: int| from <= k < to ==> is_digit(#[trigger] chars@[k]),
    ensures
        r <= cap ==> r == value_of(chars@.subrange(from as int, to as int)),
        r > cap ==> value_of(chars@.subrange(from as int, to as int)) > cap,
{
    let mut value: u128 = 0;
    let mut i: usize = from;
    assert(chars@.subrange(from as int, from as int) =~= seq![]);
    while i < to
        invariant
            from <= i <= to <= chars@.len(),
            forall|k: int| from <= k < to ==> is_digit(#[trigger] chars@[k]),
            value <= cap ==> value == value_of(chars@.subrange(from as int, i as int)),
            value > cap ==> value_of(chars@.subrange(from as int, i as int)) > cap,
            value <= 0xffff_ffff_ffff_ffff * 10 + 9,
        decreases to - i,
    {
        let ghost now = chars@.subrange(from as int, i + 1);
        assert(now.drop_last() =~= chars@.subrange(from as int, i as int));
        let d: u128 = chars[i] as u128 - 48;
        if value <= cap as u128 {
            value = value * 10 + d;
        }
        i += 1;
    }
    value
}

fn skip_digits(chars: &Vec<char>, from: usize) -> (r: usize)
    requires
        from <= chars@.len(),
    ensures
        r == skip_while(chars@, digits(), from as int),
        from <= r <= chars@.len(),
        forall|k: int| from <= k < r ==> is_digit(#[trigger] chars@[k]),
{
    let mut i: usize = from;
    while i < chars.len() && '0' <= chars[i] && chars[i] <= '9'
        invariant
            from <= i <= chars@.len(),
            skip_while(chars@, digits(), from as int) == skip_while(chars@, digits(), i as int),
            forall|k: int| from <= k < i ==> is_digit(#[trigger] chars@[k]),
        decreases chars@.len() - i,
    {
        i += 1;
    }
    i
}

/// The number up to `max` that `s` denotes.
pub fn parse_number(s: &str, max: u64) -> (r: Result<u64, NumberError>)
    ensures
        match r {
            Ok(n) => number_of(s@, max as nat) == Ok::<nat, NumberError>(n as nat),
            Err(e) => number_of(s@, max as nat) == Err::<nat, NumberError>(e),
        },
{
    let all = chars_of(s);
    if all.len() == 0 {
        return Err(NumberError::Empty);
    }
    let body = if all[0] == '+' {
        let rest = string_of(&all, 1, all.len());
        chars_of(rest.as_str())
    } else {
        all
    };
    let end = skip_digits(&body, 0);
    let value = digits_value(&body, 0, end, max);
    if value > max as u128 {
        Err(NumberError::TooLarge)
    } else if end < body.len() || body.len() == 0 {
        Err(NumberError::InvalidDigit)
    } else {
        Ok(value as u64)
    }
}

/// Whether `a` comes before `b` by the characters from index `i` on.
pub open spec fn less_from(a: Seq<char>, b: Seq<char>, i: int) -> bool
    decreases b.len() - i,
{
    if i < 0 || i >= b.len() {
        false
    } else if i >= a.len() {
        true
    } else if a[i] != b[i] {
        a[i] < b[i]
    } else {
        less_from(a, b, i + 1)
    }
}

/// Whether the text `a` comes before the text `b`: by their first characters that
/// differ, or as the shorter one.
pub open spec fn less(a: Seq<char>, b: Seq<char>) -> bool {
    less_from(a, b, 0)
}

/// Whether the text `a` comes before the text `b`.
pub fn comes_before(a: &str, b: &str) -> (r: bool)
    ensures
        r == less(a@, b@),
{
    let left = chars_of(a);
    let right = chars_of(b);
    let mut i: usize = 0;
    while i < left.len() && i < right.len() && left[i] == right[i]
        invariant
            left@ == a@,
            right@ == b@,
            i <= left@.len(),
            i <= right@.len(),
            less(a@, b@) == less_from(a@, b@, i as int),
        decreases left@.len() - i,
    {
        i += 1;
    }
    if i >= right.len() {
        false
    } else if i >= left.len() {
        true
    } else {
        left[i] < right[i]
    }
}

proof fn lemma_less_from_total(a: Seq<char>, b: Seq<char>, i: int)
    requires
        0 <= i <= a.len(),
        i <= b.len(),
        forall|k: int| 0 <= k < i ==> a[k] == b[k],
    ensures
        less_from(a, b, i) || less_from(b, a, i) || a == b,
        !(less_from(a, b, i) && less_from(b, a, i)),
    decreases a.len() - i,
{
    if i < a.len() && i < b.len() && a[i] == b[i] {
        lemma_less_from_total(a, b, i + 1);
    } else if i == a.len() && i == b.len() {
        assert(a =~= b);
    }
}

proof fn lemma_less_from_transitive(a: Seq<char>, b: Seq<char>, c: Seq<char>, i: int)
    requires
        0 <= i,
        less_from(a, b, i),
        less_from(b, c, i),
    ensures
        less_from(a, c, i),
    decreases c.len() - i,
{
    if i < a.len() && i < b.len() && i < c.len() && a[i] == b[i] && b[i] == c[i] {
        lemma_less_from_transitive(a, b, c, i + 1);
    }
}

/// Texts are totally ordered: of two different texts exactly one comes before the
/// other, and none comes before itself.
pub proof fn lemma_less_total(a: Seq<char>, b: Seq<char>)
    ensures
        less(a, b) || less(b, a) || a == b,
        !(less(a, b) && less(b, a)),
        !less(a, a),
{
    lemma_less_from_total(a, b, 0);
    lemma_less_from_total(a, a, 0);
}

/// What comes before a text that comes before a third one comes before this too.
pub proof fn lemma_less_transitive(a: Seq<char>, b: Seq<char>, c: Seq<char>)
    requires
        less(a, b),
        less(b, c),
    ensures
        less(a, c),
{
    lemma_less_from_transitive(a, b, c, 0);
}

/// The number that `s` denotes, as a decimal number with or without a sign before
/// it that fits in 64 bits.
pub open spec fn signed_number(s: Seq<char>) -> Option<int> {
    if s.len() > 0 && s[0] == '-' {
        let body = s.subrange(1, s.len() as int);
        if body.len() > 0 && body[0] == '+' {
            None
        } else {
            match number_of(body, 0x8000_0000_0000_0000) {
                Ok(n) => Some(-(n as int)),
                Err(_) => None,
            }
        }
    } else {
        match number_of(s, 0x7fff_ffff_ffff_ffff) {
            Ok(n) => Some(n as int),
            Err(_) => None,
        }
    }
}

/// The number that `s` denotes.
pub fn parse_signed(s: &str) -> (r: Option<i64>)
    ensures
        match r {
            Some(n) => signed_number(s@) == Some(n as int),
            None => signed_number(s@) is None,
        },
{
    let chars = chars_of(s);
    if chars.len() > 0 && chars[0] == '-' {
        if chars.len() > 1 && chars[1] == '+' {
            return None;
        }
        let body = string_of(&chars, 1, chars.len());
        match parse_number(body.as_str(), 0x8000_0000_0000_0000) {
            Ok(n) => {
                proof {
                    lemma_number_bound(body@, 0x8000_0000_0000_0000);
                }
                let value: i128 = -(n as i128);
                Some(value as i64)
            },
            Err(_) => None,
        }
    } else {
        match parse_number(s, 0x7fff_ffff_ffff_ffff) {
            Ok(n) => {
                proof {
                    lemma_number_bound(s@, 0x7fff_ffff_ffff_ffff);
                }
                Some(n as i64)
            },
            Err(_) => None,
        }
    }
}

proof fn lemma_number_bound(s: Seq<char>, max: nat)
    ensures
        number_of(s, max) matches Ok(n) ==> n <= max,
{
}

/// A text is cut at the first of the given characters: what stands before it does not hold
/// it. A text without it is not cut.
pub proof fn law_cut_at_the_first(before: Seq<char>, after: Seq<char>, x: char)
    requires
        !before.contains(x),
    ensures
        cut(before + seq![x] + after, x) == Some((before, after)),
        cut(before, x) is None,
{
    let s = before + seq![x] + after;
    lemma_skip_while(s, but(x), 0);
    lemma_skip_while(before, but(x), 0);
    let k = index_of(s, x, 0);
    if k < before.len() {
        assert(before[k] == x);
        assert(before.contains(before[k]));
    } else if k > before.len() {
        assert(but(x)(s[before.len() as int]));
    }
    assert(s.subrange(0, k) =~= before);
    assert(s.subrange(k + 1, s.len() as int) =~= after);
    let n = index_of(before, x, 0);
    if n < before.len() {
        assert(before[n] == x);
        assert(before.contains(before[n]));
    }
}

/// What white space is: blanks, tabs, line feeds and the like, also outside ASCII.
pub proof fn law_what_white_space_is(c: char)
    ensures
        c == ' ' || c == '\t' || c == '\n' || c == '\r' || c == '\u{b}' || c == '\u{c}' ==> is_white(
            c,
        ),
        c == '\u{85}' || c == '\u{a0}' || c == '\u{1680}' || '\u{2000}' <= c <= '\u{200a}' || c
            == '\u{2028}' || c == '\u{2029}' || c == '\u{202f}' || c == '\u{205f}' || c == '\u{3000}'
            ==> is_white(c),
        '!' <= c <= '~' || c < '\t' || '\u{d}' < c < ' ' || c > '\u{3000}' || '\u{a0}' < c < '\u{1680}'
            || '\u{1680}' < c < '\u{2000}' || '\u{200a}' < c < '\u{2028}' || '\u{2029}' < c < '\u{202f}'
            || '\u{202f}' < c < '\u{205f}' || '\u{205f}' < c < '\u{3000}' ==> !is_white(c),
{
}

/// Trimming takes off the white space at either end, and nothing else.
pub proof fn law_trimming(before: Seq<char>, text: Seq<char>, after: Seq<char>)
    requires
        forall|i: int| 0 <= i < before.len() ==> is_white(#[trigger] before[i]),
        forall|i: int| 0 <= i < after.len() ==> is_white(#[trigger] after[i]),
        text.len() > 0 ==> !is_white(text[0]) && !is_white(text.last()),
    ensures
        trimmed(before + text + after) == text,
{
    let s = before + text + after;
    lemma_skip_while(s, white(), 0);
    let a = skip_while(s, white(), 0);
    let front = drop_front(s, white());
    lemma_back_while(front, white(), front.len() as int);
    let b = back_while(front, white(), front.len() as int);
    if text.len() > 0 {
        assert(s[before.len() as int] == text[0]);
        if a < before.len() {
            assert(is_white(before[a]));
        } else if a > before.len() {
            assert(white()(s[before.len() as int]));
        }
        assert(front =~= text + after);
        if b > text.len() {
            assert(is_white(after[b - 1 - text.len()]));
        } else if b < text.len() {
            assert(white()(front[text.len() - 1]));
        }
        assert(trimmed(s) =~= text);
    } else {
        if a < s.len() {
            if a < before.len() {
                assert(is_white(before[a]));
            } else {
                assert(is_white(after[a - before.len()]));
            }
        }
        assert(trimmed(s) =~= text);
    }
}

/// What is skipped depends only on what follows.
pub proof fn lemma_skip_from(s: Seq<char>, t: Seq<char>, p: spec_fn(char) -> bool, i: int, k: int)
    requires
        0 <= i <= s.len(),
        0 <= k,
        s.skip(i) == t.skip(k),
        k <= t.len(),
    ensures
        skip_while(s, p, i) - i == skip_while(t, p, k) - k,
    decreases s.len() - i,
{
    assert(s.skip(i).len() == s.len() - i);
    assert(t.skip(k).len() == t.len() - k);
    if i < s.len() {
        assert(s[i] == s.skip(i)[0]);
        assert(t[k] == t.skip(k)[0]);
        if p(s[i]) {
            assert(s.skip(i + 1) =~= s.skip(i).skip(1));
            assert(t.skip(k + 1) =~= t.skip(k).skip(1));
            lemma_skip_from(s, t, p, i + 1, k + 1);
        }
    }
}

proof fn lemma_words_from(s: Seq<char>, t: Seq<char>, i: int, k: int)
    requires
        0 <= i <= s.len(),
        0 <= k <= t.len(),
        s.skip(i) == t.skip(k),
    ensures
        words_from(s, i) == words_from(t, k),
    decreases s.len() - i,
{
    assert(s.skip(i).len() == s.len() - i);
    assert(t.skip(k).len() == t.len() - k);
    let d = i - k;
    lemma_skip_while(s, white(), i);
    lemma_skip_from(s, t, white(), i, k);
    let a = skip_while(s, white(), i);
    if a < s.len() {
        assert(s.skip(a) =~= s.skip(i).skip(a - i));
        assert(t.skip(a - d) =~= t.skip(k).skip(a - i));
        lemma_skip_from(s, t, black(), a, a - d);
        lemma_skip_while(s, black(), a);
        lemma_skip_while(s, black(), a + 1);
        let b = skip_while(s, black(), a);
        assert(s.subrange(a, b) =~= s.skip(a).take(b - a));
        assert(t.subrange(a - d, b - d) =~= t.skip(a - d).take(b - a));
        assert(s.skip(b) =~= s.skip(i).skip(b - i));
        assert(t.skip(b - d) =~= t.skip(k).skip(b - i));
        lemma_words_from(s, t, b, b - d);
    }
}

proof fn lemma_skip_stops(s: Seq<char>, p: spec_fn(char) -> bool, i: int, k: int)
    requires
        0 <= i <= k <= s.len(),
        forall|j: int| i <= j < k ==> p(s[j]),
        k < s.len() ==> !p(s[k]),
    ensures
        skip_while(s, p, i) == k,
{
    lemma_skip_while(s, p, i);
    let n = skip_while(s, p, i);
    if n < k {
        assert(p(s[n]));
    } else if n > k {
        assert(p(s[k]));
    }
}

proof fn lemma_words_of_two(a: Seq<char>, w: char, b: Seq<char>, i: int)
    requires
        is_white(w),
        0 <= i <= a.len(),
    ensures
        words_from(a + seq![w] + b, i) == words_from(a, i) + words_of(b),
    decreases a.len() - i,
{
    let s = a + seq![w] + b;
    lemma_skip_while(a, white(), i);
    let x = skip_while(a, white(), i);
    assert(forall|j: int| 0 <= j < a.len() ==> s[j] == a[j]);
    assert(s[a.len() as int] == w);
    if x < a.len() {
        assert forall|j: int| i <= j < x implies white()(s[j]) by {
            assert(white()(a[j]));
        }
        lemma_skip_stops(s, white(), i, x);
        lemma_skip_while(a, black(), x);
        lemma_skip_while(a, black(), x + 1);
        let y = skip_while(a, black(), x);
        assert forall|j: int| x <= j < y implies black()(s[j]) by {
            assert(black()(a[j]));
        }
        lemma_skip_stops(s, black(), x, y);
        lemma_words_of_two(a, w, b, y);
        assert(s.subrange(x, y) =~= a.subrange(x, y));
        assert(words_from(s, i) =~= words_from(a, i) + words_of(b));
    } else {
        let next = a.len() + 1;
        assert forall|j: int| i <= j < next implies white()(s[j]) by {
            if j < a.len() {
                assert(white()(a[j]));
            }
        }
        lemma_skip_while(s, white(), next as int);
        let z = skip_while(s, white(), next as int);
        lemma_skip_stops(s, white(), i, z);
        assert(words_from(s, i) == words_from(s, next as int));
        assert(s.skip(next as int) =~= b.skip(0));
        lemma_words_from(s, b, next as int, 0);
        assert(words_from(a, i) =~= seq![]);
        assert(words_from(s, i) =~= words_from(a, i) + words_of(b));
    }
}

/// White space separates words, and nothing else does: the words of two texts with white
/// space between them are those of the first and those of the second, and a text without
/// white space is one word.
pub proof fn law_white_space_separates_words(a: Seq<char>, w: char, b: Seq<char>)
    requires
        is_white(w),
    ensures
        words_of(a + seq![w] + b) == words_of(a) + words_of(b),
        words_of(seq![]) == Seq::<Seq<char>>::empty(),
        a.len() > 0 && (forall|i: int| 0 <= i < a.len() ==> !is_white(#[trigger] a[i])) ==> words_of(
            a,
        ) == seq![a],
{
    lemma_words_of_two(a, w, b, 0);
    if a.len() > 0 && (forall|i: int| 0 <= i < a.len() ==> !is_white(#[trigger] a[i])) {
        assert(!is_white(a[0]));
        lemma_skip_stops(a, white(), 0, 0);
        assert forall|j: int| 0 <= j < a.len() implies black()(a[j]) by {
            assert(!is_white(a[j]));
        }
        lemma_skip_stops(a, black(), 0, a.len() as int);
        assert(a.subrange(0, a.len() as int) =~= a);
        lemma_skip_stops(a, white(), a.len() as int, a.len() as int);
        assert(words_from(a, a.len() as int) =~= seq![]);
        assert(words_of(a) =~= seq![a]);
    }
}

/// Texts are joined with the separator between each two neighbours, and nowhere else.
pub proof fn law_joining(parts: Seq<Seq<char>>, part: Seq<char>, sep: Seq<char>)
    ensures
        joined(seq![], sep) == Seq::<char>::empty(),
        joined(seq![part], sep) == part,
        parts.len() > 0 ==> joined(parts.push(part), sep) == joined(parts, sep) + sep + part,
{
    assert(parts.push(part).drop_last() =~= parts);
}

proof fn lemma_lines_from(s: Seq<char>, t: Seq<char>, i: int, k: int)
    requires
        0 <= i <= s.len(),
        0 <= k <= t.len(),
        s.skip(i) == t.skip(k),
    ensures
        lines_from(s, i) == lines_from(t, k),
    decreases s.len() - i,
{
    assert(s.skip(i).len() == s.len() - i);
    assert(t.skip(k).len() == t.len() - k);
    let d = i - k;
    if i < s.len() {
        lemma_skip_while(s, but('\n'), i);
        lemma_skip_from(s, t, but('\n'), i, k);
        let n = index_of(s, '\n', i);
        assert(s.subrange(i, n) =~= s.skip(i).take(n - i));
        assert(t.subrange(k, n - d) =~= t.skip(k).take(n - i));
        if n < s.len() {
            assert(s.skip(n + 1) =~= s.skip(i).skip(n + 1 - i));
            assert(t.skip(n + 1 - d) =~= t.skip(k).skip(n + 1 - i));
            lemma_lines_from(s, t, n + 1, n + 1 - d);
        }
    }
}

/// A line feed ends a line, with the carriage return before it if there is one; what stands
/// behind the last line feed is a line too, unless it is empty.
pub proof fn law_line_feeds_end_lines(line: Seq<char>, rest: Seq<char>)
    requires
        !line.contains('\n'),
    ensures
        lines_of(seq![]) == Seq::<Seq<char>>::empty(),
        line.len() > 0 ==> lines_of(line) == seq![line],
        lines_of(line + seq!['\n'] + rest) == seq![
            if line.len() > 0 && line.last() == '\r' {
                line.take(line.len() - 1)
            } else {
                line
            },
        ] + lines_of(rest),
{
    assert forall|i: int| 0 <= i < line.len() implies line[i] != '\n' by {
        assert(line.contains(line[i]));
    }
    let s = line + seq!['\n'] + rest;
    let n = line.len() as int;
    lemma_skip_stops(line, but('\n'), 0, n);
    assert(line.subrange(0, n) =~= line);
    assert forall|i: int| 0 <= i < n implies but('\n')(s[i]) by {
        assert(s[i] == line[i]);
    }
    lemma_skip_stops(s, but('\n'), 0, n);
    assert(s.subrange(0, n) =~= line);
    assert(s.skip(n + 1) =~= rest.skip(0));
    lemma_lines_from(s, rest, n + 1, 0);
    if line.len() > 0 {
        assert(line.drop_last() =~= line.take(n - 1));
    }
}

proof fn lemma_find_shift(s: Seq<char>, t: Seq<char>, pat: Seq<char>, i: int, k: int)
    requires
        0 <= i <= s.len(),
        0 <= k <= t.len(),
        s.skip(i) == t.skip(k),
    ensures
        match find_from(s, pat, i) {
            Some(n) => find_from(t, pat, k) == Some(n - i + k),
            None => find_from(t, pat, k) is None,
        },
    decreases s.len() - i,
{
    assert(s.skip(i).len() == s.len() - i);
    assert(t.skip(k).len() == t.len() - k);
    if i + pat.len() <= s.len() {
        assert(s.subrange(i, i + pat.len()) =~= s.skip(i).take(pat.len() as int));
        assert(t.subrange(k, k + pat.len()) =~= t.skip(k).take(pat.len() as int));
        if !matches_at(s, pat, i) {
            if i < s.len() {
                assert(s.skip(i + 1) =~= s.skip(i).skip(1));
                assert(t.skip(k + 1) =~= t.skip(k).skip(1));
                lemma_find_shift(s, t, pat, i + 1, k + 1);
            } else {
                assert(s.subrange(i, i + pat.len()) =~= pat);
            }
        }
    }
}

proof fn lemma_split_from(s: Seq<char>, t: Seq<char>, sep: Seq<char>, i: int, k: int)
    requires
        sep.len() > 0,
        0 <= i <= s.len(),
        0 <= k <= t.len(),
        s.skip(i) == t.skip(k),
    ensures
        split_from(s, sep, i) == split_from(t, sep, k),
    decreases s.len() - i,
{
    assert(s.skip(i).len() == s.len() - i);
    assert(t.skip(k).len() == t.len() - k);
    let d = i - k;
    lemma_find_shift(s, t, sep, i, k);
    lemma_find_from(s, sep, i);
    match find_from(s, sep, i) {
        Some(n) => {
            let next = n + sep.len();
            assert(s.subrange(i, n) =~= s.skip(i).take(n - i));
            assert(t.subrange(k, n - d) =~= t.skip(k).take(n - i));
            assert(s.skip(next) =~= s.skip(i).skip(next - i));
            assert(t.skip(next - d) =~= t.skip(k).skip(next - i));
            lemma_split_from(s, t, sep, next, next - d);
        },
        None => {
            assert(s.subrange(i, s.len() as int) =~= s.skip(i));
            assert(t.subrange(k, t.len() as int) =~= t.skip(k));
        },
    }
}

/// A text is split at the first separator in it, and what stands behind that is split on; a
/// text without separator is one piece.
pub proof fn law_splitting(piece: Seq<char>, rest: Seq<char>, sep: Seq<char>)
    requires
        sep.len() > 0,
    ensures
        (forall|i: int| 0 <= i < piece.len() ==> !matches_at(piece + sep + rest, sep, i))
            ==> split_of(piece + sep + rest, sep) == seq![piece] + split_of(rest, sep),
        (forall|i: int| !matches_at(piece, sep, i)) ==> split_of(piece, sep) == seq![piece],
{
    let s = piece + sep + rest;
    let n = piece.len() as int;
    if forall|i: int| 0 <= i < piece.len() ==> !matches_at(s, sep, i) {
        assert(s.subrange(n, n + sep.len()) =~= sep);
        assert(matches_at(s, sep, n));
        lemma_find_from(s, sep, 0);
        let k = find_from(s, sep, 0)->0;
        assert(k == n);
        assert(s.subrange(0, n) =~= piece);
        assert(s.skip(n + sep.len()) =~= rest.skip(0));
        lemma_split_from(s, rest, sep, n + sep.len(), 0);
    }
    if forall|i: int| !matches_at(piece, sep, i) {
        lemma_find_from(piece, sep, 0);
        assert(piece.subrange(0, piece.len() as int) =~= piece);
    }
}

proof fn lemma_joined_front(first: Seq<char>, parts: Seq<Seq<char>>, sep: Seq<char>)
    requires
        parts.len() > 0,
    ensures
        joined(seq![first] + parts, sep) == first + sep + joined(parts, sep),
    decreases parts.len(),
{
    let all = seq![first] + parts;
    reveal_with_fuel(joined, 3);
    assert(all.last() == parts.last());
    if parts.len() == 1 {
        assert(all.drop_last() =~= seq![first]);
    } else {
        lemma_joined_front(first, parts.drop_last(), sep);
        assert(all.drop_last() =~= seq![first] + parts.drop_last());
        assert(first + sep + joined(parts.drop_last(), sep) + sep + parts.last() =~= first + sep + (
        joined(parts.drop_last(), sep) + sep + parts.last()));
    }
}

/// Every occurrence of a text is replaced, from the first on, and nothing else changes.
pub proof fn law_replacing(piece: Seq<char>, rest: Seq<char>, pat: Seq<char>, with: Seq<char>)
    requires
        pat.len() > 0,
    ensures
        (forall|i: int| 0 <= i < piece.len() ==> !matches_at(piece + pat + rest, pat, i))
            ==> replaced(piece + pat + rest, pat, with) == piece + with + replaced(rest, pat, with),
        (forall|i: int| !matches_at(piece, pat, i)) ==> replaced(piece, pat, with) == piece,
{
    law_splitting(piece, rest, pat);
    lemma_split_is_not_empty(rest, pat);
    lemma_joined_front(piece, split_of(rest, pat), with);
}

proof fn lemma_split_is_not_empty(s: Seq<char>, sep: Seq<char>)
    requires
        sep.len() > 0,
    ensures
        split_of(s, sep).len() > 0,
{
}

/// Small letters stand for the capitals from `A` to `Z`, in the same order; other characters
/// stay as they are.
pub proof fn law_small_letters(s: Seq<char>, i: int)
    requires
        0 <= i < s.len(),
    ensures
        lowered(s).len() == s.len(),
        'A' <= s[i] <= 'Z' ==> lowered(s)[i] as int - 'a' as int == s[i] as int - 'A' as int,
        !('A' <= s[i] <= 'Z') ==> lowered(s)[i] == s[i],
{
}

/// A number is read from its decimal digits as it was written.
pub proof fn lemma_decimal_value(n: int)
    requires
        0 <= n,
    ensures
        value_of(decimal(n)) == n,
    decreases n,
{
    reveal_with_fuel(value_of, 2);
    if n < 10 {
        assert(decimal(n).drop_last() =~= seq![]);
    } else {
        lemma_decimal_value(n / 10);
        assert(decimal(n).drop_last() =~= decimal(n / 10));
    }
}

proof fn lemma_skip_all_digits(s: Seq<char>, k: int)
    requires
        0 <= k <= s.len(),
        forall|i: int| 0 <= i < k ==> is_digit(#[trigger] s[i]),
        k < s.len() ==> !is_digit(s[k]),
    ensures
        skip_while(s, digits(), 0) == k,
{
    assert forall|j: int| 0 <= j < k implies digits()(s[j]) by {
        assert(is_digit(s[j]));
    }
    lemma_skip_stops(s, digits(), 0, k);
}

/// What is written of a number is read as that number, with or without a plus sign before it;
/// numbers above the limit are too large.
pub proof fn law_numbers_are_read_as_written(n: int, max: nat)
    requires
        0 <= n,
    ensures
        n <= max ==> number_of(decimal(n), max) == Ok::<nat, NumberError>(n as nat),
        n <= max ==> number_of(seq!['+'] + decimal(n), max) == Ok::<nat, NumberError>(n as nat),
        n > max ==> number_of(decimal(n), max) == Err::<nat, NumberError>(NumberError::TooLarge),
{
    let s = decimal(n);
    lemma_decimal(n);
    lemma_decimal_value(n);
    assert(is_digit(s[0]));
    lemma_skip_all_digits(s, s.len() as int);
    assert(s.subrange(0, s.len() as int) =~= s);
    let t = seq!['+'] + s;
    assert(t.subrange(1, t.len() as int) =~= s);
}

/// What does not begin with a digit or a plus sign is no number, and neither is nothing.
pub proof fn law_what_is_no_number(s: Seq<char>, max: nat)
    ensures
        s.len() == 0 ==> number_of(s, max) == Err::<nat, NumberError>(NumberError::Empty),
        s.len() > 0 && !is_digit(s[0]) && s[0] != '+' ==> number_of(s, max) == Err::<
            nat,
            NumberError,
        >(NumberError::InvalidDigit),
        number_of(s, max) matches Ok(n) ==> n <= max && forall|i: int|
            0 < i < s.len() ==> is_digit(#[trigger] s[i]),
{
    if s.len() > 0 && !is_digit(s[0]) && s[0] != '+' {
        lemma_skip_all_digits(s, 0);
        assert(s.subrange(0, 0) =~= seq![]);
    }
    if number_of(s, max) is Ok {
        let body = if s[0] == '+' {
            s.subrange(1, s.len() as int)
        } else {
            s
        };
        lemma_skip_while(body, digits(), 0);
        assert forall|i: int| 0 < i < s.len() implies is_digit(#[trigger] s[i]) by {
            let k = if s[0] == '+' {
                i - 1
            } else {
                i
            };
            assert(digits()(body[k]));
            assert(body[k] == s[i]);
        }
    }
}

/// Signed numbers are read as they are written, down to the least and up to the greatest of
/// 64 bits.
pub proof fn law_signed_numbers_are_read_as_written(n: int)
    requires
        -0x8000_0000_0000_0000 <= n <= 0x7fff_ffff_ffff_ffff,
    ensures
        signed_number(signed(n)) == Some(n),
{
    if n < 0 {
        law_numbers_are_read_as_written(-n, 0x8000_0000_0000_0000);
        lemma_decimal(-n);
        let s = signed(n);
        assert(s.subrange(1, s.len() as int) =~= decimal(-n));
        assert(is_digit(decimal(-n)[0]));
    } else {
        law_numbers_are_read_as_written(n, 0x7fff_ffff_ffff_ffff);
        lemma_decimal(n);
        assert(is_digit(decimal(n)[0]));
    }
}

/// A text is padded with blanks behind it up to the width, and never cut.
pub proof fn law_padding(s: Seq<char>, width: int)
    ensures
        padded(s, width).take(s.len() as int) == s,
        s.len() >= width ==> padded(s, width) == s,
        s.len() <= width ==> padded(s, width).len() == width,
        forall|i: int| s.len() <= i < padded(s, width).len() ==> #[trigger] padded(s, width)[i]
            == ' ',
{
    assert(padded(s, width).take(s.len() as int) =~= s);
    if s.len() >= width {
        assert(padded(s, width) =~= s);
    }
}

/// The bytes of a text are those of its characters together: one for ASCII, two up to U+07FF,
/// three up to U+FFFF, and four above.
pub proof fn law_the_bytes_of_a_text(s: Seq<char>, c: char)
    ensures
        byte_len(seq![]) == 0,
        byte_len(s.push(c)) == byte_len(s) + (if c <= '\u{7f}' {
            1nat
        } else if c <= '\u{7ff}' {
            2
        } else if c <= '\u{ffff}' {
            3
        } else {
            4
        }),
{
    assert(s.push(c).drop_last() =~= s);
}

proof fn lemma_less_at(a: Seq<char>, b: Seq<char>, i: int, k: int)
    requires
        0 <= i <= k <= a.len(),
        k < b.len(),
        forall|j: int| i <= j < k ==> a[j] == b[j],
    ensures
        k == a.len() ==> less_from(a, b, i),
        k < a.len() && a[k] != b[k] ==> (less_from(a, b, i) <==> a[k] < b[k]),
    decreases k - i,
{
    if i < k {
        assert(a[i] == b[i]);
        lemma_less_at(a, b, i + 1, k);
    }
}

/// Of two texts that are the same up to some character the one with the lesser character
/// there comes first, or the one that ends there.
pub proof fn law_the_order_of_texts(common: Seq<char>, x: char, a: Seq<char>, y: char, b: Seq<char>)
    ensures
        x != y ==> (less(common + seq![x] + a, common + seq![y] + b) <==> x < y),
        less(common, common + seq![y] + b),
        !less(common, common),
{
    let k = common.len() as int;
    lemma_less_at(common + seq![x] + a, common + seq![y] + b, 0, k);
    lemma_less_at(common, common + seq![y] + b, 0, k);
    lemma_less_total(common, common);
}

/// A text occurs in another exactly where this is made of something, that text, and something.
pub proof fn law_what_occurs(before: Seq<char>, pat: Seq<char>, after: Seq<char>)
    ensures
        occurs(before + pat + after, pat),
        begins(pat + after, pat),
        ends(before + pat, pat),
        after_prefix(pat + after, pat) == Some(after),
        !begins(before, pat) ==> after_prefix(before, pat) is None,
{
    let s = before + pat + after;
    assert(s.subrange(before.len() as int, before.len() as int + pat.len()) =~= pat);
    assert(matches_at(s, pat, before.len() as int));
    assert((pat + after).subrange(0, pat.len() as int) =~= pat);
    assert((pat + after).subrange(pat.len() as int, (pat + after).len() as int) =~= after);
    assert((before + pat).subrange(before.len() as int, before.len() as int + pat.len()) =~= pat);
}

/// What occurs in a text stands in it somewhere, character for character.
pub proof fn law_where_it_occurs(s: Seq<char>, pat: Seq<char>)
    ensures
        occurs(s, pat) ==> exists|i: int|
            0 <= i <= s.len() - pat.len() && #[trigger] s.subrange(i, i + pat.len()) == pat,
        begins(s, pat) ==> pat.len() <= s.len() && s.take(pat.len() as int) == pat,
        ends(s, pat) ==> pat.len() <= s.len() && s.skip(s.len() - pat.len()) == pat,
{
    if occurs(s, pat) {
        let i = choose|i: int| matches_at(s, pat, i);
        assert(s.subrange(i, i + pat.len()) == pat);
    }
    if begins(s, pat) {
        assert(s.take(pat.len() as int) =~= s.subrange(0, pat.len() as int));
    }
    if ends(s, pat) {
        assert(s.skip(s.len() - pat.len()) =~= s.subrange(s.len() - pat.len(), s.len() as int));
    }
}

/// The last hexadecimal digits of a number are those of its value modulo a power of sixteen.
pub proof fn law_hexadecimal_digits(n: int, width: nat)
    requires
        0 <= n,
    ensures
        hex(n, width).len() == width,
        width > 0 ==> hex(n, width).last() == seq![
            '0',
            '1',
            '2',
            '3',
            '4',
            '5',
            '6',
            '7',
            '8',
            '9',
            'a',
            'b',
            'c',
            'd',
            'e',
            'f',
        ][n % 16],
        width > 0 ==> hex(n, width).drop_last() == hex(n / 16, (width - 1) as nat),
    decreases width,
{
    if width > 0 {
        law_hexadecimal_digits(n / 16, (width - 1) as nat);
        assert(hex(n, width).drop_last() =~= hex(n / 16, (width - 1) as nat));
    }
}

/// A list of strings is seen as their texts, in their order.
pub proof fn law_what_a_list_of_strings_holds(v: Seq<String>, w: Seq<&str>)
    ensures
        texts(v).len() == v.len(),
        forall|i: int| 0 <= i < v.len() ==> #[trigger] texts(v)[i] == v[i]@,
        slices(w).len() == w.len(),
        forall|i: int| 0 <= i < w.len() ==> #[trigger] slices(w)[i] == w[i]@,
{
}

/// The characters at either end of a text for which something holds are dropped, and no
/// others.
pub proof fn law_dropping_one_character(before: Seq<char>, text: Seq<char>, after: Seq<char>, x: char)
    requires
        forall|i: int| 0 <= i < before.len() ==> #[trigger] before[i] == x,
        forall|i: int| 0 <= i < after.len() ==> #[trigger] after[i] == x,
        text.len() > 0,
        text[0] != x,
        text.last() != x,
    ensures
        drop_front(before + text, only(x)) == text,
        drop_back(text + after, only(x)) == text,
{
    let s = before + text;
    assert forall|j: int| 0 <= j < before.len() implies only(x)(s[j]) by {
        assert(before[j] == x);
    }
    assert(s[before.len() as int] == text[0]);
    lemma_skip_stops(s, only(x), 0, before.len() as int);
    assert(drop_front(s, only(x)) =~= text);
    let t = text + after;
    lemma_back_while(t, only(x), t.len() as int);
    let k = back_while(t, only(x), t.len() as int);
    if k > text.len() {
        assert(t[k - 1] == after[k - 1 - text.len()]);
    } else if k < text.len() {
        assert(only(x)(t[text.len() - 1]));
    }
    assert(drop_back(t, only(x)) =~= text);
}

} // verus!
