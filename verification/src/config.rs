//! The configuration: its defaults, what a configuration file changes of them, and
//! how single values are set.

use vstd::prelude::*;

use crate::cache::{in_dir, path_in};
use crate::duration::Duration;
use crate::error::{AppError, AppResult, ErrorView};
use crate::text::{char_count, same, slices, texts, trim, trimmed};
use crate::urlrewrite::{rules_of, Rule, RuleView};
use crate::web::maybe;

pub use crate::duration::parse_duration;

verus! {

/// A web search service.
#[derive(Debug, Clone, Copy, PartialEq, Eq, Structural)]
pub enum SearchBackend {
    Brave,
    Ddg,
    Searxng,
    Exa,
}

/// A code search service.
#[derive(Debug, Clone, Copy, PartialEq, Eq, Structural)]
pub enum CodeBackend {
    Grepapp,
    Sourcegraph,
    Github,
}

/// A documentation search service.
#[derive(Debug, Clone, Copy, PartialEq, Eq, Structural)]
pub enum DocsBackend {
    Context7,
    Local,
}

/// What is said of a value that is not one of `names`.
pub open spec fn invalid_value(value: Seq<char>, names: Seq<char>) -> Seq<char> {
    "invalid value '"@ + value + "' (possible values: "@ + names + ")"@
}

fn invalid(value: &str, names: &str) -> (r: String)
    ensures
        r@ == invalid_value(value@, names@),
{
    let mut message = "invalid value '".to_owned();
    message.append(value);
    message.append("' (possible values: ");
    message.append(names);
    message.append(")");
    message
}

impl SearchBackend {
    /// The name of the service.
    pub open spec fn name(self) -> Seq<char> {
        match self {
            SearchBackend::Brave => "brave"@,
            SearchBackend::Ddg => "ddg"@,
            SearchBackend::Searxng => "searxng"@,
            SearchBackend::Exa => "exa"@,
        }
    }

    /// The name of the service.
    pub fn as_str(&self) -> (r: &'static str)
        ensures
            r@ == self.name(),
    {
        match self {
            SearchBackend::Brave => "brave",
            SearchBackend::Ddg => "ddg",
            SearchBackend::Searxng => "searxng",
            SearchBackend::Exa => "exa",
        }
    }

    /// The service with the name `value`.
    pub fn parse(value: &str) -> (r: Result<Self, String>)
        ensures
            match r {
                Ok(backend) => backend.name() == value@,
                Err(message) => (forall|b: SearchBackend| #[trigger] b.name() != value@) && message@
                    == invalid_value(value@, "brave, ddg, searxng, exa"@),
            },
    {
        if same(value, "brave") {
            Ok(SearchBackend::Brave)
        } else if same(value, "ddg") {
            Ok(SearchBackend::Ddg)
        } else if same(value, "searxng") {
            Ok(SearchBackend::Searxng)
        } else if same(value, "exa") {
            Ok(SearchBackend::Exa)
        } else {
            Err(invalid(value, "brave, ddg, searxng, exa"))
        }
    }
}

impl CodeBackend {
    /// The name of the service.
    pub open spec fn name(self) -> Seq<char> {
        match self {
            CodeBackend::Grepapp => "grepapp"@,
            CodeBackend::Sourcegraph => "sourcegraph"@,
            CodeBackend::Github => "github"@,
        }
    }

    /// The name of the service.
    pub fn as_str(&self) -> (r: &'static str)
        ensures
            r@ == self.name(),
    {
        match self {
            CodeBackend::Grepapp => "grepapp",
            CodeBackend::Sourcegraph => "sourcegraph",
            CodeBackend::Github => "github",
        }
    }

    /// The service with the name `value`.
    pub fn parse(value: &str) -> (r: Result<Self, String>)
        ensures
            match r {
                Ok(backend) => backend.name() == value@,
                Err(message) => (forall|b: CodeBackend| #[trigger] b.name() != value@) && message@
                    == invalid_value(value@, "grepapp, sourcegraph, github"@),
            },
    {
        if same(value, "grepapp") {
            Ok(CodeBackend::Grepapp)
        } else if same(value, "sourcegraph") {
            Ok(CodeBackend::Sourcegraph)
        } else if same(value, "github") {
            Ok(CodeBackend::Github)
        } else {
            Err(invalid(value, "grepapp, sourcegraph, github"))
        }
    }
}

impl DocsBackend {
    /// The name of the service.
    pub open spec fn name(self) -> Seq<char> {
        match self {
            DocsBackend::Context7 => "context7"@,
            DocsBackend::Local => "local"@,
        }
    }

    /// The name of the service.
    pub fn as_str(&self) -> (r: &'static str)
        ensures
            r@ == self.name(),
    {
        match self {
            DocsBackend::Context7 => "context7",
            DocsBackend::Local => "local",
        }
    }

    /// The service with the name `value`.
    pub fn parse(value: &str) -> (r: Result<Self, String>)
        ensures
            match r {
                Ok(backend) => backend.name() == value@,
                Err(message) => (forall|b: DocsBackend| #[trigger] b.name() != value@) && message@
                    == invalid_value(value@, "context7, local"@),
            },
    {
        if same(value, "context7") {
            Ok(DocsBackend::Context7)
        } else if same(value, "local") {
            Ok(DocsBackend::Local)
        } else {
            Err(invalid(value, "context7, local"))
        }
    }
}

/// The names of the web search services.
pub fn available_backends() -> (r: [&'static str; 4])
    ensures
        slices(r@) == seq!["brave"@, "ddg"@, "searxng"@, "exa"@],
{
    let names = ["brave", "ddg", "searxng", "exa"];
    assert(slices(names@) =~= seq!["brave"@, "ddg"@, "searxng"@, "exa"@]);
    names
}

/// The names of the code search services.
pub fn available_code_backends() -> (r: [&'static str; 3])
    ensures
        slices(r@) == seq!["grepapp"@, "sourcegraph"@, "github"@],
{
    let names = ["grepapp", "sourcegraph", "github"];
    assert(slices(names@) =~= seq!["grepapp"@, "sourcegraph"@, "github"@]);
    names
}

/// The names of the documentation search services.
pub fn available_doc_backends() -> (r: [&'static str; 2])
    ensures
        slices(r@) == seq!["context7"@, "local"@],
{
    let names = ["context7", "local"];
    assert(slices(names@) =~= seq!["context7"@, "local"@]);
    names
}

/// The configuration.
#[derive(Debug)]
pub struct AppConfig {
    /// The name of the web search service.
    pub backend: String,
    pub searxng_url: String,
    pub brave_api_key: String,
    pub exa_api_key: String,
    /// How many results are shown.
    pub limit: usize,
    /// How long a page in the cache is fresh.
    pub cache_ttl: String,
    pub browser: String,
    /// The name of the code search service.
    pub code_backend: String,
    /// The name of the documentation search service.
    pub docs_backend: String,
    pub context7_api_key: String,
    pub sourcegraph_url: String,
    pub github_token: String,
    pub url_rewrites: Vec<Rule>,
}

/// What an [`AppConfig`] holds.
#[verifier::ext_equal]
pub struct ConfigView {
    pub backend: Seq<char>,
    pub searxng_url: Seq<char>,
    pub brave_api_key: Seq<char>,
    pub exa_api_key: Seq<char>,
    pub limit: usize,
    pub cache_ttl: Seq<char>,
    pub browser: Seq<char>,
    pub code_backend: Seq<char>,
    pub docs_backend: Seq<char>,
    pub context7_api_key: Seq<char>,
    pub sourcegraph_url: Seq<char>,
    pub github_token: Seq<char>,
    pub url_rewrites: Seq<RuleView>,
}

impl View for AppConfig {
    type V = ConfigView;

    open spec fn view(&self) -> ConfigView {
        ConfigView {
            backend: self.backend@,
            searxng_url: self.searxng_url@,
            brave_api_key: self.brave_api_key@,
            exa_api_key: self.exa_api_key@,
            limit: self.limit,
            cache_ttl: self.cache_ttl@,
            browser: self.browser@,
            code_backend: self.code_backend@,
            docs_backend: self.docs_backend@,
            context7_api_key: self.context7_api_key@,
            sourcegraph_url: self.sourcegraph_url@,
            github_token: self.github_token@,
            url_rewrites: rules_of(self.url_rewrites@),
        }
    }
}

/// The configuration where nothing is configured.
pub open spec fn defaults() -> ConfigView {
    ConfigView {
        backend: "ddg"@,
        searxng_url: "http://localhost:8081"@,
        brave_api_key: seq![],
        exa_api_key: seq![],
        limit: 5,
        cache_ttl: "72h"@,
        browser: seq![],
        code_backend: "github"@,
        docs_backend: "context7"@,
        context7_api_key: seq![],
        sourcegraph_url: "https://sourcegraph.com"@,
        github_token: seq![],
        url_rewrites: seq![],
    }
}

impl Default for AppConfig {
    fn default() -> (r: Self)
        ensures
            r@ == defaults(),
    {
        let config = AppConfig {
            backend: "ddg".to_owned(),
            searxng_url: "http://localhost:8081".to_owned(),
            brave_api_key: String::new(),
            exa_api_key: String::new(),
            limit: 5,
            cache_ttl: "72h".to_owned(),
            browser: String::new(),
            code_backend: "github".to_owned(),
            docs_backend: "context7".to_owned(),
            context7_api_key: String::new(),
            sourcegraph_url: "https://sourcegraph.com".to_owned(),
            github_token: String::new(),
            url_rewrites: Vec::new(),
        };
        assert(rules_of(config.url_rewrites@) =~= seq![]);
        config
    }
}

/// A value of a JSON object.
#[derive(Debug)]
pub enum Field {
    Text(String),
    /// A number; nothing is known of it where it is not a whole one from zero on.
    Number(Option<u64>),
    Other,
}

/// What a [`Field`] holds.
pub enum FieldView {
    Text(Seq<char>),
    Number(Option<u64>),
    Other,
}

impl View for Field {
    type V = FieldView;

    open spec fn view(&self) -> FieldView {
        match self {
            Field::Text(text) => FieldView::Text(text@),
            Field::Number(number) => FieldView::Number(*number),
            Field::Other => FieldView::Other,
        }
    }
}

/// What the fields of an object hold.
pub open spec fn fields_of(fields: Seq<(String, Field)>) -> Seq<(Seq<char>, FieldView)> {
    Seq::new(fields.len(), |i: int| (fields[i].0@, fields[i].1@))
}

/// What `serde_json` reads in a text: nothing where it is not JSON, else the
/// fields of the object, if it is one.
pub uninterp spec fn json_fields(text: Seq<char>) -> Option<Option<Seq<(Seq<char>, FieldView)>>>;

/// `serde_json::from_str` into a `serde_json::Value`: the fields of the object that
/// `text` denotes, each with its key.
#[verifier::external_body]
pub(crate) fn parse_fields(text: &str) -> (r: Option<Option<Vec<(String, Field)>>>)
    ensures
        match r {
            None => json_fields(text@) is None,
            Some(None) => json_fields(text@) == Some(None::<Seq<(Seq<char>, FieldView)>>),
            Some(Some(fields)) => json_fields(text@) == Some(Some(fields_of(fields@))),
        },
{
    let field = |value: serde_json::Value| match value {
        serde_json::Value::String(text) => Field::Text(text),
        serde_json::Value::Number(number) => Field::Number(number.as_u64()),
        _ => Field::Other,
    };
    match serde_json::from_str::<serde_json::Value>(text) {
        Ok(serde_json::Value::Object(map)) => {
            Some(Some(map.into_iter().map(|(key, value)| (key, field(value))).collect()))
        },
        Ok(_) => Some(None),
        Err(_) => None,
    }
}

/// The first index from `i` on of a field with the key `key`, or the length.
pub open spec fn field_at(fields: Seq<(Seq<char>, FieldView)>, key: Seq<char>, i: int) -> int
    decreases fields.len() - i,
{
    if i < 0 || i >= fields.len() || fields[i].0 == key {
        i
    } else {
        field_at(fields, key, i + 1)
    }
}

/// The text that a field holds, or `other` where there is no such field or no text
/// in it.
pub open spec fn text_field(
    fields: Seq<(Seq<char>, FieldView)>,
    key: Seq<char>,
    other: Seq<char>,
) -> Seq<char> {
    let k = field_at(fields, key, 0);
    if k < fields.len() {
        match fields[k].1 {
            FieldView::Text(text) => text,
            _ => other,
        }
    } else {
        other
    }
}

/// The whole number that a field holds, or `other` where there is none.
pub open spec fn number_field(
    fields: Seq<(Seq<char>, FieldView)>,
    key: Seq<char>,
    other: usize,
) -> usize {
    let k = field_at(fields, key, 0);
    if k < fields.len() {
        match fields[k].1 {
            FieldView::Number(Some(number)) => number as usize,
            _ => other,
        }
    } else {
        other
    }
}

/// A configuration with the values of the fields that have the right type.
/// `rules` are the rewriting rules among them, if there are any.
pub open spec fn merged(
    config: ConfigView,
    fields: Seq<(Seq<char>, FieldView)>,
    rules: Option<Seq<RuleView>>,
) -> ConfigView {
    ConfigView {
        backend: text_field(fields, "backend"@, config.backend),
        searxng_url: text_field(fields, "searxng_url"@, config.searxng_url),
        brave_api_key: text_field(fields, "brave_api_key"@, config.brave_api_key),
        exa_api_key: text_field(fields, "exa_api_key"@, config.exa_api_key),
        limit: number_field(fields, "limit"@, config.limit),
        cache_ttl: text_field(fields, "cache_ttl"@, config.cache_ttl),
        browser: text_field(fields, "browser"@, config.browser),
        code_backend: text_field(fields, "code_backend"@, config.code_backend),
        docs_backend: text_field(fields, "docs_backend"@, config.docs_backend),
        context7_api_key: text_field(fields, "context7_api_key"@, config.context7_api_key),
        sourcegraph_url: text_field(fields, "sourcegraph_url"@, config.sourcegraph_url),
        github_token: text_field(fields, "github_token"@, config.github_token),
        url_rewrites: match rules {
            Some(rules) => rules,
            None => config.url_rewrites,
        },
    }
}

fn find_field(fields: &Vec<(String, Field)>, key: &str) -> (r: usize)
    ensures
        r == field_at(fields_of(fields@), key@, 0),
        r <= fields@.len(),
{
    let ghost view = fields_of(fields@);
    let mut i: usize = 0;
    while i < fields.len() && !same(fields[i].0.as_str(), key)
        invariant
            view == fields_of(fields@),
            i <= fields@.len(),
            field_at(view, key@, 0) == field_at(view, key@, i as int),
        decreases fields@.len() - i,
    {
        i += 1;
    }
    i
}

fn text_or(fields: &Vec<(String, Field)>, key: &str, other: String) -> (r: String)
    ensures
        r@ == text_field(fields_of(fields@), key@, other@),
{
    let k = find_field(fields, key);
    if k < fields.len() {
        if let Field::Text(text) = &fields[k].1 {
            return text.clone();
        }
    }
    other
}

fn number_or(fields: &Vec<(String, Field)>, key: &str, other: usize) -> (r: usize)
    ensures
        r == number_field(fields_of(fields@), key@, other),
{
    let k = find_field(fields, key);
    if k < fields.len() {
        if let Field::Number(Some(number)) = &fields[k].1 {
            return *number as usize;
        }
    }
    other
}

/// A configuration with the values of `fields` that have the right type, and with
/// the rewriting rules `rules`, if there are any.
pub fn merge_config_value(
    config: AppConfig,
    fields: &Vec<(String, Field)>,
    rules: Option<Vec<Rule>>,
) -> (r: AppConfig)
    ensures
        r@ == merged(
            config@,
            fields_of(fields@),
            match rules {
                Some(rules) => Some(rules_of(rules@)),
                None => None,
            },
        ),
{
    AppConfig {
        backend: text_or(fields, "backend", config.backend),
        searxng_url: text_or(fields, "searxng_url", config.searxng_url),
        brave_api_key: text_or(fields, "brave_api_key", config.brave_api_key),
        exa_api_key: text_or(fields, "exa_api_key", config.exa_api_key),
        limit: number_or(fields, "limit", config.limit),
        cache_ttl: text_or(fields, "cache_ttl", config.cache_ttl),
        browser: text_or(fields, "browser", config.browser),
        code_backend: text_or(fields, "code_backend", config.code_backend),
        docs_backend: text_or(fields, "docs_backend", config.docs_backend),
        context7_api_key: text_or(fields, "context7_api_key", config.context7_api_key),
        sourcegraph_url: text_or(fields, "sourcegraph_url", config.sourcegraph_url),
        github_token: text_or(fields, "github_token", config.github_token),
        url_rewrites: match rules {
            Some(rules) => rules,
            None => config.url_rewrites,
        },
    }
}

/// The token for GitHub and where it is from, as far as it need not be asked for:
/// the configured one, or else the first of the environment that is not empty.
pub open spec fn known_token(
    config: ConfigView,
    github_token: Option<Seq<char>>,
    gh_token: Option<Seq<char>>,
) -> Option<(Seq<char>, Seq<char>)> {
    if config.github_token.len() > 0 {
        Some((config.github_token, "config"@))
    } else if github_token matches Some(token) && token.len() > 0 {
        Some((github_token->0, "env"@))
    } else if gh_token matches Some(token) && token.len() > 0 {
        Some((gh_token->0, "env"@))
    } else {
        None
    }
}

impl AppConfig {
    /// The configuration that a configuration file with the text `data` gives:
    /// the defaults with the values of the file. `rules` are the rewriting rules
    /// of the file, if it has any.
    pub fn load(data: &str, rules: Option<Vec<Rule>>) -> (r: Self)
        ensures
            r@ == (match json_fields(data@) {
                Some(Some(fields)) => merged(
                    defaults(),
                    fields,
                    match rules {
                        Some(rules) => Some(rules_of(rules@)),
                        None => None,
                    },
                ),
                _ => defaults(),
            }),
    {
        match parse_fields(data) {
            Some(Some(fields)) => merge_config_value(AppConfig::default(), &fields, rules),
            _ => AppConfig::default(),
        }
    }

    /// The token for GitHub and where it is from. Nothing where the `gh` program
    /// has to be asked for it.
    pub fn resolve_github_token(&self, github_token: Option<String>, gh_token: Option<String>) -> (r:
        Option<(String, String)>)
        ensures
            match r {
                Some(found) => known_token(self@, maybe(github_token), maybe(gh_token)) == Some(
                    (found.0@, found.1@),
                ),
                None => known_token(self@, maybe(github_token), maybe(gh_token)) is None,
            },
    {
        if char_count(self.github_token.as_str()) > 0 {
            return Some((self.github_token.clone(), "config".to_owned()));
        }
        if let Some(token) = github_token {
            if char_count(token.as_str()) > 0 {
                return Some((token, "env".to_owned()));
            }
        }
        if let Some(token) = gh_token {
            if char_count(token.as_str()) > 0 {
                return Some((token, "env".to_owned()));
            }
        }
        None
    }
}

/// The token that the `gh` program wrote out, and where it is from; none where it
/// failed or wrote nothing.
pub open spec fn asked_token(stdout: Option<Seq<char>>) -> (Seq<char>, Seq<char>) {
    match stdout {
        Some(text) => if trimmed(text).len() > 0 {
            (trimmed(text), "gh-cli"@)
        } else {
            (seq![], "none"@)
        },
        None => (seq![], "none"@),
    }
}

/// The token for GitHub and where it is from, where the `gh` program wrote out
/// `stdout`; nothing where it failed.
pub fn github_token_from_gh(stdout: Option<String>) -> (r: (String, String))
    ensures
        (r.0@, r.1@) == asked_token(maybe(stdout)),
{
    if let Some(text) = stdout {
        let token = trim(text.as_str());
        if char_count(token.as_str()) > 0 {
            return (token, "gh-cli".to_owned());
        }
    }
    (String::new(), "none".to_owned())
}

/// A configured token is always the one that is used, and the program is asked
/// only where neither the configuration nor the environment has one.
pub proof fn law_the_program_is_asked_last(
    config: ConfigView,
    github_token: Option<Seq<char>>,
    gh_token: Option<Seq<char>>,
)
    ensures
        config.github_token.len() > 0 ==> known_token(config, github_token, gh_token) == Some(
            (config.github_token, "config"@),
        ),
        known_token(config, github_token, gh_token) is None <==> config.github_token.len() == 0 && (
        github_token is None || github_token->0.len() == 0) && (gh_token is None
            || gh_token->0.len() == 0),
{
}

proof fn lemma_field_at(fields: Seq<(Seq<char>, FieldView)>, key: Seq<char>, i: int)
    requires
        0 <= i <= fields.len(),
    ensures
        i <= field_at(fields, key, i) <= fields.len(),
    decreases fields.len() - i,
{
    if i < fields.len() && fields[i].0 != key {
        lemma_field_at(fields, key, i + 1);
    }
}

/// Values that are neither texts nor numbers change nothing, whatever their keys.
pub proof fn law_other_values_change_nothing(
    config: ConfigView,
    fields: Seq<(Seq<char>, FieldView)>,
)
    requires
        forall|i: int| 0 <= i < fields.len() ==> (#[trigger] fields[i]).1 is Other,
    ensures
        merged(config, fields, None) == config,
{
    assert forall|key: Seq<char>| 0 <= #[trigger] field_at(fields, key, 0) by {
        lemma_field_at(fields, key, 0);
    }
    assert(merged(config, fields, None) =~= config);
}

/// A field that holds a text.
pub open spec fn text_entry(key: Seq<char>, value: Seq<char>) -> Seq<(Seq<char>, FieldView)> {
    seq![(key, FieldView::Text(value))]
}

/// A field that holds a text, if that is not empty.
pub open spec fn filled_entry(key: Seq<char>, value: Seq<char>) -> Seq<(Seq<char>, FieldView)> {
    if value.len() > 0 {
        text_entry(key, value)
    } else {
        seq![]
    }
}

/// The fields of the file that a configuration is saved in, but for the rewriting rules.
pub open spec fn saved_fields(config: ConfigView) -> Seq<(Seq<char>, FieldView)> {
    text_entry("backend"@, config.backend) + text_entry("searxng_url"@, config.searxng_url)
        + filled_entry("brave_api_key"@, config.brave_api_key) + filled_entry(
        "exa_api_key"@,
        config.exa_api_key,
    ) + seq![("limit"@, FieldView::Number(Some(config.limit as u64)))] + text_entry(
        "cache_ttl"@,
        config.cache_ttl,
    ) + filled_entry("browser"@, config.browser) + text_entry("code_backend"@, config.code_backend)
        + text_entry("docs_backend"@, config.docs_backend) + filled_entry(
        "context7_api_key"@,
        config.context7_api_key,
    ) + text_entry("sourcegraph_url"@, config.sourcegraph_url) + filled_entry(
        "github_token"@,
        config.github_token,
    )
}

/// The rewriting rules of the file that a configuration is saved in, if it has any.
pub open spec fn saved_rules(config: ConfigView) -> Option<Seq<RuleView>> {
    if config.url_rewrites.len() > 0 {
        Some(config.url_rewrites)
    } else {
        None
    }
}

fn push_text(fields: &mut Vec<(String, Field)>, key: &str, value: &String)
    ensures
        fields_of(final(fields)@) == fields_of(old(fields)@) + text_entry(key@, value@),
{
    let ghost before = fields_of(fields@);
    fields.push((key.to_owned(), Field::Text(value.clone())));
    assert(fields_of(fields@) =~= before + text_entry(key@, value@));
}

fn push_filled(fields: &mut Vec<(String, Field)>, key: &str, value: &String)
    ensures
        fields_of(final(fields)@) == fields_of(old(fields)@) + filled_entry(key@, value@),
{
    if char_count(value.as_str()) > 0 {
        push_text(fields, key, value);
    } else {
        assert(fields_of(fields@) + filled_entry(key@, value@) =~= fields_of(fields@));
    }
}

impl AppConfig {
    /// The fields of the file that the configuration is saved in, but for the rewriting
    /// rules, and whether there are such rules to save.
    pub fn fields(&self) -> (r: (Vec<(String, Field)>, bool))
        ensures
            fields_of(r.0@) == saved_fields(self@),
            r.1 == (saved_rules(self@) is Some),
    {
        let mut fields: Vec<(String, Field)> = Vec::new();
        assert(fields_of(fields@) + text_entry("backend"@, self.backend@) =~= text_entry(
            "backend"@,
            self.backend@,
        ));
        push_text(&mut fields, "backend", &self.backend);
        push_text(&mut fields, "searxng_url", &self.searxng_url);
        push_filled(&mut fields, "brave_api_key", &self.brave_api_key);
        push_filled(&mut fields, "exa_api_key", &self.exa_api_key);
        let ghost before = fields_of(fields@);
        fields.push(("limit".to_owned(), Field::Number(Some(self.limit as u64))));
        assert(fields_of(fields@) =~= before + seq![
            ("limit"@, FieldView::Number(Some(self.limit as u64))),
        ]);
        push_text(&mut fields, "cache_ttl", &self.cache_ttl);
        push_filled(&mut fields, "browser", &self.browser);
        push_text(&mut fields, "code_backend", &self.code_backend);
        push_text(&mut fields, "docs_backend", &self.docs_backend);
        push_filled(&mut fields, "context7_api_key", &self.context7_api_key);
        push_text(&mut fields, "sourcegraph_url", &self.sourcegraph_url);
        push_filled(&mut fields, "github_token", &self.github_token);
        (fields, self.url_rewrites.len() > 0)
    }
}

/// The value of the first field with the key `key`, if there is one.
pub open spec fn field_of(fields: Seq<(Seq<char>, FieldView)>, key: Seq<char>) -> Option<
    FieldView,
> {
    let k = field_at(fields, key, 0);
    if k < fields.len() {
        Some(fields[k].1)
    } else {
        None
    }
}

proof fn lemma_field_behind(
    front: Seq<(Seq<char>, FieldView)>,
    back: Seq<(Seq<char>, FieldView)>,
    key: Seq<char>,
    i: int,
)
    requires
        0 <= i <= front.len() + back.len(),
    ensures
        i <= front.len() ==> field_at(front + back, key, i) == (if field_at(front, key, i)
            < front.len() {
            field_at(front, key, i)
        } else {
            front.len() + field_at(back, key, 0)
        }),
        i >= front.len() ==> field_at(front + back, key, i) == front.len() + field_at(
            back,
            key,
            i - front.len(),
        ),
    decreases front.len() + back.len() - i,
{
    let all = front + back;
    if i < all.len() && all[i].0 != key {
        lemma_field_behind(front, back, key, i + 1);
    }
}

proof fn lemma_field_of(
    front: Seq<(Seq<char>, FieldView)>,
    back: Seq<(Seq<char>, FieldView)>,
    key: Seq<char>,
)
    ensures
        field_of(front + back, key) == (match field_of(front, key) {
            Some(value) => Some(value),
            None => field_of(back, key),
        }),
{
    lemma_field_behind(front, back, key, 0);
    lemma_field_at(front, key, 0);
    lemma_field_at(back, key, 0);
}

proof fn lemma_one_field(key: Seq<char>, value: FieldView, other: Seq<char>)
    ensures
        field_of(seq![(key, value)], other) == (if other == key {
            Some(value)
        } else {
            None
        }),
{
    lemma_field_at(seq![(key, value)], other, 0);
    reveal_with_fuel(field_at, 2);
}

proof fn lemma_no_field(key: Seq<char>)
    ensures
        field_of(seq![], key) is None,
{
}

/// The value that is saved under `key`.
spec fn saved_value(config: ConfigView, key: Seq<char>) -> Option<FieldView> {
    let filled = |value: Seq<char>|
        if value.len() > 0 {
            Some(FieldView::Text(value))
        } else {
            None
        };
    if key == "backend"@ {
        Some(FieldView::Text(config.backend))
    } else if key == "searxng_url"@ {
        Some(FieldView::Text(config.searxng_url))
    } else if key == "brave_api_key"@ {
        filled(config.brave_api_key)
    } else if key == "exa_api_key"@ {
        filled(config.exa_api_key)
    } else if key == "limit"@ {
        Some(FieldView::Number(Some(config.limit as u64)))
    } else if key == "cache_ttl"@ {
        Some(FieldView::Text(config.cache_ttl))
    } else if key == "browser"@ {
        filled(config.browser)
    } else if key == "code_backend"@ {
        Some(FieldView::Text(config.code_backend))
    } else if key == "docs_backend"@ {
        Some(FieldView::Text(config.docs_backend))
    } else if key == "context7_api_key"@ {
        filled(config.context7_api_key)
    } else if key == "sourcegraph_url"@ {
        Some(FieldView::Text(config.sourcegraph_url))
    } else if key == "github_token"@ {
        filled(config.github_token)
    } else {
        None
    }
}

proof fn lemma_filled(key: Seq<char>, value: Seq<char>, other: Seq<char>)
    ensures
        field_of(text_entry(key, value), other) == (if other == key {
            Some(FieldView::Text(value))
        } else {
            None
        }),
        field_of(filled_entry(key, value), other) == (if other == key && value.len() > 0 {
            Some(FieldView::Text(value))
        } else {
            None
        }),
{
    lemma_one_field(key, FieldView::Text(value), other);
    lemma_no_field(other);
}

proof fn lemma_keys_differ()
    ensures
        "backend"@ != "browser"@,
        "searxng_url"@ != "exa_api_key"@,
        "code_backend"@ != "docs_backend"@,
        "code_backend"@ != "github_token"@,
        "docs_backend"@ != "github_token"@,
        "backend"@.len() == 7,
        "searxng_url"@.len() == 11,
        "brave_api_key"@.len() == 13,
        "exa_api_key"@.len() == 11,
        "limit"@.len() == 5,
        "cache_ttl"@.len() == 9,
        "browser"@.len() == 7,
        "code_backend"@.len() == 12,
        "docs_backend"@.len() == 12,
        "context7_api_key"@.len() == 16,
        "sourcegraph_url"@.len() == 15,
        "github_token"@.len() == 12,
{
    reveal_strlit("backend");
    reveal_strlit("searxng_url");
    reveal_strlit("brave_api_key");
    reveal_strlit("exa_api_key");
    reveal_strlit("limit");
    reveal_strlit("cache_ttl");
    reveal_strlit("browser");
    reveal_strlit("code_backend");
    reveal_strlit("docs_backend");
    reveal_strlit("context7_api_key");
    reveal_strlit("sourcegraph_url");
    reveal_strlit("github_token");
    assert("backend"@[1] == 'a' && "browser"@[1] == 'r');
    assert("searxng_url"@[0] == 's' && "exa_api_key"@[0] == 'e');
    assert("code_backend"@[0] == 'c' && "docs_backend"@[0] == 'd' && "github_token"@[0] == 'g');
}

proof fn lemma_saved(config: ConfigView, key: Seq<char>)
    ensures
        field_of(saved_fields(config), key) == saved_value(config, key),
{
    lemma_keys_differ();
    let s1 = text_entry("backend"@, config.backend);
    let s2 = s1 + text_entry("searxng_url"@, config.searxng_url);
    let s3 = s2 + filled_entry("brave_api_key"@, config.brave_api_key);
    let s4 = s3 + filled_entry("exa_api_key"@, config.exa_api_key);
    let limit = seq![("limit"@, FieldView::Number(Some(config.limit as u64)))];
    let s5 = s4 + limit;
    let s6 = s5 + text_entry("cache_ttl"@, config.cache_ttl);
    let s7 = s6 + filled_entry("browser"@, config.browser);
    let s8 = s7 + text_entry("code_backend"@, config.code_backend);
    let s9 = s8 + text_entry("docs_backend"@, config.docs_backend);
    let s10 = s9 + filled_entry("context7_api_key"@, config.context7_api_key);
    let s11 = s10 + text_entry("sourcegraph_url"@, config.sourcegraph_url);
    lemma_filled("backend"@, config.backend, key);
    lemma_filled("searxng_url"@, config.searxng_url, key);
    lemma_filled("brave_api_key"@, config.brave_api_key, key);
    lemma_filled("exa_api_key"@, config.exa_api_key, key);
    lemma_one_field("limit"@, FieldView::Number(Some(config.limit as u64)), key);
    lemma_filled("cache_ttl"@, config.cache_ttl, key);
    lemma_filled("browser"@, config.browser, key);
    lemma_filled("code_backend"@, config.code_backend, key);
    lemma_filled("docs_backend"@, config.docs_backend, key);
    lemma_filled("context7_api_key"@, config.context7_api_key, key);
    lemma_filled("sourcegraph_url"@, config.sourcegraph_url, key);
    lemma_filled("github_token"@, config.github_token, key);
    lemma_field_of(s1, text_entry("searxng_url"@, config.searxng_url), key);
    lemma_field_of(s2, filled_entry("brave_api_key"@, config.brave_api_key), key);
    lemma_field_of(s3, filled_entry("exa_api_key"@, config.exa_api_key), key);
    lemma_field_of(s4, limit, key);
    lemma_field_of(s5, text_entry("cache_ttl"@, config.cache_ttl), key);
    lemma_field_of(s6, filled_entry("browser"@, config.browser), key);
    lemma_field_of(s7, text_entry("code_backend"@, config.code_backend), key);
    lemma_field_of(s8, text_entry("docs_backend"@, config.docs_backend), key);
    lemma_field_of(s9, filled_entry("context7_api_key"@, config.context7_api_key), key);
    lemma_field_of(s10, text_entry("sourcegraph_url"@, config.sourcegraph_url), key);
    lemma_field_of(s11, filled_entry("github_token"@, config.github_token), key);
}

/// A configuration that was saved is loaded as it was, in whatever order the fields of the
/// file come: what is left out because it is empty is empty by default.
pub proof fn law_saved_values_load_back(config: ConfigView, fields: Seq<(Seq<char>, FieldView)>)
    requires
        forall|key: Seq<char>| #[trigger]
            field_of(fields, key) == field_of(saved_fields(config), key),
    ensures
        merged(defaults(), fields, saved_rules(config)) == config,
{
    lemma_keys_differ();
    assert forall|key: Seq<char>| #[trigger]
        field_of(fields, key) == saved_value(config, key) && 0 <= field_at(fields, key, 0) by {
        lemma_saved(config, key);
        lemma_field_at(fields, key, 0);
    }
    assert forall|key: Seq<char>, other: Seq<char>| #[trigger]
        text_field(fields, key, other) == (match field_of(fields, key) {
            Some(FieldView::Text(text)) => text,
            _ => other,
        }) by {}
    assert(number_field(fields, "limit"@, 5) == (match field_of(fields, "limit"@) {
        Some(FieldView::Number(Some(number))) => number as usize,
        _ => 5,
    }));
    let back = merged(defaults(), fields, saved_rules(config));
    assert(back.brave_api_key =~= config.brave_api_key);
    assert(back.exa_api_key =~= config.exa_api_key);
    assert(back.browser =~= config.browser);
    assert(back.context7_api_key =~= config.context7_api_key);
    assert(back.github_token =~= config.github_token);
    assert(back.url_rewrites =~= config.url_rewrites);
    assert(back =~= config);
}

/// The directory for a purpose: the one that the environment names, or else the one
/// of the system.
pub open spec fn chosen_dir(named: Option<Seq<char>>, system: Option<Seq<char>>) -> Option<
    Seq<char>,
> {
    match named {
        Some(dir) => Some(dir),
        None => system,
    }
}

/// Where the configuration is stored: in the directory for configurations that the
/// environment names, or else in that of the system.
pub fn config_path(named: &Option<String>, system: &Option<String>) -> (r: AppResult<String>)
    ensures
        match chosen_dir(maybe(*named), maybe(*system)) {
            Some(dir) => r matches Ok(path) && path@ == in_dir(
                in_dir(dir, "snarf"@),
                "config.json"@,
            ),
            None => r matches Err(e) && e@ == ErrorView::Upstream("cannot locate config dir"@),
        },
{
    let dir = match named {
        Some(dir) => dir,
        None => match system {
            Some(dir) => dir,
            None => {
                return Err(AppError::upstream("cannot locate config dir".to_owned()));
            },
        },
    };
    Ok(path_in(path_in(dir.as_str(), "snarf").as_str(), "config.json"))
}

/// The directory for what can be made anew: in the one for caches that the environment
/// names, or else in that of the system.
pub fn cache_dir(named: &Option<String>, system: &Option<String>) -> (r: AppResult<String>)
    ensures
        match chosen_dir(maybe(*named), maybe(*system)) {
            Some(dir) => r matches Ok(path) && path@ == in_dir(dir, "snarf"@),
            None => r matches Err(e) && e@ == ErrorView::Upstream("cannot locate cache dir"@),
        },
{
    let dir = match named {
        Some(dir) => dir,
        None => match system {
            Some(dir) => dir,
            None => {
                return Err(AppError::upstream("cannot locate cache dir".to_owned()));
            },
        },
    };
    Ok(path_in(dir.as_str(), "snarf"))
}

/// What is known of the `gh` program while it runs.
#[derive(Debug, Clone, Copy, PartialEq, Eq, Structural)]
pub enum GhState {
    Running,
    Succeeded,
    Failed,
}

/// What to do about the `gh` program.
#[derive(Debug, Clone, Copy, PartialEq, Eq, Structural)]
pub enum GhStep {
    /// Look again in a moment.
    Wait,
    /// Read what it wrote out.
    Read,
    /// End it, and do without.
    Kill,
    /// Do without.
    GiveUp,
}

/// What to do about the `gh` program after `waited`: it has `timeout` to come to its
/// end.
pub fn gh_step(state: GhState, waited: &Duration, timeout: &Duration) -> (r: GhStep)
    ensures
        r == (match state {
            GhState::Succeeded => GhStep::Read,
            GhState::Failed => GhStep::GiveUp,
            GhState::Running => if waited.in_nanos() >= timeout.in_nanos() {
                GhStep::Kill
            } else {
                GhStep::Wait
            },
        }),
{
    match state {
        GhState::Succeeded => GhStep::Read,
        GhState::Failed => GhStep::GiveUp,
        GhState::Running => if waited.as_nanos() >= timeout.as_nanos() {
            GhStep::Kill
        } else {
            GhStep::Wait
        },
    }
}

proof fn lemma_text_field(fields: Seq<(Seq<char>, FieldView)>, key: Seq<char>, other: Seq<char>)
    ensures
        text_field(fields, key, other) == (match field_of(fields, key) {
            Some(FieldView::Text(text)) => text,
            _ => other,
        }),
        0 <= field_at(fields, key, 0),
{
    lemma_field_at(fields, key, 0);
}

/// The value of a field is that of the first with its key.
pub proof fn law_the_value_of_a_field(
    front: Seq<(Seq<char>, FieldView)>,
    key: Seq<char>,
    value: FieldView,
    back: Seq<(Seq<char>, FieldView)>,
)
    requires
        forall|i: int| 0 <= i < front.len() ==> (#[trigger] front[i]).0 != key,
    ensures
        field_of(front, key) is None,
        field_of(front + seq![(key, value)] + back, key) == Some(value),
{
    lemma_not_there(front, key, 0);
    lemma_one_field(key, value, key);
    lemma_field_of(front, seq![(key, value)], key);
    lemma_field_of(front + seq![(key, value)], back, key);
}

proof fn lemma_not_there(fields: Seq<(Seq<char>, FieldView)>, key: Seq<char>, i: int)
    requires
        0 <= i <= fields.len(),
        forall|k: int| 0 <= k < fields.len() ==> (#[trigger] fields[k]).0 != key,
    ensures
        field_at(fields, key, i) == fields.len(),
    decreases fields.len() - i,
{
    if i < fields.len() {
        assert(fields[i].0 != key);
        lemma_not_there(fields, key, i + 1);
    }
}

/// A configuration file sets what it has a text for under the key of its name; what it does
/// not set stays as it is.
pub proof fn law_a_file_sets_what_it_names(
    config: ConfigView,
    fields: Seq<(Seq<char>, FieldView)>,
    rules: Option<Seq<RuleView>>,
    value: Seq<char>,
)
    ensures
        ({
            let after = merged(config, fields, rules);
            let text = Some(FieldView::Text(value));
            &&& field_of(fields, "backend"@) == text ==> after.backend == value
            &&& field_of(fields, "searxng_url"@) == text ==> after.searxng_url == value
            &&& field_of(fields, "brave_api_key"@) == text ==> after.brave_api_key == value
            &&& field_of(fields, "exa_api_key"@) == text ==> after.exa_api_key == value
            &&& field_of(fields, "cache_ttl"@) == text ==> after.cache_ttl == value
            &&& field_of(fields, "browser"@) == text ==> after.browser == value
            &&& field_of(fields, "code_backend"@) == text ==> after.code_backend == value
            &&& field_of(fields, "docs_backend"@) == text ==> after.docs_backend == value
            &&& field_of(fields, "context7_api_key"@) == text ==> after.context7_api_key == value
            &&& field_of(fields, "sourcegraph_url"@) == text ==> after.sourcegraph_url == value
            &&& field_of(fields, "github_token"@) == text ==> after.github_token == value
            &&& !(field_of(fields, "backend"@) matches Some(FieldView::Text(_))) ==> after.backend
                == config.backend
            &&& !(field_of(fields, "searxng_url"@) matches Some(FieldView::Text(_)))
                ==> after.searxng_url == config.searxng_url
            &&& !(field_of(fields, "brave_api_key"@) matches Some(FieldView::Text(_)))
                ==> after.brave_api_key == config.brave_api_key
            &&& !(field_of(fields, "exa_api_key"@) matches Some(FieldView::Text(_)))
                ==> after.exa_api_key == config.exa_api_key
            &&& !(field_of(fields, "cache_ttl"@) matches Some(FieldView::Text(_)))
                ==> after.cache_ttl == config.cache_ttl
            &&& !(field_of(fields, "browser"@) matches Some(FieldView::Text(_))) ==> after.browser
                == config.browser
            &&& !(field_of(fields, "code_backend"@) matches Some(FieldView::Text(_)))
                ==> after.code_backend == config.code_backend
            &&& !(field_of(fields, "docs_backend"@) matches Some(FieldView::Text(_)))
                ==> after.docs_backend == config.docs_backend
            &&& !(field_of(fields, "context7_api_key"@) matches Some(FieldView::Text(_)))
                ==> after.context7_api_key == config.context7_api_key
            &&& !(field_of(fields, "sourcegraph_url"@) matches Some(FieldView::Text(_)))
                ==> after.sourcegraph_url == config.sourcegraph_url
            &&& !(field_of(fields, "github_token"@) matches Some(FieldView::Text(_)))
                ==> after.github_token == config.github_token
            &&& field_of(fields, "limit"@) matches Some(FieldView::Number(Some(n))) ==> after.limit
                == n as usize
            &&& !(field_of(fields, "limit"@) matches Some(FieldView::Number(Some(_))))
                ==> after.limit == config.limit
            &&& rules matches Some(list) ==> after.url_rewrites == list
            &&& rules is None ==> after.url_rewrites == config.url_rewrites
        }),
{
    lemma_text_field(fields, "backend"@, config.backend);
    lemma_text_field(fields, "searxng_url"@, config.searxng_url);
    lemma_text_field(fields, "brave_api_key"@, config.brave_api_key);
    lemma_text_field(fields, "exa_api_key"@, config.exa_api_key);
    lemma_text_field(fields, "cache_ttl"@, config.cache_ttl);
    lemma_text_field(fields, "browser"@, config.browser);
    lemma_text_field(fields, "code_backend"@, config.code_backend);
    lemma_text_field(fields, "docs_backend"@, config.docs_backend);
    lemma_text_field(fields, "context7_api_key"@, config.context7_api_key);
    lemma_text_field(fields, "sourcegraph_url"@, config.sourcegraph_url);
    lemma_text_field(fields, "github_token"@, config.github_token);
    lemma_field_at(fields, "limit"@, 0);
}

/// Where nothing is configured, DuckDuckGo, GitHub and Context7 are asked, five results are
/// shown, pages are fresh for three days, and there are no keys, rules and browser.
pub proof fn law_what_is_default()
    ensures
        defaults().backend == "ddg"@,
        defaults().code_backend == "github"@,
        defaults().docs_backend == "context7"@,
        defaults().limit == 5,
        defaults().cache_ttl == "72h"@,
        defaults().searxng_url == "http://localhost:8081"@,
        defaults().sourcegraph_url == "https://sourcegraph.com"@,
        defaults().brave_api_key.len() == 0,
        defaults().exa_api_key.len() == 0,
        defaults().context7_api_key.len() == 0,
        defaults().github_token.len() == 0,
        defaults().browser.len() == 0,
        defaults().url_rewrites.len() == 0,
{
}

/// Where no token is configured, the first of the environment that is not empty is used.
pub proof fn law_which_token_is_used(
    config: ConfigView,
    github_token: Option<Seq<char>>,
    gh_token: Option<Seq<char>>,
)
    requires
        config.github_token.len() == 0,
    ensures
        github_token matches Some(token) ==> token.len() > 0 ==> known_token(
            config,
            github_token,
            gh_token,
        ) == Some((token, "env"@)),
        github_token is None || github_token->0.len() == 0 ==> (gh_token matches Some(token)
            ==> token.len() > 0 ==> known_token(config, github_token, gh_token) == Some(
            (token, "env"@),
        )),
{
}

/// A token that the program writes out is used without white space around it; where it writes
/// nothing else or fails, there is none.
pub proof fn law_the_token_of_the_program(text: Seq<char>)
    ensures
        trimmed(text).len() > 0 ==> asked_token(Some(text)) == (trimmed(text), "gh-cli"@),
        trimmed(text).len() == 0 ==> asked_token(Some(text)) == (Seq::<char>::empty(), "none"@),
        asked_token(None) == (Seq::<char>::empty(), "none"@),
{
}

/// A directory that the environment names comes before that of the system.
pub proof fn law_named_directories_come_first(dir: Seq<char>, system: Option<Seq<char>>)
    ensures
        chosen_dir(Some(dir), system) == Some(dir),
        chosen_dir(None, system) == system,
{
}

/// The names of the services.
pub proof fn law_the_names_of_services()
    ensures
        SearchBackend::Brave.name() == "brave"@,
        SearchBackend::Ddg.name() == "ddg"@,
        SearchBackend::Searxng.name() == "searxng"@,
        SearchBackend::Exa.name() == "exa"@,
        CodeBackend::Grepapp.name() == "grepapp"@,
        CodeBackend::Sourcegraph.name() == "sourcegraph"@,
        CodeBackend::Github.name() == "github"@,
        DocsBackend::Context7.name() == "context7"@,
        DocsBackend::Local.name() == "local"@,
{
}

/// No two services of a kind have the same name.
pub proof fn law_names_tell_services_apart(
    a: SearchBackend,
    b: SearchBackend,
    c: CodeBackend,
    d: CodeBackend,
    e: DocsBackend,
    f: DocsBackend,
)
    ensures
        a.name() == b.name() ==> a == b,
        c.name() == d.name() ==> c == d,
        e.name() == f.name() ==> e == f,
{
    reveal_strlit("brave");
    reveal_strlit("ddg");
    reveal_strlit("searxng");
    reveal_strlit("exa");
    reveal_strlit("grepapp");
    reveal_strlit("sourcegraph");
    reveal_strlit("github");
    reveal_strlit("context7");
    reveal_strlit("local");
    assert("brave"@.len() == 5 && "ddg"@.len() == 3 && "searxng"@.len() == 7 && "exa"@.len() == 3);
    assert("ddg"@[0] == 'd' && "exa"@[0] == 'e');
    assert("grepapp"@.len() == 7 && "sourcegraph"@.len() == 11 && "github"@.len() == 6);
    assert("context7"@.len() == 8 && "local"@.len() == 5);
}

/// A configuration is seen as its fields are.
pub proof fn law_what_a_configuration_holds(record: AppConfig)
    ensures
        record@.backend == record.backend@,
        record@.searxng_url == record.searxng_url@,
        record@.brave_api_key == record.brave_api_key@,
        record@.exa_api_key == record.exa_api_key@,
        record@.cache_ttl == record.cache_ttl@,
        record@.browser == record.browser@,
        record@.code_backend == record.code_backend@,
        record@.docs_backend == record.docs_backend@,
        record@.context7_api_key == record.context7_api_key@,
        record@.sourcegraph_url == record.sourcegraph_url@,
        record@.github_token == record.github_token@,
        record@.limit == record.limit,
        record@.url_rewrites == rules_of(record.url_rewrites@),
{
}

/// What is said of a value that is none of the possible ones names both.
pub proof fn law_what_is_said_of_other_values(value: Seq<char>, names: Seq<char>)
    ensures
        invalid_value(value, names) == "invalid value '"@ + value + "' (possible values: "@ + names
            + ")"@,
{
}

} // verus!
