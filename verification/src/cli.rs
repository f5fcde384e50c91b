//! The command line: exit codes, where URLs come from, how the configuration is set,
//! and what the commands check before they start.

use vstd::prelude::*;

use crate::code_search::{first_line_from, first_nonblank, lemma_first_line};
use crate::config::{AppConfig, CodeBackend, ConfigView, DocsBackend, SearchBackend};
use crate::duration::{duration_of, parse_duration, Duration};
use crate::error::{AppError, ErrorView};
use crate::scrape::Scraper;
use crate::system::{quoted, quoted_of};
use crate::text::{
    begins, char_count, chars_of, decimal, drop_front, law_numbers_are_read_as_written, lines,
    lines_of, lowered, number_of, parse_number, same, starts_with, texts, to_ascii_lowercase, trim, trim_start, trimmed, white,
};
use crate::urlrewrite::{first_broken, rewritten, rules_of, Rewriter, Rule, RuleView};

verus! {

/// The exit code for wrong input.
pub const EXIT_VALIDATION: u8 = 2;

/// The exit code where something does not exist.
pub const EXIT_NOT_FOUND: u8 = 3;

/// The exit code where a service failed.
pub const EXIT_UPSTREAM: u8 = 4;

/// The exit code where something is not set up.
pub const EXIT_PRECONDITION: u8 = 5;

/// The exit code after a signal.
pub const EXIT_CANCELLED: u8 = 6;

/// How a command fails.
#[derive(Debug)]
pub struct CliError {
    pub code: u8,
    pub message: String,
}

/// The exit code for an error.
pub open spec fn exit_code(error: ErrorView) -> u8 {
    match error {
        ErrorView::Validation(_) => EXIT_VALIDATION,
        ErrorView::NotFound(_) => EXIT_NOT_FOUND,
        ErrorView::Upstream(_) => EXIT_UPSTREAM,
        ErrorView::Precondition(_) => EXIT_PRECONDITION,
        ErrorView::RegexUnsupported => EXIT_PRECONDITION,
    }
}

/// What is shown for an error.
pub open spec fn shown(error: ErrorView) -> Seq<char> {
    if error is RegexUnsupported {
        "backend does not support --regex"@
    } else {
        error.text()
    }
}

impl CliError {
    /// Whether this is the error with a code and a message.
    pub open spec fn reads(self, code: u8, message: Seq<char>) -> bool {
        self.code == code && self.message@ == message
    }

    pub fn validation(message: String) -> (r: Self)
        ensures
            r.reads(EXIT_VALIDATION, message@),
    {
        CliError { code: EXIT_VALIDATION, message }
    }

    pub fn not_found(message: String) -> (r: Self)
        ensures
            r.reads(EXIT_NOT_FOUND, message@),
    {
        CliError { code: EXIT_NOT_FOUND, message }
    }

    pub fn upstream(message: String) -> (r: Self)
        ensures
            r.reads(EXIT_UPSTREAM, message@),
    {
        CliError { code: EXIT_UPSTREAM, message }
    }

    pub fn precondition(message: String) -> (r: Self)
        ensures
            r.reads(EXIT_PRECONDITION, message@),
    {
        CliError { code: EXIT_PRECONDITION, message }
    }

    /// The command was interrupted by `signal`.
    pub fn cancelled(signal: &str) -> (r: Self)
        ensures
            r.reads(EXIT_CANCELLED, "cancelled by "@ + signal@),
    {
        let mut message = "cancelled by ".to_owned();
        message.append(signal);
        CliError { code: EXIT_CANCELLED, message }
    }

    /// How a command fails with `error`.
    pub fn from_error(error: AppError) -> (r: Self)
        ensures
            r.reads(exit_code(error@), shown(error@)),
    {
        match error {
            AppError::Validation(message) => CliError::validation(message),
            AppError::NotFound(message) => CliError::not_found(message),
            AppError::Upstream(message) => CliError::upstream(message),
            AppError::Precondition(message) => CliError::precondition(message),
            AppError::RegexUnsupported => CliError::precondition(
                "backend does not support --regex".to_owned(),
            ),
        }
    }

    /// How a command fails with `error`, where a failure of a service is one of
    /// `context`.
    pub fn in_context(error: AppError, context: &str) -> (r: Self)
        ensures
            r.reads(exit_code(error@), shown(error@.in_context(context@))),
    {
        CliError::from_error(error.with_upstream_context(context))
    }
}

/// How a code search with the service `backend` fails with `error`.
pub fn code_search_failure(error: AppError, backend: &str) -> (r: CliError)
    ensures
        error@ is RegexUnsupported ==> r.reads(
            EXIT_PRECONDITION,
            "backend "@ + backend@
                + " does not support --regex (try -b grepapp or -b sourcegraph)"@,
        ),
        error@ !is RegexUnsupported ==> r.reads(
            exit_code(error@),
            shown(error@.in_context("code search failed"@)),
        ),
{
    match error {
        AppError::RegexUnsupported => {
            let mut message = "backend ".to_owned();
            message.append(backend);
            message.append(" does not support --regex (try -b grepapp or -b sourcegraph)");
            CliError::precondition(message)
        },
        other => CliError::in_context(other, "code search failed"),
    }
}

/// Different kinds of errors end with different exit codes, except that a missing
/// search by regular expression counts as something that is not set up. No error ends
/// with the code of success or of a signal.
pub proof fn law_exit_codes_tell_errors_apart(a: ErrorView, b: ErrorView)
    ensures
        exit_code(a) == exit_code(b) <==> (a is Validation && b is Validation) || (a is NotFound
            && b is NotFound) || (a is Upstream && b is Upstream) || ((a is Precondition
            || a is RegexUnsupported) && (b is Precondition || b is RegexUnsupported)),
        exit_code(a) != 0,
        exit_code(a) != EXIT_CANCELLED,
{
}

/// The commands.
#[derive(Debug, Clone, Copy, PartialEq, Eq, Structural)]
pub enum Command {
    Search,
    Code,
    Docs,
    Scrape,
    Crawl,
    Browser,
    Config,
    Cache,
    Version,
    Root,
}

impl Command {
    /// The name of the command.
    pub open spec fn name(self) -> Seq<char> {
        match self {
            Command::Search => "search"@,
            Command::Code => "code"@,
            Command::Docs => "docs"@,
            Command::Scrape => "scrape"@,
            Command::Crawl => "crawl"@,
            Command::Browser => "browser"@,
            Command::Config => "config"@,
            Command::Cache => "cache"@,
            Command::Version => "version"@,
            Command::Root => "root"@,
        }
    }
}

/// The name of a command.
pub fn command_name(command: Command) -> (r: &'static str)
    ensures
        r@ == command.name(),
{
    match command {
        Command::Search => "search",
        Command::Code => "code",
        Command::Docs => "docs",
        Command::Scrape => "scrape",
        Command::Crawl => "crawl",
        Command::Browser => "browser",
        Command::Config => "config",
        Command::Cache => "cache",
        Command::Version => "version",
        Command::Root => "root",
    }
}

/// Whether a value of the environment says that this is an automatic run.
pub open spec fn automatic(ci: Seq<char>) -> bool {
    lowered(trimmed(ci)) == "1"@ || lowered(trimmed(ci)) == "true"@
}

/// Whether no notice of a newer release is given.
pub open spec fn gives_no_notice(
    as_json: bool,
    off: bool,
    terminal: bool,
    command: Command,
    ci: Seq<char>,
) -> bool {
    as_json || off || !terminal || command is Version || automatic(ci)
}

/// Whether no notice of a newer release is given: not with JSON, where notices are
/// switched off, where nobody reads the terminal, for the version itself, nor in an
/// automatic run.
pub fn should_skip_passive_update_notice(
    as_json: bool,
    off: bool,
    terminal: bool,
    command: Command,
    ci: &str,
) -> (r: bool)
    ensures
        r == gives_no_notice(as_json, off, terminal, command, ci@),
        r == (as_json || off || !terminal || command is Version || automatic(ci@)),
{
    if as_json || off || !terminal {
        return true;
    }
    if let Command::Version = command {
        return true;
    }
    let ci = to_ascii_lowercase(trim(ci).as_str());
    same(ci.as_str(), "1") || same(ci.as_str(), "true")
}

/// Whether a command takes care of signals itself: a crawl in its own process, or one
/// in the foreground.
pub fn handles_shutdown_signal_in_command(
    worker: bool,
    command: Command,
    subcommand: bool,
    background: bool,
) -> (r: bool)
    ensures
        r == (worker || (command is Crawl && !subcommand && !background)),
{
    if worker {
        return true;
    }
    match command {
        Command::Crawl => !subcommand && !background,
        _ => false,
    }
}

/// A value that has to be one at least.
pub fn validate_at_least_one(name: &str, value: usize) -> (r: Result<(), CliError>)
    ensures
        match r {
            Ok(_) => value > 0,
            Err(e) => value == 0 && e.reads(EXIT_VALIDATION, name@ + " must be at least 1"@),
        },
{
    if value == 0 {
        let mut message = name.to_owned();
        message.append(" must be at least 1");
        return Err(CliError::validation(message));
    }
    Ok(())
}

/// The seed of a crawl, which has to be given.
pub fn crawl_seed(url: Option<String>) -> (r: Result<String, CliError>)
    ensures
        match r {
            Ok(seed) => url matches Some(text) && seed@ == text@,
            Err(e) => url is None && e.reads(EXIT_VALIDATION, "provide a URL for crawl"@),
        },
{
    match url {
        Some(url) => Ok(url),
        None => Err(CliError::validation("provide a URL for crawl".to_owned())),
    }
}

/// The first line that is not blank, trimmed; empty where there is none.
pub open spec fn first_line_of(input: Seq<char>) -> Seq<char> {
    first_line_from(lines_of(input), 0, seq![])
}

/// The first line of `input` that is not blank.
pub fn first_line(input: &str) -> (r: String)
    ensures
        r@ == first_line_of(input@),
{
    first_nonblank(&lines(input), String::new())
}

/// The lines from `i` on that are neither blank nor comments, trimmed.
pub open spec fn entries_from(lines: Seq<Seq<char>>, i: int) -> Seq<Seq<char>>
    decreases lines.len() - i,
{
    if i < 0 || i >= lines.len() {
        seq![]
    } else {
        let line = trimmed(lines[i]);
        let rest = entries_from(lines, i + 1);
        if line.len() > 0 && line[0] != '#' {
            seq![line] + rest
        } else {
            rest
        }
    }
}

/// The lines of a text that are neither blank nor comments, trimmed.
pub open spec fn entries_of(input: Seq<char>) -> Seq<Seq<char>> {
    entries_from(lines_of(input), 0)
}

/// The lines of `input` that are neither blank nor comments.
pub fn read_lines(input: &str) -> (r: Vec<String>)
    ensures
        texts(r@) == entries_of(input@),
{
    let all = lines(input);
    let ghost view = texts(all@);
    let mut out: Vec<String> = Vec::new();
    let mut i: usize = 0;
    assert(texts(out@) + entries_from(view, 0) =~= entries_from(view, 0));
    while i < all.len()
        invariant
            view == texts(all@),
            i <= all@.len(),
            texts(out@) + entries_from(view, i as int) == entries_from(view, 0),
        decreases all@.len() - i,
    {
        let line = trim(all[i].as_str());
        let chars = chars_of(line.as_str());
        let ghost before = texts(out@);
        let ghost rest = entries_from(view, i + 1);
        if chars.len() > 0 && chars[0] != '#' {
            let ghost entry = line@;
            out.push(line);
            assert(texts(out@) =~= before.push(entry));
            assert(texts(out@) + rest =~= before + (seq![entry] + rest));
        }
        i += 1;
    }
    assert(texts(out@) + entries_from(view, i as int) =~= texts(out@));
    out
}

/// What is read of a text, or why it cannot be read.
pub open spec fn read_of(contents: Result<String, String>) -> Result<Seq<char>, Seq<char>> {
    match contents {
        Ok(text) => Ok(text@),
        Err(message) => Err(message@),
    }
}

/// The list of texts that a text denotes in JSON, or why it denotes none.
pub uninterp spec fn json_list(text: Seq<char>) -> Result<Seq<Seq<char>>, Seq<char>>;

/// `serde_json::from_str` into a list of texts, with the error in words.
#[verifier::external_body]
pub(crate) fn parse_list(text: &str) -> (r: Result<Vec<String>, String>)
    ensures
        match r {
            Ok(list) => json_list(text@) == Ok::<Seq<Seq<char>>, Seq<char>>(texts(list@)),
            Err(message) => json_list(text@) == Err::<Seq<Seq<char>>, Seq<char>>(message@),
        },
{
    serde_json::from_str::<Vec<String>>(text).map_err(|error| error.to_string())
}

/// Where URLs come from.
#[derive(Debug)]
pub enum UrlSource {
    /// They are given.
    Given(Vec<String>),
    /// From a file, if there is one with this name; else it is the URL.
    File(String),
    /// From the standard input.
    Stdin,
}

/// Whether an argument is a JSON list.
pub open spec fn looks_like_json(arg: Seq<char>) -> bool {
    begins(drop_front(arg, white()), "["@)
}

/// The URLs of a JSON list, where `list` is what was read of it.
pub open spec fn listed(list: Result<Seq<Seq<char>>, Seq<char>>) -> Result<Seq<Seq<char>>, Seq<char>> {
    match list {
        Err(message) => Err("failed to parse JSON array: "@ + message),
        Ok(urls) => if urls.len() == 0 {
            Err("JSON array is empty"@)
        } else {
            Ok(urls)
        },
    }
}

/// The URLs of a JSON list, where `list` is what was read of it.
pub fn urls_of_list(list: Result<Vec<String>, String>) -> (r: Result<Vec<String>, CliError>)
    ensures
        ({
            let read = match list {
                Ok(urls) => Ok(texts(urls@)),
                Err(message) => Err(message@),
            };
            match r {
                Ok(urls) => listed(read) == Ok::<Seq<Seq<char>>, Seq<char>>(texts(urls@)),
                Err(e) => e.code == EXIT_VALIDATION && listed(read) == Err::<
                    Seq<Seq<char>>,
                    Seq<char>,
                >(e.message@),
            }
        }),
{
    match list {
        Err(error) => {
            let mut message = "failed to parse JSON array: ".to_owned();
            message.append(error.as_str());
            Err(CliError::validation(message))
        },
        Ok(urls) => {
            if urls.len() == 0 {
                return Err(CliError::validation("JSON array is empty".to_owned()));
            }
            Ok(urls)
        },
    }
}

/// Where the URLs of the arguments come from. Two arguments or more are URLs. One may
/// be a list in JSON, the name of a file, or a URL. Without any they are read from the
/// standard input.
pub fn url_source(args: &Vec<String>) -> (r: Result<UrlSource, CliError>)
    ensures
        args@.len() > 1 ==> (r matches Ok(UrlSource::Given(urls)) && texts(urls@) == texts(args@)),
        args@.len() == 0 ==> r == Ok::<UrlSource, CliError>(UrlSource::Stdin),
        args@.len() == 1 && !looks_like_json(args@[0]@) ==> (r matches Ok(UrlSource::File(name))
            && name@ == args@[0]@),
        args@.len() == 1 && looks_like_json(args@[0]@) ==> match r {
            Ok(UrlSource::Given(urls)) => listed(json_list(args@[0]@)) == Ok::<
                Seq<Seq<char>>,
                Seq<char>,
            >(texts(urls@)),
            Ok(_) => false,
            Err(e) => e.code == EXIT_VALIDATION && listed(json_list(args@[0]@)) == Err::<
                Seq<Seq<char>>,
                Seq<char>,
            >(e.message@),
        },
{
    if args.len() > 1 {
        return Ok(UrlSource::Given(copy_texts(args)));
    }
    if args.len() == 0 {
        return Ok(UrlSource::Stdin);
    }
    let arg = args[0].as_str();
    if starts_with(trim_start(arg).as_str(), "[") {
        return match urls_of_list(parse_list(arg)) {
            Ok(urls) => Ok(UrlSource::Given(urls)),
            Err(e) => Err(e),
        };
    }
    Ok(UrlSource::File(arg.to_owned()))
}

/// A copy of a list of texts.
pub fn copy_texts(list: &Vec<String>) -> (r: Vec<String>)
    ensures
        texts(r@) == texts(list@),
{
    let mut out: Vec<String> = Vec::new();
    let mut i: usize = 0;
    while i < list.len()
        invariant
            i <= list@.len(),
            out@.len() == i,
            forall|k: int| 0 <= k < i ==> (#[trigger] out@[k])@ == list@[k]@,
        decreases list@.len() - i,
    {
        out.push(list[i].clone());
        i += 1;
    }
    assert(texts(out@) =~= texts(list@));
    out
}

/// The URLs for an argument, where `contents` is what was read of the file with this
/// name, if there is one.
pub open spec fn filed(
    arg: Seq<char>,
    contents: Option<Result<Seq<char>, Seq<char>>>,
) -> Result<Seq<Seq<char>>, Seq<char>> {
    match contents {
        None => Ok(seq![arg]),
        Some(Err(message)) => Err("failed to open "@ + arg + ": "@ + message),
        Some(Ok(text)) => if entries_of(text).len() == 0 {
            Err("file "@ + quoted_of(arg) + " contains no URLs"@)
        } else {
            Ok(entries_of(text))
        },
    }
}

/// The URLs for the argument `arg`, where `contents` is what was read of the file with
/// this name, if there is one.
pub fn file_urls(arg: &str, contents: Option<Result<String, String>>) -> (r: Result<
    Vec<String>,
    CliError,
>)
    ensures
        ({
            let read = match contents {
                Some(contents) => Some(read_of(contents)),
                None => None,
            };
            match r {
                Ok(urls) => filed(arg@, read) == Ok::<Seq<Seq<char>>, Seq<char>>(texts(urls@)),
                Err(e) => e.code == EXIT_VALIDATION && filed(arg@, read) == Err::<
                    Seq<Seq<char>>,
                    Seq<char>,
                >(e.message@),
            }
        }),
{
    match contents {
        None => {
            let mut urls: Vec<String> = Vec::new();
            urls.push(arg.to_owned());
            assert(texts(urls@) =~= seq![arg@]);
            Ok(urls)
        },
        Some(Err(error)) => {
            let mut message = "failed to open ".to_owned();
            message.append(arg);
            message.append(": ");
            message.append(error.as_str());
            Err(CliError::validation(message))
        },
        Some(Ok(text)) => {
            let urls = read_lines(text.as_str());
            assert(texts(urls@).len() == urls@.len());
            if urls.len() == 0 {
                let mut message = "file ".to_owned();
                message.append(quoted(arg).as_str());
                message.append(" contains no URLs");
                return Err(CliError::validation(message));
            }
            Ok(urls)
        },
    }
}

/// The URLs of the standard input, where `input` is what was read of it, if it is not
/// a terminal.
pub open spec fn piped(input: Option<Result<Seq<char>, Seq<char>>>) -> Result<
    Seq<Seq<char>>,
    Seq<char>,
> {
    match input {
        Some(Err(message)) => Err("failed to read stdin: "@ + message),
        Some(Ok(text)) if entries_of(text).len() > 0 => Ok(entries_of(text)),
        _ => Err("provide a URL, file path, JSON array, or pipe URLs via stdin"@),
    }
}

/// The URLs of the standard input, where `input` is what was read of it, if it is not
/// a terminal.
pub fn stdin_urls(input: Option<Result<String, String>>) -> (r: Result<Vec<String>, CliError>)
    ensures
        ({
            let read = match input {
                Some(input) => Some(read_of(input)),
                None => None,
            };
            match r {
                Ok(urls) => piped(read) == Ok::<Seq<Seq<char>>, Seq<char>>(texts(urls@)),
                Err(e) => e.code == EXIT_VALIDATION && piped(read) == Err::<
                    Seq<Seq<char>>,
                    Seq<char>,
                >(e.message@),
            }
        }),
{
    match input {
        Some(Err(error)) => {
            let mut message = "failed to read stdin: ".to_owned();
            message.append(error.as_str());
            return Err(CliError::validation(message));
        },
        Some(Ok(text)) => {
            let urls = read_lines(text.as_str());
            assert(texts(urls@).len() == urls@.len());
            if urls.len() > 0 {
                return Ok(urls);
            }
        },
        None => {},
    }
    Err(
        CliError::validation(
            "provide a URL, file path, JSON array, or pipe URLs via stdin".to_owned(),
        ),
    )
}

proof fn lemma_entries(lines: Seq<Seq<char>>, i: int)
    ensures
        forall|k: int|
            0 <= k < entries_from(lines, i).len() ==> (#[trigger] entries_from(lines, i)[k]).len()
                > 0 && entries_from(lines, i)[k][0] != '#',
    decreases lines.len() - i,
{
    if 0 <= i < lines.len() {
        lemma_entries(lines, i + 1);
        let rest = entries_from(lines, i + 1);
        let all = entries_from(lines, i);
        assert forall|k: int| 0 <= k < all.len() implies (#[trigger] all[k]).len() > 0
            && all[k][0] != '#' by {
            if all.len() > rest.len() && k > 0 {
                assert(all[k] == rest[k - 1]);
            } else if all.len() == rest.len() {
                assert(all[k] == rest[k]);
            }
        }
    }
}

/// Whatever a file or the standard input holds, no URL of it is blank or a comment,
/// and there is at least one.
pub proof fn law_no_url_is_blank_or_a_comment(text: Seq<char>, arg: Seq<char>, k: int)
    requires
        0 <= k < entries_of(text).len(),
    ensures
        entries_of(text)[k].len() > 0,
        entries_of(text)[k][0] != '#',
        filed(arg, Some(Ok(text))) == Ok::<Seq<Seq<char>>, Seq<char>>(entries_of(text)),
        piped(Some(Ok(text))) == Ok::<Seq<Seq<char>>, Seq<char>>(entries_of(text)),
{
    lemma_entries(lines_of(text), 0);
}

/// How long pages in the cache are fresh, in nanoseconds.
pub open spec fn fresh_for(cache_ttl: Seq<char>) -> int {
    match duration_of(cache_ttl) {
        Ok(nanos) => nanos,
        Err(_) => 3_600_000_000_000,
    }
}

/// How long pages in the cache are fresh: an hour where the configuration does not
/// say it.
pub fn page_ttl(cache_ttl: &str) -> (r: Duration)
    ensures
        r.in_nanos() == fresh_for(cache_ttl@),
        r.valid(),
        r.in_nanos() == (match duration_of(cache_ttl@) {
            Ok(nanos) => nanos,
            Err(_) => 3_600_000_000_000,
        }),
{
    match parse_duration(cache_ttl) {
        Ok(ttl) => ttl,
        Err(_) => Duration::from_secs(3600),
    }
}

/// The scraper for a configuration.
pub fn new_scraper(config: &AppConfig) -> (r: Result<Scraper, CliError>)
    ensures
        match r {
            Ok(scraper) => {
                &&& config@.url_rewrites.len() == 0 || first_broken(config@.url_rewrites, 0) is None
                &&& scraper.browser_name() == config@.browser
                &&& forall|url: Seq<char>| #[trigger] scraper.target(url) == rewritten(config@.url_rewrites, url)
            },
            Err(e) => first_broken(config@.url_rewrites, 0) matches Some(broken) && e.reads(
                EXIT_PRECONDITION,
                "invalid url_rewrites: "@ + ("url_rewrites["@ + decimal(broken.0) + "]: "@
                    + broken.1),
            ),
        },
{
    match Rewriter::new(config.url_rewrites.as_slice()) {
        Ok(rewriter) => Ok(Scraper::new(config.browser.clone(), rewriter)),
        Err(error) => {
            let mut message = "invalid url_rewrites: ".to_owned();
            message.append(error.as_str());
            Err(CliError::precondition(message))
        },
    }
}

/// A code search with GitHub needs a token.
pub fn check_github_token(token: &str) -> (r: Result<(), CliError>)
    ensures
        match r {
            Ok(_) => token@.len() > 0,
            Err(e) => token@.len() == 0 && e.reads(
                EXIT_PRECONDITION,
                "github code search: no token found.\n  - explicit:   snarf config set github_token <token>\n  - env var:    export GITHUB_TOKEN=<token>\n  - or run:     gh auth login"@,
            ),
        },
{
    if char_count(token) == 0 {
        return Err(
            CliError::precondition(
                "github code search: no token found.\n  - explicit:   snarf config set github_token <token>\n  - env var:    export GITHUB_TOKEN=<token>\n  - or run:     gh auth login".to_owned(),
            ),
        );
    }
    Ok(())
}

/// Whether the documentation of a library is fetched without a search for it.
pub fn fetches_library(library: &str, backend: &str) -> (r: bool)
    ensures
        r == (library@.len() > 0 && backend@ == "context7"@),
{
    char_count(library) > 0 && same(backend, "context7")
}

/// A configuration file is written only where there is none.
pub fn check_init(path: &str, exists: bool) -> (r: Result<(), CliError>)
    ensures
        match r {
            Ok(_) => !exists,
            Err(e) => exists && e.reads(EXIT_PRECONDITION, "config already exists: "@ + path@),
        },
{
    if exists {
        let mut message = "config already exists: ".to_owned();
        message.append(path);
        return Err(CliError::precondition(message));
    }
    Ok(())
}

/// What is said of a key that there is not.
pub open spec fn unknown_key(key: Seq<char>) -> Seq<char> {
    "unknown key: "@ + key
        + " (valid: backend, searxng_url, brave_api_key, exa_api_key, limit, cache_ttl, browser, code_backend, docs_backend, context7_api_key, sourcegraph_url, github_token, url_rewrites)"@
}

/// A backend that is set, or what is said of a value that is none.
pub open spec fn set_backend(names: Seq<char>, known: bool, value: Seq<char>) -> Result<
    Seq<char>,
    Seq<char>,
> {
    if known {
        Ok(value)
    } else {
        Err(crate::config::invalid_value(value, names))
    }
}

/// Whether a value names a web search service.
pub open spec fn is_search(value: Seq<char>) -> bool {
    value == "brave"@ || value == "ddg"@ || value == "searxng"@ || value == "exa"@
}

/// Whether a value names a code search service.
pub open spec fn is_code(value: Seq<char>) -> bool {
    value == "grepapp"@ || value == "sourcegraph"@ || value == "github"@
}

/// Whether a value names a documentation search service.
pub open spec fn is_docs(value: Seq<char>) -> bool {
    value == "context7"@ || value == "local"@
}

/// The rules that are set, or what is said of those that cannot be.
pub open spec fn set_rules(rules: Result<Seq<RuleView>, Seq<char>>) -> Result<
    Seq<RuleView>,
    Seq<char>,
> {
    match rules {
        Err(message) => Err("url_rewrites must be a JSON array of {match, replace}: "@ + message),
        Ok(rules) => match first_broken(rules, 0) {
            Some(broken) => Err("url_rewrites["@ + decimal(broken.0) + "]: "@ + broken.1),
            None => Ok(rules),
        },
    }
}

/// A configuration with a value set, or why it cannot be set. `rules` is what the value
/// is as a list of rules.
pub open spec fn configured(
    config: ConfigView,
    key: Seq<char>,
    value: Seq<char>,
    rules: Result<Seq<RuleView>, Seq<char>>,
) -> Result<ConfigView, Seq<char>> {
    if key == "backend"@ {
        match set_backend("brave, ddg, searxng, exa"@, is_search(value), value) {
            Ok(value) => Ok(ConfigView { backend: value, ..config }),
            Err(message) => Err(message),
        }
    } else if key == "searxng_url"@ {
        Ok(ConfigView { searxng_url: value, ..config })
    } else if key == "brave_api_key"@ {
        Ok(ConfigView { brave_api_key: value, ..config })
    } else if key == "exa_api_key"@ {
        Ok(ConfigView { exa_api_key: value, ..config })
    } else if key == "limit"@ {
        match number_of(value, usize::MAX as nat) {
            Ok(limit) => Ok(ConfigView { limit: limit as usize, ..config }),
            Err(e) => Err("limit must be an integer: "@ + e.text()),
        }
    } else if key == "cache_ttl"@ {
        match duration_of(value) {
            Ok(_) => Ok(ConfigView { cache_ttl: value, ..config }),
            Err(e) => Err("cache_ttl must be a duration (e.g. 1h, 30m): "@ + e.text()),
        }
    } else if key == "browser"@ {
        Ok(ConfigView { browser: value, ..config })
    } else if key == "code_backend"@ {
        match set_backend("grepapp, sourcegraph, github"@, is_code(value), value) {
            Ok(value) => Ok(ConfigView { code_backend: value, ..config }),
            Err(message) => Err(message),
        }
    } else if key == "docs_backend"@ {
        match set_backend("context7, local"@, is_docs(value), value) {
            Ok(value) => Ok(ConfigView { docs_backend: value, ..config }),
            Err(message) => Err(message),
        }
    } else if key == "context7_api_key"@ {
        Ok(ConfigView { context7_api_key: value, ..config })
    } else if key == "sourcegraph_url"@ {
        Ok(ConfigView { sourcegraph_url: value, ..config })
    } else if key == "github_token"@ {
        Ok(ConfigView { github_token: value, ..config })
    } else if key == "url_rewrites"@ {
        match set_rules(rules) {
            Ok(rules) => Ok(ConfigView { url_rewrites: rules, ..config }),
            Err(message) => Err(message),
        }
    } else {
        Err(unknown_key(key))
    }
}

/// What a list of rules is, or why there is none.
pub open spec fn rules_read(rules: Result<Vec<Rule>, String>) -> Result<Seq<RuleView>, Seq<char>> {
    match rules {
        Ok(rules) => Ok(rules_of(rules@)),
        Err(message) => Err(message@),
    }
}

fn bad_value(what: &str, error: &str) -> (r: CliError)
    ensures
        r.reads(EXIT_VALIDATION, what@ + error@),
{
    let mut message = what.to_owned();
    message.append(error);
    CliError::validation(message)
}

/// Sets the value of `key`; a value that cannot be set changes nothing. `rules` is what
/// `value` is as a list of rewriting rules in JSON, or why it is none.
pub fn apply_config_set(
    config: &mut AppConfig,
    key: &str,
    value: &str,
    rules: Result<Vec<Rule>, String>,
) -> (r: Result<(), CliError>)
    ensures
        match r {
            Ok(_) => configured(old(config)@, key@, value@, rules_read(rules)) == Ok::<
                ConfigView,
                Seq<char>,
            >(final(config)@),
            Err(e) => {
                &&& final(config)@ == old(config)@
                &&& e.code == EXIT_VALIDATION
                &&& configured(old(config)@, key@, value@, rules_read(rules)) == Err::<
                    ConfigView,
                    Seq<char>,
                >(e.message@)
            },
        },
{
    if same(key, "backend") {
        assert(SearchBackend::Brave.name() == "brave"@ && SearchBackend::Ddg.name() == "ddg"@
            && SearchBackend::Searxng.name() == "searxng"@ && SearchBackend::Exa.name() == "exa"@);
        match SearchBackend::parse(value) {
            Ok(backend) => {
                config.backend = backend.as_str().to_owned();
            },
            Err(message) => {
                return Err(CliError::validation(message));
            },
        }
    } else if same(key, "searxng_url") {
        config.searxng_url = value.to_owned();
    } else if same(key, "brave_api_key") {
        config.brave_api_key = value.to_owned();
    } else if same(key, "exa_api_key") {
        config.exa_api_key = value.to_owned();
    } else if same(key, "limit") {
        match parse_number(value, usize::MAX as u64) {
            Ok(limit) => {
                config.limit = limit as usize;
            },
            Err(e) => {
                return Err(bad_value("limit must be an integer: ", e.message().as_str()));
            },
        }
    } else if same(key, "cache_ttl") {
        match parse_duration(value) {
            Ok(_) => {
                config.cache_ttl = value.to_owned();
            },
            Err(e) => {
                return Err(
                    bad_value(
                        "cache_ttl must be a duration (e.g. 1h, 30m): ",
                        e.message().as_str(),
                    ),
                );
            },
        }
    } else if same(key, "browser") {
        config.browser = value.to_owned();
    } else if same(key, "code_backend") {
        assert(CodeBackend::Grepapp.name() == "grepapp"@ && CodeBackend::Sourcegraph.name()
            == "sourcegraph"@ && CodeBackend::Github.name() == "github"@);
        match CodeBackend::parse(value) {
            Ok(backend) => {
                config.code_backend = backend.as_str().to_owned();
            },
            Err(message) => {
                return Err(CliError::validation(message));
            },
        }
    } else if same(key, "docs_backend") {
        assert(DocsBackend::Context7.name() == "context7"@ && DocsBackend::Local.name()
            == "local"@);
        match DocsBackend::parse(value) {
            Ok(backend) => {
                config.docs_backend = backend.as_str().to_owned();
            },
            Err(message) => {
                return Err(CliError::validation(message));
            },
        }
    } else if same(key, "context7_api_key") {
        config.context7_api_key = value.to_owned();
    } else if same(key, "sourcegraph_url") {
        config.sourcegraph_url = value.to_owned();
    } else if same(key, "github_token") {
        config.github_token = value.to_owned();
    } else if same(key, "url_rewrites") {
        match rules {
            Ok(rules) => {
                if let Err(message) = Rewriter::new(rules.as_slice()) {
                    return Err(CliError::validation(message));
                }
                config.url_rewrites = rules;
            },
            Err(error) => {
                return Err(
                    bad_value(
                        "url_rewrites must be a JSON array of {match, replace}: ",
                        error.as_str(),
                    ),
                );
            },
        }
    } else {
        let mut message = "unknown key: ".to_owned();
        message.append(key);
        message.append(
            " (valid: backend, searxng_url, brave_api_key, exa_api_key, limit, cache_ttl, browser, code_backend, docs_backend, context7_api_key, sourcegraph_url, github_token, url_rewrites)",
        );
        return Err(CliError::validation(message));
    }
    Ok(())
}

/// What is shown of the configuration.
#[derive(Debug)]
pub struct ConfigInfo {
    pub config_path: String,
    pub backend: String,
    pub searxng_url: String,
    pub limit: usize,
    pub cache_ttl: String,
    pub browser: String,
    pub code_backend: String,
    pub docs_backend: String,
    pub sourcegraph_url: String,
    /// Where the token for GitHub is from; the token itself is not shown.
    pub github_token_source: String,
    pub url_rewrites: Vec<Rule>,
}

/// What is shown of `config`, which is stored at `path`; `token_source` says where the
/// token for GitHub is from.
pub fn config_info(config: &AppConfig, path: String, token_source: String) -> (r: ConfigInfo)
    ensures
        r.config_path@ == path@,
        r.backend@ == config@.backend,
        r.searxng_url@ == config@.searxng_url,
        r.limit == config@.limit,
        r.cache_ttl@ == config@.cache_ttl,
        r.browser@ == config@.browser,
        r.code_backend@ == config@.code_backend,
        r.docs_backend@ == config@.docs_backend,
        r.sourcegraph_url@ == config@.sourcegraph_url,
        r.github_token_source@ == token_source@,
        rules_of(r.url_rewrites@) == config@.url_rewrites,
{
    ConfigInfo {
        config_path: path,
        backend: config.backend.clone(),
        searxng_url: config.searxng_url.clone(),
        limit: config.limit,
        cache_ttl: config.cache_ttl.clone(),
        browser: config.browser.clone(),
        code_backend: config.code_backend.clone(),
        docs_backend: config.docs_backend.clone(),
        sourcegraph_url: config.sourcegraph_url.clone(),
        github_token_source: token_source,
        url_rewrites: crate::urlrewrite::copy_rules(config.url_rewrites.as_slice()),
    }
}

/// The backend of a configuration that is set stays a known one: what can be set for
/// it names a service.
pub proof fn law_set_backends_are_known(
    config: ConfigView,
    value: Seq<char>,
    rules: Result<Seq<RuleView>, Seq<char>>,
)
    ensures
        configured(config, "backend"@, value, rules) is Ok <==> is_search(value),
        configured(config, "code_backend"@, value, rules) is Ok <==> is_code(value),
        configured(config, "docs_backend"@, value, rules) is Ok <==> is_docs(value),
{
    reveal_strlit("backend");
    reveal_strlit("code_backend");
    reveal_strlit("docs_backend");
    reveal_strlit("searxng_url");
    reveal_strlit("brave_api_key");
    reveal_strlit("exa_api_key");
    reveal_strlit("limit");
    reveal_strlit("cache_ttl");
    reveal_strlit("browser");
    assert("backend"@.len() == 7 && "code_backend"@.len() == 12 && "docs_backend"@.len() == 12);
    assert("code_backend"@[0] == 'c' && "docs_backend"@[0] == 'd');
    assert("searxng_url"@.len() == 11 && "brave_api_key"@.len() == 13 && "exa_api_key"@.len() == 11
        && "limit"@.len() == 5 && "cache_ttl"@.len() == 9 && "browser"@.len() == 7);
}

/// To set a value twice is to set it once.
pub proof fn law_setting_twice_is_setting_once(
    config: ConfigView,
    key: Seq<char>,
    value: Seq<char>,
    rules: Result<Seq<RuleView>, Seq<char>>,
)
    ensures
        configured(config, key, value, rules) matches Ok(once) ==> configured(
            once,
            key,
            value,
            rules,
        ) == Ok::<ConfigView, Seq<char>>(once),
{
}

/// Whether a scrape goes past the cache.
pub open spec fn goes_past_the_cache(no_cache: bool, raw: bool, select: Seq<char>) -> bool {
    no_cache || raw || select.len() > 0
}

/// Whether the pages of a scrape are kept in the cache: not where the caller says so,
/// nor for sources or parts of pages.
pub fn bypasses_cache(no_cache: bool, raw: bool, select: &str) -> (r: bool)
    ensures
        r == goes_past_the_cache(no_cache, raw, select@),
        r == (no_cache || raw || select@.len() > 0),
{
    no_cache || raw || char_count(select) > 0
}

/// The exit codes: two for wrong input, three where something does not exist, four where a
/// service failed, five where something is not set up.
pub proof fn law_the_exit_codes(message: Seq<char>)
    ensures
        exit_code(ErrorView::Validation(message)) == 2,
        exit_code(ErrorView::NotFound(message)) == 3,
        exit_code(ErrorView::Upstream(message)) == 4,
        exit_code(ErrorView::Precondition(message)) == 5,
        exit_code(ErrorView::RegexUnsupported) == 5,
        EXIT_CANCELLED == 6,
{
}

/// What is shown for an error is its message.
pub proof fn law_errors_show_their_message(message: Seq<char>)
    ensures
        shown(ErrorView::Validation(message)) == message,
        shown(ErrorView::NotFound(message)) == message,
        shown(ErrorView::Upstream(message)) == message,
        shown(ErrorView::Precondition(message)) == message,
        shown(ErrorView::RegexUnsupported) == "backend does not support --regex"@,
{
}

/// The names of the commands.
pub proof fn law_the_names_of_commands()
    ensures
        Command::Search.name() == "search"@,
        Command::Code.name() == "code"@,
        Command::Docs.name() == "docs"@,
        Command::Scrape.name() == "scrape"@,
        Command::Crawl.name() == "crawl"@,
        Command::Browser.name() == "browser"@,
        Command::Config.name() == "config"@,
        Command::Cache.name() == "cache"@,
        Command::Version.name() == "version"@,
        Command::Root.name() == "root"@,
{
}

/// A run is automatic where the environment says `1` or `true`, in capitals or small letters
/// and with or without white space around it, and else not.
pub proof fn law_automatic_runs(ci: Seq<char>)
    ensures
        automatic(ci) <==> trimmed(ci) == seq!['1'] || lowered(trimmed(ci)) == seq![
            't',
            'r',
            'u',
            'e',
        ],
{
    reveal_strlit("1");
    reveal_strlit("true");
    assert("1"@ =~= seq!['1']);
    assert("true"@ =~= seq!['t', 'r', 'u', 'e']);
    let text = trimmed(ci);
    if text == seq!['1'] {
        assert(lowered(text) =~= seq!['1']);
    }
    if lowered(text) == seq!['1'] {
        assert(lowered(text)[0] == '1');
        if 'A' <= text[0] <= 'Z' {
            assert(lowered(text)[0] as int == text[0] as int + 32);
        }
        assert(text =~= seq!['1']);
    }
}

/// The first line of an input is the first that is not blank, without white space around it.
pub proof fn law_the_first_line_of_an_input(input: Seq<char>, k: int)
    requires
        0 <= k <= lines_of(input).len(),
        forall|j: int| 0 <= j < k ==> trimmed(#[trigger] lines_of(input)[j]).len() == 0,
        k < lines_of(input).len() ==> trimmed(lines_of(input)[k]).len() > 0,
    ensures
        k < lines_of(input).len() ==> first_line_of(input) == trimmed(lines_of(input)[k]),
        k == lines_of(input).len() ==> first_line_of(input).len() == 0,
{
    lemma_first_line(lines_of(input), 0, k, seq![]);
}

proof fn lemma_entries_from(lines: Seq<Seq<char>>, line: Seq<char>, i: int)
    requires
        0 <= i <= lines.len(),
    ensures
        entries_from(lines.push(line), i) == entries_from(lines, i) + (if trimmed(line).len() > 0
            && trimmed(line)[0] != '#' {
            seq![trimmed(line)]
        } else {
            seq![]
        }),
    decreases lines.len() - i,
{
    reveal_with_fuel(entries_from, 2);
    let more = lines.push(line);
    if i < lines.len() {
        assert(more[i] == lines[i]);
        lemma_entries_from(lines, line, i + 1);
    } else {
        assert(more[i] == line);
    }
    assert(entries_from(more, i) =~= entries_from(lines, i) + (if trimmed(line).len() > 0
        && trimmed(line)[0] != '#' {
        seq![trimmed(line)]
    } else {
        seq![]
    }));
}

/// Each line of a file that is neither blank nor a comment is a URL, in their order and
/// without white space around them.
pub proof fn law_each_line_is_a_url(lines: Seq<Seq<char>>, line: Seq<char>)
    ensures
        entries_from(seq![], 0) == Seq::<Seq<char>>::empty(),
        entries_from(lines.push(line), 0) == (if trimmed(line).len() > 0 && trimmed(line)[0]
            != '#' {
            entries_from(lines, 0).push(trimmed(line))
        } else {
            entries_from(lines, 0)
        }),
{
    lemma_entries_from(lines, line, 0);
    let before = entries_from(lines, 0);
    assert(before + seq![] =~= before);
    assert(before + seq![trimmed(line)] =~= before.push(trimmed(line)));
}

/// An argument is a list in JSON where a bracket is the first thing in it behind white space.
pub proof fn law_what_looks_like_json(blank: Seq<char>, rest: Seq<char>)
    requires
        forall|i: int| 0 <= i < blank.len() ==> crate::text::is_white(#[trigger] blank[i]),
        rest.len() > 0,
        !crate::text::is_white(rest[0]),
    ensures
        looks_like_json(blank + rest) <==> rest[0] == '[',
{
    reveal_strlit("[");
    let s = blank + rest;
    let n = blank.len() as int;
    crate::text::lemma_skip_while(s, white(), 0);
    let k = crate::text::skip_while(s, white(), 0);
    if k < n {
        assert(crate::text::is_white(blank[k]));
    } else if k > n {
        assert(white()(s[n]));
    }
    let front = drop_front(s, white());
    assert(front =~= rest);
    assert(front.subrange(0, 1)[0] == rest[0]);
    if rest[0] == '[' {
        assert(front.subrange(0, 1) =~= "["@);
    }
}

/// The URLs of a list are those that it holds; an empty list and what is no list are errors.
pub proof fn law_the_urls_of_a_list(urls: Seq<Seq<char>>, message: Seq<char>)
    ensures
        urls.len() > 0 ==> listed(Ok(urls)) == Ok::<Seq<Seq<char>>, Seq<char>>(urls),
        urls.len() == 0 ==> listed(Ok(urls)) == Err::<Seq<Seq<char>>, Seq<char>>(
            "JSON array is empty"@,
        ),
        listed(Err(message)) == Err::<Seq<Seq<char>>, Seq<char>>(
            "failed to parse JSON array: "@ + message,
        ),
{
}

/// An argument is a URL itself where there is no file of this name. A file that cannot be
/// opened or that holds no URL is an error.
pub proof fn law_the_urls_of_a_file(arg: Seq<char>, text: Seq<char>, message: Seq<char>)
    ensures
        filed(arg, None) == Ok::<Seq<Seq<char>>, Seq<char>>(seq![arg]),
        filed(arg, Some(Err(message))) == Err::<Seq<Seq<char>>, Seq<char>>(
            "failed to open "@ + arg + ": "@ + message,
        ),
        entries_of(text).len() > 0 ==> filed(arg, Some(Ok(text))) == Ok::<
            Seq<Seq<char>>,
            Seq<char>,
        >(entries_of(text)),
        entries_of(text).len() == 0 ==> filed(arg, Some(Ok(text))) == Err::<
            Seq<Seq<char>>,
            Seq<char>,
        >("file "@ + quoted_of(arg) + " contains no URLs"@),
{
}

/// Without arguments the URLs are those of the standard input; where it is a terminal, holds
/// none or cannot be read, that is an error.
pub proof fn law_the_urls_of_the_input(text: Seq<char>, message: Seq<char>)
    ensures
        piped(None) == Err::<Seq<Seq<char>>, Seq<char>>(
            "provide a URL, file path, JSON array, or pipe URLs via stdin"@,
        ),
        piped(Some(Err(message))) == Err::<Seq<Seq<char>>, Seq<char>>(
            "failed to read stdin: "@ + message,
        ),
        entries_of(text).len() > 0 ==> piped(Some(Ok(text))) == Ok::<Seq<Seq<char>>, Seq<char>>(
            entries_of(text),
        ),
        entries_of(text).len() == 0 ==> piped(Some(Ok(text))) == Err::<Seq<Seq<char>>, Seq<char>>(
            "provide a URL, file path, JSON array, or pipe URLs via stdin"@,
        ),
{
}

proof fn lemma_setting_keys()
    ensures
        "backend"@.len() == 7,
        "searxng_url"@.len() == 11,
        "brave_api_key"@.len() == 13,
        "exa_api_key"@.len() == 11,
        "limit"@.len() == 5,
        "cache_ttl"@.len() == 9,
        "browser"@.len() == 7,
        "code_backend"@.len() == 12,
        "docs_backend"@.len() == 12,
        "context7_api_key"@.len() == 16,
        "sourcegraph_url"@.len() == 15,
        "github_token"@.len() == 12,
        "url_rewrites"@.len() == 12,
        "backend"@[1] == 'a',
        "browser"@[1] == 'r',
        "searxng_url"@[0] == 's',
        "exa_api_key"@[0] == 'e',
        "code_backend"@[0] == 'c',
        "docs_backend"@[0] == 'd',
        "github_token"@[0] == 'g',
        "url_rewrites"@[0] == 'u',
{
    reveal_strlit("backend");
    reveal_strlit("searxng_url");
    reveal_strlit("brave_api_key");
    reveal_strlit("exa_api_key");
    reveal_strlit("limit");
    reveal_strlit("cache_ttl");
    reveal_strlit("browser");
    reveal_strlit("code_backend");
    reveal_strlit("docs_backend");
    reveal_strlit("context7_api_key");
    reveal_strlit("sourcegraph_url");
    reveal_strlit("github_token");
    reveal_strlit("url_rewrites");
}

/// A value that can be set is what its field holds then, and nothing else changes.
pub proof fn law_setting_sets_one_value(
    config: ConfigView,
    value: Seq<char>,
    rules: Result<Seq<RuleView>, Seq<char>>,
)
    ensures
        is_search(value) ==> configured(config, "backend"@, value, rules) == Ok::<
            ConfigView,
            Seq<char>,
        >(ConfigView { backend: value, ..config }),
        configured(config, "searxng_url"@, value, rules) == Ok::<ConfigView, Seq<char>>(
            ConfigView { searxng_url: value, ..config },
        ),
        configured(config, "brave_api_key"@, value, rules) == Ok::<ConfigView, Seq<char>>(
            ConfigView { brave_api_key: value, ..config },
        ),
        configured(config, "exa_api_key"@, value, rules) == Ok::<ConfigView, Seq<char>>(
            ConfigView { exa_api_key: value, ..config },
        ),
        duration_of(value) is Ok ==> configured(config, "cache_ttl"@, value, rules) == Ok::<
            ConfigView,
            Seq<char>,
        >(ConfigView { cache_ttl: value, ..config }),
        configured(config, "browser"@, value, rules) == Ok::<ConfigView, Seq<char>>(
            ConfigView { browser: value, ..config },
        ),
        is_code(value) ==> configured(config, "code_backend"@, value, rules) == Ok::<
            ConfigView,
            Seq<char>,
        >(ConfigView { code_backend: value, ..config }),
        is_docs(value) ==> configured(config, "docs_backend"@, value, rules) == Ok::<
            ConfigView,
            Seq<char>,
        >(ConfigView { docs_backend: value, ..config }),
        configured(config, "context7_api_key"@, value, rules) == Ok::<ConfigView, Seq<char>>(
            ConfigView { context7_api_key: value, ..config },
        ),
        configured(config, "sourcegraph_url"@, value, rules) == Ok::<ConfigView, Seq<char>>(
            ConfigView { sourcegraph_url: value, ..config },
        ),
        configured(config, "github_token"@, value, rules) == Ok::<ConfigView, Seq<char>>(
            ConfigView { github_token: value, ..config },
        ),
{
    lemma_setting_keys();
}

/// A limit is set to the number that is written, and a text that is no number is refused.
pub proof fn law_setting_the_limit(
    config: ConfigView,
    n: int,
    value: Seq<char>,
    rules: Result<Seq<RuleView>, Seq<char>>,
)
    requires
        0 <= n <= usize::MAX,
    ensures
        configured(config, "limit"@, decimal(n), rules) == Ok::<ConfigView, Seq<char>>(
            ConfigView { limit: n as usize, ..config },
        ),
        number_of(value, usize::MAX as nat) is Err ==> configured(
            config,
            "limit"@,
            value,
            rules,
        ) is Err,
{
    lemma_setting_keys();
    law_numbers_are_read_as_written(n, usize::MAX as nat);
}

/// A time to live that cannot be read is refused, as are rules with a broken pattern; rules
/// that are whole are set.
pub proof fn law_what_cannot_be_set(
    config: ConfigView,
    value: Seq<char>,
    list: Seq<RuleView>,
    message: Seq<char>,
)
    ensures
        duration_of(value) is Err ==> configured(config, "cache_ttl"@, value, Ok(list)) is Err,
        first_broken(list, 0) is None ==> configured(config, "url_rewrites"@, value, Ok(list))
            == Ok::<ConfigView, Seq<char>>(ConfigView { url_rewrites: list, ..config }),
        first_broken(list, 0) matches Some(broken) ==> configured(
            config,
            "url_rewrites"@,
            value,
            Ok(list),
        ) == Err::<ConfigView, Seq<char>>(
            "url_rewrites["@ + decimal(broken.0) + "]: "@ + broken.1,
        ),
        configured(config, "url_rewrites"@, value, Err(message)) == Err::<ConfigView, Seq<char>>(
            "url_rewrites must be a JSON array of {match, replace}: "@ + message,
        ),
{
    lemma_setting_keys();
}

/// No other keys can be set.
pub proof fn law_other_keys_are_refused(
    config: ConfigView,
    key: Seq<char>,
    value: Seq<char>,
    rules: Result<Seq<RuleView>, Seq<char>>,
)
    requires
        key != "backend"@,
        key != "searxng_url"@,
        key != "brave_api_key"@,
        key != "exa_api_key"@,
        key != "limit"@,
        key != "cache_ttl"@,
        key != "browser"@,
        key != "code_backend"@,
        key != "docs_backend"@,
        key != "context7_api_key"@,
        key != "sourcegraph_url"@,
        key != "github_token"@,
        key != "url_rewrites"@,
    ensures
        configured(config, key, value, rules) == Err::<ConfigView, Seq<char>>(
            "unknown key: "@ + key
                + " (valid: backend, searxng_url, brave_api_key, exa_api_key, limit, cache_ttl, browser, code_backend, docs_backend, context7_api_key, sourcegraph_url, github_token, url_rewrites)"@,
        ),
{
}

/// The values that name a service are the names of the services.
pub proof fn law_services_are_set_by_their_names(
    value: Seq<char>,
    search: SearchBackend,
    code: CodeBackend,
    docs: DocsBackend,
)
    ensures
        is_search(search.name()),
        is_code(code.name()),
        is_docs(docs.name()),
        is_search(value) ==> exists|b: SearchBackend| #[trigger] b.name() == value,
        is_code(value) ==> exists|b: CodeBackend| #[trigger] b.name() == value,
        is_docs(value) ==> exists|b: DocsBackend| #[trigger] b.name() == value,
{
    assert(SearchBackend::Brave.name() == "brave"@ && SearchBackend::Ddg.name() == "ddg"@
        && SearchBackend::Searxng.name() == "searxng"@ && SearchBackend::Exa.name() == "exa"@);
    assert(CodeBackend::Grepapp.name() == "grepapp"@ && CodeBackend::Sourcegraph.name()
        == "sourcegraph"@ && CodeBackend::Github.name() == "github"@);
    assert(DocsBackend::Context7.name() == "context7"@ && DocsBackend::Local.name() == "local"@);
}

/// A value that names no service is refused, and the services are named.
pub proof fn law_what_is_said_of_unknown_services(
    config: ConfigView,
    value: Seq<char>,
    rules: Result<Seq<RuleView>, Seq<char>>,
)
    ensures
        !is_search(value) ==> configured(config, "backend"@, value, rules) == Err::<
            ConfigView,
            Seq<char>,
        >(crate::config::invalid_value(value, "brave, ddg, searxng, exa"@)),
        !is_code(value) ==> configured(config, "code_backend"@, value, rules) == Err::<
            ConfigView,
            Seq<char>,
        >(crate::config::invalid_value(value, "grepapp, sourcegraph, github"@)),
        !is_docs(value) ==> configured(config, "docs_backend"@, value, rules) == Err::<
            ConfigView,
            Seq<char>,
        >(crate::config::invalid_value(value, "context7, local"@)),
        duration_of(value) matches Err(e) ==> configured(config, "cache_ttl"@, value, rules)
            == Err::<ConfigView, Seq<char>>(
            "cache_ttl must be a duration (e.g. 1h, 30m): "@ + e.text(),
        ),
        number_of(value, usize::MAX as nat) matches Err(e) ==> configured(
            config,
            "limit"@,
            value,
            rules,
        ) == Err::<ConfigView, Seq<char>>("limit must be an integer: "@ + e.text()),
{
    lemma_setting_keys();
}

/// Pages are fresh for as long as the configuration says, and for an hour where it cannot be
/// read.
pub proof fn law_how_long_pages_are_fresh(cache_ttl: Seq<char>, nanos: int)
    ensures
        duration_of(cache_ttl) == Ok::<int, crate::duration::DurationError>(nanos) ==> fresh_for(
            cache_ttl,
        ) == nanos,
        duration_of(cache_ttl) is Err ==> fresh_for(cache_ttl) == 3600 * 1_000_000_000,
{
}

/// Whole pages go to the cache unless the caller does not want it; sources and parts never do.
pub proof fn law_what_goes_past_the_cache(no_cache: bool, raw: bool, select: Seq<char>)
    ensures
        !goes_past_the_cache(false, false, seq![]),
        goes_past_the_cache(true, raw, select),
        goes_past_the_cache(no_cache, true, select),
        select.len() > 0 ==> goes_past_the_cache(no_cache, raw, select),
{
}

/// A notice is given to somebody who reads the terminal, in no automatic run, unless notices are
/// off, JSON is asked for, or the version is.
pub proof fn law_when_a_notice_is_given(
    as_json: bool,
    off: bool,
    terminal: bool,
    command: Command,
    ci: Seq<char>,
)
    ensures
        !gives_no_notice(as_json, off, terminal, command, ci) <==> terminal && !as_json && !off
            && !(command is Version) && !automatic(ci),
{
}

} // verus!
