//! Code search: what the services are asked, what their answers mean, and the
//! results that come of them.

use vstd::prelude::*;

use crate::config::CodeBackend;
use crate::duration::{duration_of, lemma_total_step, total, DurationError};
use crate::error::{AppError, AppResult, ErrorView};
use crate::scrape::success;
use crate::search::{bad_status, json_text, status_failure, to_json};
use crate::system::{time_of_day, to_upper, upper_of, utc_time, Timestamp};
use crate::text::{
    after_prefix, begins, byte_len, char_count, chars_of, contains, cut, decimal, drop_back,
    index_of, is_digit, law_cut_at_the_first, law_numbers_are_read_as_written, law_splitting,
    lemma_decimal, lemma_trimmed_already, lines, lines_of, lowered, matches_at, number_of, occurs,
    only, parse_number, parse_signed, same, show, show_size, signed, signed_number, split,
    split_of, split_once, starts_with, string_of, strip_prefix, texts, to_ascii_lowercase, trim,
    trim_end_matches, trimmed, utf8_width, width_of,
};
use crate::types::{CodeResult, CodeView};
use crate::web::maybe;

verus! {

/// The service with the name `backend`.
pub fn find_backend(backend: &str) -> (r: AppResult<CodeBackend>)
    ensures
        match r {
            Ok(found) => found.name() == backend@,
            Err(e) => (forall|b: CodeBackend| #[trigger] b.name() != backend@) && e@
                == ErrorView::Upstream("unknown code backend: "@ + backend@),
        },
{
    match CodeBackend::parse(backend) {
        Ok(found) => Ok(found),
        Err(_) => {
            let mut message = "unknown code backend: ".to_owned();
            message.append(backend);
            Err(AppError::upstream(message))
        },
    }
}

/// What is searched for in code.
#[derive(Debug)]
pub struct CodeQuery {
    pub term: String,
    pub lang: String,
    pub limit: usize,
    /// Whether the term is a regular expression.
    pub regexp: bool,
}

/// What a list of code results holds.
pub open spec fn codes_of(results: Seq<CodeResult>) -> Seq<CodeView> {
    Seq::new(results.len(), |i: int| results[i]@)
}

/// The number of the line with the index `index` below the line `start`, as far as
/// a counter goes.
pub open spec fn line_number(start: int, index: int) -> int {
    if start + index > usize::MAX {
        usize::MAX as int
    } else {
        start + index
    }
}

/// The line number in the header of a snippet, or zero where it has none.
pub open spec fn snippet_line(header: Seq<char>) -> int {
    let parts = split_of(header, "(Line "@);
    if parts.len() < 2 {
        0
    } else {
        let number = match cut(parts[1], ')') {
            Some(pair) => pair.0,
            None => parts[1],
        };
        match number_of(trimmed(number), usize::MAX as nat) {
            Ok(n) => n as int,
            Err(_) => 0,
        }
    }
}

/// The line number in the header of a snippet, or zero where it has none.
pub fn parse_snippet_line(header: &str) -> (r: usize)
    ensures
        r == snippet_line(header@),
{
    proof {
        reveal_strlit("(Line ");
    }
    let parts = split(header, "(Line ");
    assert(texts(parts@).len() == parts@.len());
    if parts.len() < 2 {
        return 0;
    }
    let number = match split_once(parts[1].as_str(), ')') {
        Some(pair) => pair.0,
        None => parts[1].clone(),
    };
    match parse_number(trim(number.as_str()).as_str(), usize::MAX as u64) {
        Ok(n) => n as usize,
        Err(_) => 0,
    }
}

/// The line of a snippet that is shown, with its number: of the lines from `i` on
/// up to the next snippet the first in which the query occurs, or else the first
/// that is not blank, which `first` holds if it came before.
pub open spec fn snippet_from(
    lines: Seq<Seq<char>>,
    i: int,
    from: int,
    start: int,
    query: Seq<char>,
    first: (Seq<char>, int),
) -> (Seq<char>, int)
    decreases lines.len() - i,
{
    if i < 0 || i >= lines.len() || begins(lines[i], "--- Snippet"@) {
        first
    } else {
        let line = trimmed(lines[i]);
        if line.len() == 0 {
            snippet_from(lines, i + 1, from, start, query, first)
        } else if occurs(lowered(line), query) {
            (line, line_number(start, i - from))
        } else if first.0.len() == 0 {
            snippet_from(
                lines,
                i + 1,
                from,
                start,
                query,
                (line, line_number(start, i - from)),
            )
        } else {
            snippet_from(lines, i + 1, from, start, query, first)
        }
    }
}

/// The line of the snippet that begins at the line with the index `from` that is
/// shown, with its number; the snippet begins at the line `start_line`.
pub fn extract_grep_snippet(lines: &Vec<String>, from: usize, start_line: usize, query: &str) -> (r: (
    String,
    usize,
))
    requires
        from <= lines@.len(),
    ensures
        (r.0@, r.1 as int) == snippet_from(
            texts(lines@),
            from as int,
            from as int,
            start_line as int,
            lowered(query@),
            (seq![], 0),
        ),
{
    let ghost view = texts(lines@);
    let wanted = to_ascii_lowercase(query);
    let mut first = String::new();
    let mut first_line: usize = 0;
    let mut i: usize = from;
    while i < lines.len()
        invariant
            view == texts(lines@),
            wanted@ == lowered(query@),
            from <= i <= lines@.len(),
            snippet_from(
                view,
                from as int,
                from as int,
                start_line as int,
                lowered(query@),
                (seq![], 0),
            ) == snippet_from(
                view,
                i as int,
                from as int,
                start_line as int,
                lowered(query@),
                (first@, first_line as int),
            ),
        decreases lines@.len() - i,
    {
        if starts_with(lines[i].as_str(), "--- Snippet") {
            return (first, first_line);
        }
        let line = trim(lines[i].as_str());
        if char_count(line.as_str()) > 0 {
            let index: usize = i - from;
            let number: usize = if index > usize::MAX - start_line {
                usize::MAX
            } else {
                start_line + index
            };
            if contains(to_ascii_lowercase(line.as_str()).as_str(), wanted.as_str()) {
                return (line, number);
            }
            if char_count(first.as_str()) == 0 {
                first = line;
                first_line = number;
            }
        }
        i += 1;
    }
    (first, first_line)
}

/// What the lines from `i` on of a result of grep.app say: the repository, the
/// path, the URL, and where the first snippet begins: the index of its first line
/// and the number of that line.
pub open spec fn grep_fields(
    lines: Seq<Seq<char>>,
    i: int,
    result: CodeView,
    code: Option<(int, int)>,
) -> (CodeView, Option<(int, int)>)
    decreases lines.len() - i,
{
    if i < 0 || i >= lines.len() {
        (result, code)
    } else {
        let line = lines[i];
        if after_prefix(line, "Repository:"@) is Some {
            grep_fields(
                lines,
                i + 1,
                CodeView { repo: trimmed(after_prefix(line, "Repository:"@)->0), ..result },
                code,
            )
        } else if after_prefix(line, "Path:"@) is Some {
            grep_fields(
                lines,
                i + 1,
                CodeView { path: trimmed(after_prefix(line, "Path:"@)->0), ..result },
                code,
            )
        } else if after_prefix(line, "URL:"@) is Some {
            grep_fields(
                lines,
                i + 1,
                CodeView { url: trimmed(after_prefix(line, "URL:"@)->0), ..result },
                code,
            )
        } else if begins(line, "--- Snippet"@) && code is None {
            grep_fields(lines, i + 1, result, Some((i + 1, snippet_line(line))))
        } else {
            grep_fields(lines, i + 1, result, code)
        }
    }
}

/// The result that a block of grep.app's answer describes, if it names a
/// repository and a URL.
pub open spec fn grep_block(text: Seq<char>, query: Seq<char>, lang: Seq<char>) -> Option<CodeView> {
    let lines = lines_of(text);
    let read = grep_fields(
        lines,
        0,
        CodeView { source: "grepapp"@, language: lang, ..CodeView::empty() },
        None,
    );
    if read.0.repo.len() == 0 || read.0.url.len() == 0 {
        None
    } else {
        match read.1 {
            Some(code) => {
                let shown = snippet_from(
                    lines,
                    code.0,
                    code.0,
                    code.1,
                    lowered(query),
                    (seq![], 0),
                );
                Some(CodeView { snippet: shown.0, line: shown.1 as usize, ..read.0 })
            },
            None => Some(read.0),
        }
    }
}

/// The result that a block of grep.app's answer describes.
pub fn parse_grep_block(text: &str, query: &str, lang: &str) -> (r: Option<CodeResult>)
    ensures
        match r {
            Some(result) => grep_block(text@, query@, lang@) == Some(result@),
            None => grep_block(text@, query@, lang@) is None,
        },
{
    let mut result = CodeResult::default();
    result.source = "grepapp".to_owned();
    result.language = lang.to_owned();
    let all = lines(text);
    let ghost view = texts(all@);
    let ghost blank = result@;
    let mut code: Option<(usize, usize)> = None;
    let mut i: usize = 0;
    while i < all.len()
        invariant
            view == texts(all@),
            i <= all@.len(),
            code matches Some(c) ==> c.0 <= all@.len(),
            result@.snippet.len() == 0 && result@.line == 0,
            grep_fields(view, 0, blank, None) == grep_fields(
                view,
                i as int,
                result@,
                match code {
                    Some(c) => Some((c.0 as int, c.1 as int)),
                    None => None,
                },
            ),
        decreases all@.len() - i,
    {
        let line = all[i].as_str();
        if let Some(repo) = strip_prefix(line, "Repository:") {
            result.repo = trim(repo.as_str());
        } else if let Some(path) = strip_prefix(line, "Path:") {
            result.path = trim(path.as_str());
        } else if let Some(url) = strip_prefix(line, "URL:") {
            result.url = trim(url.as_str());
        } else if starts_with(line, "--- Snippet") && code.is_none() {
            let start = parse_snippet_line(line);
            code = Some((i + 1, start));
        }
        i += 1;
    }
    if char_count(result.repo.as_str()) == 0 || char_count(result.url.as_str()) == 0 {
        return None;
    }
    if let Some((from, start)) = code {
        let (snippet, number) = extract_grep_snippet(&all, from, start, query);
        result.snippet = snippet;
        result.line = number;
    }
    Some(result)
}

/// `found` and the results of the blocks from `i` on, `limit` of them at most.
pub open spec fn grep_from(
    blocks: Seq<Seq<char>>,
    i: int,
    query: Seq<char>,
    lang: Seq<char>,
    limit: int,
    found: Seq<CodeView>,
) -> Seq<CodeView>
    decreases blocks.len() - i,
{
    if i < 0 || i >= blocks.len() || found.len() >= limit {
        found
    } else {
        match grep_block(blocks[i], query, lang) {
            Some(result) => grep_from(blocks, i + 1, query, lang, limit, found.push(result)),
            None => grep_from(blocks, i + 1, query, lang, limit, found),
        }
    }
}

/// The results of the blocks of grep.app's answer.
pub fn grep_results(blocks: &Vec<String>, query: &CodeQuery) -> (r: Vec<CodeResult>)
    ensures
        codes_of(r@) == grep_from(
            texts(blocks@),
            0,
            query.term@,
            query.lang@,
            query.limit as int,
            seq![],
        ),
        r@.len() <= query.limit,
{
    let ghost view = texts(blocks@);
    let mut found: Vec<CodeResult> = Vec::new();
    let mut i: usize = 0;
    assert(codes_of(found@) =~= seq![]);
    while i < blocks.len() && found.len() < query.limit
        invariant
            view == texts(blocks@),
            i <= blocks@.len(),
            found@.len() <= query.limit,
            grep_from(view, 0, query.term@, query.lang@, query.limit as int, seq![]) == grep_from(
                view,
                i as int,
                query.term@,
                query.lang@,
                query.limit as int,
                codes_of(found@),
            ),
        decreases blocks@.len() - i,
    {
        let ghost before = codes_of(found@);
        if let Some(result) = parse_grep_block(
            blocks[i].as_str(),
            query.term.as_str(),
            query.lang.as_str(),
        ) {
            found.push(result);
            assert(codes_of(found@) =~= before.push(result@));
        }
        i += 1;
    }
    found
}

/// A message of grep.app.
#[derive(Debug)]
pub struct GrepMcpResponse {
    pub result: Option<GrepMcpResult>,
    pub error: Option<GrepMcpError>,
}

/// The result in a message of grep.app.
#[derive(Debug)]
pub struct GrepMcpResult {
    pub content: Vec<GrepMcpContent>,
    pub is_error: bool,
}

/// A part of a result of grep.app.
#[derive(Debug)]
pub struct GrepMcpContent {
    pub kind: String,
    pub text: String,
}

/// An error in a message of grep.app.
#[derive(Debug)]
pub struct GrepMcpError {
    pub message: String,
}

/// The parts from `i` on that are texts and not empty.
pub open spec fn grep_parts_from(parts: Seq<GrepMcpContent>, i: int) -> Seq<Seq<char>>
    decreases parts.len() - i,
{
    if i < 0 || i >= parts.len() {
        seq![]
    } else if parts[i].kind@ == "text"@ && parts[i].text@.len() > 0 {
        seq![parts[i].text@] + grep_parts_from(parts, i + 1)
    } else {
        grep_parts_from(parts, i + 1)
    }
}

/// What the messages from `i` on say: the first that has a result or an error
/// counts. A message that could not be read is passed over.
pub open spec fn grep_messages_from(messages: Seq<Option<GrepMcpResponse>>, i: int) -> Result<
    Seq<Seq<char>>,
    ErrorView,
>
    decreases messages.len() - i,
{
    if i < 0 || i >= messages.len() {
        Ok(seq![])
    } else {
        match messages[i] {
            None => grep_messages_from(messages, i + 1),
            Some(message) => match message.error {
                Some(error) => Err(ErrorView::Upstream("grep.app error: "@ + error.message@)),
                None => match message.result {
                    None => grep_messages_from(messages, i + 1),
                    Some(result) => if result.is_error {
                        Err(ErrorView::Upstream("grep.app search failed"@))
                    } else {
                        Ok(grep_parts_from(result.content@, 0))
                    },
                },
            },
        }
    }
}

fn grep_parts(parts: &Vec<GrepMcpContent>) -> (r: Vec<String>)
    ensures
        texts(r@) == grep_parts_from(parts@, 0),
{
    let mut out: Vec<String> = Vec::new();
    let mut i: usize = 0;
    assert(texts(out@) + grep_parts_from(parts@, 0) =~= grep_parts_from(parts@, 0));
    while i < parts.len()
        invariant
            i <= parts@.len(),
            texts(out@) + grep_parts_from(parts@, i as int) == grep_parts_from(parts@, 0),
        decreases parts@.len() - i,
    {
        let ghost before = texts(out@);
        if same(parts[i].kind.as_str(), "text") && char_count(parts[i].text.as_str()) > 0 {
            out.push(parts[i].text.clone());
            assert(texts(out@) =~= before.push(parts@[i as int].text@));
            assert(texts(out@) + grep_parts_from(parts@, i + 1) =~= before + (
            seq![parts@[i as int].text@] + grep_parts_from(parts@, i + 1)));
        }
        i += 1;
    }
    assert(texts(out@) + grep_parts_from(parts@, i as int) =~= texts(out@));
    out
}

/// The blocks of the results in the messages of grep.app.
pub fn grep_texts(messages: &Vec<Option<GrepMcpResponse>>) -> (r: AppResult<Vec<String>>)
    ensures
        match r {
            Ok(blocks) => grep_messages_from(messages@, 0) == Ok::<Seq<Seq<char>>, ErrorView>(
                texts(blocks@),
            ),
            Err(e) => grep_messages_from(messages@, 0) == Err::<Seq<Seq<char>>, ErrorView>(e@),
        },
{
    let mut i: usize = 0;
    while i < messages.len()
        invariant
            i <= messages@.len(),
            grep_messages_from(messages@, 0) == grep_messages_from(messages@, i as int),
        decreases messages@.len() - i,
    {
        if let Some(message) = &messages[i] {
            if let Some(error) = &message.error {
                let mut text = "grep.app error: ".to_owned();
                text.append(error.message.as_str());
                return Err(AppError::upstream(text));
            }
            if let Some(result) = &message.result {
                if result.is_error {
                    return Err(AppError::upstream("grep.app search failed".to_owned()));
                }
                return Ok(grep_parts(&result.content));
            }
        }
        i += 1;
    }
    let none: Vec<String> = Vec::new();
    assert(texts(none@) =~= seq![]);
    Ok(none)
}

/// The name that grep.app has for a language with this name in small letters.
pub open spec fn language_name(l: Seq<char>) -> Option<Seq<char>> {
    if l == "go"@ || l == "golang"@ {
        Some("Go"@)
    } else if l == "py"@ || l == "python"@ {
        Some("Python"@)
    } else if l == "js"@ || l == "javascript"@ {
        Some("JavaScript"@)
    } else if l == "ts"@ || l == "typescript"@ {
        Some("TypeScript"@)
    } else if l == "tsx"@ {
        Some("TSX"@)
    } else if l == "jsx"@ {
        Some("JSX"@)
    } else if l == "rb"@ || l == "ruby"@ {
        Some("Ruby"@)
    } else if l == "rs"@ || l == "rust"@ {
        Some("Rust"@)
    } else if l == "java"@ {
        Some("Java"@)
    } else if l == "kt"@ || l == "kotlin"@ {
        Some("Kotlin"@)
    } else if l == "c"@ {
        Some("C"@)
    } else if l == "cpp"@ || l == "c++"@ {
        Some("C++"@)
    } else if l == "cs"@ || l == "csharp"@ {
        Some("C#"@)
    } else if l == "php"@ {
        Some("PHP"@)
    } else if l == "swift"@ {
        Some("Swift"@)
    } else if l == "scala"@ {
        Some("Scala"@)
    } else if l == "sh"@ || l == "bash"@ || l == "shell"@ {
        Some("Shell"@)
    } else if l == "html"@ {
        Some("HTML"@)
    } else if l == "css"@ {
        Some("CSS"@)
    } else if l == "sql"@ {
        Some("SQL"@)
    } else {
        None
    }
}

fn known_language(l: &str) -> (r: Option<&'static str>)
    ensures
        match r {
            Some(name) => language_name(l@) == Some(name@),
            None => language_name(l@) is None,
        },
{
    if same(l, "go") || same(l, "golang") {
        Some("Go")
    } else if same(l, "py") || same(l, "python") {
        Some("Python")
    } else if same(l, "js") || same(l, "javascript") {
        Some("JavaScript")
    } else if same(l, "ts") || same(l, "typescript") {
        Some("TypeScript")
    } else if same(l, "tsx") {
        Some("TSX")
    } else if same(l, "jsx") {
        Some("JSX")
    } else if same(l, "rb") || same(l, "ruby") {
        Some("Ruby")
    } else if same(l, "rs") || same(l, "rust") {
        Some("Rust")
    } else if same(l, "java") {
        Some("Java")
    } else if same(l, "kt") || same(l, "kotlin") {
        Some("Kotlin")
    } else if same(l, "c") {
        Some("C")
    } else if same(l, "cpp") || same(l, "c++") {
        Some("C++")
    } else if same(l, "cs") || same(l, "csharp") {
        Some("C#")
    } else if same(l, "php") {
        Some("PHP")
    } else if same(l, "swift") {
        Some("Swift")
    } else if same(l, "scala") {
        Some("Scala")
    } else if same(l, "sh") || same(l, "bash") || same(l, "shell") {
        Some("Shell")
    } else if same(l, "html") {
        Some("HTML")
    } else if same(l, "css") {
        Some("CSS")
    } else if same(l, "sql") {
        Some("SQL")
    } else {
        None
    }
}

/// A text with its first character in capitals.
pub open spec fn capitalized(value: Seq<char>) -> Seq<char> {
    if value.len() == 0 {
        seq![]
    } else {
        upper_of(value[0]) + value.subrange(1, value.len() as int)
    }
}

/// `value` with its first character in capitals.
pub fn capitalize(value: &str) -> (r: String)
    ensures
        r@ == capitalized(value@),
{
    let chars = chars_of(value);
    if chars.len() == 0 {
        return String::new();
    }
    let mut out = to_upper(chars[0]);
    out.append(string_of(&chars, 1, chars.len()).as_str());
    out
}

/// The languages to search in, as grep.app names them.
pub open spec fn grep_languages(lang: Seq<char>) -> Seq<Seq<char>> {
    if lang.len() == 0 {
        seq![]
    } else {
        match language_name(lowered(lang)) {
            Some(name) => seq![name],
            None => seq![capitalized(lang)],
        }
    }
}

/// The languages to search in, as grep.app names them: none where `lang` is empty.
pub fn normalize_grep_lang(lang: &str) -> (r: Vec<String>)
    ensures
        texts(r@) == grep_languages(lang@),
{
    let mut names: Vec<String> = Vec::new();
    if char_count(lang) > 0 {
        let lower = to_ascii_lowercase(lang);
        match known_language(lower.as_str()) {
            Some(name) => names.push(name.to_owned()),
            None => names.push(capitalize(lang)),
        }
    }
    assert(texts(names@) =~= grep_languages(lang@));
    names
}

/// The body of a request to grep.app.
pub open spec fn grep_body(term: Seq<char>, lang: Seq<char>, regexp: bool) -> Seq<char> {
    let languages = grep_languages(lang);
    "{\"jsonrpc\":\"2.0\",\"id\":1,\"method\":\"tools/call\",\"params\":{\"name\":\"searchGitHub\",\"arguments\":{\"query\":"@
        + json_text(term) + ",\"language\":["@ + (if languages.len() > 0 {
        json_text(languages[0])
    } else {
        seq![]
    }) + "],\"useRegexp\":"@ + (if regexp {
        "true"@
    } else {
        "false"@
    }) + "}}}"@
}

/// The body of a request to grep.app, in JSON.
pub fn grep_request_body(query: &CodeQuery) -> (r: String)
    ensures
        r@ == grep_body(query.term@, query.lang@, query.regexp),
{
    let languages = normalize_grep_lang(query.lang.as_str());
    assert(texts(languages@).len() == languages@.len());
    let mut body =
        "{\"jsonrpc\":\"2.0\",\"id\":1,\"method\":\"tools/call\",\"params\":{\"name\":\"searchGitHub\",\"arguments\":{\"query\":".to_owned();
    body.append(to_json(query.term.as_str()).as_str());
    body.append(",\"language\":[");
    let language = if languages.len() > 0 {
        assert(texts(languages@)[0] == languages@[0]@);
        to_json(languages[0].as_str())
    } else {
        String::new()
    };
    body.append(language.as_str());
    body.append("],\"useRegexp\":");
    body.append(
        if query.regexp {
            "true"
        } else {
            "false"
        },
    );
    body.append("}}}");
    body
}

/// Whether an answer with `status` is one of success.
pub fn success_status(service: &str, status: u16) -> (r: AppResult<()>)
    ensures
        match r {
            Ok(_) => success(status as int),
            Err(e) => !success(status as int) && e@ == bad_status(service@, status as int),
        },
{
    if 200 <= status && status < 300 {
        Ok(())
    } else {
        Err(status_failure(service, status))
    }
}

/// `text` with `addition` behind it, where `mark` does not occur in it.
pub open spec fn with_default(text: Seq<char>, mark: Seq<char>, addition: Seq<char>) -> Seq<char> {
    if occurs(text, mark) {
        text
    } else {
        text + addition
    }
}

/// What Sourcegraph is asked: by default without archives and forks.
pub open spec fn sourcegraph_query_of(term: Seq<char>, lang: Seq<char>, regexp: bool) -> Seq<char> {
    let named = if lang.len() > 0 {
        term + " lang:"@ + lang
    } else {
        term
    };
    let full = with_default(with_default(named, "archived:"@, " archived:no"@), "fork:"@, " fork:no"@);
    if regexp {
        full + " patterntype:regexp"@
    } else {
        full
    }
}

/// What Sourcegraph is asked.
pub fn sourcegraph_query(query: &CodeQuery) -> (r: String)
    ensures
        r@ == sourcegraph_query_of(query.term@, query.lang@, query.regexp),
{
    let mut full = query.term.clone();
    if char_count(query.lang.as_str()) > 0 {
        full.append(" lang:");
        full.append(query.lang.as_str());
    }
    if !contains(full.as_str(), "archived:") {
        full.append(" archived:no");
    }
    if !contains(full.as_str(), "fork:") {
        full.append(" fork:no");
    }
    if query.regexp {
        full.append(" patterntype:regexp");
    }
    full
}

/// Where the Sourcegraph instance at a URL is asked.
pub open spec fn sourcegraph_address(base: Seq<char>) -> Seq<char> {
    drop_back(base, only('/')) + "/.api/search/stream"@
}

/// Where the Sourcegraph instance at `base_url` is asked.
pub fn sourcegraph_endpoint(base_url: &str) -> (r: String)
    ensures
        r@ == sourcegraph_address(base_url@),
        r@ == drop_back(base_url@, only('/')) + "/.api/search/stream"@,
{
    let mut url = trim_end_matches(base_url, '/');
    url.append("/.api/search/stream");
    url
}

/// The data of the match events among the lines from `i` on, where `event` is the
/// event that the lines before spoke of last.
pub open spec fn match_data_from(lines: Seq<Seq<char>>, i: int, event: Seq<char>) -> Seq<Seq<char>>
    decreases lines.len() - i,
{
    if i < 0 || i >= lines.len() {
        seq![]
    } else if after_prefix(lines[i], "event:"@) is Some {
        match_data_from(lines, i + 1, trimmed(after_prefix(lines[i], "event:"@)->0))
    } else if event == "matches"@ && after_prefix(lines[i], "data:"@) is Some {
        seq![trimmed(after_prefix(lines[i], "data:"@)->0)] + match_data_from(lines, i + 1, event)
    } else {
        match_data_from(lines, i + 1, event)
    }
}

/// The data of the match events of a stream of Sourcegraph.
pub fn sourcegraph_data(raw: &str) -> (r: Vec<String>)
    ensures
        texts(r@) == match_data_from(lines_of(raw@), 0, seq![]),
{
    let all = lines(raw);
    let ghost view = texts(all@);
    let mut event = String::new();
    let mut out: Vec<String> = Vec::new();
    let mut i: usize = 0;
    assert(texts(out@) + match_data_from(view, 0, seq![]) =~= match_data_from(view, 0, seq![]));
    while i < all.len()
        invariant
            view == texts(all@),
            i <= all@.len(),
            texts(out@) + match_data_from(view, i as int, event@) == match_data_from(
                view,
                0,
                seq![],
            ),
        decreases all@.len() - i,
    {
        let ghost before = texts(out@);
        let line = all[i].as_str();
        if let Some(name) = strip_prefix(line, "event:") {
            event = trim(name.as_str());
        } else if same(event.as_str(), "matches") {
            if let Some(rest) = strip_prefix(line, "data:") {
                let data = trim(rest.as_str());
                out.push(data);
                assert(texts(out@) =~= before.push(data@));
                assert(texts(out@) + match_data_from(view, i + 1, event@) =~= before + (
                seq![data@] + match_data_from(view, i + 1, event@)));
            }
        }
        i += 1;
    }
    assert(texts(out@) + match_data_from(view, i as int, event@) =~= texts(out@));
    out
}

/// A match of Sourcegraph.
#[derive(Debug)]
pub struct SourcegraphMatch {
    pub kind: String,
    pub repository: String,
    pub path: String,
    pub language: String,
    pub repo_stars: usize,
    pub line_matches: Vec<SourcegraphLineMatch>,
}

/// A line of a match of Sourcegraph.
#[derive(Debug)]
pub struct SourcegraphLineMatch {
    pub line: String,
    pub line_number: usize,
}

/// The result that a match of Sourcegraph describes, if it is one in the content
/// of a file.
pub open spec fn sourcegraph_result(item: SourcegraphMatch, base: Seq<char>) -> Option<CodeView> {
    if item.kind@ != "content"@ || item.line_matches@.len() == 0 {
        None
    } else {
        let line = item.line_matches@[0];
        Some(
            CodeView {
                repo: item.repository@,
                path: item.path@,
                line: line.line_number,
                snippet: line.line@,
                language: item.language@,
                stars: item.repo_stars,
                url: base + "/"@ + item.repository@ + "/-/blob/"@ + item.path@ + "#L"@ + decimal(
                    line.line_number as int,
                ),
                source: "sourcegraph"@,
            },
        )
    }
}

/// `found` and the results of the matches from `i` on, `limit` of them at most.
pub open spec fn sourcegraph_from(
    items: Seq<SourcegraphMatch>,
    i: int,
    base: Seq<char>,
    limit: int,
    found: Seq<CodeView>,
) -> Seq<CodeView>
    decreases items.len() - i,
{
    if i < 0 || i >= items.len() || found.len() >= limit {
        found
    } else {
        match sourcegraph_result(items[i], base) {
            Some(result) => sourcegraph_from(items, i + 1, base, limit, found.push(result)),
            None => sourcegraph_from(items, i + 1, base, limit, found),
        }
    }
}

fn sourcegraph_result_of(item: &SourcegraphMatch, base: &str) -> (r: Option<CodeResult>)
    ensures
        match r {
            Some(result) => sourcegraph_result(*item, base@) == Some(result@),
            None => sourcegraph_result(*item, base@) is None,
        },
{
    if !same(item.kind.as_str(), "content") || item.line_matches.len() == 0 {
        return None;
    }
    let line = &item.line_matches[0];
    let mut url = base.to_owned();
    url.append("/");
    url.append(item.repository.as_str());
    url.append("/-/blob/");
    url.append(item.path.as_str());
    url.append("#L");
    url.append(show_size(line.line_number).as_str());
    Some(
        CodeResult {
            repo: item.repository.clone(),
            path: item.path.clone(),
            line: line.line_number,
            snippet: line.line.clone(),
            language: item.language.clone(),
            stars: item.repo_stars,
            url: url,
            source: "sourcegraph".to_owned(),
        },
    )
}

/// The results of the matches of the Sourcegraph instance at `base_url`, `limit`
/// of them at most.
pub fn sourcegraph_results(items: &Vec<SourcegraphMatch>, base_url: &str, limit: usize) -> (r: Vec<
    CodeResult,
>)
    ensures
        codes_of(r@) == sourcegraph_from(
            items@,
            0,
            drop_back(base_url@, only('/')),
            limit as int,
            seq![],
        ),
        r@.len() <= limit,
{
    let base = trim_end_matches(base_url, '/');
    let mut found: Vec<CodeResult> = Vec::new();
    let mut i: usize = 0;
    assert(codes_of(found@) =~= seq![]);
    while i < items.len() && found.len() < limit
        invariant
            i <= items@.len(),
            found@.len() <= limit,
            sourcegraph_from(items@, 0, base@, limit as int, seq![]) == sourcegraph_from(
                items@,
                i as int,
                base@,
                limit as int,
                codes_of(found@),
            ),
        decreases items@.len() - i,
    {
        let ghost before = codes_of(found@);
        if let Some(result) = sourcegraph_result_of(&items[i], base.as_str()) {
            found.push(result);
            assert(codes_of(found@) =~= before.push(result@));
        }
        i += 1;
    }
    found
}

/// Whether GitHub can be asked: there is a token, and the term is no regular
/// expression.
pub fn check_github(query: &CodeQuery, token: &str) -> (r: AppResult<()>)
    ensures
        match r {
            Ok(_) => token@.len() > 0 && !query.regexp,
            Err(e) => e@ == (if token@.len() == 0 {
                ErrorView::Upstream("github: token required"@)
            } else {
                ErrorView::RegexUnsupported
            }) && (token@.len() == 0 || query.regexp),
        },
{
    if char_count(token) == 0 {
        return Err(AppError::upstream("github: token required".to_owned()));
    }
    if query.regexp {
        return Err(AppError::RegexUnsupported);
    }
    Ok(())
}

/// What GitHub is asked.
pub open spec fn github_query_of(term: Seq<char>, lang: Seq<char>) -> Seq<char> {
    if lang.len() > 0 && !occurs(term, "language:"@) {
        term + " language:"@ + lang
    } else {
        term
    }
}

/// What GitHub is asked.
pub fn github_query(query: &CodeQuery) -> (r: String)
    ensures
        r@ == github_query_of(query.term@, query.lang@),
{
    let mut full = query.term.clone();
    if char_count(query.lang.as_str()) > 0 && !contains(full.as_str(), "language:") {
        full.append(" language:");
        full.append(query.lang.as_str());
    }
    full
}

/// How many results GitHub is asked for.
pub open spec fn github_count(limit: int) -> int {
    if limit == 0 || limit > 100 {
        30
    } else {
        limit
    }
}

/// How many results GitHub is asked for: as many as wanted up to a hundred, and
/// thirty where none or more are wanted.
pub fn github_page_size(limit: usize) -> (r: usize)
    ensures
        r == github_count(limit as int),
        r == (if limit == 0 || limit > 100 {
            30
        } else {
            limit
        }),
        1 <= r <= 100,
{
    if limit == 0 || limit > 100 {
        30
    } else {
        limit
    }
}

/// A length of time of whole seconds: hours, minutes and seconds, without the
/// first ones that are zero.
pub open spec fn seconds_text(t: int) -> Seq<char> {
    if t < 0 {
        signed(-((-t) % 60)) + "s"@
    } else if t / 3600 > 0 {
        decimal(t / 3600) + "h"@ + decimal(t % 3600 / 60) + "m"@ + decimal(t % 60) + "s"@
    } else if t % 3600 / 60 > 0 {
        decimal(t % 3600 / 60) + "m"@ + decimal(t % 60) + "s"@
    } else {
        decimal(t % 60) + "s"@
    }
}

/// A length of time of whole seconds, in words.
pub fn format_seconds_duration(total_seconds: i64) -> (r: String)
    ensures
        r@ == seconds_text(total_seconds as int),
{
    if total_seconds < 0 {
        let below: u64 = (-(total_seconds as i128)) as u64;
        let seconds: u64 = below % 60;
        let mut out = if seconds == 0 {
            String::new()
        } else {
            "-".to_owned()
        };
        proof {
            reveal_strlit("-");
            assert("-"@ =~= seq!['-']);
        }
        out.append(show(seconds).as_str());
        assert(out@ =~= signed(-(seconds as int)));
        out.append("s");
        return out;
    }
    let total: u64 = total_seconds as u64;
    let hours: u64 = total / 3600;
    let minutes: u64 = total % 3600 / 60;
    let seconds: u64 = total % 60;
    if hours > 0 {
        let mut out = show(hours);
        out.append("h");
        out.append(show(minutes).as_str());
        out.append("m");
        out.append(show(seconds).as_str());
        out.append("s");
        out
    } else if minutes > 0 {
        let mut out = show(minutes);
        out.append("m");
        out.append(show(seconds).as_str());
        out.append("s");
        out
    } else {
        let mut out = show(seconds);
        out.append("s");
        out
    }
}

/// The whole seconds from `now` to the point `reset`, none where it has passed.
pub open spec fn wait_seconds(reset: int, now: Timestamp) -> int {
    let left = reset * 1_000_000_000 - now.in_nanos();
    if left > 0 {
        left / 1_000_000_000
    } else {
        0
    }
}

/// `before`, a number and the letter of a unit.
spec fn with_part(before: Seq<char>, n: int, unit: char) -> Seq<char> {
    (before + decimal(n)).push(unit)
}

proof fn lemma_part(before: Seq<char>, n: int, unit: char, behind: Seq<char>)
    requires
        0 <= n,
        unit == 'h' || unit == 'm' || unit == 's',
        behind.len() > 0 ==> is_digit(behind[0]),
    ensures
        ({
            let s = with_part(before, n, unit) + behind;
            total(s, with_part(before, n, unit).len() as int) matches Ok(rest) ==> total(
                s,
                before.len() as int,
            ) == Ok::<int, DurationError>(
                n * (if unit == 'h' {
                    3_600_000_000_000_000_000_000int
                } else if unit == 'm' {
                    60_000_000_000_000_000_000
                } else {
                    1_000_000_000_000_000_000
                }) + rest,
            )
        }),
{
    let s = with_part(before, n, unit) + behind;
    let i = before.len() as int;
    assert(s.subrange(i, i + decimal(n).len()) =~= decimal(n));
    lemma_total_step(s, i, n, unit);
}

proof fn lemma_read_seconds(s: Seq<char>, before: Seq<char>, x: int)
    requires
        0 <= x,
        s == with_part(before, x, 's'),
    ensures
        total(s, before.len() as int) == Ok::<int, DurationError>(x * 1_000_000_000_000_000_000),
{
    lemma_part(before, x, 's', seq![]);
    assert(with_part(before, x, 's') + Seq::<char>::empty() =~= s);
}

proof fn lemma_read_minutes(s: Seq<char>, before: Seq<char>, m: int, x: int)
    requires
        0 <= m,
        0 <= x,
        s == with_part(with_part(before, m, 'm'), x, 's'),
    ensures
        total(s, before.len() as int) == Ok::<int, DurationError>(
            m * 60_000_000_000_000_000_000 + x * 1_000_000_000_000_000_000,
        ),
{
    lemma_read_seconds(s, with_part(before, m, 'm'), x);
    lemma_decimal(x);
    let behind = with_part(seq![], x, 's');
    assert(behind[0] == decimal(x)[0]);
    lemma_part(before, m, 'm', behind);
    assert(with_part(before, m, 'm') + behind =~= s);
}

proof fn lemma_read_hours(s: Seq<char>, h: int, m: int, x: int)
    requires
        0 <= h,
        0 <= m,
        0 <= x,
        s == with_part(with_part(with_part(seq![], h, 'h'), m, 'm'), x, 's'),
    ensures
        total(s, 0) == Ok::<int, DurationError>(
            h * 3_600_000_000_000_000_000_000 + m * 60_000_000_000_000_000_000 + x
                * 1_000_000_000_000_000_000,
        ),
{
    lemma_read_minutes(s, with_part(seq![], h, 'h'), m, x);
    lemma_decimal(m);
    let behind = with_part(with_part(seq![], m, 'm'), x, 's');
    assert(behind[0] == decimal(m)[0]);
    lemma_part(seq![], h, 'h', behind);
    assert(with_part(seq![], h, 'h') + behind =~= s);
}

proof fn lemma_read_text(s: Seq<char>, t: int)
    requires
        0 <= t <= u64::MAX,
        s.len() > 0,
        is_digit(s[0]),
        s.last() == 's',
        total(s, 0) == Ok::<int, DurationError>(t * 1_000_000_000_000_000_000),
    ensures
        duration_of(s) == Ok::<int, DurationError>(t * 1_000_000_000),
{
    lemma_trimmed_already(s);
}

/// Reading a length of whole seconds gives back what was written.
pub proof fn law_reading_undoes_writing(t: int)
    requires
        0 <= t <= u64::MAX,
    ensures
        duration_of(seconds_text(t)) == Ok::<int, DurationError>(t * 1_000_000_000),
{
    let s = seconds_text(t);
    let h = t / 3600;
    let m = t % 3600 / 60;
    let x = t % 60;
    reveal_strlit("h");
    reveal_strlit("m");
    reveal_strlit("s");
    lemma_decimal(h);
    lemma_decimal(m);
    lemma_decimal(x);
    assert(h * 3_600 + m * 60 + x == t);
    if h > 0 {
        assert(s =~= with_part(with_part(with_part(seq![], h, 'h'), m, 'm'), x, 's'));
        assert(s[0] == decimal(h)[0]);
        lemma_read_hours(s, h, m, x);
    } else if m > 0 {
        assert(s =~= with_part(with_part(seq![], m, 'm'), x, 's'));
        assert(s[0] == decimal(m)[0]);
        lemma_read_minutes(s, seq![], m, x);
    } else {
        assert(s =~= with_part(seq![], x, 's'));
        assert(s[0] == decimal(x)[0]);
        lemma_read_seconds(s, seq![], x);
    }
    lemma_read_text(s, t);
}

/// What is said where GitHub limits the rate, with what it says about when the
/// limit ends; `clock` is the time of day of that point, if there is one.
pub open spec fn rate_limit_text(
    status: int,
    reset: Option<int>,
    clock: Option<Seq<char>>,
    now: Timestamp,
) -> Seq<char> {
    if reset is Some && clock is Some {
        "github: rate limited (30 req/min on code search). Resets in "@ + seconds_text(
            wait_seconds(reset->0, now),
        ) + " at "@ + clock->0
    } else {
        "github: rate limited (status "@ + decimal(status) + ")"@
    }
}

/// The point in time that a header names, in seconds since 1970.
pub open spec fn reset_time(header: Option<Seq<char>>) -> Option<int> {
    match header {
        Some(text) => signed_number(text),
        None => None,
    }
}

/// What is said where GitHub limits the rate until `reset`, in seconds since 1970, which
/// is at `clock` in the time of day.
pub fn rate_limit_message(
    status: u16,
    reset: Option<i64>,
    clock: &Option<String>,
    now: &Timestamp,
) -> (r: String)
    requires
        now.valid(),
        reset is Some && clock is Some ==> -0x1_0000_0000_0000 <= reset->0 <= 0x1_0000_0000_0000,
    ensures
        r@ == rate_limit_text(
            status as int,
            match reset {
                Some(secs) => Some(secs as int),
                None => None,
            },
            maybe(*clock),
            *now,
        ),
{
    if let Some(secs) = reset {
        if let Some(clock) = clock {
            let left: i128 = secs as i128 * 1_000_000_000 - now.as_nanos();
            let wait: i128 = if left > 0 {
                left / 1_000_000_000
            } else {
                0
            };
            let mut message =
                "github: rate limited (30 req/min on code search). Resets in ".to_owned();
            message.append(format_seconds_duration(wait as i64).as_str());
            message.append(" at ");
            message.append(clock.as_str());
            return message;
        }
    }
    let mut message = "github: rate limited (status ".to_owned();
    message.append(show_size(status as usize).as_str());
    message.append(")");
    message
}

/// What is said where GitHub limits the rate. `reset` is the header that says when
/// the limit ends, if there is one.
pub fn github_rate_limit_error_at(status: u16, reset: &Option<String>, now: &Timestamp) -> (r: String)
    requires
        now.valid(),
    ensures
        r@ == rate_limit_text(
            status as int,
            reset_time(maybe(*reset)),
            match reset_time(maybe(*reset)) {
                Some(secs) => if crate::system::has_date(secs) {
                    Some(time_of_day(secs))
                } else {
                    None
                },
                None => None,
            },
            *now,
        ),
{
    let parsed = match reset {
        Some(text) => parse_signed(text.as_str()),
        None => None,
    };
    let clock = match parsed {
        Some(secs) => utc_time(secs),
        None => None,
    };
    rate_limit_message(status, parsed, &clock, now)
}

/// The error for an answer of GitHub, if it is one; `rate_limit` is what is said
/// where the rate is limited.
pub open spec fn github_error(status: int, body: Seq<char>, rate_limit: Seq<char>) -> Option<
    ErrorView,
> {
    if status == 401 {
        Some(
            ErrorView::Upstream(
                "github: invalid token (token must have 'repo' scope; check: gh auth status)"@,
            ),
        )
    } else if status == 403 || status == 429 {
        Some(ErrorView::Upstream(rate_limit))
    } else if !success(status) {
        Some(
            ErrorView::Upstream(
                "github returned status "@ + decimal(status) + ": "@ + trimmed(body),
            ),
        )
    } else {
        None
    }
}

/// Whether an answer of GitHub holds results; `body` is the text that came with it
/// and `rate_limit` what is said where the rate is limited.
pub fn github_status(status: u16, body: &str, rate_limit: String) -> (r: AppResult<()>)
    ensures
        match r {
            Ok(_) => github_error(status as int, body@, rate_limit@) is None,
            Err(e) => github_error(status as int, body@, rate_limit@) == Some(e@),
        },
{
    if status == 401 {
        Err(
            AppError::upstream(
                "github: invalid token (token must have 'repo' scope; check: gh auth status)".to_owned(),
            ),
        )
    } else if status == 403 || status == 429 {
        Err(AppError::upstream(rate_limit))
    } else if !(200 <= status && status < 300) {
        let mut message = "github returned status ".to_owned();
        message.append(show_size(status as usize).as_str());
        message.append(": ");
        message.append(trim(body).as_str());
        Err(AppError::upstream(message))
    } else {
        Ok(())
    }
}

/// A range of bytes of a fragment that matches.
#[derive(Debug)]
pub struct GithubMatchRange {
    pub indices: Vec<usize>,
}

/// A fragment of a file with what matches in it.
#[derive(Debug)]
pub struct GithubTextMatch {
    pub fragment: String,
    pub matches: Vec<GithubMatchRange>,
}

/// A result of GitHub.
#[derive(Debug)]
pub struct GithubItem {
    pub path: String,
    pub html_url: String,
    /// The name of the repository.
    pub full_name: String,
    /// The identifier of the repository.
    pub node_id: String,
    pub text_matches: Vec<GithubTextMatch>,
}

/// The index of the character that is `offset` bytes behind the one at `i`, or
/// nothing where no character begins there.
pub open spec fn char_at(s: Seq<char>, i: int, offset: int) -> Option<int>
    decreases s.len() - i,
{
    if offset == 0 {
        Some(i)
    } else if offset < 0 || i < 0 || i >= s.len() {
        None
    } else {
        char_at(s, i + 1, offset - utf8_width(s[i]))
    }
}

/// The byte of a fragment where its first match begins, if it is in the fragment.
pub open spec fn match_offset(fragment: Seq<char>, matches: Seq<GithubMatchRange>) -> Option<int> {
    if matches.len() > 0 && matches[0].indices@.len() > 0 && matches[0].indices@[0] < byte_len(
        fragment,
    ) {
        Some(matches[0].indices@[0] as int)
    } else {
        None
    }
}

/// Whether a match begins where a character does.
pub open spec fn match_fits(fragment: Seq<char>, matches: Seq<GithubMatchRange>) -> bool {
    match match_offset(fragment, matches) {
        Some(offset) => char_at(fragment, 0, offset) is Some,
        None => true,
    }
}

/// The first index down from `j` such that no line feed stands from there to `j`.
pub open spec fn line_start(s: Seq<char>, j: int) -> int
    decreases j,
{
    if j <= 0 || j > s.len() || s[j - 1] == '\n' {
        j
    } else {
        line_start(s, j - 1)
    }
}

/// The first of the lines from `i` on that is not blank, trimmed, or `other` where
/// all are.
pub open spec fn first_line_from(lines: Seq<Seq<char>>, i: int, other: Seq<char>) -> Seq<char>
    decreases lines.len() - i,
{
    if i < 0 || i >= lines.len() {
        other
    } else if trimmed(lines[i]).len() > 0 {
        trimmed(lines[i])
    } else {
        first_line_from(lines, i + 1, other)
    }
}

/// The line of a fragment in which its first match begins, or else the first line
/// that is not blank.
pub open spec fn matched_line(fragment: Seq<char>, matches: Seq<GithubMatchRange>) -> Seq<char> {
    match match_offset(fragment, matches) {
        Some(offset) => {
            let at = char_at(fragment, 0, offset)->0;
            trimmed(fragment.subrange(line_start(fragment, at), index_of(fragment, '\n', at)))
        },
        None => first_line_from(lines_of(fragment), 0, trimmed(fragment)),
    }
}

/// The first of `all` that is not blank, trimmed, or `other` where all are.
pub fn first_nonblank(all: &Vec<String>, other: String) -> (r: String)
    ensures
        r@ == first_line_from(texts(all@), 0, other@),
{
    let ghost view = texts(all@);
    let mut i: usize = 0;
    while i < all.len()
        invariant
            view == texts(all@),
            i <= all@.len(),
            first_line_from(view, 0, other@) == first_line_from(view, i as int, other@),
        decreases all@.len() - i,
    {
        let line = trim(all[i].as_str());
        if char_count(line.as_str()) > 0 {
            return line;
        }
        i += 1;
    }
    other
}

/// The index of the character that begins `offset` bytes into `chars`, or nothing
/// where none does.
fn find_offset(chars: &Vec<char>, offset: usize) -> (r: Option<usize>)
    ensures
        match r {
            Some(k) => char_at(chars@, 0, offset as int) == Some(k as int) && k <= chars@.len(),
            None => char_at(chars@, 0, offset as int) is None,
        },
{
    let mut left: i128 = offset as i128;
    let mut i: usize = 0;
    while left > 0 && i < chars.len()
        invariant
            i <= chars@.len(),
            -4 <= left <= offset,
            char_at(chars@, 0, offset as int) == char_at(chars@, i as int, left as int),
        decreases chars@.len() - i,
    {
        left = left - width_of(chars[i]) as i128;
        i += 1;
    }
    if left == 0 {
        Some(i)
    } else {
        None
    }
}

fn offset_of(fragment: &str, matches: &Vec<GithubMatchRange>) -> (r: Option<usize>)
    ensures
        match r {
            Some(offset) => match_offset(fragment@, matches@) == Some(offset as int),
            None => match_offset(fragment@, matches@) is None,
        },
{
    if matches.len() > 0 && matches[0].indices.len() > 0 {
        let offset: usize = matches[0].indices[0];
        if (offset as u128) < crate::text::bytes_of(fragment) {
            return Some(offset);
        }
    }
    None
}

/// Whether the first match of a fragment begins where a character does.
pub fn is_match_fitting(fragment: &str, matches: &Vec<GithubMatchRange>) -> (r: bool)
    ensures
        r == match_fits(fragment@, matches@),
{
    match offset_of(fragment, matches) {
        Some(offset) => find_offset(&chars_of(fragment), offset).is_some(),
        None => true,
    }
}

proof fn lemma_line_start(s: Seq<char>, j: int)
    requires
        0 <= j <= s.len(),
    ensures
        0 <= line_start(s, j) <= j,
    decreases j,
{
    if j > 0 && s[j - 1] != '\n' {
        lemma_line_start(s, j - 1);
    }
}

/// The line of `fragment` in which its first match begins, or else the first line
/// that is not blank.
pub fn extract_matched_line(fragment: &str, matches: &Vec<GithubMatchRange>) -> (r: String)
    requires
        match_fits(fragment@, matches@),
    ensures
        r@ == matched_line(fragment@, matches@),
{
    if let Some(offset) = offset_of(fragment, matches) {
        let chars = chars_of(fragment);
        if let Some(at) = find_offset(&chars, offset) {
            let mut start: usize = at;
            while start > 0 && chars[start - 1] != '\n'
                invariant
                    start <= at <= chars@.len(),
                    chars@ == fragment@,
                    line_start(fragment@, at as int) == line_start(fragment@, start as int),
                decreases start,
            {
                start -= 1;
            }
            let end = crate::text::find_char(&chars, '\n', at);
            return trim(string_of(&chars, start, end).as_str());
        }
    }
    first_nonblank(&lines(fragment), trim(fragment))
}

/// Whether the snippet of a result of GitHub can be shown.
pub open spec fn snippet_fits(item: GithubItem) -> bool {
    item.text_matches@.len() > 0 ==> match_fits(
        item.text_matches@[0].fragment@,
        item.text_matches@[0].matches@,
    )
}

/// What is shown of a result of GitHub.
pub open spec fn github_result(item: GithubItem) -> CodeView {
    CodeView {
        repo: item.full_name@,
        path: item.path@,
        snippet: if item.text_matches@.len() > 0 {
            matched_line(item.text_matches@[0].fragment@, item.text_matches@[0].matches@)
        } else {
            seq![]
        },
        url: item.html_url@,
        source: "github"@,
        ..CodeView::empty()
    }
}

/// Whether the snippets of the first `limit` results of GitHub can be shown.
pub fn are_snippets_fitting(items: &Vec<GithubItem>, limit: usize) -> (r: bool)
    ensures
        r == (forall|i: int|
            0 <= i < items@.len() && i < limit ==> snippet_fits(#[trigger] items@[i])),
{
    let mut i: usize = 0;
    while i < items.len() && i < limit
        invariant
            i <= items@.len(),
            i <= limit,
            forall|k: int| 0 <= k < i ==> snippet_fits(#[trigger] items@[k]),
        decreases items@.len() - i,
    {
        if items[i].text_matches.len() > 0 {
            let found = &items[i].text_matches[0];
            if !is_match_fitting(found.fragment.as_str(), &found.matches) {
                assert(!snippet_fits(items@[i as int]));
                return false;
            }
        }
        i += 1;
    }
    true
}

/// The first `limit` results of GitHub.
pub fn github_results(items: &Vec<GithubItem>, limit: usize) -> (r: Vec<CodeResult>)
    requires
        forall|i: int|
            0 <= i < items@.len() && i < limit ==> snippet_fits(#[trigger] items@[i]),
    ensures
        codes_of(r@) == Seq::new(
            crate::search::at_most(items@.len() as int, limit as int),
            |i: int| github_result(items@[i]),
        ),
        r@.len() == (if items@.len() < limit {
            items@.len() as int
        } else {
            limit as int
        }),
        forall|i: int|
            0 <= i < r@.len() ==> (#[trigger] r@[i]).repo@ == items@[i].full_name@ && r@[i].path@
                == items@[i].path@ && r@[i].url@ == items@[i].html_url@,
{
    let mut out: Vec<CodeResult> = Vec::new();
    let mut i: usize = 0;
    while i < items.len() && i < limit
        invariant
            forall|k: int|
                0 <= k < items@.len() && k < limit ==> snippet_fits(#[trigger] items@[k]),
            i <= items@.len(),
            i <= limit,
            out@.len() == i,
            forall|k: int| 0 <= k < i ==> (#[trigger] out@[k])@ == github_result(items@[k]),
            forall|k: int|
                0 <= k < i ==> (#[trigger] out@[k]).repo@ == items@[k].full_name@ && out@[k].path@
                    == items@[k].path@ && out@[k].url@ == items@[k].html_url@,
        decreases items@.len() - i,
    {
        let item = &items[i];
        let mut result = CodeResult::default();
        if item.text_matches.len() > 0 {
            let found = &item.text_matches[0];
            assert(snippet_fits(items@[i as int]));
            result.snippet = extract_matched_line(found.fragment.as_str(), &found.matches);
        }
        result.repo = item.full_name.clone();
        result.path = item.path.clone();
        result.url = item.html_url.clone();
        result.source = "github".to_owned();
        out.push(result);
        i += 1;
    }
    assert(codes_of(out@) =~= Seq::new(
        crate::search::at_most(items@.len() as int, limit as int),
        |i: int| github_result(items@[i]),
    ));
    out
}

/// The identifiers of the repositories of the first `count` results that have one.
pub open spec fn node_ids_from(items: Seq<GithubItem>, i: int, count: int) -> Seq<Seq<char>>
    decreases items.len() - i,
{
    if i < 0 || i >= items.len() || i >= count {
        seq![]
    } else if items[i].node_id@.len() > 0 {
        seq![items[i].node_id@] + node_ids_from(items, i + 1, count)
    } else {
        node_ids_from(items, i + 1, count)
    }
}

/// The identifiers of the repositories of the first `limit` results, whose stars
/// are asked for.
pub fn github_node_ids(items: &Vec<GithubItem>, limit: usize) -> (r: Vec<String>)
    ensures
        texts(r@) == node_ids_from(items@, 0, limit as int),
{
    let mut out: Vec<String> = Vec::new();
    let mut i: usize = 0;
    assert(texts(out@) + node_ids_from(items@, 0, limit as int) =~= node_ids_from(
        items@,
        0,
        limit as int,
    ));
    while i < items.len() && i < limit
        invariant
            i <= items@.len(),
            i <= limit,
            texts(out@) + node_ids_from(items@, i as int, limit as int) == node_ids_from(
                items@,
                0,
                limit as int,
            ),
        decreases items@.len() - i,
    {
        let ghost before = texts(out@);
        if char_count(items[i].node_id.as_str()) > 0 {
            out.push(items[i].node_id.clone());
            assert(texts(out@) =~= before.push(items@[i as int].node_id@));
            assert(texts(out@) + node_ids_from(items@, i + 1, limit as int) =~= before + (
            seq![items@[i as int].node_id@] + node_ids_from(items@, i + 1, limit as int)));
        }
        i += 1;
    }
    assert(texts(out@) + node_ids_from(items@, i as int, limit as int) =~= texts(out@));
    out
}

/// A list of texts in the notation of JSON, from index `i` on, after `text`.
pub open spec fn json_list_from(values: Seq<Seq<char>>, i: int, text: Seq<char>) -> Seq<char>
    decreases values.len() - i,
{
    if i < 0 || i >= values.len() {
        text
    } else if i == 0 {
        json_list_from(values, 1, text + json_text(values[0]))
    } else {
        json_list_from(values, i + 1, text + ","@ + json_text(values[i]))
    }
}

/// The body of the request for the stars of repositories.
pub open spec fn stars_body(ids: Seq<Seq<char>>) -> Seq<char> {
    json_list_from(
        ids,
        0,
        "{\"query\":\"query($ids: [ID!]!) { nodes(ids: $ids) { ... on Repository { id stargazerCount } } }\",\"variables\":{\"ids\":["@,
    ) + "]}}"@
}

/// The body of the request for the stars of repositories, in JSON.
pub fn stars_request_body(ids: &Vec<String>) -> (r: String)
    ensures
        r@ == stars_body(texts(ids@)),
{
    let ghost view = texts(ids@);
    let mut body =
        "{\"query\":\"query($ids: [ID!]!) { nodes(ids: $ids) { ... on Repository { id stargazerCount } } }\",\"variables\":{\"ids\":[".to_owned();
    let ghost start = body@;
    let mut i: usize = 0;
    while i < ids.len()
        invariant
            view == texts(ids@),
            i <= ids@.len(),
            json_list_from(view, 0, start) == json_list_from(view, i as int, body@),
        decreases ids@.len() - i,
    {
        if i > 0 {
            body.append(",");
        }
        body.append(to_json(ids[i].as_str()).as_str());
        i += 1;
    }
    body.append("]}}");
    body
}

/// A repository and its stars.
#[derive(Debug)]
pub struct GraphqlNode {
    pub id: String,
    pub stargazer_count: usize,
}

/// The stars of the repository `id`: those of the last node before `j` with this
/// identifier.
pub open spec fn stars_before(nodes: Seq<GraphqlNode>, id: Seq<char>, j: int) -> Option<usize>
    decreases j,
{
    if j <= 0 || j > nodes.len() || id.len() == 0 {
        None
    } else if nodes[j - 1].id@ == id {
        Some(nodes[j - 1].stargazer_count)
    } else {
        stars_before(nodes, id, j - 1)
    }
}

/// A result with the stars of its repository, where they are known.
pub open spec fn starred(result: CodeView, nodes: Seq<GraphqlNode>, id: Seq<char>) -> CodeView {
    match stars_before(nodes, id, nodes.len() as int) {
        Some(stars) => CodeView { stars: stars, ..result },
        None => result,
    }
}

fn find_stars(nodes: &Vec<GraphqlNode>, id: &str) -> (r: Option<usize>)
    ensures
        r == stars_before(nodes@, id@, nodes@.len() as int),
{
    if char_count(id) == 0 {
        return None;
    }
    let mut j: usize = nodes.len();
    while j > 0
        invariant
            j <= nodes@.len(),
            id@.len() > 0,
            stars_before(nodes@, id@, nodes@.len() as int) == stars_before(nodes@, id@, j as int),
        decreases j,
    {
        if same(nodes[j - 1].id.as_str(), id) {
            return Some(nodes[j - 1].stargazer_count);
        }
        j -= 1;
    }
    None
}

/// Results of GitHub with the stars of their repositories, where they are known.
pub open spec fn all_starred(
    results: Seq<CodeView>,
    items: Seq<GithubItem>,
    nodes: Seq<GraphqlNode>,
) -> Seq<CodeView> {
    Seq::new(
        results.len(),
        |i: int|
            if i < items.len() {
                starred(results[i], nodes, items[i].node_id@)
            } else {
                results[i]
            },
    )
}

/// Results of GitHub with the stars of their repositories, where they are known.
pub fn with_stars(results: &Vec<CodeResult>, items: &Vec<GithubItem>, nodes: &Vec<GraphqlNode>) -> (r:
    Vec<CodeResult>)
    ensures
        codes_of(r@) == all_starred(codes_of(results@), items@, nodes@),
        codes_of(r@) == Seq::new(
            results@.len(),
            |i: int|
                if i < items@.len() {
                    starred(results@[i]@, nodes@, items@[i].node_id@)
                } else {
                    results@[i]@
                },
        ),
{
    let mut out: Vec<CodeResult> = Vec::new();
    let mut i: usize = 0;
    while i < results.len()
        invariant
            i <= results@.len(),
            out@.len() == i,
            forall|k: int|
                0 <= k < i ==> (#[trigger] out@[k])@ == (if k < items@.len() {
                    starred(results@[k]@, nodes@, items@[k].node_id@)
                } else {
                    results@[k]@
                }),
        decreases results@.len() - i,
    {
        let mut result = results[i].clone();
        if i < items.len() {
            if let Some(stars) = find_stars(nodes, items[i].node_id.as_str()) {
                result.stars = stars;
            }
        }
        out.push(result);
        i += 1;
    }
    assert(codes_of(out@) =~= Seq::new(
        results@.len(),
        |i: int|
            if i < items@.len() {
                starred(results@[i]@, nodes@, items@[i].node_id@)
            } else {
                results@[i]@
            },
    ));
    assert(codes_of(out@) =~= all_starred(codes_of(results@), items@, nodes@));
    out
}

/// A result of GitHub is shown with the name of its repository, its path and the link to it.
pub proof fn law_github_results_link_to_the_file(item: GithubItem)
    ensures
        github_result(item).repo == item.full_name@,
        github_result(item).path == item.path@,
        github_result(item).url == item.html_url@,
        github_result(item).source == "github"@,
        github_result(item).stars == 0,
        github_result(item).line == 0,
        github_result(item).language.len() == 0,
        item.text_matches@.len() == 0 ==> github_result(item).snippet.len() == 0,
        item.text_matches@.len() > 0 ==> github_result(item).snippet == matched_line(
            item.text_matches@[0].fragment@,
            item.text_matches@[0].matches@,
        ),
{
}

proof fn lemma_byte_len_of_two(a: Seq<char>, b: Seq<char>)
    ensures
        byte_len(a + b) == byte_len(a) + byte_len(b),
    decreases b.len(),
{
    if b.len() == 0 {
        assert(a + b =~= a);
    } else {
        assert((a + b).drop_last() =~= a + b.drop_last());
        lemma_byte_len_of_two(a, b.drop_last());
    }
}

proof fn lemma_char_at(s: Seq<char>, i: int, n: int)
    requires
        0 <= i <= n <= s.len(),
    ensures
        char_at(s, i, byte_len(s.subrange(i, n)) as int) == Some(n),
    decreases n - i,
{
    if i < n {
        lemma_char_at(s, i + 1, n);
        let one = seq![s[i]];
        assert(one.drop_last() =~= seq![]);
        reveal_with_fuel(byte_len, 2);
        assert(byte_len(one) == utf8_width(s[i]));
        assert(s.subrange(i, n) =~= one + s.subrange(i + 1, n));
        lemma_byte_len_of_two(one, s.subrange(i + 1, n));
    } else {
        assert(s.subrange(i, n) =~= seq![]);
    }
}

proof fn lemma_start_of_line(s: Seq<char>, from: int, j: int)
    requires
        0 <= from <= j <= s.len(),
        from == 0 || s[from - 1] == '\n',
        forall|k: int| from <= k < j ==> s[k] != '\n',
    ensures
        line_start(s, j) == from,
    decreases j,
{
    if from < j {
        lemma_start_of_line(s, from, j - 1);
    }
}

/// The snippet of a result of GitHub is the line in which the first match begins, without
/// white space around it. The match is given by the byte where it begins.
pub proof fn law_the_snippet_is_the_line_of_the_match(
    before: Seq<char>,
    line: Seq<char>,
    behind: Seq<char>,
    at: int,
    matches: Seq<GithubMatchRange>,
)
    requires
        before.len() == 0 || before.last() == '\n',
        !line.contains('\n'),
        behind.len() == 0 || behind[0] == '\n',
        0 <= at < line.len(),
        matches.len() > 0,
        matches[0].indices@.len() > 0,
        matches[0].indices@[0] == byte_len(before + line.take(at)),
    ensures
        matched_line(before + line + behind, matches) == trimmed(line),
        match_fits(before + line + behind, matches),
{
    let s = before + line + behind;
    let n = before.len() + at;
    let head = before + line.take(at);
    let tail = line.skip(at) + behind;
    assert(s =~= head + tail);
    lemma_byte_len_of_two(head, tail);
    assert(tail.len() > 0);
    assert(byte_len(tail) > 0);
    assert(s.subrange(0, n as int) =~= head);
    lemma_char_at(s, 0, n as int);
    let from = before.len() as int;
    assert forall|k: int| from <= k < from + line.len() implies s[k] != '\n' by {
        assert(s[k] == line[k - from]);
        assert(line.contains(line[k - from]));
    }
    if from > 0 {
        assert(s[from - 1] == before.last());
    }
    lemma_start_of_line(s, from, n as int);
    crate::text::lemma_skip_while(s, crate::text::but('\n'), n as int);
    let end = index_of(s, '\n', n as int);
    if end < from + line.len() {
        assert(s[end] != '\n');
    } else if end > from + line.len() {
        assert(s[from + line.len()] == behind[0]);
        assert(crate::text::but('\n')(s[from + line.len()]));
    }
    assert(s.subrange(from, end) =~= line);
}

/// The first line that is not blank counts.
pub proof fn lemma_first_line(lines: Seq<Seq<char>>, i: int, k: int, other: Seq<char>)
    requires
        0 <= i <= k <= lines.len(),
        forall|j: int| i <= j < k ==> trimmed(#[trigger] lines[j]).len() == 0,
        k < lines.len() ==> trimmed(lines[k]).len() > 0,
    ensures
        first_line_from(lines, i, other) == (if k < lines.len() {
            trimmed(lines[k])
        } else {
            other
        }),
    decreases k - i,
{
    if i < k {
        assert(trimmed(lines[i]).len() == 0);
        lemma_first_line(lines, i + 1, k, other);
    }
}

/// Without the place of a match, the snippet is the first line that is not blank.
pub proof fn law_the_snippet_is_the_first_line(
    fragment: Seq<char>,
    matches: Seq<GithubMatchRange>,
    k: int,
)
    requires
        matches.len() == 0 || matches[0].indices@.len() == 0 || matches[0].indices@[0] >= byte_len(
            fragment,
        ),
        0 <= k <= lines_of(fragment).len(),
        forall|j: int| 0 <= j < k ==> trimmed(#[trigger] lines_of(fragment)[j]).len() == 0,
        k < lines_of(fragment).len() ==> trimmed(lines_of(fragment)[k]).len() > 0,
    ensures
        k < lines_of(fragment).len() ==> matched_line(fragment, matches) == trimmed(
            lines_of(fragment)[k],
        ),
        k == lines_of(fragment).len() ==> matched_line(fragment, matches) == trimmed(fragment),
{
    lemma_first_line(lines_of(fragment), 0, k, trimmed(fragment));
}

proof fn lemma_node_ids(items: Seq<GithubItem>, item: GithubItem, i: int, count: int)
    requires
        0 <= i <= items.len(),
    ensures
        node_ids_from(items.push(item), i, count) == node_ids_from(items, i, count) + (
        if items.len() < count && item.node_id@.len() > 0 {
            seq![item.node_id@]
        } else {
            seq![]
        }),
    decreases items.len() - i,
{
    reveal_with_fuel(node_ids_from, 2);
    let more = items.push(item);
    if i < items.len() {
        assert(more[i] == items[i]);
        lemma_node_ids(items, item, i + 1, count);
    } else {
        assert(more[i] == item);
    }
    assert(node_ids_from(more, i, count) =~= node_ids_from(items, i, count) + (if items.len()
        < count && item.node_id@.len() > 0 {
        seq![item.node_id@]
    } else {
        seq![]
    }));
}

/// The stars are asked for of each repository of a result that is shown, in their order.
pub proof fn law_whose_stars_are_asked_for(items: Seq<GithubItem>, item: GithubItem, count: int)
    ensures
        node_ids_from(seq![], 0, count) == Seq::<Seq<char>>::empty(),
        node_ids_from(items.push(item), 0, count) == (if items.len() < count
            && item.node_id@.len() > 0 {
            node_ids_from(items, 0, count).push(item.node_id@)
        } else {
            node_ids_from(items, 0, count)
        }),
{
    lemma_node_ids(items, item, 0, count);
    let before = node_ids_from(items, 0, count);
    assert(before + seq![] =~= before);
    assert(before + seq![item.node_id@] =~= before.push(item.node_id@));
}

proof fn lemma_json_list(values: Seq<Seq<char>>, value: Seq<char>, i: int, text: Seq<char>)
    requires
        0 <= i <= values.len(),
    ensures
        json_list_from(values.push(value), i, text) == json_list_from(values, i, text) + (
        if values.len() > 0 {
            ","@
        } else {
            seq![]
        }) + json_text(value),
    decreases values.len() - i,
{
    reveal_with_fuel(json_list_from, 3);
    let more = values.push(value);
    if i < values.len() {
        assert(more[i] == values[i]);
        lemma_json_list(
            values,
            value,
            i + 1,
            if i == 0 {
                text + json_text(values[0])
            } else {
                text + ","@ + json_text(values[i])
            },
        );
    } else {
        assert(more[i] == value);
        assert(json_list_from(more, i, text) =~= json_list_from(values, i, text) + (
        if values.len() > 0 {
            ","@
        } else {
            seq![]
        }) + json_text(value));
    }
}

/// The request for stars names each repository, in JSON, with commas between them.
pub proof fn law_the_request_for_stars(ids: Seq<Seq<char>>)
    ensures
        stars_body(ids)
            == "{\"query\":\"query($ids: [ID!]!) { nodes(ids: $ids) { ... on Repository { id stargazerCount } } }\",\"variables\":{\"ids\":["@
            + crate::text::joined(Seq::new(ids.len(), |i: int| json_text(ids[i])), ","@) + "]}}"@,
{
    lemma_json_list_is_joined(
        ids,
        "{\"query\":\"query($ids: [ID!]!) { nodes(ids: $ids) { ... on Repository { id stargazerCount } } }\",\"variables\":{\"ids\":["@,
    );
}

proof fn lemma_json_list_is_joined(values: Seq<Seq<char>>, text: Seq<char>)
    ensures
        json_list_from(values, 0, text) == text + crate::text::joined(
            Seq::new(values.len(), |i: int| json_text(values[i])),
            ","@,
        ),
    decreases values.len(),
{
    let all = Seq::new(values.len(), |i: int| json_text(values[i]));
    if values.len() == 0 {
        assert(text + crate::text::joined(all, ","@) =~= text);
    } else {
        let front = values.drop_last();
        lemma_json_list_is_joined(front, text);
        lemma_json_list(front, values.last(), 0, text);
        assert(front.push(values.last()) =~= values);
        let some = Seq::new(front.len(), |i: int| json_text(front[i]));
        assert(all.drop_last() =~= some);
        assert(all.last() == json_text(values.last()));
        if values.len() == 1 {
            assert(some =~= seq![]);
            assert(all =~= seq![json_text(values.last())]);
            assert(text + seq![] + seq![] + json_text(values.last()) =~= text + json_text(
                values.last(),
            ));
        } else {
            assert(text + crate::text::joined(some, ","@) + ","@ + json_text(values.last()) =~= text
                + (crate::text::joined(some, ","@) + ","@ + json_text(values.last())));
        }
    }
}

proof fn lemma_stars_before(nodes: Seq<GraphqlNode>, id: Seq<char>, k: int, j: int)
    requires
        0 <= k < j <= nodes.len(),
        id.len() > 0,
        nodes[k].id@ == id,
        forall|m: int| k < m < j ==> (#[trigger] nodes[m]).id@ != id,
    ensures
        stars_before(nodes, id, j) == Some(nodes[k].stargazer_count),
    decreases j,
{
    if k < j - 1 {
        assert(nodes[j - 1].id@ != id);
        lemma_stars_before(nodes, id, k, j - 1);
    }
}

proof fn lemma_no_stars(nodes: Seq<GraphqlNode>, id: Seq<char>, j: int)
    requires
        0 <= j <= nodes.len(),
        forall|m: int| 0 <= m < j ==> (#[trigger] nodes[m]).id@ != id,
    ensures
        stars_before(nodes, id, j) is None,
    decreases j,
{
    if j > 0 {
        assert(nodes[j - 1].id@ != id);
        lemma_no_stars(nodes, id, j - 1);
    }
}

/// A result has the stars that are known of its repository, and stays as it is where none
/// are. Nothing but the stars changes.
pub proof fn law_results_get_the_stars_of_their_repository(
    result: CodeView,
    nodes: Seq<GraphqlNode>,
    id: Seq<char>,
    k: int,
)
    ensures
        0 <= k < nodes.len() && id.len() > 0 && nodes[k].id@ == id && (forall|m: int|
            k < m < nodes.len() ==> (#[trigger] nodes[m]).id@ != id) ==> starred(
            result,
            nodes,
            id,
        ).stars == nodes[k].stargazer_count,
        id.len() == 0 || (forall|m: int| 0 <= m < nodes.len() ==> (#[trigger] nodes[m]).id@ != id)
            ==> starred(result, nodes, id) == result,
        starred(result, nodes, id).repo == result.repo,
        starred(result, nodes, id).path == result.path,
        starred(result, nodes, id).url == result.url,
        starred(result, nodes, id).line == result.line,
        starred(result, nodes, id).snippet == result.snippet,
        starred(result, nodes, id).language == result.language,
        starred(result, nodes, id).source == result.source,
{
    if 0 <= k < nodes.len() && id.len() > 0 && nodes[k].id@ == id && (forall|m: int|
        k < m < nodes.len() ==> (#[trigger] nodes[m]).id@ != id) {
        lemma_stars_before(nodes, id, k, nodes.len() as int);
    }
    if forall|m: int| 0 <= m < nodes.len() ==> (#[trigger] nodes[m]).id@ != id {
        lemma_no_stars(nodes, id, nodes.len() as int);
    }
}

/// An answer of GitHub holds results exactly if its status is one of success; a token that is
/// refused and a limited rate have their own errors.
pub proof fn law_the_errors_of_github(status: int, body: Seq<char>, rate_limit: Seq<char>)
    ensures
        github_error(status, body, rate_limit) is None <==> 200 <= status < 300,
        github_error(401, body, rate_limit) == Some(
            ErrorView::Upstream(
                "github: invalid token (token must have 'repo' scope; check: gh auth status)"@,
            ),
        ),
        github_error(403, body, rate_limit) == Some(ErrorView::Upstream(rate_limit)),
        github_error(429, body, rate_limit) == Some(ErrorView::Upstream(rate_limit)),
        !(200 <= status < 300) && status != 401 && status != 403 && status != 429 ==> github_error(
            status,
            body,
            rate_limit,
        ) == Some(
            ErrorView::Upstream(
                "github returned status "@ + decimal(status) + ": "@ + trimmed(body),
            ),
        ),
{
}

/// GitHub is asked for the term, and in the language that is wanted unless the term names one
/// itself.
pub proof fn law_what_github_is_asked(term: Seq<char>, lang: Seq<char>)
    ensures
        lang.len() == 0 ==> github_query_of(term, lang) == term,
        occurs(term, "language:"@) ==> github_query_of(term, lang) == term,
        lang.len() > 0 && !occurs(term, "language:"@) ==> github_query_of(term, lang) == term
            + " language:"@ + lang,
{
}

/// What is said of a limited rate tells when it ends, where that is known: the whole seconds
/// that are left, none where it has passed.
pub proof fn law_when_a_limited_rate_ends(
    status: int,
    reset: int,
    clock: Seq<char>,
    now: Timestamp,
    left: int,
)
    requires
        left >= 0,
        left * 1_000_000_000 <= reset * 1_000_000_000 - now.in_nanos() < (left + 1) * 1_000_000_000
            || (left == 0 && reset * 1_000_000_000 <= now.in_nanos()),
    ensures
        rate_limit_text(status, Some(reset), Some(clock), now)
            == "github: rate limited (30 req/min on code search). Resets in "@ + seconds_text(left)
            + " at "@ + clock,
        rate_limit_text(status, None, Some(clock), now) == "github: rate limited (status "@
            + decimal(status) + ")"@,
        rate_limit_text(status, Some(reset), None, now) == "github: rate limited (status "@
            + decimal(status) + ")"@,
{
}

/// Sourcegraph is asked for the term, in the language that is wanted, and without archives
/// and forks unless the question speaks of them itself.
pub proof fn law_what_sourcegraph_is_asked(
    term: Seq<char>,
    lang: Seq<char>,
    regexp: bool,
    named: Seq<char>,
    open: Seq<char>,
    full: Seq<char>,
)
    requires
        named == (if lang.len() > 0 {
            term + " lang:"@ + lang
        } else {
            term
        }),
        open == (if occurs(named, "archived:"@) {
            named
        } else {
            named + " archived:no"@
        }),
        full == (if occurs(open, "fork:"@) {
            open
        } else {
            open + " fork:no"@
        }),
    ensures
        regexp ==> sourcegraph_query_of(term, lang, regexp) == full + " patterntype:regexp"@,
        !regexp ==> sourcegraph_query_of(term, lang, regexp) == full,
{
}

/// A match of Sourcegraph is a result if it is one in the content of a file with a line that
/// matches. It is shown with the first such line and a link to it.
pub proof fn law_sourcegraph_results_link_to_the_line(item: SourcegraphMatch, base: Seq<char>)
    ensures
        sourcegraph_result(item, base) is Some <==> item.kind@ == "content"@
            && item.line_matches@.len() > 0,
        sourcegraph_result(item, base) matches Some(result) ==> result.repo == item.repository@
            && result.path == item.path@ && result.line == item.line_matches@[0].line_number
            && result.snippet == item.line_matches@[0].line@ && result.language == item.language@
            && result.stars == item.repo_stars && result.source == "sourcegraph"@ && result.url
            == base + "/"@ + item.repository@ + "/-/blob/"@ + item.path@ + "#L"@ + decimal(
            item.line_matches@[0].line_number as int,
        ),
{
}

/// The results among the first `n` matches of Sourcegraph.
pub open spec fn sourcegraph_hits(
    items: Seq<SourcegraphMatch>,
    base: Seq<char>,
    n: int,
) -> Seq<CodeView>
    decreases n,
{
    if n <= 0 {
        seq![]
    } else {
        match sourcegraph_result(items[n - 1], base) {
            Some(result) => sourcegraph_hits(items, base, n - 1).push(result),
            None => sourcegraph_hits(items, base, n - 1),
        }
    }
}

proof fn lemma_sourcegraph_hits_grow(
    items: Seq<SourcegraphMatch>,
    base: Seq<char>,
    i: int,
    n: int,
)
    requires
        0 <= i <= n,
    ensures
        sourcegraph_hits(items, base, i).len() <= sourcegraph_hits(items, base, n).len(),
        sourcegraph_hits(items, base, n).take(sourcegraph_hits(items, base, i).len() as int)
            == sourcegraph_hits(items, base, i),
    decreases n - i,
{
    let few = sourcegraph_hits(items, base, i);
    let all = sourcegraph_hits(items, base, n);
    if i < n {
        lemma_sourcegraph_hits_grow(items, base, i, n - 1);
        let most = sourcegraph_hits(items, base, n - 1);
        assert(all.take(few.len() as int) =~= most.take(few.len() as int));
    } else {
        assert(all.take(few.len() as int) =~= few);
    }
}

proof fn lemma_sourcegraph_from(
    items: Seq<SourcegraphMatch>,
    base: Seq<char>,
    i: int,
    limit: int,
)
    requires
        0 <= i <= items.len(),
        0 <= limit,
        sourcegraph_hits(items, base, i).len() <= limit,
    ensures
        sourcegraph_from(items, i, base, limit, sourcegraph_hits(items, base, i)) == ({
            let all = sourcegraph_hits(items, base, items.len() as int);
            if all.len() <= limit {
                all
            } else {
                all.take(limit)
            }
        }),
    decreases items.len() - i,
{
    let all = sourcegraph_hits(items, base, items.len() as int);
    let few = sourcegraph_hits(items, base, i);
    lemma_sourcegraph_hits_grow(items, base, i, items.len() as int);
    if few.len() >= limit {
        assert(all.take(limit) =~= few);
        if all.len() <= limit {
            assert(all.take(limit) =~= all);
        }
    } else if i < items.len() {
        lemma_sourcegraph_from(items, base, i + 1, limit);
    }
}

/// Sourcegraph gives its first results, in their order: all of them where there are not more
/// than were asked for, and else as many as were asked for.
pub proof fn law_sourcegraph_gives_the_first_results(
    items: Seq<SourcegraphMatch>,
    base: Seq<char>,
    limit: int,
)
    requires
        limit >= 0,
    ensures
        ({
            let all = sourcegraph_hits(items, base, items.len() as int);
            sourcegraph_from(items, 0, base, limit, seq![]) == (if all.len() <= limit {
                all
            } else {
                all.take(limit)
            })
        }),
{
    lemma_sourcegraph_from(items, base, 0, limit);
}

proof fn lemma_match_data(line: Seq<char>, rest: Seq<Seq<char>>, i: int, event: Seq<char>)
    requires
        0 <= i <= rest.len(),
    ensures
        match_data_from(seq![line] + rest, i + 1, event) == match_data_from(rest, i, event),
    decreases rest.len() - i,
{
    let all = seq![line] + rest;
    if i < rest.len() {
        assert(all[i + 1] == rest[i]);
        lemma_match_data(line, rest, i + 1, event);
        if after_prefix(rest[i], "event:"@) is Some {
            lemma_match_data(line, rest, i + 1, trimmed(after_prefix(rest[i], "event:"@)->0));
        }
    }
}

/// The matches of a stream of Sourcegraph are the data of its events of that name: a line
/// that names an event says to which the data in the lines behind it belongs.
pub proof fn law_the_matches_of_a_stream(
    line: Seq<char>,
    rest: Seq<Seq<char>>,
    event: Seq<char>,
)
    ensures
        match_data_from(seq![], 0, event) == Seq::<Seq<char>>::empty(),
        match_data_from(seq![line] + rest, 0, event) == (if begins(line, "event:"@) {
            match_data_from(rest, 0, trimmed(line.skip(6)))
        } else if begins(line, "data:"@) && event == "matches"@ {
            seq![trimmed(line.skip(5))] + match_data_from(rest, 0, event)
        } else {
            match_data_from(rest, 0, event)
        }),
{
    reveal_strlit("event:");
    reveal_strlit("data:");
    let all = seq![line] + rest;
    assert(all[0] == line);
    lemma_match_data(line, rest, 0, event);
    if begins(line, "event:"@) {
        assert(line.subrange(6, line.len() as int) =~= line.skip(6));
        lemma_match_data(line, rest, 0, trimmed(line.skip(6)));
    }
    if begins(line, "data:"@) {
        assert(line.subrange(5, line.len() as int) =~= line.skip(5));
    }
}

/// Whether a line of a snippet holds the query, in capitals or small letters.
pub open spec fn is_hit(line: Seq<char>, query: Seq<char>) -> bool {
    trimmed(line).len() > 0 && occurs(lowered(trimmed(line)), query)
}

proof fn lemma_snippet_hit(
    lines: Seq<Seq<char>>,
    i: int,
    from: int,
    start: int,
    query: Seq<char>,
    first: (Seq<char>, int),
    k: int,
)
    requires
        0 <= i <= k < lines.len(),
        forall|j: int| i <= j <= k ==> !begins(#[trigger] lines[j], "--- Snippet"@),
        forall|j: int| i <= j < k ==> !is_hit(#[trigger] lines[j], query),
        is_hit(lines[k], query),
    ensures
        snippet_from(lines, i, from, start, query, first) == (
            trimmed(lines[k]),
            line_number(start, k - from),
        ),
    decreases k - i,
{
    assert(!begins(lines[i], "--- Snippet"@));
    if i < k {
        assert(!is_hit(lines[i], query));
        let line = trimmed(lines[i]);
        lemma_snippet_hit(
            lines,
            i + 1,
            from,
            start,
            query,
            if line.len() > 0 && first.0.len() == 0 {
                (line, line_number(start, i - from))
            } else {
                first
            },
            k,
        );
    }
}

proof fn lemma_snippet_stays(
    lines: Seq<Seq<char>>,
    i: int,
    from: int,
    start: int,
    query: Seq<char>,
    first: (Seq<char>, int),
    end: int,
)
    requires
        0 <= i <= end <= lines.len(),
        first.0.len() > 0,
        forall|j: int|
            i <= j < end ==> !begins(#[trigger] lines[j], "--- Snippet"@) && !is_hit(
                lines[j],
                query,
            ),
        end < lines.len() ==> begins(lines[end], "--- Snippet"@),
    ensures
        snippet_from(lines, i, from, start, query, first) == first,
    decreases end - i,
{
    if i < end {
        assert(!begins(lines[i], "--- Snippet"@) && !is_hit(lines[i], query));
        lemma_snippet_stays(lines, i + 1, from, start, query, first, end);
    }
}

proof fn lemma_snippet_first(
    lines: Seq<Seq<char>>,
    i: int,
    from: int,
    start: int,
    query: Seq<char>,
    k: int,
    end: int,
)
    requires
        0 <= i <= k <= end <= lines.len(),
        forall|j: int|
            i <= j < end ==> !begins(#[trigger] lines[j], "--- Snippet"@) && !is_hit(
                lines[j],
                query,
            ),
        end < lines.len() ==> begins(lines[end], "--- Snippet"@),
        forall|j: int| i <= j < k ==> trimmed(#[trigger] lines[j]).len() == 0,
        k < end ==> trimmed(lines[k]).len() > 0,
    ensures
        snippet_from(lines, i, from, start, query, (seq![], 0)) == (if k < end {
            (trimmed(lines[k]), line_number(start, k - from))
        } else {
            (Seq::<char>::empty(), 0)
        }),
    decreases k - i,
{
    if i < k {
        assert(!begins(lines[i], "--- Snippet"@) && !is_hit(lines[i], query));
        assert(trimmed(lines[i]).len() == 0);
        lemma_snippet_first(lines, i + 1, from, start, query, k, end);
    } else if k < end {
        assert(!begins(lines[i], "--- Snippet"@) && !is_hit(lines[i], query));
        lemma_snippet_stays(
            lines,
            i + 1,
            from,
            start,
            query,
            (trimmed(lines[k]), line_number(start, k - from)),
            end,
        );
    }
}

/// What is shown of a snippet, which ends where the next one begins, is the first line that
/// holds the query, with its number, counted from the line at which the snippet begins.
pub proof fn law_the_first_line_with_the_query_is_shown(
    lines: Seq<Seq<char>>,
    from: int,
    start: int,
    query: Seq<char>,
    k: int,
)
    requires
        0 <= from <= k < lines.len(),
        forall|j: int| from <= j <= k ==> !begins(#[trigger] lines[j], "--- Snippet"@),
        forall|j: int|
            from <= j < k ==> trimmed(#[trigger] lines[j]).len() == 0 || !occurs(
                lowered(trimmed(lines[j])),
                query,
            ),
        trimmed(lines[k]).len() > 0,
        occurs(lowered(trimmed(lines[k])), query),
        0 <= start,
        start + (k - from) <= usize::MAX,
    ensures
        snippet_from(lines, from, from, start, query, (seq![], 0)) == (
            trimmed(lines[k]),
            start + (k - from),
        ),
{
    lemma_snippet_hit(lines, from, from, start, query, (seq![], 0), k);
}

/// Where no line of a snippet holds the query, its first line that is not blank is shown.
pub proof fn law_else_the_first_line_is_shown(
    lines: Seq<Seq<char>>,
    from: int,
    start: int,
    query: Seq<char>,
    k: int,
    end: int,
)
    requires
        0 <= from <= k < end <= lines.len(),
        forall|j: int|
            from <= j < end ==> !begins(#[trigger] lines[j], "--- Snippet"@) && (trimmed(
                lines[j],
            ).len() == 0 || !occurs(lowered(trimmed(lines[j])), query)),
        end < lines.len() ==> begins(lines[end], "--- Snippet"@),
        forall|j: int| from <= j < k ==> trimmed(#[trigger] lines[j]).len() == 0,
        trimmed(lines[k]).len() > 0,
        0 <= start,
        start + (k - from) <= usize::MAX,
    ensures
        snippet_from(lines, from, from, start, query, (seq![], 0)) == (
            trimmed(lines[k]),
            start + (k - from),
        ),
{
    lemma_snippet_first(lines, from, from, start, query, k, end);
}

/// The number in the header of a snippet is that of the line at which it begins.
pub proof fn law_the_number_in_a_header(before: Seq<char>, n: int, behind: Seq<char>)
    requires
        0 <= n <= usize::MAX,
        !before.contains('('),
    ensures
        snippet_line(before + "(Line "@ + decimal(n) + ")"@ + behind) == n,
        snippet_line(before) == 0,
{
    reveal_strlit("(Line ");
    reveal_strlit(")");
    let sep = "(Line "@;
    assert(")"@ =~= seq![')']);
    assert forall|i: int| !matches_at(before, sep, i) by {
        if matches_at(before, sep, i) {
            assert(before.subrange(i, i + sep.len())[0] == before[i]);
            assert(before.contains(before[i]));
        }
    }
    law_splitting(before, seq![], sep);
    let number = decimal(n);
    let rest = number + seq![')'] + behind;
    let s = before + sep + rest;
    assert(before + sep + number + ")"@ + behind =~= s);
    assert forall|i: int| 0 <= i < before.len() implies !matches_at(s, sep, i) by {
        if matches_at(s, sep, i) {
            assert(s.subrange(i, i + sep.len())[0] == s[i]);
            assert(s[i] == before[i]);
            assert(before.contains(before[i]));
        }
    }
    law_splitting(before, rest, sep);
    lemma_decimal(n);
    assert forall|i: int| 0 <= i < number.len() implies #[trigger] number[i] != '(' && number[i]
        != ')' by {
        assert(is_digit(number[i]));
    }
    // The piece behind the separator begins with the number and the bracket.
    crate::text::lemma_find_from(rest, sep, 0);
    let end = match crate::text::find_from(rest, sep, 0) {
        Some(k) => k,
        None => rest.len() as int,
    };
    if end <= number.len() {
        assert(rest.subrange(end, end + sep.len())[0] == rest[end]);
        if end < number.len() {
            assert(rest[end] == number[end]);
        }
    }
    let piece = rest.subrange(0, end);
    assert(split_of(rest, sep)[0] == piece);
    assert(split_of(s, sep)[1] == piece);
    assert(piece =~= number + seq![')'] + piece.skip(number.len() as int + 1));
    assert(!number.contains(')')) by {
        if number.contains(')') {
            let i = choose|i: int| 0 <= i < number.len() && number[i] == ')';
            assert(number[i] != ')');
        }
    }
    law_cut_at_the_first(number, piece.skip(number.len() as int + 1), ')');
    assert(is_digit(number[0]) && is_digit(number[number.len() - 1]));
    lemma_trimmed_already(number);
    law_numbers_are_read_as_written(n, usize::MAX as nat);
}

proof fn lemma_grep_fields(
    lines: Seq<Seq<char>>,
    line: Seq<char>,
    i: int,
    result: CodeView,
    code: Option<(int, int)>,
)
    requires
        0 <= i <= lines.len(),
    ensures
        grep_fields(lines.push(line), i, result, code) == ({
            let before = grep_fields(lines, i, result, code);
            grep_fields(lines.push(line), lines.len() as int, before.0, before.1)
        }),
    decreases lines.len() - i,
{
    let more = lines.push(line);
    if i < lines.len() {
        assert(more[i] == lines[i]);
        let text = lines[i];
        if after_prefix(text, "Repository:"@) is Some {
            lemma_grep_fields(
                lines,
                line,
                i + 1,
                CodeView { repo: trimmed(after_prefix(text, "Repository:"@)->0), ..result },
                code,
            );
        } else if after_prefix(text, "Path:"@) is Some {
            lemma_grep_fields(
                lines,
                line,
                i + 1,
                CodeView { path: trimmed(after_prefix(text, "Path:"@)->0), ..result },
                code,
            );
        } else if after_prefix(text, "URL:"@) is Some {
            lemma_grep_fields(
                lines,
                line,
                i + 1,
                CodeView { url: trimmed(after_prefix(text, "URL:"@)->0), ..result },
                code,
            );
        } else if begins(text, "--- Snippet"@) && code is None {
            lemma_grep_fields(lines, line, i + 1, result, Some((i + 1, snippet_line(text))));
        } else {
            lemma_grep_fields(lines, line, i + 1, result, code);
        }
    }
}

/// A block of grep.app's answer is read line by line: the last repository, path and URL
/// count, and the first snippet, whose lines begin behind its header.
pub proof fn law_how_a_grep_block_is_read(
    lines: Seq<Seq<char>>,
    line: Seq<char>,
    blank: CodeView,
)
    ensures
        grep_fields(seq![], 0, blank, None) == (blank, None::<(int, int)>),
        ({
            let before = grep_fields(lines, 0, blank, None);
            let after = grep_fields(lines.push(line), 0, blank, None);
            if begins(line, "Repository:"@) {
                after == (CodeView { repo: trimmed(line.skip(11)), ..before.0 }, before.1)
            } else if begins(line, "Path:"@) {
                after == (CodeView { path: trimmed(line.skip(5)), ..before.0 }, before.1)
            } else if begins(line, "URL:"@) {
                after == (CodeView { url: trimmed(line.skip(4)), ..before.0 }, before.1)
            } else if begins(line, "--- Snippet"@) && before.1 is None {
                after == (before.0, Some((lines.len() as int + 1, snippet_line(line))))
            } else {
                after == before
            }
        }),
{
    reveal_strlit("Repository:");
    reveal_strlit("Path:");
    reveal_strlit("URL:");
    lemma_grep_fields(lines, line, 0, blank, None);
    let more = lines.push(line);
    assert(more[lines.len() as int] == line);
    reveal_with_fuel(grep_fields, 2);
    if begins(line, "Repository:"@) {
        assert(line.subrange(11, line.len() as int) =~= line.skip(11));
    }
    if begins(line, "Path:"@) {
        assert(line.subrange(5, line.len() as int) =~= line.skip(5));
    }
    if begins(line, "URL:"@) {
        assert(line.subrange(4, line.len() as int) =~= line.skip(4));
    }
}

proof fn lemma_grep_fields_keep(
    lines: Seq<Seq<char>>,
    i: int,
    result: CodeView,
    code: Option<(int, int)>,
)
    requires
        0 <= i <= lines.len(),
    ensures
        grep_fields(lines, i, result, code).0.source == result.source,
        grep_fields(lines, i, result, code).0.language == result.language,
        grep_fields(lines, i, result, code).0.stars == result.stars,
        grep_fields(lines, i, result, code).0.line == result.line,
        grep_fields(lines, i, result, code).0.snippet == result.snippet,
    decreases lines.len() - i,
{
    if i < lines.len() {
        let text = lines[i];
        if after_prefix(text, "Repository:"@) is Some {
            lemma_grep_fields_keep(
                lines,
                i + 1,
                CodeView { repo: trimmed(after_prefix(text, "Repository:"@)->0), ..result },
                code,
            );
        } else if after_prefix(text, "Path:"@) is Some {
            lemma_grep_fields_keep(
                lines,
                i + 1,
                CodeView { path: trimmed(after_prefix(text, "Path:"@)->0), ..result },
                code,
            );
        } else if after_prefix(text, "URL:"@) is Some {
            lemma_grep_fields_keep(
                lines,
                i + 1,
                CodeView { url: trimmed(after_prefix(text, "URL:"@)->0), ..result },
                code,
            );
        } else if begins(text, "--- Snippet"@) && code is None {
            lemma_grep_fields_keep(lines, i + 1, result, Some((i + 1, snippet_line(text))));
        } else {
            lemma_grep_fields_keep(lines, i + 1, result, code);
        }
    }
}

/// A block of grep.app's answer is a result if it names a repository and a URL. It is shown
/// with what was read of it, the language that was asked for, and a line of its first snippet.
pub proof fn law_what_a_grep_block_shows(text: Seq<char>, query: Seq<char>, lang: Seq<char>)
    ensures
        ({
            let blank = CodeView { source: "grepapp"@, language: lang, ..CodeView::empty() };
            let read = grep_fields(lines_of(text), 0, blank, None);
            &&& grep_block(text, query, lang) is Some <==> read.0.repo.len() > 0
                && read.0.url.len() > 0
            &&& grep_block(text, query, lang) matches Some(result) ==> {
                &&& result.repo == read.0.repo
                &&& result.path == read.0.path
                &&& result.url == read.0.url
                &&& result.language == lang
                &&& result.source == "grepapp"@
                &&& result.stars == 0
                &&& read.1 is None ==> result.snippet.len() == 0 && result.line == 0
                &&& read.1 matches Some((at, number)) ==> result.snippet == snippet_from(
                    lines_of(text),
                    at,
                    at,
                    number,
                    lowered(query),
                    (seq![], 0),
                ).0 && result.line == snippet_from(
                    lines_of(text),
                    at,
                    at,
                    number,
                    lowered(query),
                    (seq![], 0),
                ).1 as usize
            }
        }),
{
    let blank = CodeView { source: "grepapp"@, language: lang, ..CodeView::empty() };
    lemma_grep_fields_keep(lines_of(text), 0, blank, None);
}

/// The results among the first `n` blocks of grep.app's answer.
pub open spec fn grep_hits(
    blocks: Seq<Seq<char>>,
    query: Seq<char>,
    lang: Seq<char>,
    n: int,
) -> Seq<CodeView>
    decreases n,
{
    if n <= 0 {
        seq![]
    } else {
        match grep_block(blocks[n - 1], query, lang) {
            Some(result) => grep_hits(blocks, query, lang, n - 1).push(result),
            None => grep_hits(blocks, query, lang, n - 1),
        }
    }
}

proof fn lemma_grep_hits_grow(
    blocks: Seq<Seq<char>>,
    query: Seq<char>,
    lang: Seq<char>,
    i: int,
    n: int,
)
    requires
        0 <= i <= n,
    ensures
        grep_hits(blocks, query, lang, i).len() <= grep_hits(blocks, query, lang, n).len(),
        grep_hits(blocks, query, lang, n).take(grep_hits(blocks, query, lang, i).len() as int)
            == grep_hits(blocks, query, lang, i),
    decreases n - i,
{
    let few = grep_hits(blocks, query, lang, i);
    let all = grep_hits(blocks, query, lang, n);
    if i < n {
        lemma_grep_hits_grow(blocks, query, lang, i, n - 1);
        let most = grep_hits(blocks, query, lang, n - 1);
        assert(all.take(few.len() as int) =~= most.take(few.len() as int));
    } else {
        assert(all.take(few.len() as int) =~= few);
    }
}

proof fn lemma_grep_from(
    blocks: Seq<Seq<char>>,
    query: Seq<char>,
    lang: Seq<char>,
    i: int,
    limit: int,
)
    requires
        0 <= i <= blocks.len(),
        0 <= limit,
        grep_hits(blocks, query, lang, i).len() <= limit,
    ensures
        grep_from(blocks, i, query, lang, limit, grep_hits(blocks, query, lang, i)) == ({
            let all = grep_hits(blocks, query, lang, blocks.len() as int);
            if all.len() <= limit {
                all
            } else {
                all.take(limit)
            }
        }),
    decreases blocks.len() - i,
{
    let all = grep_hits(blocks, query, lang, blocks.len() as int);
    let few = grep_hits(blocks, query, lang, i);
    lemma_grep_hits_grow(blocks, query, lang, i, blocks.len() as int);
    if few.len() >= limit {
        assert(all.take(limit) =~= few);
        if all.len() <= limit {
            assert(all.take(limit) =~= all);
        }
    } else if i < blocks.len() {
        lemma_grep_from(blocks, query, lang, i + 1, limit);
    }
}

/// grep.app gives its first results, in their order: all of them where there are not more than
/// were asked for, and else as many as were asked for.
pub proof fn law_grep_gives_the_first_results(
    blocks: Seq<Seq<char>>,
    query: Seq<char>,
    lang: Seq<char>,
    limit: int,
)
    requires
        limit >= 0,
    ensures
        ({
            let all = grep_hits(blocks, query, lang, blocks.len() as int);
            grep_from(blocks, 0, query, lang, limit, seq![]) == (if all.len() <= limit {
                all
            } else {
                all.take(limit)
            })
        }),
{
    lemma_grep_from(blocks, query, lang, 0, limit);
}

proof fn lemma_grep_parts(parts: Seq<GrepMcpContent>, part: GrepMcpContent, i: int)
    requires
        0 <= i <= parts.len(),
    ensures
        grep_parts_from(parts.push(part), i) == grep_parts_from(parts, i) + (if part.kind@
            == "text"@ && part.text@.len() > 0 {
            seq![part.text@]
        } else {
            seq![]
        }),
    decreases parts.len() - i,
{
    reveal_with_fuel(grep_parts_from, 2);
    let more = parts.push(part);
    if i < parts.len() {
        assert(more[i] == parts[i]);
        lemma_grep_parts(parts, part, i + 1);
    } else {
        assert(more[i] == part);
    }
    assert(grep_parts_from(more, i) =~= grep_parts_from(parts, i) + (if part.kind@ == "text"@
        && part.text@.len() > 0 {
        seq![part.text@]
    } else {
        seq![]
    }));
}

/// Each part of a result of grep.app that is a text and not empty is a block, in their order.
pub proof fn law_the_parts_of_a_grep_result(parts: Seq<GrepMcpContent>, part: GrepMcpContent)
    ensures
        grep_parts_from(seq![], 0) == Seq::<Seq<char>>::empty(),
        grep_parts_from(parts.push(part), 0) == (if part.kind@ == "text"@ && part.text@.len() > 0 {
            grep_parts_from(parts, 0).push(part.text@)
        } else {
            grep_parts_from(parts, 0)
        }),
{
    lemma_grep_parts(parts, part, 0);
    let before = grep_parts_from(parts, 0);
    assert(before + seq![] =~= before);
    assert(before + seq![part.text@] =~= before.push(part.text@));
}

proof fn lemma_grep_messages(messages: Seq<Option<GrepMcpResponse>>, i: int, k: int)
    requires
        0 <= i <= k <= messages.len(),
        forall|j: int|
            i <= j < k ==> ((#[trigger] messages[j]) matches Some(message) ==> message.error is None
                && message.result is None),
    ensures
        grep_messages_from(messages, i) == grep_messages_from(messages, k),
    decreases k - i,
{
    if i < k {
        assert(messages[i] matches Some(message) ==> message.error is None
            && message.result is None);
        lemma_grep_messages(messages, i + 1, k);
    }
}

/// The first message of grep.app that has a result or an error counts: an error is told of
/// with its message, a result that failed as a failure, and any other gives its blocks. Where
/// no message has either, there are no blocks.
pub proof fn law_the_first_grep_message_counts(messages: Seq<Option<GrepMcpResponse>>, k: int)
    requires
        0 <= k <= messages.len(),
        forall|j: int|
            0 <= j < k ==> ((#[trigger] messages[j]) matches Some(message) ==> message.error is None
                && message.result is None),
    ensures
        k == messages.len() ==> grep_messages_from(messages, 0) == Ok::<Seq<Seq<char>>, ErrorView>(
            seq![],
        ),
        k < messages.len() ==> (messages[k] matches Some(message) ==> (
        message.error matches Some(error) ==> grep_messages_from(messages, 0) == Err::<
            Seq<Seq<char>>,
            ErrorView,
        >(ErrorView::Upstream("grep.app error: "@ + error.message@)))),
        k < messages.len() ==> (messages[k] matches Some(message) ==> message.error is None ==> (
        message.result matches Some(result) ==> grep_messages_from(messages, 0) == (
        if result.is_error {
            Err::<Seq<Seq<char>>, ErrorView>(ErrorView::Upstream("grep.app search failed"@))
        } else {
            Ok::<Seq<Seq<char>>, ErrorView>(grep_parts_from(result.content@, 0))
        }))),
{
    lemma_grep_messages(messages, 0, k);
}

/// The languages that grep.app has a name for, under their short and their long names.
pub proof fn law_the_names_of_languages(l: Seq<char>)
    ensures
        l == "go"@ || l == "golang"@ ==> language_name(l) == Some("Go"@),
        l == "py"@ || l == "python"@ ==> language_name(l) == Some("Python"@),
        l == "js"@ || l == "javascript"@ ==> language_name(l) == Some("JavaScript"@),
        l == "ts"@ || l == "typescript"@ ==> language_name(l) == Some("TypeScript"@),
        l == "tsx"@ ==> language_name(l) == Some("TSX"@),
        l == "jsx"@ ==> language_name(l) == Some("JSX"@),
        l == "rb"@ || l == "ruby"@ ==> language_name(l) == Some("Ruby"@),
        l == "rs"@ || l == "rust"@ ==> language_name(l) == Some("Rust"@),
        l == "java"@ ==> language_name(l) == Some("Java"@),
        l == "kt"@ || l == "kotlin"@ ==> language_name(l) == Some("Kotlin"@),
        l == "c"@ ==> language_name(l) == Some("C"@),
        l == "cpp"@ || l == "c++"@ ==> language_name(l) == Some("C++"@),
        l == "cs"@ || l == "csharp"@ ==> language_name(l) == Some("C#"@),
        l == "php"@ ==> language_name(l) == Some("PHP"@),
        l == "swift"@ ==> language_name(l) == Some("Swift"@),
        l == "scala"@ ==> language_name(l) == Some("Scala"@),
        l == "sh"@ || l == "bash"@ || l == "shell"@ ==> language_name(l) == Some("Shell"@),
        l == "html"@ ==> language_name(l) == Some("HTML"@),
        l == "css"@ ==> language_name(l) == Some("CSS"@),
        l == "sql"@ ==> language_name(l) == Some("SQL"@),
{
    reveal_strlit("go");
    reveal_strlit("golang");
    reveal_strlit("py");
    reveal_strlit("python");
    reveal_strlit("js");
    reveal_strlit("javascript");
    reveal_strlit("ts");
    reveal_strlit("typescript");
    reveal_strlit("tsx");
    reveal_strlit("jsx");
    reveal_strlit("rb");
    reveal_strlit("ruby");
    reveal_strlit("rs");
    reveal_strlit("rust");
    reveal_strlit("java");
    reveal_strlit("kt");
    reveal_strlit("kotlin");
    reveal_strlit("c");
    reveal_strlit("cpp");
    reveal_strlit("c++");
    reveal_strlit("cs");
    reveal_strlit("csharp");
    reveal_strlit("php");
    reveal_strlit("swift");
    reveal_strlit("scala");
    reveal_strlit("sh");
    reveal_strlit("bash");
    reveal_strlit("shell");
    reveal_strlit("html");
    reveal_strlit("css");
    reveal_strlit("sql");
    assert("go"@.len() == 2 && "go"@[0] == 'g' && "go"@[1] == 'o');
    assert("golang"@.len() == 6 && "golang"@[0] == 'g' && "golang"@[1] == 'o' && "golang"@[2] == 'l' && "golang"@[3] == 'a');
    assert("py"@.len() == 2 && "py"@[0] == 'p' && "py"@[1] == 'y');
    assert("python"@.len() == 6 && "python"@[0] == 'p' && "python"@[1] == 'y' && "python"@[2] == 't' && "python"@[3] == 'h');
    assert("js"@.len() == 2 && "js"@[0] == 'j' && "js"@[1] == 's');
    assert("javascript"@.len() == 10 && "javascript"@[0] == 'j' && "javascript"@[1] == 'a' && "javascript"@[2] == 'v' && "javascript"@[3] == 'a');
    assert("ts"@.len() == 2 && "ts"@[0] == 't' && "ts"@[1] == 's');
    assert("typescript"@.len() == 10 && "typescript"@[0] == 't' && "typescript"@[1] == 'y' && "typescript"@[2] == 'p' && "typescript"@[3] == 'e');
    assert("tsx"@.len() == 3 && "tsx"@[0] == 't' && "tsx"@[1] == 's' && "tsx"@[2] == 'x');
    assert("jsx"@.len() == 3 && "jsx"@[0] == 'j' && "jsx"@[1] == 's' && "jsx"@[2] == 'x');
    assert("rb"@.len() == 2 && "rb"@[0] == 'r' && "rb"@[1] == 'b');
    assert("ruby"@.len() == 4 && "ruby"@[0] == 'r' && "ruby"@[1] == 'u' && "ruby"@[2] == 'b' && "ruby"@[3] == 'y');
    assert("rs"@.len() == 2 && "rs"@[0] == 'r' && "rs"@[1] == 's');
    assert("rust"@.len() == 4 && "rust"@[0] == 'r' && "rust"@[1] == 'u' && "rust"@[2] == 's' && "rust"@[3] == 't');
    assert("java"@.len() == 4 && "java"@[0] == 'j' && "java"@[1] == 'a' && "java"@[2] == 'v' && "java"@[3] == 'a');
    assert("kt"@.len() == 2 && "kt"@[0] == 'k' && "kt"@[1] == 't');
    assert("kotlin"@.len() == 6 && "kotlin"@[0] == 'k' && "kotlin"@[1] == 'o' && "kotlin"@[2] == 't' && "kotlin"@[3] == 'l');
    assert("c"@.len() == 1 && "c"@[0] == 'c');
    assert("cpp"@.len() == 3 && "cpp"@[0] == 'c' && "cpp"@[1] == 'p' && "cpp"@[2] == 'p');
    assert("c++"@.len() == 3 && "c++"@[0] == 'c' && "c++"@[1] == '+' && "c++"@[2] == '+');
    assert("cs"@.len() == 2 && "cs"@[0] == 'c' && "cs"@[1] == 's');
    assert("csharp"@.len() == 6 && "csharp"@[0] == 'c' && "csharp"@[1] == 's' && "csharp"@[2] == 'h' && "csharp"@[3] == 'a');
    assert("php"@.len() == 3 && "php"@[0] == 'p' && "php"@[1] == 'h' && "php"@[2] == 'p');
    assert("swift"@.len() == 5 && "swift"@[0] == 's' && "swift"@[1] == 'w' && "swift"@[2] == 'i' && "swift"@[3] == 'f');
    assert("scala"@.len() == 5 && "scala"@[0] == 's' && "scala"@[1] == 'c' && "scala"@[2] == 'a' && "scala"@[3] == 'l');
    assert("sh"@.len() == 2 && "sh"@[0] == 's' && "sh"@[1] == 'h');
    assert("bash"@.len() == 4 && "bash"@[0] == 'b' && "bash"@[1] == 'a' && "bash"@[2] == 's' && "bash"@[3] == 'h');
    assert("shell"@.len() == 5 && "shell"@[0] == 's' && "shell"@[1] == 'h' && "shell"@[2] == 'e' && "shell"@[3] == 'l');
    assert("html"@.len() == 4 && "html"@[0] == 'h' && "html"@[1] == 't' && "html"@[2] == 'm' && "html"@[3] == 'l');
    assert("css"@.len() == 3 && "css"@[0] == 'c' && "css"@[1] == 's' && "css"@[2] == 's');
    assert("sql"@.len() == 3 && "sql"@[0] == 's' && "sql"@[1] == 'q' && "sql"@[2] == 'l');
}

/// A search is made in the language that is asked for, in its own spelling where grep.app has
/// a name for it and with a capital where not, or in all.
pub proof fn law_the_language_of_a_search(lang: Seq<char>)
    ensures
        lang.len() == 0 ==> grep_languages(lang).len() == 0,
        lang.len() > 0 ==> grep_languages(lang).len() == 1,
        lang.len() > 0 ==> (language_name(lowered(lang)) matches Some(name) ==> grep_languages(
            lang,
        )[0] == name),
        lang.len() > 0 && language_name(lowered(lang)) is None ==> grep_languages(lang)[0]
            == upper_of(lang[0]) + lang.skip(1),
{
    assert(lang.len() > 0 ==> lang.subrange(1, lang.len() as int) =~= lang.skip(1));
}

/// A request to grep.app asks for the term, in the language that is asked for, and says
/// whether the term is a regular expression.
pub proof fn law_what_grep_is_asked(term: Seq<char>, lang: Seq<char>, regexp: bool)
    ensures
        grep_body(term, lang, regexp)
            == "{\"jsonrpc\":\"2.0\",\"id\":1,\"method\":\"tools/call\",\"params\":{\"name\":\"searchGitHub\",\"arguments\":{\"query\":"@
            + json_text(term) + ",\"language\":["@ + (if lang.len() > 0 {
            json_text(grep_languages(lang)[0])
        } else {
            seq![]
        }) + "],\"useRegexp\":"@ + (if regexp {
            "true"@
        } else {
            "false"@
        }) + "}}}"@,
{
}

/// A list of results is seen as its results are, in their order.
pub proof fn law_what_a_list_of_code_results_holds(results: Seq<CodeResult>)
    ensures
        codes_of(results).len() == results.len(),
        forall|i: int| 0 <= i < results.len() ==> #[trigger] codes_of(results)[i] == results[i]@,
{
}

/// When a limit ends is the number in the header, if there is one.
pub proof fn law_the_header_tells_when_a_limit_ends(n: int)
    requires
        -0x8000_0000_0000_0000 <= n <= 0x7fff_ffff_ffff_ffff,
    ensures
        reset_time(Some(signed(n))) == Some(n),
        reset_time(None) is None,
{
    crate::text::law_signed_numbers_are_read_as_written(n);
}

/// Every result keeps its place, with the stars of its own repository.
pub proof fn law_every_result_gets_its_stars(
    results: Seq<CodeView>,
    items: Seq<GithubItem>,
    nodes: Seq<GraphqlNode>,
    i: int,
)
    requires
        0 <= i < results.len(),
    ensures
        all_starred(results, items, nodes).len() == results.len(),
        i < items.len() ==> all_starred(results, items, nodes)[i] == starred(
            results[i],
            nodes,
            items[i].node_id@,
        ),
        i >= items.len() ==> all_starred(results, items, nodes)[i] == results[i],
{
}

/// GitHub is asked for as many results as are wanted, up to a hundred, and for thirty where none
/// or more are wanted.
pub proof fn law_how_many_results_github_is_asked_for(limit: int)
    requires
        limit >= 0,
    ensures
        1 <= limit <= 100 ==> github_count(limit) == limit,
        limit > 100 ==> github_count(limit) == 30,
        github_count(0) == 30,
{
}

/// Sourcegraph is asked at the same place of the instance, with or without a slash at its end.
pub proof fn law_where_sourcegraph_is_asked(base: Seq<char>, slashes: Seq<char>)
    requires
        base.len() > 0,
        base[0] != '/',
        base.last() != '/',
        forall|i: int| 0 <= i < slashes.len() ==> #[trigger] slashes[i] == '/',
    ensures
        sourcegraph_address(base + slashes) == base + "/.api/search/stream"@,
{
    crate::text::law_dropping_one_character(seq![], base, slashes, '/');
}

} // verus!
