use snarf::urlrewrite::{apply, Rewriter, Rule};

fn rule(pattern: &str, replace: &str) -> Rule {
    Rule {
        pattern: pattern.to_string(),
        replace: replace.to_string(),
    }
}

#[test]
fn empty_rules_have_no_rewriter() {
    assert!(Rewriter::new(&[]).unwrap().is_none());
}

#[test]
fn rejects_invalid_regexes() {
    assert!(Rewriter::new(&[rule("[", "x")]).is_err());
}

#[test]
fn none_rewriter_is_identity() {
    assert_eq!(
        apply(&None, "https://example.com/x"),
        "https://example.com/x"
    );
}

#[test]
fn no_match_returns_original() {
    let rewriter =
        Rewriter::new(&[rule(r"^https?://foo\.com/(.*)$", "https://bar.com/$1")]).unwrap();

    assert_eq!(
        apply(&rewriter, "https://example.com/x"),
        "https://example.com/x"
    );
}

#[test]
fn applies_first_matching_rule() {
    let rewriter = Rewriter::new(&[
        rule(
            r"^https?://www\.reddit\.com/(.*)$",
            "https://old.reddit.com/$1",
        ),
        rule(r"^https?://reddit\.com/(.*)$", "https://example.com/$1"),
    ])
    .unwrap()
    .unwrap();

    assert_eq!(
        rewriter.apply("https://www.reddit.com/r/rust"),
        "https://old.reddit.com/r/rust"
    );
}

#[test]
fn applies_capture_group_rewrites() {
    let rewriter = Rewriter::new(&[rule(
        r"^(https://www\.theguardian\.com/uk)$",
        "$1/rss",
    )])
    .unwrap()
    .unwrap();

    assert_eq!(
        rewriter.apply("https://www.theguardian.com/uk"),
        "https://www.theguardian.com/uk/rss"
    );
}

#[test]
fn only_the_first_matching_rule_counts() {
    let rewriter = Rewriter::new(&[rule("nothing", "x"), rule("a", "b"), rule("b", "c")])
        .unwrap()
        .unwrap();
    assert_eq!(rewriter.apply("aa"), "bb");
    assert_eq!(rewriter.clone().apply("b"), "c");
}

#[test]
fn the_broken_rule_is_named() {
    let message = Rewriter::new(&[rule("a", "b"), rule("(", "b")]).unwrap_err();
    assert!(message.starts_with("url_rewrites[1]: "), "{message}");
}
