use minigrep::lines::split_lines;
use minigrep::matching::line_contains;
use minigrep::search::search;

const POEM: &str = "Rust:\nsafe, fast, productive.\nPick three.\nDuct tape.";

#[test]
fn case_sensitive_single_match() {
    let result = search("duct", POEM, false);
    assert_eq!(result, vec!["safe, fast, productive."]);
}

#[test]
fn case_insensitive_two_matches_in_order() {
    let result = search("duct", POEM, true);
    assert_eq!(result, vec!["safe, fast, productive.", "Duct tape."]);
}

#[test]
fn full_line_match() {
    let result = search("Pick three.", POEM, false);
    assert_eq!(result, vec!["Pick three."]);
}

#[test]
fn no_match_yields_empty_result() {
    let result = search("monkey", POEM, false);
    assert!(result.is_empty());
    let result = search("monkey", POEM, true);
    assert!(result.is_empty());
}

#[test]
fn empty_query_returns_every_line_once() {
    let result = search("", POEM, false);
    assert_eq!(
        result,
        vec!["Rust:", "safe, fast, productive.", "Pick three.", "Duct tape."]
    );
}

#[test]
fn empty_text_returns_nothing() {
    assert!(search("anything", "", false).is_empty());
    assert!(search("anything", "", true).is_empty());
    assert!(search("", "", false).is_empty());
}

#[test]
fn order_and_duplicates_preserved() {
    let text = "echo\nalpha\necho\nbravo\necho";
    let result = search("echo", text, false);
    assert_eq!(result, vec!["echo", "echo", "echo"]);
    let result = search("o", text, false);
    assert_eq!(result, vec!["echo", "echo", "bravo", "echo"]);
}

#[test]
fn case_insensitive_reports_original_line() {
    let text = "MiXeD CaSe LiNe\nplain line";
    let result = search("mixed case", text, true);
    assert_eq!(result, vec!["MiXeD CaSe LiNe"]);
}

#[test]
fn query_longer_than_any_line_yields_empty() {
    let text = "ab\ncd";
    assert!(search("abcde", text, false).is_empty());
}

#[test]
fn pipeline_is_idempotent_on_same_inputs() {
    let first = search("duct", POEM, true);
    let second = search("duct", POEM, true);
    assert_eq!(first, second);
}

#[test]
fn split_keeps_trailing_unterminated_line() {
    assert_eq!(split_lines("a\nb"), vec!["a", "b"]);
}

#[test]
fn split_drops_nothing_on_trailing_terminator() {
    assert_eq!(split_lines("a\nb\n"), vec!["a", "b"]);
}

#[test]
fn split_keeps_empty_lines_in_the_middle() {
    assert_eq!(split_lines("a\n\nb\n"), vec!["a", "", "b"]);
    assert_eq!(split_lines("\n"), vec![""]);
}

#[test]
fn split_of_empty_text_has_no_lines() {
    assert_eq!(split_lines(""), Vec::<&str>::new());
}

#[test]
fn split_strips_carriage_return_before_newline() {
    assert_eq!(split_lines("a\r\nb\r\n"), vec!["a", "b"]);
    assert_eq!(split_lines("a\r\nb"), vec!["a", "b"]);
    assert_eq!(split_lines("\r\n"), vec![""]);
}

#[test]
fn split_keeps_carriage_return_away_from_newline() {
    assert_eq!(split_lines("a\rb\n"), vec!["a\rb"]);
    assert_eq!(split_lines("abc\r"), vec!["abc\r"]);
}

#[test]
fn matches_cross_crlf_line_ends_correctly() {
    let text = "ab.\r\ncd\r\nab";
    assert_eq!(search("ab.", text, false), vec!["ab."]);
    assert_eq!(search("b", text, false), vec!["ab.", "ab"]);
    assert!(search("\r", text, false).is_empty());
}

#[test]
fn line_contains_basics() {
    assert!(line_contains("productive", "duct", false));
    assert!(!line_contains("Duct tape.", "duct", false));
    assert!(line_contains("Duct tape.", "duct", true));
    assert!(line_contains("anything", "", false));
    assert!(!line_contains("", "a", false));
    assert!(line_contains("", "", true));
}

#[test]
fn option_demonstration_runs() {
    minigrep::chapter_6_2_OPTION_enum();
}

#[test]
fn case_folding_is_unicode_aware() {
    let text = "ÜBER ALLES\nplain";
    assert_eq!(search("über", text, true), vec!["ÜBER ALLES"]);
    assert!(search("über", text, false).is_empty());
    assert!(line_contains("ÜBER", "über", true));
    assert!(line_contains("STRAẞE", "straße", true));
}

#[test]
fn empty_query_with_case_flag_matches_every_line() {
    let result = search("", POEM, true);
    assert_eq!(
        result,
        vec!["Rust:", "safe, fast, productive.", "Pick three.", "Duct tape."]
    );
}

#[test]
fn multibyte_characters_are_matched_whole() {
    let text = "grüße\nnaïve plan\nplain";
    assert_eq!(search("üß", text, false), vec!["grüße"]);
    assert_eq!(search("ï", text, true), vec!["naïve plan"]);
    assert!(search("u", text, false).is_empty());
}
