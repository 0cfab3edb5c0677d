use json_prettifier::pipeline::is_json_extension;
use json_prettifier::pipeline::prettify_text;
use json_prettifier::stripper::remove_jsonc_comments;

#[test]
fn round_trip_with_indent_two() {
    let input = "{/* c */\"a\":1,\"b\":[2,3]}";
    let out = prettify_text(input, 2).unwrap();
    assert_eq!(out, "{\n  \"a\": 1,\n  \"b\": [\n    2,\n    3\n  ]\n}");
    assert!(!out.contains("/*"));
    assert!(!out.contains("c"));
}

#[test]
fn trailing_comment_with_default_indent() {
    let input = "{\"x\": \"a // not comment\", \"y\": 1} // trailing";
    assert_eq!(
        remove_jsonc_comments(input),
        "{\"x\": \"a // not comment\", \"y\": 1} "
    );
    let out = prettify_text(input, 4).unwrap();
    assert_eq!(out, "{\n    \"x\": \"a // not comment\",\n    \"y\": 1\n}");
}

#[test]
fn only_json_and_jsonc_extensions_are_selected() {
    assert!(is_json_extension("json"));
    assert!(is_json_extension("jsonc"));
    assert!(!is_json_extension("txt"));
    assert!(!is_json_extension("JSON"));
    assert!(!is_json_extension("Jsonc"));
    assert!(!is_json_extension("json5"));
    assert!(!is_json_extension(""));
}

#[test]
fn unterminated_block_comment_fails_to_parse() {
    let failure = prettify_text("{\"a\":1 /* oops", 4).unwrap_err();
    assert_eq!(failure.stripped, "{\"a\":1 ");
    assert!(!failure.message.is_empty());
    // A sibling file with sound contents still succeeds.
    let out = prettify_text("{\"a\":1}", 4).unwrap();
    assert_eq!(out, "{\n    \"a\": 1\n}");
}

#[test]
fn parse_failure_keeps_the_stripped_text() {
    let failure = prettify_text("{,}", 4).unwrap_err();
    assert_eq!(failure.stripped, "{,}");
    assert!(!failure.message.is_empty());
}

#[test]
fn zero_indent_is_allowed() {
    let out = prettify_text("[1,2]", 0).unwrap();
    assert_eq!(out, "[\n1,\n2\n]");
}
