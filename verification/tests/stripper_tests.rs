use json_prettifier::stripper::remove_jsonc_comments;

#[test]
fn no_markers_is_identity() {
    let input = "[1, 2, 3]\n";
    assert_eq!(remove_jsonc_comments(input), input);
    let plain = "{'a': 1}\nplain text with / single slashes / only\n";
    assert_eq!(remove_jsonc_comments(plain), plain);
}

#[test]
fn quoted_comment_marker_is_kept() {
    let input = "{\"x\": \"// not a comment\"}";
    assert_eq!(remove_jsonc_comments(input), input);
    let block = "{\"y\": \"/* also not a comment */\"}";
    assert_eq!(remove_jsonc_comments(block), block);
}

#[test]
fn line_comment_removed_newline_kept() {
    assert_eq!(remove_jsonc_comments("x // c\ny"), "x \ny");
    assert_eq!(remove_jsonc_comments("// whole line\nrest"), "\nrest");
}

#[test]
fn block_comment_removed() {
    assert_eq!(remove_jsonc_comments("a/*b*/c"), "ac");
    assert_eq!(remove_jsonc_comments("a/* b\n c */d"), "ad");
}

#[test]
fn newline_count_never_grows() {
    let inputs = [
        "a/* b\n c */d",
        "x // c\ny",
        "{\"k\": \"v\"}\n\n",
        "// only\n",
        "/* \n \n */",
    ];
    for input in inputs {
        let output = remove_jsonc_comments(input);
        let n_in = input.matches('\n').count();
        let n_out = output.matches('\n').count();
        assert!(n_out <= n_in);
    }
}

#[test]
fn stripping_twice_changes_nothing_more() {
    let input = "{\"a\": 1, // c\n\"b\": [2, 3] /* x */}";
    let once = remove_jsonc_comments(input);
    let twice = remove_jsonc_comments(&once);
    assert_eq!(twice, once);
    assert_eq!(once, "{\"a\": 1, \n\"b\": [2, 3] }");
}

#[test]
fn trailing_slash_is_kept() {
    assert_eq!(remove_jsonc_comments("a/"), "a/");
    assert_eq!(remove_jsonc_comments("/"), "/");
}

#[test]
fn unterminated_block_comment_drops_the_rest() {
    assert_eq!(remove_jsonc_comments("{\"a\":1 /* oops"), "{\"a\":1 ");
}

#[test]
fn quote_inside_comment_is_tracked() {
    // The quote flag toggles even inside a comment: the quoted run inside
    // the line comment is kept, the rest of the comment is dropped.
    assert_eq!(remove_jsonc_comments("// a\"b\n"), "\"b\n");
}
