use rue::parser::parse_text;

#[test]
fn lossless_well_formed_input() {
    let source = "def f(x: Int) -> Int { let y = x * (2 + x); }";
    let out = parse_text(source);
    assert_eq!(out.leaf_text(), source);
}

#[test]
fn lossless_with_trivia_and_comments() {
    let source = "1 + /* inner */ 2 // trailing";
    let out = parse_text(source);
    assert_eq!(out.leaf_text(), source);
}

#[test]
fn lossless_malformed_input() {
    for source in [
        "",
        "}",
        "((((",
        "let",
        "def def def",
        "1 + + 2",
        "'unterminated",
        "/* open",
        "0b12_3",
        "\u{0} odd \u{0}",
        "{ { }",
    ] {
        let out = parse_text(source);
        assert_eq!(out.leaf_text(), source, "lost text for {source:?}");
    }
}

#[test]
fn parsing_twice_gives_identical_results() {
    let source = "def f( { } let x = 'a; 0b2 }";
    let a = parse_text(source);
    let b = parse_text(source);
    assert_eq!(a.instrs, b.instrs);
    assert_eq!(a.errors, b.errors);
    assert_eq!(a.debug_tree(), b.debug_tree());
}

#[test]
fn empty_input_yields_bare_root() {
    let out = parse_text("");
    assert!(out.errors.is_empty());
    assert_eq!(out.debug_tree(), "Root@0..0");
    assert_eq!(out.leaf_text(), "");
}

#[test]
fn unterminated_string_diagnostic() {
    let out = parse_text("'abc");
    let messages: Vec<&str> = out.errors.iter().map(|e| e.message.as_str()).collect();
    assert!(messages.contains(&"Unterminated string literal"), "{messages:?}");
    assert_eq!(out.leaf_text(), "'abc");
}

#[test]
fn unterminated_block_comment_diagnostic() {
    let out = parse_text("1 /* open");
    let messages: Vec<&str> = out.errors.iter().map(|e| e.message.as_str()).collect();
    assert!(messages.contains(&"Unterminated block comment"), "{messages:?}");
}

#[test]
fn empty_base_prefix_diagnostic() {
    let out = parse_text("0b");
    let messages: Vec<&str> = out.errors.iter().map(|e| e.message.as_str()).collect();
    assert!(
        messages.contains(&"Expected digits after the integer base prefix"),
        "{messages:?}"
    );
}

#[test]
fn invalid_binary_digit_diagnostic() {
    let out = parse_text("0b102");
    let messages: Vec<&str> = out.errors.iter().map(|e| e.message.as_str()).collect();
    assert!(messages.contains(&"Invalid base 2 digit"), "{messages:?}");
    // underscores are allowed and valid digits draw no diagnostic
    let ok = parse_text("0b1_01");
    assert!(ok.errors.is_empty(), "{:?}", ok.errors);
}

#[test]
fn invalid_octal_digit_diagnostic() {
    let out = parse_text("0o79");
    let messages: Vec<&str> = out.errors.iter().map(|e| e.message.as_str()).collect();
    assert!(messages.contains(&"Invalid base 8 digit"), "{messages:?}");
}

#[test]
fn recovery_makes_progress_on_garbage() {
    // a long stretch of unparseable tokens must terminate and keep every byte
    let source = ". . . . . . . . . .";
    let out = parse_text(source);
    assert_eq!(out.leaf_text(), source);
    assert!(!out.errors.is_empty());
}

#[test]
fn error_spans_point_at_the_offending_token() {
    let out = parse_text("}");
    assert_eq!(out.errors[0].span, rue::token::Span { start: 0, end: 1 });
}

#[test]
fn tree_never_contains_tombstones() {
    for source in ["1 + 2", "def f( { }", "}", "- 3", "a"] {
        let tree = parse_text(source).debug_tree();
        assert!(!tree.contains("Tombstone"), "{tree}");
    }
}

#[test]
fn invalid_digit_span_is_one_character() {
    // in "0b2" the bad digit sits at byte 2
    let out = parse_text("0b2");
    assert_eq!(out.errors.len(), 1);
    assert_eq!(out.errors[0].message, "Invalid base 2 digit");
    assert_eq!(out.errors[0].span, rue::token::Span { start: 2, end: 3 });
}

#[test]
fn unterminated_string_span_covers_the_token() {
    let out = parse_text("1 'ab");
    let diag = out
        .errors
        .iter()
        .find(|e| e.message == "Unterminated string literal")
        .expect("diagnostic");
    assert_eq!(diag.span, rue::token::Span { start: 2, end: 5 });
}
