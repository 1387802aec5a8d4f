use rue::grammar::expr::atom_expr;
use rue::grammar::items::item;
use rue::grammar::stmts::stmt;
use rue::parser::parse_text;
use rue::{Input, Output, Parser};

fn parse_atom(source: &str) -> String {
    let tokens = rue::lexer::tokenize(source);
    let mut parser = Parser::new(Input::from_tokens(&tokens));
    atom_expr(&mut parser);
    parser.parse(&tokens).debug_tree()
}

fn parse_item(source: &str) -> Output {
    let tokens = rue::lexer::tokenize(source);
    let mut parser = Parser::new(Input::from_tokens(&tokens));
    item(&mut parser);
    parser.parse(&tokens)
}

fn parse_stmt(source: &str) -> Output {
    let tokens = rue::lexer::tokenize(source);
    let mut parser = Parser::new(Input::from_tokens(&tokens));
    stmt(&mut parser);
    parser.parse(&tokens)
}

#[test]
fn parse_true() {
    assert_eq!(parse_atom("true"), "Literal@0..4\n  TrueKw@0..4 \"true\"");
}

#[test]
fn parse_false() {
    assert_eq!(parse_atom("false"), "Literal@0..5\n  FalseKw@0..5 \"false\"");
}

#[test]
fn parse_string() {
    assert_eq!(parse_atom("'abc'"), "Literal@0..5\n  String@0..5 \"'abc'\"");
}

#[test]
fn parse_integer() {
    assert_eq!(parse_atom("42"), "Literal@0..2\n  Integer@0..2 \"42\"");
}

#[test]
fn parse_name_ref() {
    assert_eq!(parse_atom("abc"), "NameRef@0..3\n  Ident@0..3 \"abc\"");
}

#[test]
fn precedence_multiplication_binds_tighter() {
    let out = parse_text("1 + 2 * 3");
    assert!(out.errors.is_empty());
    let tree = out.debug_tree();
    // the whole expression is one addition ...
    assert!(tree.contains("BinaryExpr@0..9"), "{tree}");
    // ... whose right operand is the multiplication
    assert!(tree.contains("BinaryExpr@4..9"), "{tree}");
    assert_eq!(out.leaf_text(), "1 + 2 * 3");
}

#[test]
fn subtraction_associates_left() {
    let out = parse_text("1 - 2 - 3");
    assert!(out.errors.is_empty());
    let tree = out.debug_tree();
    assert!(tree.contains("BinaryExpr@0..9"), "{tree}");
    // the left operand is itself the first subtraction
    assert!(tree.contains("BinaryExpr@0..6"), "{tree}");
    assert_eq!(out.leaf_text(), "1 - 2 - 3");
}

#[test]
fn composite_operator_is_one_leaf() {
    let out = parse_text("1 <= 2");
    assert!(out.errors.is_empty());
    let tree = out.debug_tree();
    assert!(tree.contains("LessThanEquals@2..4 \"<=\""), "{tree}");
}

#[test]
fn spaced_composite_is_not_joint() {
    let out = parse_text("1 < = 2");
    let tree = out.debug_tree();
    // the spaced `< =` must not fuse into one comparison leaf
    assert!(!tree.contains("LessThanEquals"), "{tree}");
    assert_eq!(out.leaf_text(), "1 < = 2");
}

#[test]
fn arrow_needs_joint_tokens() {
    // `- >` with a space scans as two tokens and never forms an arrow
    let spaced = rue::lexer::tokenize("- >");
    assert_eq!(spaced.len(), 3);
    let fused = rue::lexer::tokenize("->");
    assert_eq!(fused.len(), 1);
    assert_eq!(fused[0].kind, rue::TokenKind::Arrow);
}

#[test]
fn prefix_operator_binds_tightest() {
    let out = parse_text("-1 + 2");
    assert!(out.errors.is_empty());
    let tree = out.debug_tree();
    assert!(tree.contains("PrefixExpr@0..3"), "{tree}");
    assert!(tree.contains("BinaryExpr@0..6"), "{tree}");
}

#[test]
fn paren_expr_groups() {
    let out = parse_text("(1 + 2) * 3");
    assert!(out.errors.is_empty());
    let tree = out.debug_tree();
    assert!(tree.contains("ParenExpr@0..8"), "{tree}");
    assert_eq!(out.leaf_text(), "(1 + 2) * 3");
}

#[test]
fn lone_close_brace_terminates_with_one_diagnostic() {
    let out = parse_text("}");
    assert_eq!(out.errors.len(), 1);
    assert_eq!(out.errors[0].message, "expected expression");
    assert_eq!(out.leaf_text(), "}");
    assert!(out.debug_tree().starts_with("Root@0..1"));
}

#[test]
fn malformed_param_list_keeps_the_block() {
    let out = parse_item("def f( { }");
    let messages: Vec<&str> = out.errors.iter().map(|e| e.message.as_str()).collect();
    assert!(messages.contains(&"Expected parameter"), "{messages:?}");
    let tree = out.debug_tree();
    assert!(tree.contains("Block@"), "{tree}");
    assert_eq!(out.leaf_text(), "def f( { }");
}

#[test]
fn let_statement_end_to_end() {
    let out = parse_stmt("let x: Int = 1 + 2;");
    assert!(out.errors.is_empty(), "{:?}", out.errors);
    let tree = out.debug_tree();
    assert!(tree.starts_with("LetStmt@0..19"), "{tree}");
    assert!(tree.contains("LetKw@0..3 \"let\""), "{tree}");
    assert!(tree.contains("Ident@4..5 \"x\""), "{tree}");
    assert!(tree.contains("Colon@5..6 \":\""), "{tree}");
    assert!(tree.contains("NameType@7.."), "{tree}");
    assert!(tree.contains("Ident@7..10 \"Int\""), "{tree}");
    assert!(tree.contains("Equals@11..12 \"=\""), "{tree}");
    assert!(tree.contains("BinaryExpr@13..18"), "{tree}");
    assert!(tree.contains("Integer@13..14 \"1\""), "{tree}");
    assert!(tree.contains("Plus@15..16 \"+\""), "{tree}");
    assert!(tree.contains("Integer@17..18 \"2\""), "{tree}");
    assert!(tree.contains("Semicolon@18..19 \";\""), "{tree}");
    assert_eq!(out.leaf_text(), "let x: Int = 1 + 2;");
}

#[test]
fn def_item_with_params_and_return_type() {
    let out = parse_item("def add(a: Int, b: Int) -> Int { let c = a + b; }");
    assert!(out.errors.is_empty(), "{:?}", out.errors);
    let tree = out.debug_tree();
    assert!(tree.starts_with("DefItem@"), "{tree}");
    assert!(tree.contains("ParamList@"), "{tree}");
    assert!(tree.contains("Param@"), "{tree}");
    assert!(tree.contains("Arrow@24..26 \"->\""), "{tree}");
    assert!(tree.contains("Block@"), "{tree}");
    assert!(tree.contains("LetStmt@"), "{tree}");
    assert_eq!(out.leaf_text(), "def add(a: Int, b: Int) -> Int { let c = a + b; }");
}

#[test]
fn missing_semicolon_is_reported_but_not_fatal() {
    let out = parse_stmt("let x = 1");
    let messages: Vec<&str> = out.errors.iter().map(|e| e.message.as_str()).collect();
    assert!(messages.contains(&"expected Semicolon"), "{messages:?}");
    assert_eq!(out.leaf_text(), "let x = 1");
}

#[test]
fn expected_ident_diagnostic() {
    let out = parse_stmt("let = 1;");
    let messages: Vec<&str> = out.errors.iter().map(|e| e.message.as_str()).collect();
    assert!(messages.contains(&"expected Ident"), "{messages:?}");
}

#[test]
fn triple_shift_is_one_leaf() {
    let out = parse_text("1 >>> 2");
    assert!(out.errors.is_empty());
    let tree = out.debug_tree();
    assert!(tree.contains("UnsignedRightShift@2..5 \">>>\""), "{tree}");
}

#[test]
fn spaced_triple_shift_does_not_fuse() {
    let out = parse_text("1 >> > 2");
    let tree = out.debug_tree();
    assert!(!tree.contains("UnsignedRightShift"), "{tree}");
    assert!(tree.contains("RightShift@2..4 \">>\""), "{tree}");
    assert_eq!(out.leaf_text(), "1 >> > 2");
}

#[test]
fn equality_and_inequality_operators() {
    let eq = parse_text("1 == 2");
    assert!(eq.debug_tree().contains("EqualTo@2..4 \"==\""));
    let ne = parse_text("1 != 2");
    assert!(ne.debug_tree().contains("NotEqual@2..4 \"!=\""));
}

#[test]
fn input_view_tracks_jointness() {
    let tokens = rue::lexer::tokenize("< = <=");
    let input = Input::from_tokens(&tokens);
    assert_eq!(input.len(), 4);
    assert_eq!(input.kind(0), rue::SyntaxKind::LessThan);
    assert_eq!(input.kind(1), rue::SyntaxKind::Equals);
    // `< =` is separated by trivia, the final `<=` is joint
    assert!(!input.is_joint(0));
    assert!(input.is_joint(2));
    assert!(!input.is_joint(9));
    assert_eq!(input.kind(9), rue::SyntaxKind::Eof);
}

#[test]
fn input_push_and_was_joint() {
    let mut input = rue::Input::empty();
    input.push(rue::SyntaxKind::Minus);
    input.was_joint();
    input.push(rue::SyntaxKind::GreaterThan);
    assert!(input.is_joint(0));
    assert!(!input.is_joint(1));
}

#[test]
fn tombstone_event_shape() {
    let e = rue::Event::tombstone();
    assert_eq!(
        e,
        rue::Event::StartNode { kind: rue::SyntaxKind::Tombstone, forward_parent: None }
    );
}

#[test]
fn type_recovery_leaves_the_closing_paren() {
    // the missing type is reported, but `)` is not consumed by recovery:
    // the parameter list still closes and the block still parses
    let out = parse_item("def f(x: ) { }");
    let messages: Vec<&str> = out.errors.iter().map(|e| e.message.as_str()).collect();
    assert!(messages.contains(&"Expected type"), "{messages:?}");
    let tree = out.debug_tree();
    assert!(tree.contains("ParamList@"), "{tree}");
    assert!(tree.contains("CloseParen@9..10 \")\""), "{tree}");
    assert!(tree.contains("Block@"), "{tree}");
    assert_eq!(out.leaf_text(), "def f(x: ) { }");
}

#[test]
fn let_statement_through_the_whole_pipeline() {
    let out = parse_text("let x: Int = 1 + 2;");
    assert!(out.errors.is_empty(), "{:?}", out.errors);
    let tree = out.debug_tree();
    assert!(tree.starts_with("Root@0..19"), "{tree}");
    assert!(tree.contains("LetStmt@0..19"), "{tree}");
    assert!(tree.contains("NameType@"), "{tree}");
    assert!(tree.contains("BinaryExpr@13..18"), "{tree}");
    assert!(tree.contains("Semicolon@18..19 \";\""), "{tree}");
    assert_eq!(out.leaf_text(), "let x: Int = 1 + 2;");
}

#[test]
fn def_item_through_the_whole_pipeline() {
    let out = parse_text("def f(a: Int) -> Int { let b = a; }");
    assert!(out.errors.is_empty(), "{:?}", out.errors);
    let tree = out.debug_tree();
    assert!(tree.contains("DefItem@"), "{tree}");
    assert!(tree.contains("ParamList@"), "{tree}");
    assert!(tree.contains("Block@"), "{tree}");
    assert_eq!(out.leaf_text(), "def f(a: Int) -> Int { let b = a; }");
}
