use rue::lexer::{tokenize, Lexer};
use rue::token_kind::{Base, TokenKind};

fn lex(source: &str) -> Vec<TokenKind> {
    tokenize(source).iter().map(|token| token.kind).collect::<Vec<_>>()
}

#[test]
fn ident() {
    assert_eq!(lex("hello_world"), &[TokenKind::Ident])
}

#[test]
fn string() {
    assert_eq!(
        lex("'abc'"),
        &[TokenKind::String {
            is_terminated: true
        }]
    )
}

#[test]
fn integer() {
    assert_eq!(
        lex("42"),
        &[TokenKind::Integer {
            base: Base::Decimal,
            is_empty: false
        }]
    )
}

#[test]
fn def_kw() {
    assert_eq!(lex("def"), &[TokenKind::DefKw])
}

#[test]
fn let_kw() {
    assert_eq!(lex("let"), &[TokenKind::LetKw])
}

#[test]
fn true_kw() {
    assert_eq!(lex("true"), &[TokenKind::TrueKw])
}

#[test]
fn false_kw() {
    assert_eq!(lex("false"), &[TokenKind::FalseKw])
}

#[test]
fn open_paren() {
    assert_eq!(lex("("), &[TokenKind::OpenParen])
}

#[test]
fn close_paren() {
    assert_eq!(lex(")"), &[TokenKind::CloseParen])
}

#[test]
fn open_brace() {
    assert_eq!(lex("{"), &[TokenKind::OpenBrace])
}

#[test]
fn close_brace() {
    assert_eq!(lex("}"), &[TokenKind::CloseBrace])
}

#[test]
fn less_than() {
    assert_eq!(lex("<"), &[TokenKind::LessThan])
}

#[test]
fn greater_than() {
    assert_eq!(lex(">"), &[TokenKind::GreaterThan])
}

#[test]
fn plus() {
    assert_eq!(lex("+"), &[TokenKind::Plus])
}

#[test]
fn minus() {
    assert_eq!(lex("-"), &[TokenKind::Minus])
}

#[test]
fn star() {
    assert_eq!(lex("*"), &[TokenKind::Star])
}

#[test]
fn slash() {
    assert_eq!(lex("/"), &[TokenKind::Slash])
}

#[test]
fn arrow() {
    assert_eq!(lex("->"), &[TokenKind::Arrow])
}

#[test]
fn colon() {
    assert_eq!(lex(":"), &[TokenKind::Colon])
}

#[test]
fn comma() {
    assert_eq!(lex(","), &[TokenKind::Comma])
}

#[test]
fn dot() {
    assert_eq!(lex("."), &[TokenKind::Dot])
}

#[test]
fn whitespace() {
    assert_eq!(lex("    "), &[TokenKind::Whitespace])
}

#[test]
fn line_comment() {
    assert_eq!(lex("// comment"), &[TokenKind::LineComment])
}

#[test]
fn block_comment() {
    assert_eq!(
        lex("/* comment */"),
        &[TokenKind::BlockComment {
            is_terminated: true
        }]
    )
}

#[test]
fn next_token_walks_the_source() {
    let mut lexer = Lexer::new("a b");
    let first = lexer.next_token().unwrap();
    assert_eq!(first.kind, TokenKind::Ident);
    assert_eq!(first.text, "a");
    assert_eq!(first.span.start, 0);
    assert_eq!(first.span.end, 1);
    let second = lexer.next_token().unwrap();
    assert_eq!(second.kind, TokenKind::Whitespace);
    let third = lexer.next_token().unwrap();
    assert_eq!(third.kind, TokenKind::Ident);
    assert_eq!(third.text, "b");
    assert_eq!(third.span.start, 2);
    assert_eq!(third.span.end, 3);
    assert!(lexer.next_token().is_none());
}

#[test]
fn arrow_needs_adjacency() {
    assert_eq!(
        lex("- >"),
        &[TokenKind::Minus, TokenKind::Whitespace, TokenKind::GreaterThan]
    )
}

#[test]
fn unterminated_string() {
    assert_eq!(
        lex("'abc"),
        &[TokenKind::String {
            is_terminated: false
        }]
    )
}

#[test]
fn unterminated_block_comment() {
    assert_eq!(
        lex("/* abc"),
        &[TokenKind::BlockComment {
            is_terminated: false
        }]
    )
}

#[test]
fn empty_binary_literal() {
    assert_eq!(
        lex("0b"),
        &[TokenKind::Integer {
            base: Base::Binary,
            is_empty: true
        }]
    )
}

#[test]
fn hexadecimal_literal() {
    assert_eq!(
        lex("0x1f"),
        &[TokenKind::Integer {
            base: Base::Hexadecimal,
            is_empty: false
        }]
    )
}

#[test]
fn character_classes() {
    assert!(rue::chars::is_ident_start('a'));
    assert!(rue::chars::is_ident_start('_'));
    assert!(!rue::chars::is_ident_start('1'));
    assert!(!rue::chars::is_ident_start(' '));
    assert!(rue::chars::is_ident_continue('1'));
    assert!(rue::chars::is_ident_continue('a'));
    assert!(!rue::chars::is_ident_continue('+'));
    assert!(rue::chars::is_whitespace(' '));
    assert!(rue::chars::is_whitespace('\n'));
    assert!(!rue::chars::is_whitespace('x'));
}

#[test]
fn tokens_tile_the_source() {
    let source = "def f(x: Int) -> Int { let y = x + 1; } // done";
    let rebuilt: String = tokenize(source).iter().map(|t| t.text).collect();
    assert_eq!(rebuilt, source);
}
