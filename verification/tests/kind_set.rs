use rue::{KindSet, SyntaxKind};

#[test]
fn token_set_works_for_tokens() {
    let ts = KindSet::new(&[SyntaxKind::Eof, SyntaxKind::Colon]);
    assert!(ts.contains(SyntaxKind::Eof));
    assert!(ts.contains(SyntaxKind::Colon));
    assert!(!ts.contains(SyntaxKind::Plus));
}

#[test]
fn union_and_empty() {
    let a = KindSet::new(&[SyntaxKind::Plus]);
    let b = KindSet::new(&[SyntaxKind::Minus]);
    let u = a.union(b);
    assert!(u.contains(SyntaxKind::Plus));
    assert!(u.contains(SyntaxKind::Minus));
    assert!(!u.contains(SyntaxKind::Star));
    let e = KindSet::empty();
    assert!(!e.contains(SyntaxKind::Plus));
}

#[test]
fn raw_kind_round_trip() {
    let raw = rue::RueLanguage::kind_to_raw(SyntaxKind::BinaryExpr);
    assert_eq!(rue::RueLanguage::kind_from_raw(raw), SyntaxKind::BinaryExpr);
    assert_eq!(rue::RueLanguage::kind_to_raw(SyntaxKind::Ident), 0);
}
