use scheme::expr::Keyword;
use scheme::lexer::Span;

#[test]
fn keywords_compare_by_variant() {
    assert_eq!(Keyword::Dot, Keyword::Dot.clone());
}

#[test]
fn span_measures_bytes() {
    let span = Span::new(3, 4);
    assert_eq!((span.low(), span.high(), span.size()), (3, 7, 4));
    assert_eq!(span.as_range(), 3..7);
}
