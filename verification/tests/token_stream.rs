use scheme::error::Error;
use scheme::lexer::{Lexer, TokenKind, TokenStream};

#[test]
fn test_token_stream_creation() {
    let source = "(+ 1 2)";
    let lexer = Lexer::new(source);
    let stream = TokenStream::new(lexer);

    assert_eq!(stream.source(), source);
}

#[test]
fn test_peek_returns_token_without_consuming() {
    let source = "(+ 1 2)";
    let lexer = Lexer::new(source);
    let mut stream = TokenStream::new(lexer);

    let first_peek = stream.peek().kind;
    let second_peek = stream.peek().kind;
    let third_peek = stream.peek().kind;

    assert_eq!(first_peek, TokenKind::LeftParen);
    assert_eq!(second_peek, TokenKind::LeftParen);
    assert_eq!(third_peek, TokenKind::LeftParen);
}

#[test]
fn test_next_token_advances_stream() {
    let source = "( )";
    let lexer = Lexer::new(source);
    let mut stream = TokenStream::new(lexer);

    let first = stream.next_token();
    assert_eq!(first.kind, TokenKind::LeftParen);

    let second = stream.next_token();
    assert_eq!(second.kind, TokenKind::RightParen);
}

#[test]
fn test_next_token_after_peek() {
    let source = "( )";
    let lexer = Lexer::new(source);
    let mut stream = TokenStream::new(lexer);

    let peeked = stream.peek().kind;
    assert_eq!(peeked, TokenKind::LeftParen);

    let next = stream.next_token();
    assert_eq!(next.kind, TokenKind::LeftParen);

    let next_peek = stream.peek().kind;
    assert_eq!(next_peek, TokenKind::RightParen);
}

#[test]
fn test_peek_kind_method() {
    let source = "(";
    let lexer = Lexer::new(source);
    let mut stream = TokenStream::new(lexer);

    let kind = stream.peek_kind();
    assert_eq!(kind, TokenKind::LeftParen);

    let next_peek_kind = stream.peek_kind();
    assert_eq!(next_peek_kind, TokenKind::LeftParen);
}

#[test]
fn test_at_end_after_consuming_all_tokens() {
    let source = "()";
    let lexer = Lexer::new(source);
    let mut stream = TokenStream::new(lexer);

    assert!(!stream.at_end());

    stream.next_token();
    stream.next_token();

    assert!(stream.at_end());
}

#[test]
fn test_peek_and_at_end_interaction() {
    let source = "(";
    let lexer = Lexer::new(source);
    let mut stream = TokenStream::new(lexer);

    assert!(!stream.at_end());

    stream.peek();
    assert!(!stream.at_end());

    stream.next_token();

    assert!(stream.at_end());
}

#[test]
fn test_multiple_peeks_do_not_advance() {
    let source = "()";
    let lexer = Lexer::new(source);
    let mut stream = TokenStream::new(lexer);

    for _ in 0..5 {
        stream.peek();
    }

    let first = stream.next_token();
    assert_eq!(first.kind, TokenKind::LeftParen);

    let second = stream.next_token();
    assert_eq!(second.kind, TokenKind::RightParen);
}

#[test]
fn test_source_consistency() {
    let source = "(define x 42)";
    let lexer = Lexer::new(source);
    let stream = TokenStream::new(lexer);

    assert_eq!(stream.source(), source);
    assert_eq!(stream.source(), source);
}

#[test]
fn test_token_span_and_fragment() {
    let source = "(+ x)";
    let lexer = Lexer::new(source);
    let mut stream = TokenStream::new(lexer);

    let first = stream.next_token();
    assert_eq!(first.kind, TokenKind::LeftParen);
    assert_eq!(first.fragment(source), "(");

    assert_eq!(first.span.low(), 0);
    assert_eq!(first.span.high(), 1);
}

#[test]
fn test_peek_returns_same_token() {
    let source = "(";
    let lexer = Lexer::new(source);
    let mut stream = TokenStream::new(lexer);

    let peek1_kind = stream.peek().kind;
    let peek1_low = stream.peek().span.low();
    let peek1_high = stream.peek().span.high();

    let peek2_kind = stream.peek().kind;
    let peek2_low = stream.peek().span.low();
    let peek2_high = stream.peek().span.high();

    assert_eq!(peek1_kind, peek2_kind);
    assert_eq!(peek1_low, peek2_low);
    assert_eq!(peek1_high, peek2_high);
}

#[test]
fn test_interleaved_peek_and_next() {
    let source = "( )";
    let lexer = Lexer::new(source);
    let mut stream = TokenStream::new(lexer);

    assert_eq!(stream.peek().kind, TokenKind::LeftParen);
    assert_eq!(stream.next_token().kind, TokenKind::LeftParen);

    assert_eq!(stream.peek().kind, TokenKind::RightParen);
    assert_eq!(stream.peek().kind, TokenKind::RightParen);
    assert_eq!(stream.next_token().kind, TokenKind::RightParen);

    assert!(stream.at_end());
}

#[test]
fn consume_accepts_the_expected_kind() {
    let mut stream = TokenStream::new(Lexer::new("(x"));
    let token = stream.consume(TokenKind::LeftParen).unwrap();
    assert_eq!((token.span.low(), token.span.high()), (0, 1));
    assert_eq!(stream.consume(TokenKind::Atom).unwrap().kind, TokenKind::Atom);
}

#[test]
fn consume_rejects_another_kind() {
    let mut stream = TokenStream::new(Lexer::new("42"));
    match stream.consume(TokenKind::LeftParen) {
        Err(Error::UnexpectedToken(token, message)) => {
            assert_eq!(token.kind, TokenKind::Number);
            assert_eq!(message, "expected token kind LeftParen");
        }
        _ => panic!("consume must fail on a number"),
    }
    assert!(stream.at_end());
}

#[test]
fn peek_then_next_returns_the_peeked_token() {
    let mut stream = TokenStream::new(Lexer::new("  foo bar"));
    let peeked = *stream.peek();
    let next = stream.next_token();
    assert_eq!(peeked.kind, next.kind);
    assert_eq!(peeked.span.as_range(), next.span.as_range());
    assert_eq!(next.span.as_range(), 2..5);
    assert_eq!(stream.next_token().span.as_range(), 6..9);
    assert_eq!(stream.next_token().kind, TokenKind::EOF);
}

#[test]
fn repeated_peeks_agree_over_a_nul_character() {
    let mut stream = TokenStream::new(Lexer::new("\0("));
    let first = *stream.peek();
    let second = *stream.peek();
    assert_eq!(first.kind, TokenKind::EOF);
    assert_eq!(second.kind, TokenKind::EOF);
    assert_eq!(first.span.as_range(), 0..1);
    assert_eq!(second.span.as_range(), 0..1);
    let taken = stream.next_token();
    assert_eq!(taken.kind, TokenKind::EOF);
    assert_eq!(taken.span.as_range(), 0..1);
    assert_eq!(stream.peek().kind, TokenKind::LeftParen);
    assert_eq!(stream.next_token().span.as_range(), 1..2);
    assert!(stream.at_end());
}
