use scheme::lexer::rules;
use scheme::lexer::{Lexer, TokenKind};

#[test]
fn test_rules() {
    assert!(!rules::is_symbol('('));
    assert!(!rules::is_symbol(')'));
    assert!(rules::is_symbol('c'));
    assert!(rules::is_symbol('a'));
}

#[test]
fn test_lexer_pos() {
    let mut lexer = Lexer::new("(a b c)");
    assert_eq!(lexer.cursor().current(), (0, '('));
    assert_eq!(lexer.next_token().kind, TokenKind::LeftParen);
    assert_eq!(lexer.cursor().current(), (1, 'a')); //  rest: "a b c)"
    assert_eq!(lexer.next_token().kind, TokenKind::Atom);
    assert_eq!(lexer.cursor().current(), (2, ' ')); // rest: " b c)"
    assert_eq!(lexer.next_token().kind, TokenKind::Atom); // b
    assert_eq!(lexer.cursor().current(), (4, ' ')); // rest: " c)"
    assert_eq!(lexer.next_token().kind, TokenKind::Atom); // c
    assert_eq!(lexer.cursor().current(), (6, ')')); // rest: ")"
    assert_eq!(lexer.next_token().kind, TokenKind::RightParen);
}

#[test]
fn test_lexer() {}

#[test]
fn rules_whitespace_and_numbers() {
    assert!(rules::is_whitespace(' '));
    assert!(rules::is_whitespace('\u{FEFF}'));
    assert!(!rules::is_whitespace('x'));
    assert!(rules::is_number('0'));
    assert!(rules::is_number('9'));
    assert!(!rules::is_number('a'));
    assert!(rules::is_symbol('_'));
    assert!(rules::is_symbol('Z'));
    assert!(rules::is_unicode_whitespace('\u{3000}'));
    assert!(!rules::is_unicode_whitespace('\u{FEFF}'));
}

fn kinds_and_spans(source: &str) -> Vec<(TokenKind, usize, usize)> {
    let mut lexer = Lexer::new(source);
    let mut out = Vec::new();
    while !lexer.at_end() {
        let token = lexer.next_token();
        out.push((token.kind, token.span.low(), token.span.high()));
    }
    out
}

#[test]
fn lexer_numbers_atoms_and_comments() {
    assert_eq!(
        kinds_and_spans("(+ 12 x) ; note\n'y"),
        vec![
            (TokenKind::LeftParen, 0, 1),
            (TokenKind::Atom, 1, 2),
            (TokenKind::Number, 3, 5),
            (TokenKind::Atom, 6, 7),
            (TokenKind::RightParen, 7, 8),
            (TokenKind::QuoteMark, 16, 17),
            (TokenKind::Atom, 17, 18),
        ]
    );
}

#[test]
fn lexer_end_of_file_token() {
    let mut lexer = Lexer::new("  ");
    let token = lexer.next_token();
    assert_eq!(token.kind, TokenKind::EOF);
    assert_eq!(token.span.low(), 2);
    assert_eq!(token.span.size(), 0);
    assert!(lexer.at_end());
    let again = lexer.next_token();
    assert_eq!(again.kind, TokenKind::EOF);
    assert_eq!(again.span.low(), 2);
}

#[test]
fn lexer_nul_is_eof_token() {
    let mut lexer = Lexer::new("\0a");
    let token = lexer.next_token();
    assert_eq!(token.kind, TokenKind::EOF);
    assert_eq!((token.span.low(), token.span.high()), (0, 1));
    assert!(!lexer.at_end());
    assert_eq!(lexer.next_token().kind, TokenKind::Atom);
}

#[test]
fn lexer_fragment() {
    let source = "(héllo 42)";
    let mut lexer = Lexer::new(source);
    lexer.next_token();
    let atom = lexer.next_token();
    assert_eq!(atom.kind, TokenKind::Atom);
    assert_eq!(atom.fragment(source), "héllo");
    let number = lexer.next_token();
    assert_eq!(number.fragment(source), "42");
    assert_eq!(number.span.as_range(), 8..10);
}

#[test]
fn lexer_tokens_collects_all() {
    let lexer = Lexer::new("(a)");
    let tokens = lexer.tokens();
    let kinds: Vec<TokenKind> = tokens.iter().map(|t| t.kind).collect();
    assert_eq!(kinds, vec![TokenKind::LeftParen, TokenKind::Atom, TokenKind::RightParen]);
}

#[test]
fn lexer_iter_steps_until_the_end() {
    let mut iter = Lexer::new("a ;x\n").into_iter();
    let first = iter.next().unwrap();
    assert_eq!(first.kind, TokenKind::Atom);
    let second = iter.next().unwrap();
    assert_eq!(second.kind, TokenKind::EOF);
    assert_eq!((second.span.low(), second.span.high()), (5, 5));
    assert!(iter.next().is_none());
}
