use scheme::lexer::{Lexer, Token, TokenKind, TokenStream};
use scheme::reader::{
    parse, parse_atom, parse_list_v2, parse_sequence_pair, parse_v2, try_parse, try_parse_v2,
    ReadError, Syntax,
};

fn number_value(s: &Syntax) -> f64 {
    match s {
        Syntax::Number(text) => text.parse::<f64>().expect("number literal"),
        _ => panic!("not a number"),
    }
}

fn items(s: &Syntax) -> &[Syntax] {
    match s {
        Syntax::List(items) | Syntax::Sequence(items) => items.as_slice(),
        _ => panic!("not a list"),
    }
}

fn split_pair(s: &Syntax) -> (&Syntax, &Syntax) {
    match s {
        Syntax::Pair(car, cdr) => (car, cdr),
        _ => panic!("expression is not a pair"),
    }
}

fn ident(s: &Syntax) -> &str {
    match s {
        Syntax::Ident(name) => name.as_str(),
        _ => panic!("not an identifier"),
    }
}

fn atom_token() -> Token {
    let mut stream = TokenStream::new(Lexer::new("x"));
    stream.next_token()
}

#[test]
fn parser_test_numbers() {
    let expr = parse("(1 2 (3 4) (5 (6 7 8)))", false).expect("parse failed");

    let list1 = items(&expr);
    assert_eq!(number_value(&list1[0]), 1.0);
    assert_eq!(number_value(&list1[1]), 2.0);

    let list2 = items(&list1[2]);
    assert_eq!(number_value(&list2[0]), 3.0);
    assert_eq!(number_value(&list2[1]), 4.0);

    let list3 = items(&list1[3]);
    assert_eq!(number_value(&list3[0]), 5.0);

    let list4 = items(&list3[1]);
    assert_eq!(number_value(&list4[0]), 6.0);
    assert_eq!(number_value(&list4[1]), 7.0);
    assert_eq!(number_value(&list4[2]), 8.0);
}

#[test]
fn test_boolean() {
    let expr = parse("(#t #f)", false).expect("parse failed");
    assert!(matches!(expr, Syntax::List(_)));

    let list = items(&expr);
    assert!(matches!(list[0], Syntax::Bool(true)));
    assert!(matches!(list[1], Syntax::Bool(false)));
}

#[test]
fn test_sequence() {
    let source = r#"
        (one 1)
        (two 2)
        (three 3)
        "#;

    let expr = parse(source, true).expect("parse failed");
    assert!(matches!(expr, Syntax::Sequence(_)));
}

#[test]
fn test_parse_pair() {
    const SOURCE: &str = "(+ 1 2) (- 3 4)";
    let root = parse_v2(SOURCE).expect("failed to parse");

    let (left, right_list) = split_pair(&root);

    let (a_left, a_right) = split_pair(left);
    assert_eq!(ident(a_left), "+");
    let (b_left, b_right) = split_pair(a_right);
    assert_eq!(number_value(b_left), 1.0);
    let (c_left, _) = split_pair(b_right);
    assert_eq!(number_value(c_left), 2.0);

    let (d, right_rest) = split_pair(right_list);
    let (d_left, d_right) = split_pair(d);
    assert_eq!(ident(d_left), "-");
    let (e_left, e_right) = split_pair(d_right);
    assert_eq!(number_value(e_left), 3.0);
    let (f_left, _) = split_pair(e_right);
    assert_eq!(number_value(f_left), 4.0);

    assert!(matches!(right_rest, Syntax::Nil), "sequence must be a well-formed list");
}

#[test]
fn atoms_read_by_their_first_character() {
    let t = atom_token();
    assert!(matches!(parse_atom(t, "42"), Ok(Syntax::Number(ref s)) if s == "42"));
    assert!(matches!(parse_atom(t, "#t"), Ok(Syntax::Bool(true))));
    assert!(matches!(parse_atom(t, "#true"), Ok(Syntax::Bool(true))));
    assert!(matches!(parse_atom(t, "#f"), Ok(Syntax::Bool(false))));
    assert!(matches!(parse_atom(t, "#void"), Ok(Syntax::Void)));
    assert!(matches!(parse_atom(t, "lambda"), Ok(Syntax::Ident(ref s)) if s == "lambda"));
    assert!(matches!(parse_atom(t, "<="), Ok(Syntax::Ident(ref s)) if s == "<="));
    assert_eq!(parse_atom(t, "#voids").err(), Some(ReadError::UnknownAtom('#')));
    assert_eq!(parse_atom(t, "#").err(), Some(ReadError::UnknownAtom('#')));
    assert_eq!(parse_atom(t, "Abc").err(), Some(ReadError::UnexpectedCharacter('A')));
    assert_eq!(parse_atom(t, "").err(), Some(ReadError::ExpectedAtom));
}

#[test]
fn number_atoms_must_be_float_literals() {
    let t = atom_token();
    for ok in ["7", "1.5", "1.", "2e10", "2E+3", "6.02e-23"] {
        match parse_atom(t, ok) {
            Ok(Syntax::Number(text)) => {
                assert_eq!(text, ok);
                assert!(ok.parse::<f64>().is_ok());
            }
            _ => panic!("{ok} is a number"),
        }
    }
    for bad in ["1x", "1e", "1.2.3", "3e+", "12abc"] {
        assert!(bad.parse::<f64>().is_err());
        assert_eq!(parse_atom(t, bad).err(), Some(ReadError::InvalidNumber));
    }
}

#[test]
fn reading_reports_where_it_stops() {
    assert_eq!(parse("(1 2", false).err(), Some(ReadError::UnexpectedEndOfFile));
    assert_eq!(parse(")", false).err(), Some(ReadError::UnexpectedRightParen));
    assert_eq!(parse("   ", false).err(), Some(ReadError::UnexpectedEndOfFile));
    assert_eq!(parse("(1) )", true).err(), Some(ReadError::UnexpectedRightParen));
}

#[test]
fn quotes_wrap_the_next_expression() {
    let expr = parse("'(a b)", false).expect("parse failed");
    match expr {
        Syntax::Quote(inner) => {
            let list = items(&inner);
            assert_eq!(ident(&list[0]), "a");
            assert_eq!(ident(&list[1]), "b");
        }
        _ => panic!("expected a quote"),
    }
}

#[test]
fn binary_and_hexadecimal_literals_are_not_read_yet() {
    assert!(try_parse("(1 #b101)", false).is_none());
    assert!(try_parse_v2("#x1f").is_none());
    assert!(try_parse("(1 2)", false).is_some());
}

#[test]
fn pair_lists_nest_vector_lists() {
    let root = parse_v2("(a (b c))").expect("failed to parse");
    let (first, rest) = split_pair(&root);
    assert!(matches!(rest, Syntax::Nil));
    let (a, tail) = split_pair(first);
    assert_eq!(ident(a), "a");
    let (inner, end) = split_pair(tail);
    assert!(matches!(end, Syntax::Nil));
    let inner_items = items(inner);
    assert_eq!(ident(&inner_items[0]), "b");
    assert_eq!(ident(&inner_items[1]), "c");
}

#[test]
fn stream_readers_stop_after_their_form() {
    let mut stream = TokenStream::new(Lexer::new("(x 1) y"));
    assert_eq!(stream.next_token().kind, TokenKind::LeftParen);
    let list = parse_list_v2(&mut stream).expect("finished").expect("read");
    let (x, _) = split_pair(&list);
    assert_eq!(ident(x), "x");
    assert_eq!(stream.peek().kind, TokenKind::Atom);

    let mut program = TokenStream::new(Lexer::new("1 2"));
    let seq = parse_sequence_pair(&mut program).expect("finished").expect("read");
    let (one, rest) = split_pair(&seq);
    assert_eq!(number_value(one), 1.0);
    let (two, end) = split_pair(rest);
    assert_eq!(number_value(two), 2.0);
    assert!(matches!(end, Syntax::Nil));
    assert!(program.at_end());
}
