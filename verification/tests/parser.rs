use scheme::display::ReprDisplay;
use scheme::error::Error;
use scheme::gc::GcHeap;
use scheme::lexer::{Lexer, TokenKind, TokenStream};
use scheme::object::{Number, Object, PairObject, Value};
use scheme::parser::number::parse_i64;
use scheme::parser::parser::show_expression;
use scheme::parser::Parser;
use scheme::store::Store;

fn parser(source: &str) -> Parser<'_> {
    Parser::new(TokenStream::new(Lexer::new(source)))
}

fn parse_and_show(source: &str) -> Result<String, Error> {
    assert!(!parser(source).reaches_unfinished_form());
    let mut store = Store::new();
    let mut parser = parser(source);
    let value = parser.parse_expression(&mut store)?;
    Ok(ReprDisplay::new(&value).to_string(store.heap()))
}

#[test]
fn parses_a_number() {
    assert_eq!(parse_and_show("42").unwrap(), "42");
    assert_eq!(parse_and_show("  007 ").unwrap(), "7");
}

#[test]
fn parses_nested_calls() {
    assert_eq!(parse_and_show("(1 2 (3 4))").unwrap(), "(1 2 (3 4))");
    assert_eq!(parse_and_show("((1) 2)").unwrap(), "((1) 2)");
    assert_eq!(parse_and_show("(1)").unwrap(), "(1)");
    assert_eq!(parse_and_show("(1 ; comment\n 2)").unwrap(), "(1 2)");
}

#[test]
fn parse_builds_pairs_in_the_heap() {
    let mut store = Store::new();
    assert_eq!(store.heap().stats().allocated_objects, 1);
    let mut parser = parser("(1 (2 3))");
    let value = parser.parse_expression(&mut store).unwrap();
    assert!(matches!(value, Value::Pair(_)));
    assert_eq!(store.heap().stats().allocated_objects, 5);
}

#[test]
fn parse_reports_a_closing_parenthesis() {
    match parse_and_show(")") {
        Err(Error::UnexpectedToken(token, message)) => {
            assert_eq!(token.kind, TokenKind::RightParen);
            assert_eq!(message, "expected expression");
        }
        _ => panic!("a closing parenthesis cannot start an expression"),
    }
}

#[test]
fn parse_reports_the_end_of_input() {
    assert!(matches!(parse_and_show("   "), Err(Error::UnexpectedEOF)));
    assert!(matches!(parse_and_show("(1 2"), Err(Error::UnexpectedEOF)));
    assert!(matches!(parse_and_show("(1 (2 3)"), Err(Error::UnexpectedEOF)));
}

#[test]
fn parse_reports_a_number_out_of_range() {
    match parse_and_show("99999999999999999999") {
        Err(Error::UnexpectedToken(token, message)) => {
            assert_eq!(token.kind, TokenKind::Number);
            assert_eq!(message, "invalid number literal");
        }
        _ => panic!("the number does not fit"),
    }
}

#[test]
fn atoms_and_quotes_are_not_parsed_yet() {
    assert!(parser("(+ 1 2)").reaches_unfinished_form());
    assert!(parser("'x").reaches_unfinished_form());
    assert!(parser("(1 foo)").reaches_unfinished_form());
    assert!(!parser("(1 2) foo").reaches_unfinished_form());
    assert!(!parser(") foo").reaches_unfinished_form());
}

#[test]
fn parse_reads_one_expression() {
    let mut store = Store::new();
    let mut parser = parser("(1) (2)");
    let first = parser.parse_expression(&mut store).unwrap();
    let second = parser.parse_expression(&mut store).unwrap();
    assert_eq!(ReprDisplay::new(&first).to_string(store.heap()), "(1)");
    assert_eq!(ReprDisplay::new(&second).to_string(store.heap()), "(2)");
}

#[test]
fn display_of_improper_and_empty_lists() {
    let mut heap: GcHeap<Object> = GcHeap::new();
    let dotted = PairObject::allocate(
        &mut heap,
        Value::Num(Number::from_i64(1)),
        Value::Num(Number::from_i64(-2)),
    );
    let value = Value::Pair(dotted);
    assert_eq!(ReprDisplay::new(&value).to_string(&heap), "(1 . -2)");

    let tail = PairObject::allocate(&mut heap, Value::Num(Number::from(3)), Value::Num(Number::from(4)));
    let list = PairObject::allocate(&mut heap, Value::Num(Number::from(2)), Value::Pair(tail));
    let value = Value::Pair(list);
    assert_eq!(ReprDisplay::new(&value).to_string(&heap), "(2 3 . 4)");

    assert_eq!(ReprDisplay::new(&Value::Nil).to_string(&heap), "'()");
    let min = Value::Num(Number::Integer(i64::MIN));
    assert_eq!(ReprDisplay::new(&min).to_string(&heap), "-9223372036854775808");
}

#[test]
fn parse_i64_follows_str_parse() {
    for text in ["0", "123", "+7", "-7", "-9223372036854775808", "9223372036854775807"] {
        assert_eq!(parse_i64(text), text.parse::<i64>().ok());
    }
    for text in ["", "-", "+", "1a", "9223372036854775808", "-9223372036854775809", " 1"] {
        assert_eq!(parse_i64(text), None);
        assert!(text.parse::<i64>().is_err());
    }
}

#[test]
fn show_expression_as_the_repl_prints_it() {
    let mut store = Store::new();
    assert_eq!(show_expression(&mut store, "(1 (2) 3)\n").unwrap().unwrap(), "(1 (2) 3)");
    assert!(show_expression(&mut store, "(define x 1)\n").is_none());
    match show_expression(&mut store, ")\n").unwrap() {
        Err(err) => assert_eq!(err.to_string(), "Unexpected token: RightParen, message: expected expression"),
        Ok(_) => panic!("a closing parenthesis cannot start an expression"),
    }
    match show_expression(&mut store, "(\n").unwrap() {
        Err(err) => assert_eq!(err.to_string(), "Unexpected end of input"),
        Ok(_) => panic!("the list is not closed"),
    }
}

fn number(n: i64) -> Value {
    Value::Num(Number::from_i64(n))
}

fn show(value: &Value, heap: &GcHeap<Object>) -> String {
    ReprDisplay::new(value).to_string(heap)
}

#[test]
fn pair_fields_read_and_write() {
    let mut heap: GcHeap<Object> = GcHeap::new();
    let inner = PairObject::allocate(&mut heap, number(2), Value::Nil);
    let outer = PairObject::allocate(&mut heap, number(1), Value::Pair(inner));
    let list: Value = outer.clone(&mut heap).into();
    assert_eq!(show(&list, &heap), "(1 2)");

    assert!(matches!(outer.car(&mut heap), Value::Num(Number::Integer(1))));
    let rest = outer.cdr(&mut heap);
    assert_eq!(show(&rest, &heap), "(2)");

    outer.set_car(&mut heap, number(10));
    assert_eq!(show(&list, &heap), "(10 2)");
    outer.set_cdr(&mut heap, number(3));
    assert_eq!(show(&list, &heap), "(10 . 3)");
    assert_eq!(show(&rest, &heap), "(2)");
}

#[test]
fn pairs_no_longer_held_are_collected() {
    let mut heap: GcHeap<Object> = GcHeap::new();
    let inner = PairObject::allocate(&mut heap, number(2), Value::Nil);
    let outer = PairObject::allocate(&mut heap, number(1), Value::Pair(inner));
    heap.collect();
    assert_eq!(heap.stats().allocated_objects, 2);
    outer.set_cdr(&mut heap, Value::Nil);
    heap.collect();
    assert_eq!(heap.stats().allocated_objects, 1);
    assert_eq!(show(&Value::from(outer), &heap), "(1)");
}

#[test]
fn the_default_value_is_the_empty_list() {
    let heap: GcHeap<Object> = GcHeap::new();
    assert_eq!(show(&Value::default(), &heap), "'()");
}

#[test]
fn test_list_repr() {
    let mut heap = GcHeap::new();
    let two = PairObject::allocate(&mut heap, number(2), Value::Nil);
    let one_two = PairObject::allocate(&mut heap, number(1), Value::Pair(two));
    assert_eq!(show(&Value::Pair(one_two), &heap), "(1 2)");

    let three = PairObject::allocate(&mut heap, number(3), Value::Nil);
    let two_three = PairObject::allocate(&mut heap, number(2), Value::Pair(three));
    let one_two_three = PairObject::allocate(&mut heap, number(1), Value::Pair(two_three));
    assert_eq!(show(&Value::Pair(one_two_three), &heap), "(1 2 3)");

    let dotted_tail = PairObject::allocate(&mut heap, number(2), number(3));
    let dotted = PairObject::allocate(&mut heap, number(1), Value::Pair(dotted_tail));
    assert_eq!(show(&Value::Pair(dotted), &heap), "(1 2 . 3)");
}
