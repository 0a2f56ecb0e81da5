use scheme::lexer::cursor::{Cursor, EOF_CHAR};

#[test]
fn test_peek() {
    let mut cursor = Cursor::new("abcd");
    assert_eq!(cursor.peek_char(), Some('a'));

    assert_eq!(cursor.bump(), Some((0, 'a')));
    assert_eq!(cursor.bump(), Some((1, 'b')));

    assert_eq!(cursor.peek_char(), Some('c'));

    assert_eq!(cursor.bump(), Some((2, 'c')));

    assert_eq!(cursor.peek_char(), Some('d'));

    assert_eq!(cursor.bump(), Some((3, 'd')));

    assert_eq!(cursor.peek_char(), None);
}

#[test]
fn test_eof() {
    assert_eq!(Cursor::new("").at_end(), false);
    assert_eq!(Cursor::new("abc").at_end(), false);

    // Exhausted cursor must return EOF
    let mut cursor = Cursor::new("a");
    // Initial state
    assert_eq!(cursor.char(), EOF_CHAR);
    assert_eq!(cursor.pos(), 0);
    cursor.bump();
    assert_eq!(cursor.char(), 'a');
    assert_eq!(cursor.pos(), 0);
    cursor.bump();
    assert_eq!(cursor.try_char(), None);
    assert_eq!(cursor.try_pos(), None);

    // Test case where string has explicit EOF sentinal.
    let mut cursor = Cursor::new("abc\0");
    assert_eq!(cursor.bump(), Some((0, 'a')));
    assert_eq!(cursor.char(), 'a');
    assert_eq!(cursor.pos(), 0);

    assert_eq!(cursor.bump(), Some((1, 'b')));
    assert_eq!(cursor.char(), 'b');
    assert_eq!(cursor.pos(), 1);

    assert_eq!(cursor.bump(), Some((2, 'c')));
    assert_eq!(cursor.char(), 'c');
    assert_eq!(cursor.pos(), 2);

    assert_eq!(cursor.bump(), Some((3, EOF_CHAR)));
    assert_eq!(cursor.char(), EOF_CHAR); // explicit
    assert_eq!(cursor.pos(), 3);

    assert_eq!(cursor.bump(), None);
    assert_eq!(cursor.try_char(), None); // implicit
    assert_eq!(cursor.try_pos(), None);
}

#[test]
fn cursor_multibyte_positions_are_byte_offsets() {
    let mut cursor = Cursor::new("aé€😀b");
    assert_eq!(cursor.bump(), Some((0, 'a')));
    assert_eq!(cursor.peek_offset(), 1);
    assert_eq!(cursor.bump(), Some((1, 'é')));
    assert_eq!(cursor.bump(), Some((3, '€')));
    assert_eq!(cursor.bump(), Some((6, '😀')));
    assert_eq!(cursor.rest(), "😀b");
    assert_eq!(cursor.bump(), Some((10, 'b')));
    assert_eq!(cursor.peek_offset(), 11);
    assert_eq!(cursor.bump(), None);
    assert_eq!(cursor.peek_offset(), 11);
    assert_eq!(cursor.rest(), "");
}

#[test]
fn cursor_rest_and_source() {
    let mut cursor = Cursor::new("xyz");
    assert_eq!(cursor.rest(), "xyz");
    assert_eq!(cursor.source(), "xyz");
    cursor.bump();
    cursor.bump();
    assert_eq!(cursor.rest(), "yz");
    assert_eq!(cursor.current(), (1, 'y'));
    assert_eq!(cursor.try_current(), Some((1, 'y')));
    assert!(!cursor.at_end());
    cursor.bump();
    cursor.bump();
    assert!(cursor.at_end());
    assert_eq!(cursor.try_current(), None);
}

#[test]
fn at_end_exactly_after_more_bumps_than_characters() {
    for source in ["", "a", "ab", "λx"] {
        let count = source.chars().count();
        let mut cursor = Cursor::new(source);
        assert!(!cursor.at_end());
        for k in 1..=count + 2 {
            let read = cursor.bump();
            assert_eq!(read.is_none(), k > count);
            assert_eq!(cursor.at_end(), k > count);
        }
    }
}
