use lexer::input_stream::InputStream;

#[test]
fn test_input_stream_next() {
    let string = String::from("test");
    let mut stream = InputStream::new(&string);

    assert_eq!(stream.next(), Some('t'));
    assert_eq!(stream.next(), Some('e'));
    assert_eq!(stream.next(), Some('s'));
    assert_eq!(stream.next(), Some('t'));
    assert_eq!(stream.next(), None);
}

#[test]
fn test_input_stream_peek() {
    let string = String::from("test");
    let mut stream = InputStream::new(&string);

    assert_eq!(stream.peek(), Some('t'));
    assert_eq!(stream.peek(), Some('t'));
    assert_eq!(stream.next(), Some('t'));
    assert_eq!(stream.peek(), Some('e'));
    assert_eq!(stream.peek(), Some('e'));
    assert_eq!(stream.next(), Some('e'));
    assert_eq!(stream.peek(), Some('s'));
    assert_eq!(stream.peek(), Some('s'));
    assert_eq!(stream.next(), Some('s'));
    assert_eq!(stream.peek(), Some('t'));
    assert_eq!(stream.next(), Some('t'));
    assert_eq!(stream.peek(), None);
}

#[test]
fn test_input_stream_eof() {
    let string = String::from("t");
    let mut stream = InputStream::new(&string);

    assert!(!stream.eof());
    stream.next();
    assert!(stream.eof());
}

#[test]
fn croak_carries_message_and_position() {
    let string = String::from("test");
    let stream = InputStream::new(&string);
    let error = stream.croak("test".to_string());
    assert_eq!(error.message, "test");
    assert_eq!(error.line, 1);
    assert_eq!(error.column, 1);
}

// The buffered character's position: the newline itself stands at the end of
// line 1, the character after it at column 1 of line 2.
#[test]
fn test_input_stream_col_and_line() {
    let string = String::from("te\nst");
    let mut stream = InputStream::new(&string);

    assert_eq!(stream.col(), 1);
    assert_eq!(stream.line(), 1);
    stream.next();
    assert_eq!(stream.col(), 2);
    assert_eq!(stream.line(), 1);
    stream.next();
    assert_eq!(stream.col(), 3);
    assert_eq!(stream.line(), 1);
    stream.next();
    assert_eq!(stream.col(), 1);
    assert_eq!(stream.line(), 2);
}

#[test]
fn position_of_character_after_newline() {
    let string = String::from("ab\ncd");
    let mut stream = InputStream::new(&string);
    stream.next();
    stream.next();
    stream.next();
    assert_eq!(stream.peek(), Some('c'));
    assert_eq!(stream.line(), 2);
    assert_eq!(stream.col(), 1);
}

#[test]
fn position_after_exhaustion_stays_put() {
    let string = String::from("ab");
    let mut stream = InputStream::new(&string);
    assert_eq!(stream.next(), Some('a'));
    assert_eq!(stream.next(), Some('b'));
    assert_eq!((stream.line(), stream.col()), (1, 3));
    assert_eq!(stream.next(), None);
    assert_eq!(stream.next(), None);
    assert_eq!((stream.line(), stream.col()), (1, 3));
}

#[test]
fn empty_text_is_exhausted_at_start() {
    let string = String::new();
    let mut stream = InputStream::new(&string);
    assert!(stream.eof());
    assert_eq!(stream.peek(), None);
    assert_eq!(stream.next(), None);
    assert_eq!((stream.line(), stream.col()), (1, 1));
}

#[test]
fn multibyte_characters_count_as_one_column() {
    let string = String::from("é\nü");
    let mut stream = InputStream::new(&string);
    assert_eq!(stream.next(), Some('é'));
    assert_eq!((stream.line(), stream.col()), (1, 2));
    assert_eq!(stream.next(), Some('\n'));
    assert_eq!(stream.peek(), Some('ü'));
    assert_eq!((stream.line(), stream.col()), (2, 1));
}
