use lexer::input_stream::{InputStream, LexicalError};
use lexer::parser::{Node, Parser};
use lexer::token_stream::{Token, TokenStream};

fn stream(s: &String) -> TokenStream {
    let is = InputStream::new(s);
    TokenStream::new(is)
}

fn tokens(s: &str) -> Result<Vec<Token>, LexicalError> {
    let string = String::from(s);
    let mut ts = stream(&string);
    let mut out = Vec::new();
    while let Some(token) = ts.next()? {
        out.push(token);
    }
    Ok(out)
}

fn text(s: &str) -> String {
    s.to_string()
}

#[test]
fn test_next() {
    let string = String::from("\"test\"\"test2\"");
    let mut ts = stream(&string);
    let token = Token::Str("test".to_string());
    let token2 = Token::Str("test2".to_string());

    assert_eq!(ts.next().unwrap().unwrap(), token);
    assert_eq!(ts.next().unwrap().unwrap(), token2);
}

#[test]
fn test_peek() {
    let string = String::from("\"test\"\"test2\"");
    let mut ts = stream(&string);
    let token = Token::Str("test".to_string());
    let token2 = Token::Str("test2".to_string());

    assert_eq!(ts.peek().unwrap().unwrap(), token);
    assert_eq!(ts.peek().unwrap().unwrap(), token);
    ts.next().unwrap();
    assert_eq!(ts.peek().unwrap().unwrap(), token2);
}

#[test]
fn test_eof() {
    let string = String::from("a");
    let mut ts = stream(&string);

    assert!(!ts.eof());
    ts.next().unwrap();
    assert!(ts.eof());
}

#[test]
fn test_num() {
    let string = String::from("1");
    let mut ts = stream(&string);
    let token = Token::Num(1);

    assert_eq!(ts.next().unwrap().unwrap(), token);
}

#[test]
fn test_string() {
    let string = String::from("\"test\"");
    let mut ts = stream(&string);
    let token = Token::Str("test".to_string());

    assert_eq!(ts.next().unwrap().unwrap(), token);
}

#[test]
fn test_punc() {
    let string = String::from("(");
    let mut ts = stream(&string);
    let token = Token::Punc('(');

    assert_eq!(ts.next().unwrap().unwrap(), token);
}

#[test]
fn test_kw() {
    let string = String::from("true");
    let mut ts = stream(&string);
    let token = Token::Kw("true".to_string());

    assert_eq!(ts.next().unwrap().unwrap(), token);
}

#[test]
fn test_var() {
    let string = String::from("alpha");
    let mut ts = stream(&string);
    let token = Token::Var("alpha".to_string());

    assert_eq!(ts.next().unwrap().unwrap(), token);
}

#[test]
fn test_op() {
    let string = String::from("!=");
    let mut ts = stream(&string);
    let token = Token::Op("!=".to_string());

    assert_eq!(ts.next().unwrap().unwrap(), token);
}

#[test]
fn test_skip_whitespace() {
    let string = String::from("   1");
    let mut ts = stream(&string);
    let token = Token::Num(1);

    assert_eq!(ts.next().unwrap().unwrap(), token);
}

#[test]
fn blank_input_has_no_tokens() {
    assert_eq!(tokens("").unwrap(), vec![]);
    assert_eq!(tokens(" \t\n  ").unwrap(), vec![]);
    assert_eq!(tokens("# only a comment").unwrap(), vec![]);
    assert_eq!(tokens("  # one\n\t# two\n").unwrap(), vec![]);
}

#[test]
fn peek_twice_then_next_agree() {
    let string = String::from("(+ 1 2)");
    let mut ts = stream(&string);
    let first = ts.peek().unwrap();
    let second = ts.peek().unwrap();
    assert_eq!(first, Some(Token::Punc('(')));
    assert_eq!(first, second);
    assert_eq!(ts.next().unwrap(), first);
    assert_eq!(ts.next().unwrap(), Some(Token::Op(text("+"))));
}

#[test]
fn peek_at_end_is_none_and_stays_none() {
    let string = String::from("x  # trailing");
    let mut ts = stream(&string);
    assert_eq!(ts.next().unwrap(), Some(Token::Var(text("x"))));
    assert_eq!(ts.peek().unwrap(), None);
    assert_eq!(ts.peek().unwrap(), None);
    assert!(ts.eof());
    assert_eq!(ts.next().unwrap(), None);
}

#[test]
fn digit_runs_give_one_number() {
    assert_eq!(tokens("0").unwrap(), vec![Token::Num(0)]);
    assert_eq!(tokens("007").unwrap(), vec![Token::Num(7)]);
    assert_eq!(tokens("123456").unwrap(), vec![Token::Num(123456)]);
    assert_eq!(tokens("2147483647").unwrap(), vec![Token::Num(i32::MAX)]);
}

#[test]
fn number_out_of_range_is_an_error() {
    let error = tokens("2147483648").unwrap_err();
    assert_eq!(error.message, "Number out of range: 2147483648");
    assert_eq!(error.line, 1);
    assert_eq!(error.column, 11);
}

#[test]
fn keywords_and_identifiers() {
    for word in ["if", "then", "else", "lambda", "true", "false"] {
        assert_eq!(tokens(word).unwrap(), vec![Token::Kw(text(word))]);
    }
    assert_eq!(tokens("iffy").unwrap(), vec![Token::Var(text("iffy"))]);
    assert_eq!(tokens("lambda?").unwrap(), vec![Token::Var(text("lambda?"))]);
    assert_eq!(tokens("_x1").unwrap(), vec![Token::Var(text("_x1"))]);
    assert_eq!(tokens("a-b<=c!").unwrap(), vec![Token::Var(text("a-b<=c!"))]);
    assert_eq!(tokens("Zed").unwrap(), vec![Token::Var(text("Zed"))]);
}

#[test]
fn hyphen_starts_an_operator_not_an_identifier() {
    assert_eq!(
        tokens("-x").unwrap(),
        vec![Token::Op(text("-")), Token::Var(text("x"))]
    );
    assert_eq!(tokens("x-1").unwrap(), vec![Token::Var(text("x-1"))]);
    assert_eq!(
        tokens("1-x").unwrap(),
        vec![Token::Num(1), Token::Op(text("-")), Token::Var(text("x"))]
    );
}

#[test]
fn string_escapes() {
    assert_eq!(tokens("\"a\\\"b\"").unwrap(), vec![Token::Str(text("a\"b"))]);
    assert_eq!(tokens("\"a\\\\b\"").unwrap(), vec![Token::Str(text("a\\b"))]);
    assert_eq!(
        tokens("\"x\\ny\" 1").unwrap(),
        vec![Token::Str(text("xny")), Token::Num(1)]
    );
    assert_eq!(tokens("\"\"").unwrap(), vec![Token::Str(text(""))]);
}

#[test]
fn unterminated_string_runs_to_end() {
    assert_eq!(tokens("\"abc").unwrap(), vec![Token::Str(text("abc"))]);
    assert_eq!(tokens("\"ab\\").unwrap(), vec![Token::Str(text("ab"))]);
}

#[test]
fn parenthesised_sum() {
    assert_eq!(
        tokens("(+ 1 2)").unwrap(),
        vec![
            Token::Punc('('),
            Token::Op(text("+")),
            Token::Num(1),
            Token::Num(2),
            Token::Punc(')'),
        ]
    );
}

#[test]
fn comment_then_number() {
    assert_eq!(tokens("# comment\n42").unwrap(), vec![Token::Num(42)]);
}

#[test]
fn adjacent_strings() {
    assert_eq!(
        tokens("\"hi\"\"there\"").unwrap(),
        vec![Token::Str(text("hi")), Token::Str(text("there"))]
    );
}

#[test]
fn unrecognised_character_is_fatal() {
    let string = String::from("@");
    let mut ts = stream(&string);
    let error = ts.next().unwrap_err();
    assert_eq!(error.message, "Can't handle character: '@'");
    assert_eq!((error.line, error.column), (1, 1));
    let again = ts.peek().unwrap_err();
    assert_eq!(again.message, error.message);
    assert_eq!((again.line, again.column), (1, 1));
    assert!(!ts.eof());
}

#[test]
fn error_position_after_newline() {
    let string = String::from("1\n x $");
    let mut ts = stream(&string);
    assert_eq!(ts.next().unwrap(), Some(Token::Num(1)));
    assert_eq!(ts.next().unwrap(), Some(Token::Var(text("x"))));
    let error = ts.next().unwrap_err();
    assert_eq!(error.message, "Can't handle character: '$'");
    assert_eq!((error.line, error.column), (2, 4));
}

#[test]
fn punctuation_and_operator_runs() {
    assert_eq!(
        tokens(",;{}[]").unwrap(),
        vec![
            Token::Punc(','),
            Token::Punc(';'),
            Token::Punc('{'),
            Token::Punc('}'),
            Token::Punc('['),
            Token::Punc(']'),
        ]
    );
    assert_eq!(
        tokens("a<=b&&!c").unwrap(),
        vec![Token::Var(text("a<=b")), Token::Op(text("&&!")), Token::Var(text("c"))]
    );
    assert_eq!(tokens("%*/|").unwrap(), vec![Token::Op(text("%*/|"))]);
}

#[test]
fn croak_reports_stream_position() {
    let string = String::from("ab\ncd");
    let mut ts = stream(&string);
    assert_eq!(ts.next().unwrap(), Some(Token::Var(text("ab"))));
    let error = ts.croak(text("unexpected"));
    assert_eq!(error.message, "unexpected");
    assert_eq!((error.line, error.column), (1, 3));
}

#[test]
fn parser_yields_empty_node() {
    let string = String::from("1");
    let node = Parser::new(stream(&string));
    assert!(matches!(node, Node::Empty));
}

#[test]
fn error_report_carries_position() {
    let error = tokens("@").unwrap_err();
    assert_eq!(error.report(), "Can't handle character: '@' (1:1)");
    let error = tokens("ok\n\n  7 ~").unwrap_err();
    assert_eq!(error.report(), "Can't handle character: '~' (3:5)");
}

#[test]
fn report_writes_multi_digit_positions() {
    let error = LexicalError { message: text("bad"), line: 12, column: 105 };
    assert_eq!(error.report(), "bad (12:105)");
    let error = LexicalError { message: text(""), line: 0, column: 10 };
    assert_eq!(error.report(), " (0:10)");
}

#[test]
fn identifier_runs_inside_text() {
    assert_eq!(
        tokens("(iffy if) else+").unwrap(),
        vec![
            Token::Punc('('),
            Token::Var(text("iffy")),
            Token::Kw(text("if")),
            Token::Punc(')'),
            Token::Kw(text("else")),
            Token::Op(text("+")),
        ]
    );
}
