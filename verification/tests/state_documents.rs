use wsv::data_model::{Error, ErrorKind, WsvValue};
use wsv::state::parse;

fn v(text: &str) -> WsvValue {
    WsvValue::V(text.to_owned())
}

#[test]
fn state_null() {
    assert_eq!(
        parse("nullExample - 2\n-\n- 2\n3 -"),
        Ok(vec![
            vec![v("nullExample"), WsvValue::Null, v("2")],
            vec![WsvValue::Null],
            vec![WsvValue::Null, v("2")],
            vec![v("3"), WsvValue::Null],
        ])
    );
}

#[test]
fn state_numbers() {
    assert_eq!(parse("1 2.0 3.4.5 6.789"), Ok(vec![vec![v("1"), v("2.0"), v("3.4.5"), v("6.789")]]));
}

#[test]
fn state_strings() {
    assert_eq!(
        parse("hello\nit's \"\" me\n\"I was wondering\"\n\" if \"\" after all these \"\nyears \"\" \" you'd like\"/\"to meet\""),
        Ok(vec![
            vec![v("hello")],
            vec![v("it's"), v(""), v("me")],
            vec![v("I was wondering")],
            vec![v(" if \" after all these ")],
            vec![v("years"), v(""), v(" you'd like\nto meet")],
        ])
    );
}

#[test]
fn state_comments() {
    assert_eq!(
        parse("# This is a comment\nCommentExample # and this\nbut \" # \" is fine"),
        Ok(vec![vec![], vec![v("CommentExample")], vec![v("but"), v(" # "), v("is"), v("fine")]])
    );
}

#[test]
fn state_not_null() {
    assert_eq!(parse("\"-\""), Ok(vec![vec![v("-")]]));
}

#[test]
fn state_empty() {
    assert_eq!(parse(""), Ok(vec![vec![]]));
}

#[test]
fn state_malformed() {
    match parse("mmm\"AAA\"mmm") {
        Err(Error { kind: ErrorKind::MissingWhitespace, row: 1, .. }) => {}
        other => panic!("expected missing whitespace on row 1, got {:?}", other),
    }
}

#[test]
fn state_odd_quotes() {
    match parse("fine\nsomthing \" somethingelse") {
        Err(Error { kind: ErrorKind::OddDoubleQuotes, row: 2, .. }) => {}
        other => panic!("expected odd double quotes on row 2, got {:?}", other),
    }
}

#[test]
fn state_parse_example() {
    assert_eq!(
        parse("\n1 hello \"world\" \"\"/\"\" \"\"\"\" \"\" -\n\"string\" - null\n\n# comment\nval # comment\nval#comment\n"),
        Ok(vec![
            vec![],
            vec![v("1"), v("hello"), v("world"), v("\n"), v("\""), v(""), WsvValue::Null],
            vec![v("string"), WsvValue::Null, v("null")],
            vec![],
            vec![],
            vec![v("val")],
            vec![v("val")],
            vec![],
        ])
    );
}

#[test]
fn state_single_slash() {
    assert_eq!(parse("\"/\""), Ok(vec![vec![v("/")]]));
}

#[test]
fn state_empty_string() {
    assert_eq!(
        parse("\"\"\n\"1\"\n\"2\" \"3\"\n\"4\" \"\"\n\"\" \"5\"\n\"\" \"\"\n\"6\" \"\"  7\n    8  \"\" \"9\"\n\"a\" \"\" \"b\""),
        Ok(vec![
            vec![v("")],
            vec![v("1")],
            vec![v("2"), v("3")],
            vec![v("4"), v("")],
            vec![v(""), v("5")],
            vec![v(""), v("")],
            vec![v("6"), v(""), v("7")],
            vec![v("8"), v(""), v("9")],
            vec![v("a"), v(""), v("b")],
        ])
    );
}

#[test]
fn state_trailing_return() {
    assert_eq!(parse("5\n"), Ok(vec![vec![v("5")], vec![]]));
}

#[test]
fn no_leading_whitespace() {
    assert_eq!(
        parse("mmm\"mmm\" mmm"),
        Err(Error { kind: ErrorKind::MissingWhitespace, row: 1, col: 4, source: None })
    );
}

#[test]
fn no_trailing_whitespace() {
    assert_eq!(
        parse("mmm \"mmm\"mmm"),
        Err(Error { kind: ErrorKind::MissingWhitespace, row: 1, col: 10, source: None })
    );
}
