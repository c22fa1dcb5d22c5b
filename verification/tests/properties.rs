use wsv::{from_string, parse_from_memory, parse_line, Error, ErrorKind, WsvValue};

fn v(text: &str) -> WsvValue {
    WsvValue::V(text.to_owned())
}

#[test]
fn null_is_a_dash_and_quoting_keeps_the_dash() {
    assert_eq!(parse_line((0, "-")), Ok(vec![WsvValue::Null]));
    assert_eq!(parse_line((0, "\"-\"")), Ok(vec![v("-")]));
}

#[test]
fn escapes_come_back_as_what_they_stand_for() {
    assert_eq!(parse_line((0, "\"a\"\"b\"")), Ok(vec![v("a\"b")]));
    assert_eq!(parse_line((0, "\"a\"/\"b\"")), Ok(vec![v("a\nb")]));
}

#[test]
fn comment_truncates_the_line() {
    assert_eq!(parse_line((0, "val#trailing")), Ok(vec![v("val")]));
    assert_eq!(parse_line((0, "\"q#uoted\" # real comment")), Ok(vec![v("q#uoted")]));
}

#[test]
fn whitespace_before_a_quote_is_mandatory() {
    assert_eq!(
        parse_line((0, "abc\"def\"")),
        Err(Error { kind: ErrorKind::MissingWhitespace, row: 1, col: 4, source: None })
    );
    assert_eq!(
        parse_line((8, "abc\"def\"")),
        Err(Error { kind: ErrorKind::MissingWhitespace, row: 9, col: 4, source: None })
    );
}

#[test]
fn open_string_is_found_where_the_line_ends() {
    assert_eq!(
        parse_line((0, "\"abc")),
        Err(Error { kind: ErrorKind::OddDoubleQuotes, row: 1, col: 5, source: None })
    );
    assert_eq!(
        parse_line((2, "x \"abc def")),
        Err(Error { kind: ErrorKind::OddDoubleQuotes, row: 3, col: 11, source: None })
    );
}

#[test]
fn empty_line_and_empty_document() {
    assert_eq!(parse_line((0, "")), Ok(vec![]));
    assert_eq!(parse_from_memory(""), Ok(vec![vec![]]));
    assert_eq!(from_string(""), vec![Ok(vec![])]);
}

#[test]
fn two_lines_of_every_kind_of_field() {
    assert_eq!(
        from_string("1 hello \"world\" -\n\"string\" - null"),
        vec![
            Ok(vec![v("1"), v("hello"), v("world"), WsvValue::Null]),
            Ok(vec![v("string"), WsvValue::Null, v("null")]),
        ]
    );
}

#[test]
fn line_feed_at_the_end_gives_one_more_row() {
    assert_eq!(from_string("5\n"), vec![Ok(vec![v("5")]), Ok(vec![])]);
    assert_eq!(parse_from_memory("5\n"), Ok(vec![vec![v("5")], vec![]]));
}
