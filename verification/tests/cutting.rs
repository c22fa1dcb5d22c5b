use wsv::data_model::{Error, ErrorKind, WsvValue};
use wsv::split::{identify_string_part, parse_line, process_part, Decision};

fn v(text: &str) -> WsvValue {
    WsvValue::V(text.to_owned())
}

fn fails(kind: ErrorKind, row: usize, col: usize) -> Result<Vec<WsvValue>, Error> {
    Err(Error { kind, row, col, source: None })
}

#[test]
fn words_of_a_piece() {
    assert_eq!(process_part(" a - b\t"), (vec![v("a"), WsvValue::Null, v("b")], true, true));
    assert_eq!(process_part("a -- b"), (vec![v("a"), v("--"), v("b")], false, false));
    assert_eq!(process_part(" a"), (vec![v("a")], true, false));
    assert_eq!(process_part("a "), (vec![v("a")], false, true));
    assert_eq!(process_part(""), (vec![], true, true));
    assert_eq!(process_part("  "), (vec![], true, true));
    assert_eq!(process_part("-#a  b#c"), (vec![v("-#a"), v("b#c")], false, false));
}

#[test]
fn piece_between_two_strings() {
    assert_eq!(identify_string_part("/"), Decision::SpecialCharacter('\n'));
    assert_eq!(identify_string_part(""), Decision::SpecialCharacter('"'));
    assert_eq!(identify_string_part(" "), Decision::EndOfString);
    assert_eq!(identify_string_part("//"), Decision::EndOfString);
}

#[test]
fn cutting_reads_fields_of_every_kind() {
    assert_eq!(
        parse_line((0, "1 hello \"world\" \"\"/\"\" \"\"\"\" \"\" -")),
        Ok(vec![v("1"), v("hello"), v("world"), v("\n"), v("\""), v(""), WsvValue::Null])
    );
    assert_eq!(parse_line((0, "-")), Ok(vec![WsvValue::Null]));
    assert_eq!(parse_line((0, "\"-\"")), Ok(vec![v("-")]));
    assert_eq!(parse_line((0, "\"a\"\"b\"")), Ok(vec![v("a\"b")]));
    assert_eq!(parse_line((0, "\"a\"/\"b\"")), Ok(vec![v("a\nb")]));
    assert_eq!(parse_line((0, "")), Ok(vec![]));
}

#[test]
fn cutting_finds_the_comment_by_the_quotes_before_it() {
    assert_eq!(parse_line((0, "val#trailing")), Ok(vec![v("val")]));
    assert_eq!(parse_line((0, "\"q#uoted\" # real comment")), Ok(vec![v("q#uoted")]));
    assert_eq!(parse_line((0, "value \"with # hash\" then # comment")), Ok(vec![v("value"), v("with # hash"), v("then")]));
    assert_eq!(parse_line((0, "a # \" odd")), Ok(vec![v("a")]));
    assert_eq!(parse_line((0, "\"a#b#c\" d#e")), Ok(vec![v("a#b#c"), v("d")]));
    assert_eq!(parse_line((0, "# only")), Ok(vec![]));
}

#[test]
fn cutting_reports_missing_whitespace_at_the_quote() {
    assert_eq!(parse_line((0, "abc\"def\"")), fails(ErrorKind::MissingWhitespace, 1, 4));
    assert_eq!(parse_line((0, "mmm\"AAA\"mmm")), fails(ErrorKind::MissingWhitespace, 1, 4));
    assert_eq!(parse_line((0, "mmm \"mmm\"mmm")), fails(ErrorKind::MissingWhitespace, 1, 10));
    assert_eq!(parse_line((2, "\"a\" b\"c\" d")), fails(ErrorKind::MissingWhitespace, 3, 6));
    assert_eq!(parse_line((2, "\"a\"b \"c\" d")), fails(ErrorKind::MissingWhitespace, 3, 4));
    assert_eq!(parse_line((2, "\"a\"b\"c\" d")), fails(ErrorKind::MissingWhitespace, 3, 4));
    assert_eq!(parse_line((2, "\"a\"/b \"c\"")), fails(ErrorKind::MissingWhitespace, 3, 5));
    assert_eq!(parse_line((0, "a\"b")), fails(ErrorKind::MissingWhitespace, 1, 2));
}

#[test]
fn cutting_reports_an_open_string_behind_the_line() {
    assert_eq!(parse_line((0, "\"abc")), fails(ErrorKind::OddDoubleQuotes, 1, 5));
    assert_eq!(parse_line((0, "\"")), fails(ErrorKind::OddDoubleQuotes, 1, 2));
    assert_eq!(parse_line((0, "somthing \" somethingelse")), fails(ErrorKind::OddDoubleQuotes, 1, 25));
    assert_eq!(parse_line((0, "a \"b # c")), fails(ErrorKind::OddDoubleQuotes, 1, 9));
    assert_eq!(parse_line((0, "\u{e4} \"\u{f6}")), fails(ErrorKind::OddDoubleQuotes, 1, 5));
    assert_eq!(parse_line((0, "\u{e4}\"\u{f6}")), fails(ErrorKind::MissingWhitespace, 1, 2));
}

#[test]
fn line_without_comment_is_read_piece_by_piece() {
    assert_eq!(parse_line((6, "a \"b\" c")), Ok(vec![v("a"), v("b"), v("c")]));
    assert_eq!(parse_line((6, "a - b")), Ok(vec![v("a"), WsvValue::Null, v("b")]));
    assert_eq!(parse_line((6, "a\"b\"")), fails(ErrorKind::MissingWhitespace, 7, 2));
    assert_eq!(parse_line((6, "a \"b")), fails(ErrorKind::OddDoubleQuotes, 7, 5));
    assert_eq!(parse_line((6, "\"a # b\" -#c")), Ok(vec![v("a # b"), v("-#c")]));
}
