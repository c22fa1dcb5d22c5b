use wsv::data_model::{Error, ErrorKind, Parser, WsvValue};

const STRATEGIES: [Parser; 6] =
    [Parser::First, Parser::State, Parser::Mealy, Parser::Moore, Parser::Nom, Parser::Split];

fn v(text: &str) -> WsvValue {
    WsvValue::V(text.to_owned())
}

fn fails(kind: ErrorKind, row: usize, col: usize) -> Result<Vec<WsvValue>, Error> {
    Err(Error { kind, row, col, source: None })
}

fn each_gives(line: &str, expected: Result<Vec<WsvValue>, Error>) {
    for parser in STRATEGIES {
        assert_eq!(parser.fn_ptr((0, line)), expected, "{:?} on {:?}", parser, line);
    }
    assert_eq!(wsv::first::parse_line((0, line)), expected);
    assert_eq!(wsv::state::parse_line((0, line)), expected);
    assert_eq!(wsv::mealy::parse_line((0, line)), expected);
    assert_eq!(wsv::moore::parse_line((0, line)), expected);
    assert_eq!(wsv::nom::parse_line((0, line)), expected);
    assert_eq!(wsv::split::parse_line((0, line)), expected);
    assert_eq!(wsv::typestate::parse_line((0, line)), expected);
    assert_eq!(wsv::parse_line((0, line)), expected);
}

#[test]
fn single_dash_is_null() {
    each_gives("-", Ok(vec![WsvValue::Null]));
}

#[test]
fn quoted_dash_is_text() {
    each_gives("\"-\"", Ok(vec![v("-")]));
}

#[test]
fn dash_followed_by_text_is_text() {
    each_gives("-5", Ok(vec![v("-5")]));
    each_gives("--", Ok(vec![v("--")]));
    each_gives("-#", Ok(vec![v("-#")]));
    each_gives("- 5 -", Ok(vec![WsvValue::Null, v("5"), WsvValue::Null]));
}

#[test]
fn doubled_quote_is_a_quote() {
    each_gives("\"a\"\"b\"", Ok(vec![v("a\"b")]));
    each_gives("\"\"\"\"", Ok(vec![v("\"")]));
}

#[test]
fn quote_slash_quote_is_a_line_feed() {
    each_gives("\"a\"/\"b\"", Ok(vec![v("a\nb")]));
    each_gives("\"\"/\"\"", Ok(vec![v("\n")]));
}

#[test]
fn escapes_are_read_from_left_to_right() {
    each_gives("\"\"\"/\"\"\"", Ok(vec![v("\"/\"")]));
}

#[test]
fn single_slash_in_a_string_is_text() {
    each_gives("\"/\"", Ok(vec![v("/")]));
}

#[test]
fn comment_behind_a_value_truncates() {
    each_gives("val#trailing", Ok(vec![v("val")]));
    each_gives("val # trailing \" quote", Ok(vec![v("val")]));
}

#[test]
fn hash_inside_a_string_is_text() {
    each_gives("\"q#uoted\" # real comment", Ok(vec![v("q#uoted")]));
    each_gives("\"q\"#c", Ok(vec![v("q")]));
}

#[test]
fn comment_alone_gives_an_empty_row() {
    each_gives("# This is a comment", Ok(vec![]));
    each_gives("   #", Ok(vec![]));
}

#[test]
fn quote_behind_a_value_is_an_error_at_the_quote() {
    each_gives("abc\"def\"", fails(ErrorKind::MissingWhitespace, 1, 4));
    each_gives("mmm\"AAA\"mmm", fails(ErrorKind::MissingWhitespace, 1, 4));
    each_gives("mmm\"mmm\" mmm", fails(ErrorKind::MissingWhitespace, 1, 4));
    each_gives("somthing\" somethingelse", fails(ErrorKind::MissingWhitespace, 1, 9));
}

#[test]
fn quote_behind_a_dash_is_an_error_at_the_quote() {
    each_gives("-\"a\"", fails(ErrorKind::MissingWhitespace, 1, 2));
}

#[test]
fn text_behind_a_string_is_an_error_at_the_text() {
    each_gives("mmm \"mmm\"mmm", fails(ErrorKind::MissingWhitespace, 1, 10));
    each_gives("mmm \"mmm\"mmm\"", fails(ErrorKind::MissingWhitespace, 1, 10));
    each_gives("\"a\"-", fails(ErrorKind::MissingWhitespace, 1, 4));
}

#[test]
fn broken_line_feed_escape_is_an_error() {
    each_gives("\"a\"/b\"", fails(ErrorKind::MissingWhitespace, 1, 5));
    each_gives("\"a\"/", fails(ErrorKind::MissingWhitespace, 1, 5));
    each_gives("\"a\"/ ", fails(ErrorKind::MissingWhitespace, 1, 5));
}

#[test]
fn open_string_is_an_error_behind_the_line() {
    each_gives("\"abc", fails(ErrorKind::OddDoubleQuotes, 1, 5));
    each_gives("\"", fails(ErrorKind::OddDoubleQuotes, 1, 2));
    each_gives("somthing \" somethingelse", fails(ErrorKind::OddDoubleQuotes, 1, 25));
    each_gives("\"a\"\"", fails(ErrorKind::OddDoubleQuotes, 1, 5));
}

#[test]
fn columns_count_characters_not_bytes() {
    each_gives("\u{e4}\u{f6}\"", fails(ErrorKind::MissingWhitespace, 1, 3));
    each_gives("\"\u{8d8a}", fails(ErrorKind::OddDoubleQuotes, 1, 3));
}

#[test]
fn empty_line_is_an_empty_row() {
    each_gives("", Ok(vec![]));
    each_gives("   \t ", Ok(vec![]));
}

#[test]
fn empty_strings_are_fields() {
    each_gives("\"\"", Ok(vec![v("")]));
    each_gives("\"6\" \"\"  7", Ok(vec![v("6"), v(""), v("7")]));
    each_gives("    8  \"\" \"9\"", Ok(vec![v("8"), v(""), v("9")]));
}

#[test]
fn all_unicode_whitespace_separates() {
    each_gives("a\tb\u{a0}c\u{3000}d\u{2003}e", Ok(vec![v("a"), v("b"), v("c"), v("d"), v("e")]));
}

#[test]
fn whitespace_inside_a_string_is_text() {
    each_gives("\" a\tb \"", Ok(vec![v(" a\tb ")]));
}

#[test]
fn numbers_are_text() {
    each_gives("1 2.0 3.4.5 6.789", Ok(vec![v("1"), v("2.0"), v("3.4.5"), v("6.789")]));
}

#[test]
fn hard_line_of_every_kind_of_field() {
    each_gives(
        "1 hello \"world\" \"\"/\"\" \"\"\"\" \"\" -",
        Ok(vec![v("1"), v("hello"), v("world"), v("\n"), v("\""), v(""), WsvValue::Null]),
    );
}

#[test]
fn row_number_is_one_more_than_the_index() {
    for parser in STRATEGIES {
        assert_eq!(
            parser.fn_ptr((6, "a\"")),
            Err(Error { kind: ErrorKind::MissingWhitespace, row: 7, col: 2, source: None })
        );
    }
}

#[test]
fn line_feed_in_a_line_separates_or_breaks_a_string() {
    assert_eq!(wsv::first::parse_line((0, "a\nb")), Ok(vec![v("a"), v("b")]));
    assert_eq!(wsv::state::parse_line((0, "a\nb")), Ok(vec![v("a"), v("b")]));
    assert_eq!(
        wsv::first::parse_line((0, "\"a\nb\"")),
        Err(Error { kind: ErrorKind::OddDoubleQuotes, row: 1, col: 3, source: None })
    );
    assert_eq!(
        wsv::state::parse_line((0, "\"a\nb\"")),
        Err(Error { kind: ErrorKind::OddDoubleQuotes, row: 1, col: 3, source: None })
    );
}

#[test]
fn awkward_lines_are_read_alike_by_every_strategy() {
    each_gives("-#a#b", Ok(vec![v("-#a")]));
    each_gives("- #a", Ok(vec![WsvValue::Null]));
    each_gives("-\t-", Ok(vec![WsvValue::Null, WsvValue::Null]));
    each_gives("a-b /c -d", Ok(vec![v("a-b"), v("/c"), v("-d")]));
    each_gives("\"a\" \"b\"#c", Ok(vec![v("a"), v("b")]));
    each_gives("\"a\"\"b", fails(ErrorKind::OddDoubleQuotes, 1, 6));
    each_gives("\"a\"/\"", fails(ErrorKind::OddDoubleQuotes, 1, 6));
    each_gives("\"a\"/#", fails(ErrorKind::MissingWhitespace, 1, 5));
    each_gives("a \"b\"/c d", fails(ErrorKind::MissingWhitespace, 1, 7));
    each_gives("a \"b\"-", fails(ErrorKind::MissingWhitespace, 1, 6));
    each_gives("a  \"b", fails(ErrorKind::OddDoubleQuotes, 1, 6));
    each_gives("-#\"", fails(ErrorKind::MissingWhitespace, 1, 3));
    each_gives("a#\"", Ok(vec![v("a")]));
    each_gives(" \" ", fails(ErrorKind::OddDoubleQuotes, 1, 4));
    each_gives("\"\"\"", fails(ErrorKind::OddDoubleQuotes, 1, 4));
    each_gives("\"\"\"\"\"\"", Ok(vec![v("\"\"")]));
    each_gives("\"\"/\"\"/\"\"", Ok(vec![v("\n\n")]));
    each_gives("/", Ok(vec![v("/")]));
    each_gives("#", Ok(vec![]));
}

#[test]
fn default_strategy_is_the_loop() {
    assert_eq!(Parser::default(), Parser::First);
}
