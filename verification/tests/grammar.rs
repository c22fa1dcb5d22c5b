use wsv::data_model::{Error, ErrorKind, WsvValue};
use wsv::nom::{
    comment, double_quote, new_line, nul, parse, parse_line, string, string_part, value, ws0, ws1,
    Unmatched,
};

fn v(text: &str) -> WsvValue {
    WsvValue::V(text.to_owned())
}

#[test]
fn whitespace_stops_at_text_and_at_line_feed() {
    assert_eq!(ws0(" \t x "), Ok(("x ", " \t ")));
    assert_eq!(ws0("x"), Ok(("x", "")));
    assert_eq!(ws0(" \n "), Ok(("\n ", " ")));
    assert_eq!(ws1(" \t x "), Ok(("x ", " \t ")));
    assert_eq!(ws1("x"), Err(Unmatched::Whitespace));
    assert_eq!(ws1(""), Err(Unmatched::Whitespace));
    assert_eq!(ws1("\n"), Err(Unmatched::Whitespace));
}

#[test]
fn null_rule_takes_one_dash() {
    assert_eq!(nul("-5"), Ok(("5", WsvValue::Null)));
    assert_eq!(nul("5-"), Err(Unmatched::Null));
    assert_eq!(nul(""), Err(Unmatched::Null));
}

#[test]
fn string_part_stops_at_quote_and_line_feed() {
    assert_eq!(string_part("ab#c \"d"), Ok(("\"d", "ab#c ")));
    assert_eq!(string_part("ab\ncd"), Ok(("\ncd", "ab")));
    assert_eq!(string_part("\"d"), Err(Unmatched::StringPart));
    assert_eq!(string_part(""), Err(Unmatched::StringPart));
}

#[test]
fn escapes_are_matched_at_the_start_only() {
    assert_eq!(double_quote("\"\"x"), Ok(("x", "\"")));
    assert_eq!(double_quote("\"x\""), Err(Unmatched::DoubleQuote));
    assert_eq!(double_quote("\""), Err(Unmatched::DoubleQuote));
    assert_eq!(new_line("\"/\"x"), Ok(("x", "\n")));
    assert_eq!(new_line("\"/x"), Err(Unmatched::NewLine));
    assert_eq!(new_line("\"/"), Err(Unmatched::NewLine));
}

#[test]
fn value_stops_at_quote_hash_and_whitespace() {
    assert_eq!(value("ab-c/d e"), Ok((" e", v("ab-c/d"))));
    assert_eq!(value("ab#c"), Ok(("#c", v("ab"))));
    assert_eq!(value("ab\"c"), Ok(("\"c", v("ab"))));
    assert_eq!(value("ab\nc"), Ok(("\nc", v("ab"))));
    assert_eq!(value("\u{e4}\u{f6} x"), Ok((" x", v("\u{e4}\u{f6}"))));
    assert_eq!(value(" ab"), Err(Unmatched::Value));
    assert_eq!(value("#"), Err(Unmatched::Value));
    assert_eq!(value(""), Err(Unmatched::Value));
}

#[test]
fn comment_runs_to_the_line_feed() {
    assert_eq!(comment("#a # b\nc"), Ok(("\nc", "a # b")));
    assert_eq!(comment("#"), Ok(("", "")));
    assert_eq!(comment(" #"), Err(Unmatched::Comment));
    assert_eq!(comment(""), Err(Unmatched::Comment));
}

#[test]
fn string_must_be_closed() {
    assert_eq!(string("\"abc"), Err(Unmatched::Quoted));
    assert_eq!(string("\"abc\"\""), Err(Unmatched::Quoted));
    assert_eq!(string("\"a\nb\""), Err(Unmatched::Quoted));
    assert_eq!(string("abc"), Err(Unmatched::Quoted));
    assert_eq!(string(""), Err(Unmatched::Quoted));
    assert_eq!(string("\"a\"b"), Ok(("b", v("a"))));
    assert_eq!(string("\"\"\"/\"\"\" x"), Ok((" x", v("\"/\""))));
}

#[test]
fn line_rule_leaves_what_it_cannot_read() {
    assert_eq!(wsv::nom::line("a b  # c"), Ok(("", vec![v("a"), v("b")])));
    assert_eq!(wsv::nom::line("  a \"b\"c"), Ok(("c", vec![v("a"), v("b")])));
    assert_eq!(wsv::nom::line("-5"), Ok(("", vec![v("-5")])));
    assert_eq!(wsv::nom::line("-\"5\""), Ok(("\"5\"", vec![WsvValue::Null])));
    assert_eq!(wsv::nom::line("-#5 #6"), Ok(("", vec![v("-#5")])));
    assert_eq!(wsv::nom::line("a \"b"), Ok(("\"b", vec![v("a")])));
    assert_eq!(wsv::nom::line("a\nb"), Ok(("\nb", vec![v("a")])));
    assert_eq!(wsv::nom::line("- #c"), Ok(("", vec![WsvValue::Null])));
}

#[test]
fn grammar_tokenizes_what_the_line_rule_takes_whole() {
    assert_eq!(parse_line((0, "1 hello \"world\" -")), Ok(vec![v("1"), v("hello"), v("world"), WsvValue::Null]));
    assert_eq!(parse_line((0, "")), Ok(vec![]));
    assert_eq!(parse_line((0, "val#trailing")), Ok(vec![v("val")]));
    assert_eq!(parse_line((0, "\"q#uoted\" # real comment")), Ok(vec![v("q#uoted")]));
}

#[test]
fn grammar_names_the_error_by_where_the_line_rule_stops() {
    assert_eq!(
        parse_line((0, "abc\"def\"")),
        Err(Error { kind: ErrorKind::MissingWhitespace, row: 1, col: 4, source: None })
    );
    assert_eq!(
        parse_line((4, "\"abc")),
        Err(Error { kind: ErrorKind::OddDoubleQuotes, row: 5, col: 5, source: None })
    );
    assert_eq!(
        parse_line((0, "a \"b\"/c")),
        Err(Error { kind: ErrorKind::MissingWhitespace, row: 1, col: 7, source: None })
    );
    assert_eq!(
        parse_line((0, "a \"b\"c")),
        Err(Error { kind: ErrorKind::MissingWhitespace, row: 1, col: 6, source: None })
    );
    assert_eq!(parse_line((0, "-5")), Ok(vec![v("-5")]));
}

#[test]
fn nom_null() {
    assert_eq!(
        parse("nullExample - 2\n-\n- 2\n3 -"),
        Ok(vec![
            vec![v("nullExample"), WsvValue::Null, v("2")],
            vec![WsvValue::Null],
            vec![WsvValue::Null, v("2")],
            vec![v("3"), WsvValue::Null],
        ])
    );
}

#[test]
fn nom_numbers() {
    assert_eq!(parse("1 2.0 3.4.5 6.789"), Ok(vec![vec![v("1"), v("2.0"), v("3.4.5"), v("6.789")]]));
}

#[test]
fn nom_strings() {
    assert_eq!(
        parse("hello\nit's \"\" me\n\"I was wondering\"\n\" if \"\" after all these \"\nyears \"\" \" you'd like\"/\"to meet\""),
        Ok(vec![
            vec![v("hello")],
            vec![v("it's"), v(""), v("me")],
            vec![v("I was wondering")],
            vec![v(" if \" after all these ")],
            vec![v("years"), v(""), v(" you'd like\nto meet")],
        ])
    );
}

#[test]
fn nom_comments() {
    assert_eq!(
        parse("# This is a comment\nCommentExample # and this\nbut \" # \" is fine"),
        Ok(vec![vec![], vec![v("CommentExample")], vec![v("but"), v(" # "), v("is"), v("fine")]])
    );
}

#[test]
fn nom_not_null() {
    assert_eq!(parse("\"-\""), Ok(vec![vec![v("-")]]));
}

#[test]
fn nom_empty() {
    assert_eq!(parse(""), Ok(vec![vec![]]));
}

#[test]
fn nom_malformed() {
    match parse("mmm\"AAA\"mmm") {
        Err(Error { kind: ErrorKind::MissingWhitespace, row: 1, .. }) => {}
        other => panic!("expected missing whitespace on row 1, got {:?}", other),
    }
}

#[test]
fn nom_odd_quotes() {
    match parse("fine\nsomthing \" somethingelse") {
        Err(Error { kind: ErrorKind::OddDoubleQuotes, row: 2, .. }) => {}
        other => panic!("expected odd double quotes on row 2, got {:?}", other),
    }
}

#[test]
fn nom_parse_example() {
    assert_eq!(
        parse("\n1 hello \"world\" \"\"/\"\" \"\"\"\" \"\" -\n\"string\" - null\n\n# comment\nval # comment\nval#comment\n"),
        Ok(vec![
            vec![],
            vec![v("1"), v("hello"), v("world"), v("\n"), v("\""), v(""), WsvValue::Null],
            vec![v("string"), WsvValue::Null, v("null")],
            vec![],
            vec![],
            vec![v("val")],
            vec![v("val")],
            vec![],
        ])
    );
}
