use wsv::data_model::WsvValue;
use wsv::nom::{comment, double_quote, new_line, nul, string, value, ws0, Unmatched};

fn ws(i: &str) -> Result<(&str, &str), Unmatched> {
    ws0(i)
}

#[test]
fn whitespace_parses() {
    assert_eq!(ws(" "), Ok(("", " ")));
}

#[test]
fn whitespace_parses_nothing() {
    assert_eq!(ws(""), Ok(("", "")));
}

#[test]
fn whitespace_does_not_parse_newline() {
    assert_eq!(ws("\n"), Ok(("\n", "")));
}

const NEW_LINE: &str = r##""/""##;

#[test]
fn newline_parses() {
    assert_eq!(new_line(NEW_LINE), Ok(("", "\n")));
}

const QUOTE: &str = r##""""##;

#[test]
fn quote_parses() {
    assert_eq!(double_quote(QUOTE), Ok(("", "\"")));
}

const VALUE: &str = "1";

#[test]
fn value_parses() {
    assert_eq!(value(VALUE), Ok(("", WsvValue::V("1".to_owned()))));
}

const NULL: &str = r#"-"#;

#[test]
fn null_parses() {
    assert_eq!(nul(NULL), Ok(("", WsvValue::Null)));
}

const COMMENT: &str = "# This is a comment";

#[test]
fn comment_parses() {
    assert_eq!(comment(COMMENT), Ok(("", " This is a comment")));
}

const STRING: &str = r##""hello,world!""##;

#[test]
fn string_parses() {
    assert_eq!(
        string(STRING),
        Ok(("", WsvValue::V("hello,world!".to_owned())))
    );
}

const STRING_WITH_SPACES: &str = r#""hello, world!""#;

#[test]
fn string_with_spaces_parses() {
    assert_eq!(
        string(STRING_WITH_SPACES),
        Ok(("", WsvValue::V("hello, world!".to_owned())))
    );
}

const STRING_WITH_QUOTES: &str = r#""hello,""world!""#;

#[test]
fn string_with_quotes() {
    assert_eq!(
        string(STRING_WITH_QUOTES),
        Ok(("", WsvValue::V("hello,\"world!".to_owned())))
    );
}

const STRING_WITH_NEWLINE: &str = r#""hello,"/"world!""#;

#[test]
fn string_with_newline() {
    assert_eq!(
        string(STRING_WITH_NEWLINE),
        Ok(("", WsvValue::V("hello,\nworld!".to_owned())))
    );
}

const STRING_WITH_HASH: &str = r#""hello,#world!""#;

#[test]
fn string_with_hash() {
    assert_eq!(
        string(STRING_WITH_HASH),
        Ok(("", WsvValue::V("hello,#world!".to_owned())))
    );
}

const EMPTY_STRING: &str = r#""""#;

#[test]
fn empty_str() {
    assert_eq!(string(EMPTY_STRING), Ok(("", WsvValue::V("".to_owned()))));
}

const EASY_LINE: &str = r##"1 2"##;

#[test]
fn easy_line() {
    assert_eq!(
        wsv::nom::line(EASY_LINE),
        Ok((
            "",
            vec![WsvValue::V("1".to_owned()), WsvValue::V("2".to_owned()),]
        ))
    );
}

#[test]
fn empty_line() {
    assert_eq!(wsv::nom::line(""), Ok(("", vec![])));
}

const HARD_LINE: &str = r##"1 hello "world" ""/"" """" "" -"##;

#[test]
fn hard_line() {
    assert_eq!(
        wsv::nom::line(HARD_LINE),
        Ok((
            "",
            vec![
                WsvValue::V("1".to_owned()),
                WsvValue::V("hello".to_owned()),
                WsvValue::V("world".to_owned()),
                WsvValue::V("\n".to_owned()),
                WsvValue::V("\"".to_owned()),
                WsvValue::V("".to_owned()),
                WsvValue::Null,
            ]
        ))
    );
}
