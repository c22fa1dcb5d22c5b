use wsv::data_model::WsvValue;
use wsv::first::parse_value;
use wsv::take1;
use wsv::text::{class_from, classify, decimal, is_single, split_at_char, CharClass};

fn v(text: &str) -> WsvValue {
    WsvValue::V(text.to_owned())
}

#[test]
fn token_stands_for_its_field() {
    assert_eq!(parse_value("-"), WsvValue::Null);
    assert_eq!(parse_value("--"), v("--"));
    assert_eq!(parse_value("abc"), v("abc"));
    assert_eq!(parse_value("\"-\""), v("-"));
    assert_eq!(parse_value("\"a\"\"b\""), v("a\"b"));
    assert_eq!(parse_value("\"a\"/\"b\""), v("a\nb"));
    assert_eq!(parse_value("\"\"\"/\"\"\""), v("\"/\""));
    assert_eq!(parse_value("\"\""), v(""));
    assert_eq!(parse_value("\""), v("\""));
    assert_eq!(parse_value("\"abc"), v("\"abc"));
    assert_eq!(parse_value(""), v(""));
}

#[test]
fn buffer_gathers_and_hands_out() {
    let mut token = take1::WsvValue::default();
    assert!(token.is_empty());
    for c in "\"a\"\"b\"/\"c\"".chars() {
        token.push(c);
    }
    assert!(!token.is_empty());
    assert_eq!(token.sanitise(), Some("a\"b\nc".to_owned()));
    assert!(token.is_empty());
    token.push('x');
    token.push('"');
    assert_eq!(token, take1::WsvValue("x\"".to_owned()));
    assert_eq!(token.sanitise(), Some("x\"".to_owned()));
    assert_eq!(token.sanitise(), Some("".to_owned()));
}

#[test]
fn characters_are_classed() {
    assert_eq!(classify('"'), CharClass::Quote);
    assert_eq!(classify('#'), CharClass::Hash);
    assert_eq!(classify('-'), CharClass::Dash);
    assert_eq!(classify('/'), CharClass::Slash);
    assert_eq!(classify('\n'), CharClass::LineFeed);
    assert_eq!(classify(' '), CharClass::Space);
    assert_eq!(classify('\t'), CharClass::Space);
    assert_eq!(classify('\r'), CharClass::Space);
    assert_eq!(classify('\u{a0}'), CharClass::Space);
    assert_eq!(classify('a'), CharClass::Other);
    assert_eq!(classify('\u{8d8a}'), CharClass::Other);
    assert_eq!(class_from('a', true), CharClass::Space);
    assert_eq!(class_from('a', false), CharClass::Other);
    assert_eq!(class_from('#', true), CharClass::Hash);
    assert_eq!(class_from('\n', true), CharClass::LineFeed);
}

#[test]
fn numbers_are_written_in_decimal() {
    assert_eq!(decimal(0), "0");
    assert_eq!(decimal(7), "7");
    assert_eq!(decimal(10), "10");
    assert_eq!(decimal(1234567890), "1234567890");
    assert_eq!(decimal(usize::MAX), usize::MAX.to_string());
}

#[test]
fn text_is_cut_at_every_separator() {
    assert_eq!(split_at_char("", '\n'), vec![""]);
    assert_eq!(split_at_char("a", '\n'), vec!["a"]);
    assert_eq!(split_at_char("\n", '\n'), vec!["", ""]);
    assert_eq!(split_at_char("a\n\nb\n", '\n'), vec!["a", "", "b", ""]);
    assert_eq!(split_at_char("a#b", '#'), vec!["a", "b"]);
}

#[test]
fn line_feed_is_found() {
    assert!(is_single(""));
    assert!(is_single("a b\r"));
    assert!(!is_single("a\nb"));
    assert!(!is_single("\n"));
}
