use wsv::data_model::{Error, ErrorKind, Parser, WsvValue};
use wsv::{
    from_reader, from_reader_with_parser, from_string, from_string_with_parser, parse_from_memory,
    strict_with_parser,
};

const EVERY: [Parser; 6] =
    [Parser::Nom, Parser::State, Parser::Mealy, Parser::Moore, Parser::Split, Parser::First];

fn v(text: &str) -> WsvValue {
    WsvValue::V(text.to_owned())
}

type Strict = fn(&str) -> Result<Vec<Vec<WsvValue>>, Error>;

const STRICT: [Strict; 7] = [
    wsv::typestate::parse_strict,
    wsv::first::parse_strict,
    wsv::state::parse,
    wsv::mealy::parse_strict,
    wsv::moore::parse_strict,
    wsv::split::parse_strict,
    wsv::nom::parse,
];

type Lenient = fn(&str) -> Vec<Result<Vec<WsvValue>, Error>>;

const LENIENT: [Lenient; 4] =
    [wsv::first::parse, wsv::mealy::parse, wsv::moore::parse, wsv::split::parse];

fn all_give(text: &str, expected: Vec<Vec<WsvValue>>) {
    for parse in STRICT {
        assert_eq!(parse(text), Ok(expected.clone()), "on {:?}", text);
    }
    for parse in LENIENT {
        let rows: Vec<_> = expected.iter().cloned().map(Ok).collect();
        assert_eq!(parse(text), rows, "on {:?}", text);
    }
    for parser in EVERY {
        assert_eq!(strict_with_parser(text, parser), Ok(expected.clone()));
        let rows: Vec<_> = expected.iter().cloned().map(Ok).collect();
        assert_eq!(from_string_with_parser(text, parser), rows);
    }
    assert_eq!(parse_from_memory(text), Ok(expected.clone()));
}

#[test]
fn empty_document_is_one_empty_row() {
    all_give("", vec![vec![]]);
}

#[test]
fn trailing_line_feed_adds_an_empty_row() {
    all_give("5\n", vec![vec![v("5")], vec![]]);
    all_give("5\n\n", vec![vec![v("5")], vec![], vec![]]);
    all_give("\n", vec![vec![], vec![]]);
}

#[test]
fn end_to_end() {
    all_give(
        "1 hello \"world\" -\n\"string\" - null",
        vec![
            vec![v("1"), v("hello"), v("world"), WsvValue::Null],
            vec![v("string"), WsvValue::Null, v("null")],
        ],
    );
}

#[test]
fn comments_in_a_document() {
    all_give(
        "# This is a comment\nCommentExAmple # and this\nbut \" # \" is fine",
        vec![vec![], vec![v("CommentExAmple")], vec![v("but"), v(" # "), v("is"), v("fine")]],
    );
}

#[test]
fn strings_in_a_document() {
    let input = "hello it's \"me\" \"\" \n                \"I'was\" \"wondering#if\" \"after/all\" \n                \"these\"\"years\" \"you'd\"/\"like\" \n                \"\"/\"\" \"\"\"\" \"#\" \"/\"      ";
    all_give(
        input,
        vec![
            vec![v("hello"), v("it's"), v("me"), v("")],
            vec![v("I'was"), v("wondering#if"), v("after/all")],
            vec![v("these\"years"), v("you'd\nlike")],
            vec![v("\n"), v("\""), v("#"), v("/")],
        ],
    );
}

#[test]
fn empty_strings_in_a_document() {
    let input = "\"\"\n            \"1\"\n            \"2\" \"3\"\n            \"4\" \"\"\n            \"\" \"5\"\n            \"\" \"\"\n            \"6\" \"\"  7\n                8  \"\" \"9\"\n            \"a\" \"\" \"b\"";
    all_give(
        input,
        vec![
            vec![v("")],
            vec![v("1")],
            vec![v("2"), v("3")],
            vec![v("4"), v("")],
            vec![v(""), v("5")],
            vec![v(""), v("")],
            vec![v("6"), v(""), v("7")],
            vec![v("8"), v(""), v("9")],
            vec![v("a"), v(""), v("b")],
        ],
    );
}

#[test]
fn failing_fast_gives_the_first_error() {
    let text = "fine\nab\"c\n\"open\nfine";
    let first = Error { kind: ErrorKind::MissingWhitespace, row: 2, col: 3, source: None };
    assert_eq!(wsv::first::parse_strict(text), Err(first.clone()));
    assert_eq!(wsv::state::parse(text), Err(first.clone()));
    assert_eq!(wsv::mealy::parse_strict(text), Err(first.clone()));
    assert_eq!(wsv::moore::parse_strict(text), Err(first.clone()));
    assert_eq!(wsv::nom::parse(text), Err(first.clone()));
    assert_eq!(wsv::split::parse_strict(text), Err(first.clone()));
    assert_eq!(parse_from_memory(text), Err(first.clone()));
}

#[test]
fn collecting_gives_every_row_and_every_error() {
    let text = "fine\nab\"c\n\"open\nfine";
    let expected = vec![
        Ok(vec![v("fine")]),
        Err(Error { kind: ErrorKind::MissingWhitespace, row: 2, col: 3, source: None }),
        Err(Error { kind: ErrorKind::OddDoubleQuotes, row: 3, col: 6, source: None }),
        Ok(vec![v("fine")]),
    ];
    assert_eq!(wsv::first::parse(text), expected);
    assert_eq!(wsv::mealy::parse(text), expected);
    assert_eq!(wsv::moore::parse(text), expected);
    assert_eq!(from_string(text), expected);
    assert_eq!(from_string_with_parser(text, Parser::State), expected);
    assert_eq!(from_string_with_parser(text, Parser::Nom), expected);
    assert_eq!(wsv::split::parse(text), expected);
}

#[test]
fn one_pass_machines_count_rows_and_columns_per_line() {
    let text = "a b\n\n  c \"d\ne";
    let expected = Err(Error { kind: ErrorKind::OddDoubleQuotes, row: 3, col: 7, source: None });
    assert_eq!(wsv::mealy::parse_strict(text), expected);
    assert_eq!(wsv::moore::parse_strict(text), expected);
    assert_eq!(wsv::typestate::parse_strict(text), expected);
    assert_eq!(wsv::first::parse_strict(text), expected);
    let text = "a\n- #c\n\"x\"/y";
    let expected = Err(Error { kind: ErrorKind::MissingWhitespace, row: 3, col: 5, source: None });
    assert_eq!(wsv::mealy::parse_strict(text), expected);
    assert_eq!(wsv::moore::parse_strict(text), expected);
    assert_eq!(wsv::typestate::parse_strict(text), expected);
    assert_eq!(wsv::state::parse(text), expected);
}

#[test]
fn null_behind_a_comment_stays_in_its_row() {
    let text = "- #c\n5";
    let expected = Ok(vec![vec![WsvValue::Null], vec![v("5")]]);
    assert_eq!(wsv::mealy::parse_strict(text), expected);
    assert_eq!(wsv::moore::parse_strict(text), expected);
    assert_eq!(wsv::first::parse_strict(text), expected);
}

#[test]
fn lines_that_were_read_are_tokenized_in_order() {
    let lines = vec!["1 -".to_owned(), "\"open".to_owned(), "".to_owned()];
    assert_eq!(
        from_reader(&lines),
        vec![
            Ok(vec![v("1"), WsvValue::Null]),
            Err(Error { kind: ErrorKind::OddDoubleQuotes, row: 2, col: 6, source: None }),
            Ok(vec![]),
        ]
    );
}

#[test]
fn lines_that_were_read_are_tokenized_by_any_strategy() {
    let lines = vec!["a \"b\"".to_owned(), "-\"".to_owned()];
    for parser in EVERY {
        assert_eq!(
            from_reader_with_parser(&lines, parser),
            vec![
                Ok(vec![v("a"), v("b")]),
                Err(Error { kind: ErrorKind::MissingWhitespace, row: 2, col: 2, source: None }),
            ]
        );
    }
}

#[test]
fn carriage_return_is_whitespace() {
    all_give("a b\r\nc\r\n", vec![vec![v("a"), v("b")], vec![v("c")], vec![]]);
}
