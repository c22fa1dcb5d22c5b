//! A tokenizer written as one loop over the events of a line, which leaves at the first error.
use vstd::prelude::*;
use crate::data_model::{
    line_view, lines_view, row_view, strict_view, Error, ErrorKind, Field, Parser, WsvValue,
};
use crate::io::{from_string_with_parser, strict_with_parser};
use crate::text::{
    chars_of, classify, events, events_of, lines, unescape_between, unescaped, CharClass,
};
use crate::transducer::{
    lemma_comment, scan, start, tokenize, tokenize_all, tokenize_each, Config, Mode,
};

verus! {

/// The rows of all the lines of `i`, or the error of the first line that has one.
pub fn parse_strict(i: &str) -> (result: Result<Vec<Vec<WsvValue>>, Error>)
    ensures
        strict_view(result) == tokenize_all(lines(i@)),
{
    strict_with_parser(i, Parser::First)
}

/// Each line of `i` with its own row or its own error.
pub fn parse(i: &str) -> (result: Vec<Result<Vec<WsvValue>, Error>>)
    ensures
        lines_view(result@) == tokenize_each(1, lines(i@)),
{
    from_string_with_parser(i, Parser::First)
}

/// The field that a token stands for, where the token is written as it stands in a line: `-`
/// is the null field, a token between two quotes is a string and stands for what is written
/// between them, and any other token is its own text.
pub open spec fn token_value(token: Seq<char>) -> Field {
    if token.len() == 1 && token[0] == '-' {
        None
    } else if token.len() >= 2 && token[0] == '"' && token.last() == '"' {
        Some(unescaped(token.subrange(1, token.len() - 1)))
    } else {
        Some(token)
    }
}

/// The field that the token `buf` stands for.
pub fn parse_value(buf: &str) -> (value: WsvValue)
    ensures
        value@ == token_value(buf@),
{
    let chars = chars_of(buf);
    let len = chars.len();
    if len == 1 && chars[0] == '-' {
        WsvValue::Null
    } else if len >= 2 && chars[0] == '"' && chars[len - 1] == '"' {
        WsvValue::V(unescape_between(&chars, 1, len - 1))
    } else {
        WsvValue::new(buf)
    }
}

/// The fields of `input.1`, the line that follows `input.0` earlier lines, or its first error.
pub fn parse_line(input: (usize, &str)) -> (result: Result<Vec<WsvValue>, Error>)
    requires
        input.0 < usize::MAX,
    ensures
        line_view(result) == tokenize((input.0 + 1) as nat, input.1@),
{
    let row = input.0 + 1;
    let mut values: Vec<WsvValue> = Vec::new();
    let mut buf: String = String::new();
    let mut col: usize = 0;
    let mut mode = Mode::Default;
    let chars = events_of(input.1);
    let ghost line = input.1@;
    assert(line.skip(0) =~= line);
    assert(row_view(values@) =~= Seq::empty());
    loop
        invariant
            line == input.1@,
            chars@ == events(line),
            chars@.len() == line.len() + 1,
            col <= line.len(),
            row == input.0 + 1,
            scan(start(), line, 0) == scan(
                Config { mode, buf: buf@, row: row_view(values@) },
                line.skip(col as int),
                col as nat,
            ),
        decreases line.len() - col,
    {
        let ghost cfg = Config { mode, buf: buf@, row: row_view(values@) };
        let ghost before = row_view(values@);
        proof {
            if col < line.len() {
                assert(line.skip(col as int)[0] == line[col as int]);
                assert(line.skip(col as int).skip(1) =~= line.skip(col + 1));
            } else {
                assert(line.skip(col as int).len() == 0);
            }
        }
        let event = chars[col];
        assert(chars.len() == line.len() + 1);
        col += 1;
        match event {
            None => {
                assert(col == line.len() + 1);
                return match mode {
                    Mode::Default | Mode::Comment => Ok(values),
                    Mode::UnquotedValue | Mode::QuoteOrEscape => {
                        values.push(WsvValue::V(buf));
                        assert(row_view(values@) =~= before.push(Some(cfg.buf)));
                        Ok(values)
                    },
                    Mode::MaybeNull => {
                        values.push(WsvValue::Null);
                        assert(row_view(values@) =~= before.push(None));
                        Ok(values)
                    },
                    Mode::InsideQuotedString => Err(
                        Error::new(ErrorKind::OddDoubleQuotes, row, col, None),
                    ),
                    Mode::MaybeEscapedNewline => Err(
                        Error::new(ErrorKind::MissingWhitespace, row, col, None),
                    ),
                };
            },
            Some(c) => {
                let class = classify(c);
                match (mode, class) {
                    (Mode::Comment, _) => {
                        proof {
                            lemma_comment(cfg, line.skip(col as int), col as nat);
                        }
                        return Ok(values);
                    },
                    (Mode::Default, CharClass::Hash) => {
                        proof {
                            lemma_comment(
                                Config { mode: Mode::Comment, ..cfg },
                                line.skip(col as int),
                                col as nat,
                            );
                        }
                        return Ok(values);
                    },
                    (Mode::Default, CharClass::Dash) => {
                        buf = String::new();
                        buf.push(c);
                        mode = Mode::MaybeNull;
                        assert(buf@ =~= seq![c]);
                    },
                    (Mode::Default, CharClass::Quote) => {
                        buf = String::new();
                        mode = Mode::InsideQuotedString;
                    },
                    (Mode::Default, CharClass::LineFeed) | (Mode::Default, CharClass::Space) => {},
                    (Mode::Default, _) => {
                        buf = String::new();
                        buf.push(c);
                        mode = Mode::UnquotedValue;
                        assert(buf@ =~= seq![c]);
                    },
                    (Mode::UnquotedValue, CharClass::Quote)
                    | (Mode::MaybeNull, CharClass::Quote) => {
                        return Err(Error::new(ErrorKind::MissingWhitespace, row, col, None));
                    },
                    (Mode::UnquotedValue, CharClass::Hash)
                    | (Mode::QuoteOrEscape, CharClass::Hash) => {
                        values.push(WsvValue::V(buf));
                        proof {
                            assert(row_view(values@) =~= before.push(Some(cfg.buf)));
                            lemma_comment(
                                Config {
                                    mode: Mode::Comment,
                                    buf: Seq::empty(),
                                    row: row_view(values@),
                                },
                                line.skip(col as int),
                                col as nat,
                            );
                        }
                        return Ok(values);
                    },
                    (Mode::UnquotedValue, CharClass::LineFeed)
                    | (Mode::UnquotedValue, CharClass::Space)
                    | (Mode::QuoteOrEscape, CharClass::LineFeed)
                    | (Mode::QuoteOrEscape, CharClass::Space) => {
                        values.push(WsvValue::V(buf));
                        buf = String::new();
                        mode = Mode::Default;
                        assert(row_view(values@) =~= before.push(Some(cfg.buf)));
                    },
                    (Mode::UnquotedValue, _) => {
                        buf.push(c);
                    },
                    (Mode::MaybeNull, CharClass::LineFeed) | (Mode::MaybeNull, CharClass::Space) => {
                        values.push(WsvValue::Null);
                        buf = String::new();
                        mode = Mode::Default;
                        assert(row_view(values@) =~= before.push(None));
                    },
                    (Mode::MaybeNull, _) => {
                        buf.push(c);
                        mode = Mode::UnquotedValue;
                    },
                    (Mode::InsideQuotedString, CharClass::Quote) => {
                        mode = Mode::QuoteOrEscape;
                    },
                    (Mode::InsideQuotedString, CharClass::LineFeed) => {
                        return Err(Error::new(ErrorKind::OddDoubleQuotes, row, col, None));
                    },
                    (Mode::InsideQuotedString, _) => {
                        buf.push(c);
                    },
                    (Mode::QuoteOrEscape, CharClass::Quote) => {
                        buf.push('"');
                        mode = Mode::InsideQuotedString;
                    },
                    (Mode::QuoteOrEscape, CharClass::Slash) => {
                        mode = Mode::MaybeEscapedNewline;
                    },
                    (Mode::QuoteOrEscape, _) => {
                        return Err(Error::new(ErrorKind::MissingWhitespace, row, col, None));
                    },
                    (Mode::MaybeEscapedNewline, CharClass::Quote) => {
                        buf.push('\n');
                        mode = Mode::InsideQuotedString;
                    },
                    (Mode::MaybeEscapedNewline, _) => {
                        return Err(Error::new(ErrorKind::MissingWhitespace, row, col, None));
                    },
                }
            },
        }
    }
}

} // verus!
