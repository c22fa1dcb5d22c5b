//! What tokenizing a line means: a finite-state transducer that reads the characters of the
//! line one by one, then the end of the line, and gives the fields of the line or the first
//! error with its column. Every tokenizer of this crate is proved against this definition.
use vstd::prelude::*;
use crate::data_model::{fault, ErrorKind, Fault, Row};
use crate::text::{
    class_of, lemma_split_front, lemma_split_nonempty, lemma_split_whole, lines, single,
    CharClass,
};

verus! {

/// Where the transducer stands between two characters.
#[derive(Debug, PartialEq, Eq, Clone, Copy, Structural)]
pub enum Mode {
    /// Outside any field.
    Default,
    /// Inside a bare token.
    UnquotedValue,
    /// Behind a `-` that opened a token: null, unless the token goes on.
    MaybeNull,
    /// Inside a quoted string.
    InsideQuotedString,
    /// Behind a quote met inside a string: the string's end, or the start of an escape.
    QuoteOrEscape,
    /// Behind `"/` met inside a string: only a quote can follow, and it completes a line break.
    MaybeEscapedNewline,
    /// Behind a `#` that opened a comment.
    Comment,
}

/// The transducer's memory: its mode, the text gathered for the field that is being read, and
/// the fields read so far.
pub struct Config {
    pub mode: Mode,
    pub buf: Seq<char>,
    pub row: Row,
}

/// The configuration in which every line begins.
pub open spec fn start() -> Config {
    Config { mode: Mode::Default, buf: Seq::empty(), row: Seq::empty() }
}

/// The configuration outside any field, once the gathered text has become a field.
pub open spec fn flushed(cfg: Config, mode: Mode) -> Config {
    Config { mode, buf: Seq::empty(), row: cfg.row.push(Some(cfg.buf)) }
}

/// What one character does: the next configuration, or the kind of error that it raises.
pub open spec fn on_char(cfg: Config, c: char) -> Result<Config, ErrorKind> {
    match cfg.mode {
        Mode::Default => match class_of(c) {
            CharClass::Hash => Ok(Config { mode: Mode::Comment, ..cfg }),
            CharClass::Dash => Ok(Config { mode: Mode::MaybeNull, buf: seq![c], ..cfg }),
            CharClass::Quote => Ok(
                Config { mode: Mode::InsideQuotedString, buf: Seq::empty(), ..cfg },
            ),
            CharClass::LineFeed | CharClass::Space => Ok(cfg),
            _ => Ok(Config { mode: Mode::UnquotedValue, buf: seq![c], ..cfg }),
        },
        Mode::UnquotedValue => match class_of(c) {
            CharClass::Quote => Err(ErrorKind::MissingWhitespace),
            CharClass::Hash => Ok(flushed(cfg, Mode::Comment)),
            CharClass::LineFeed | CharClass::Space => Ok(flushed(cfg, Mode::Default)),
            _ => Ok(Config { buf: cfg.buf.push(c), ..cfg }),
        },
        Mode::MaybeNull => match class_of(c) {
            CharClass::LineFeed | CharClass::Space => Ok(
                Config { mode: Mode::Default, buf: Seq::empty(), row: cfg.row.push(None) },
            ),
            CharClass::Quote => Err(ErrorKind::MissingWhitespace),
            _ => Ok(Config { mode: Mode::UnquotedValue, buf: cfg.buf.push(c), ..cfg }),
        },
        Mode::InsideQuotedString => match class_of(c) {
            CharClass::Quote => Ok(Config { mode: Mode::QuoteOrEscape, ..cfg }),
            CharClass::LineFeed => Err(ErrorKind::OddDoubleQuotes),
            _ => Ok(Config { buf: cfg.buf.push(c), ..cfg }),
        },
        Mode::QuoteOrEscape => match class_of(c) {
            CharClass::Quote => Ok(
                Config { mode: Mode::InsideQuotedString, buf: cfg.buf.push('"'), ..cfg },
            ),
            CharClass::Slash => Ok(Config { mode: Mode::MaybeEscapedNewline, ..cfg }),
            CharClass::Hash => Ok(flushed(cfg, Mode::Comment)),
            CharClass::LineFeed | CharClass::Space => Ok(flushed(cfg, Mode::Default)),
            _ => Err(ErrorKind::MissingWhitespace),
        },
        Mode::MaybeEscapedNewline => match class_of(c) {
            CharClass::Quote => Ok(
                Config { mode: Mode::InsideQuotedString, buf: cfg.buf.push('\n'), ..cfg },
            ),
            _ => Err(ErrorKind::MissingWhitespace),
        },
        Mode::Comment => Ok(cfg),
    }
}

/// What the end of the line does: the finished row, or the kind of error that it raises.
pub open spec fn on_end(cfg: Config) -> Result<Row, ErrorKind> {
    match cfg.mode {
        Mode::Default | Mode::Comment => Ok(cfg.row),
        Mode::UnquotedValue | Mode::QuoteOrEscape => Ok(cfg.row.push(Some(cfg.buf))),
        Mode::MaybeNull => Ok(cfg.row.push(None)),
        Mode::InsideQuotedString => Err(ErrorKind::OddDoubleQuotes),
        Mode::MaybeEscapedNewline => Err(ErrorKind::MissingWhitespace),
    }
}

/// What the transducer gives when it stands in `cfg` with `col` events behind it and the
/// characters `rest` before it: the row, or the kind of the first error with the number of the
/// event that raised it, counted from 1.
pub open spec fn scan(cfg: Config, rest: Seq<char>, col: nat) -> Result<Row, (ErrorKind, nat)>
    decreases rest.len(),
{
    if rest.len() == 0 {
        match on_end(cfg) {
            Ok(row) => Ok(row),
            Err(kind) => Err((kind, col + 1)),
        }
    } else {
        match on_char(cfg, rest[0]) {
            Ok(next) => scan(next, rest.skip(1), col + 1),
            Err(kind) => Err((kind, col + 1)),
        }
    }
}

/// Where the characters of `text` take the transducer from `cfg`: the configuration behind the
/// last of them, or the kind of the first error with the number of the character that raised
/// it, counted from 1.
pub open spec fn feed(cfg: Config, text: Seq<char>) -> Result<Config, (ErrorKind, nat)>
    decreases text.len(),
{
    if text.len() == 0 {
        Ok(cfg)
    } else {
        match on_char(cfg, text[0]) {
            Ok(next) => match feed(next, text.skip(1)) {
                Ok(last) => Ok(last),
                Err((kind, at)) => Err((kind, at + 1)),
            },
            Err(kind) => Err((kind, 1)),
        }
    }
}

/// Scanning a text in two parts: the first part takes the transducer to a configuration from
/// which the second part is scanned, or raises the error of the whole.
pub proof fn lemma_scan_parts(cfg: Config, head: Seq<char>, tail: Seq<char>, col: nat)
    ensures
        scan(cfg, head + tail, col) == match feed(cfg, head) {
            Ok(mid) => scan(mid, tail, col + head.len()),
            Err((kind, at)) => Err((kind, col + at)),
        },
    decreases head.len(),
{
    if head.len() == 0 {
        assert(head + tail =~= tail);
    } else {
        let whole = head + tail;
        assert(whole[0] == head[0]);
        assert(whole.skip(1) =~= head.skip(1) + tail);
        match on_char(cfg, head[0]) {
            Ok(next) => {
                lemma_scan_parts(next, head.skip(1), tail, col + 1);
            },
            Err(_) => {},
        }
    }
}

/// Feeding a text in two parts: the first part takes the transducer to a configuration from
/// which the second part is fed, or raises the error of the whole.
pub proof fn lemma_feed_parts(cfg: Config, head: Seq<char>, tail: Seq<char>)
    ensures
        feed(cfg, head + tail) == match feed(cfg, head) {
            Ok(mid) => match feed(mid, tail) {
                Ok(last) => Ok(last),
                Err((kind, at)) => Err((kind, head.len() + at)),
            },
            Err(error) => Err(error),
        },
    decreases head.len(),
{
    if head.len() == 0 {
        assert(head + tail =~= tail);
    } else {
        let whole = head + tail;
        assert(whole[0] == head[0]);
        assert(whole.skip(1) =~= head.skip(1) + tail);
        match on_char(cfg, head[0]) {
            Ok(next) => {
                lemma_feed_parts(next, head.skip(1), tail);
            },
            Err(_) => {},
        }
    }
}

/// What one more character does to where a text takes the transducer.
pub proof fn lemma_feed_push(cfg: Config, text: Seq<char>, c: char)
    ensures
        feed(cfg, text.push(c)) == match feed(cfg, text) {
            Ok(mid) => match on_char(mid, c) {
                Ok(last) => Ok(last),
                Err(kind) => Err((kind, text.len() + 1)),
            },
            Err(error) => Err(error),
        },
{
    lemma_feed_parts(cfg, text, seq![c]);
    assert(text + seq![c] =~= text.push(c));
    assert(seq![c].skip(1) =~= Seq::<char>::empty());
    match feed(cfg, text) {
        Ok(mid) => {
            match on_char(mid, c) {
                Ok(last) => {
                    assert(feed(last, seq![c].skip(1)) == Ok::<Config, (ErrorKind, nat)>(last));
                },
                Err(_) => {},
            }
        },
        Err(_) => {},
    }
}

/// Whether the transducer, fed `text` from `cfg`, comes to stand in a comment.
pub open spec fn enters_comment(cfg: Config, text: Seq<char>) -> bool
    decreases text.len(),
{
    if cfg.mode == Mode::Comment {
        true
    } else if text.len() == 0 {
        false
    } else {
        match on_char(cfg, text[0]) {
            Ok(next) => enters_comment(next, text.skip(1)),
            Err(_) => false,
        }
    }
}

/// A comment, once entered, is never left.
pub proof fn lemma_comment_stays(cfg: Config, text: Seq<char>)
    requires
        cfg.mode == Mode::Comment,
    ensures
        feed(cfg, text) == Ok::<Config, (ErrorKind, nat)>(cfg),
    decreases text.len(),
{
    if text.len() > 0 {
        lemma_comment_stays(cfg, text.skip(1));
    }
}

/// A comment is entered in the first part of a text, or in the second part from where the
/// first part leads.
pub proof fn lemma_enters_parts(cfg: Config, head: Seq<char>, tail: Seq<char>)
    ensures
        enters_comment(cfg, head + tail) == (enters_comment(cfg, head) || match feed(cfg, head) {
            Ok(mid) => enters_comment(mid, tail),
            Err(_) => false,
        }),
        enters_comment(cfg, head) ==> feed(cfg, head) is Ok && feed(cfg, head)->Ok_0.mode
            == Mode::Comment,
        !enters_comment(cfg, head) && feed(cfg, head) is Ok ==> feed(cfg, head)->Ok_0.mode
            != Mode::Comment,
    decreases head.len(),
{
    if cfg.mode == Mode::Comment {
        lemma_comment_stays(cfg, head);
    } else if head.len() == 0 {
        assert(head + tail =~= tail);
    } else {
        let whole = head + tail;
        assert(whole[0] == head[0]);
        assert(whole.skip(1) =~= head.skip(1) + tail);
        match on_char(cfg, head[0]) {
            Ok(next) => {
                lemma_enters_parts(next, head.skip(1), tail);
            },
            Err(_) => {},
        }
    }
}

/// Without a `#` no comment is entered.
pub proof fn lemma_no_hash(cfg: Config, text: Seq<char>)
    requires
        cfg.mode != Mode::Comment,
        forall|k: int| 0 <= k < text.len() ==> text[k] != '#',
    ensures
        !enters_comment(cfg, text),
    decreases text.len(),
{
    if text.len() > 0 {
        match on_char(cfg, text[0]) {
            Ok(next) => {
                assert(forall|k: int| 0 <= k < text.skip(1).len() ==> text.skip(1)[k] == text[k + 1]);
                lemma_no_hash(next, text.skip(1));
            },
            Err(_) => {},
        }
    }
}

/// The error that becomes of a kind and a column in row `row`.
pub open spec fn located(row: nat, outcome: Result<Row, (ErrorKind, nat)>) -> Result<Row, Fault> {
    match outcome {
        Ok(fields) => Ok(fields),
        Err((kind, col)) => Err(fault(kind, row, col)),
    }
}

/// The fields of the line that is row `row` of its document, or the first error of the line
/// with that row and the column of the event that raised it.
pub open spec fn tokenize(row: nat, line: Seq<char>) -> Result<Row, Fault> {
    located(row, scan(start(), line, 0))
}

/// A document line by line: each line with what tokenizing it gives, where the first line is
/// row `first`.
pub open spec fn tokenize_each(first: nat, lines: Seq<Seq<char>>) -> Seq<Result<Row, Fault>> {
    Seq::new(lines.len(), |i: int| tokenize((first + i) as nat, lines[i]))
}

/// A document as a whole, where the first line is row `first`: the rows of all its lines, or
/// the error of the first line that has one.
pub open spec fn tokenize_rows(first: nat, lines: Seq<Seq<char>>) -> Result<Seq<Row>, Fault>
    decreases lines.len(),
{
    if lines.len() == 0 {
        Ok(Seq::empty())
    } else {
        match tokenize_rows(first, lines.drop_last()) {
            Err(error) => Err(error),
            Ok(rows) => match tokenize((first + lines.len() - 1) as nat, lines.last()) {
                Err(error) => Err(error),
                Ok(row) => Ok(rows.push(row)),
            },
        }
    }
}

/// A document as a whole, with its rows counted from 1.
pub open spec fn tokenize_all(lines: Seq<Seq<char>>) -> Result<Seq<Row>, Fault> {
    tokenize_rows(1, lines)
}

/// An error among the first lines of a document is the error of the whole document.
pub proof fn lemma_first_error(first: nat, lines: Seq<Seq<char>>, upto: int)
    requires
        0 <= upto <= lines.len(),
        tokenize_rows(first, lines.take(upto)) is Err,
    ensures
        tokenize_rows(first, lines) == tokenize_rows(first, lines.take(upto)),
    decreases lines.len() - upto,
{
    if upto < lines.len() {
        assert(lines.take(upto + 1).drop_last() =~= lines.take(upto));
        lemma_first_error(first, lines, upto + 1);
    } else {
        assert(lines.take(upto) =~= lines);
    }
}

/// A comment runs to the end of the line and leaves the row as it is.
pub proof fn lemma_comment(cfg: Config, rest: Seq<char>, col: nat)
    requires
        cfg.mode == Mode::Comment,
    ensures
        scan(cfg, rest, col) == Ok::<Row, (ErrorKind, nat)>(cfg.row),
    decreases rest.len(),
{
    if rest.len() > 0 {
        lemma_comment(cfg, rest.skip(1), col + 1);
    }
}

/// What the transducer gives on a whole text, when it stands in `cfg` with the finished rows
/// `rows` and `col` events of row `row` behind it, and the characters `rest` before it. A line
/// feed ends the row as the end of the text does, and the next row begins afresh.
pub open spec fn stream(cfg: Config, rows: Seq<Row>, row: nat, col: nat, rest: Seq<char>) -> Result<
    Seq<Row>,
    Fault,
>
    decreases rest.len(),
{
    if rest.len() == 0 {
        match on_end(cfg) {
            Ok(last) => Ok(rows.push(last)),
            Err(kind) => Err(fault(kind, row, col + 1)),
        }
    } else if rest[0] == '\n' {
        match on_end(cfg) {
            Ok(last) => stream(start(), rows.push(last), row + 1, 0, rest.skip(1)),
            Err(kind) => Err(fault(kind, row, col + 1)),
        }
    } else {
        match on_char(cfg, rest[0]) {
            Ok(next) => stream(next, rows, row, col + 1, rest.skip(1)),
            Err(kind) => Err(fault(kind, row, col + 1)),
        }
    }
}

/// How the first line of a document shapes the whole: its error is the document's, and its row
/// stands before the rows of the lines that follow.
pub proof fn lemma_rows_front(first: nat, lines: Seq<Seq<char>>)
    requires
        lines.len() > 0,
    ensures
        tokenize_rows(first, lines) == match tokenize(first, lines[0]) {
            Err(error) => Err::<Seq<Row>, Fault>(error),
            Ok(row) => match tokenize_rows(first + 1, lines.skip(1)) {
                Err(error) => Err(error),
                Ok(rows) => Ok(seq![row] + rows),
            },
        },
    decreases lines.len(),
{
    if lines.len() == 1 {
        assert(lines.drop_last() =~= Seq::<Seq<char>>::empty());
        assert(lines.skip(1) =~= Seq::<Seq<char>>::empty());
        match tokenize(first, lines[0]) {
            Ok(row) => {
                assert(Seq::<Row>::empty().push(row) =~= seq![row] + Seq::<Row>::empty());
            },
            Err(_) => {},
        }
    } else {
        lemma_rows_front(first, lines.drop_last());
        assert(lines.drop_last().skip(1) =~= lines.skip(1).drop_last());
        assert(lines.drop_last()[0] == lines[0]);
        assert(lines.skip(1).last() == lines.last());
        match tokenize(first, lines[0]) {
            Ok(row) => match tokenize_rows(first + 1, lines.skip(1).drop_last()) {
                Ok(rows) => match tokenize((first + lines.len() - 1) as nat, lines.last()) {
                    Ok(last) => {
                        assert((seq![row] + rows).push(last) =~= seq![row] + rows.push(last));
                    },
                    Err(_) => {},
                },
                Err(_) => {},
            },
            Err(_) => {},
        }
    }
}

/// Reading a text in one pass gives what cutting it into lines and tokenizing them in turn
/// gives, from any configuration: the row under construction is completed by the first line of
/// what is left, and the rows of the other lines follow.
pub proof fn lemma_stream(cfg: Config, rows: Seq<Row>, row: nat, col: nat, rest: Seq<char>)
    ensures
        lines(rest).len() >= 1,
        stream(cfg, rows, row, col, rest) == match scan(cfg, lines(rest)[0], col) {
            Err((kind, at)) => Err::<Seq<Row>, Fault>(fault(kind, row, at)),
            Ok(last) => match tokenize_rows(row + 1, lines(rest).skip(1)) {
                Err(error) => Err(error),
                Ok(more) => Ok(rows.push(last) + more),
            },
        },
    decreases rest.len(),
{
    lemma_split_nonempty(rest, '\n');
    if rest.len() == 0 {
        assert(lines(rest) =~~= seq![Seq::<char>::empty()]);
        assert(lines(rest).skip(1) =~= Seq::<Seq<char>>::empty());
        match on_end(cfg) {
            Ok(last) => {
                assert(rows.push(last) + Seq::<Row>::empty() =~= rows.push(last));
            },
            Err(_) => {},
        }
    } else {
        lemma_split_front(rest, '\n');
        let tail = rest.skip(1);
        if rest[0] == '\n' {
            assert(lines(rest)[0] =~= Seq::<char>::empty());
            assert(lines(rest).skip(1) =~= lines(tail));
            match on_end(cfg) {
                Ok(last) => {
                    lemma_stream(start(), rows.push(last), row + 1, 0, tail);
                    lemma_rows_front(row + 1, lines(tail));
                    match tokenize(row + 1, lines(tail)[0]) {
                        Ok(next) => match tokenize_rows(row + 2, lines(tail).skip(1)) {
                            Ok(more) => {
                                assert(rows.push(last).push(next) + more =~= rows.push(last) + (
                                seq![next] + more));
                            },
                            Err(_) => {},
                        },
                        Err(_) => {},
                    }
                },
                Err(_) => {},
            }
        } else {
            let c = rest[0];
            let line = lines(rest)[0];
            assert(line =~= seq![c] + lines(tail)[0]);
            assert(line[0] == c);
            assert(line.skip(1) =~= lines(tail)[0]);
            assert(lines(rest).skip(1) =~= lines(tail).skip(1));
            match on_char(cfg, c) {
                Ok(next) => {
                    lemma_stream(next, rows, row, col + 1, tail);
                },
                Err(_) => {},
            }
        }
    }
}

/// Reading a text in one pass from its start gives what cutting it into lines and tokenizing
/// them in turn gives.
pub proof fn lemma_stream_rows(first: nat, text: Seq<char>)
    ensures
        stream(start(), Seq::empty(), first, 0, text) == tokenize_rows(first, lines(text)),
{
    lemma_stream(start(), Seq::empty(), first, 0, text);
    lemma_rows_front(first, lines(text));
    match tokenize(first, lines(text)[0]) {
        Ok(row) => match tokenize_rows(first + 1, lines(text).skip(1)) {
            Ok(more) => {
                assert(Seq::<Row>::empty().push(row) + more =~= seq![row] + more);
            },
            Err(_) => {},
        },
        Err(_) => {},
    }
}

/// A text without line feed is a document of one line.
pub proof fn lemma_single_line(first: nat, text: Seq<char>)
    requires
        single(text),
    ensures
        lines(text) == seq![text],
        tokenize_rows(first, lines(text)) == match tokenize(first, text) {
            Ok(row) => Ok::<Seq<Row>, Fault>(seq![row]),
            Err(error) => Err(error),
        },
{
    lemma_split_whole(text, '\n');
    let only = seq![text];
    assert(only.drop_last() =~= Seq::<Seq<char>>::empty());
    assert(only.last() == text);
    assert(tokenize_rows(first, only.drop_last()) == Ok::<Seq<Row>, Fault>(Seq::empty()));
    assert((first + only.len() - 1) as nat == first);
    match tokenize(first, text) {
        Ok(row) => {
            assert(Seq::<Row>::empty().push(row) =~= seq![row]);
        },
        Err(_) => {},
    }
}

} // verus!
