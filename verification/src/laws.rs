//! What holds of tokenizing whatever the text: how quoting, comments, separation and the ends
//! of lines behave, and how the two ways of assembling a document relate.
use vstd::prelude::*;
use crate::data_model::{fault, ErrorKind, Fault, Row};
use crate::cutting::{gathered, lemma_words_fed, outside};
use crate::first::token_value;
use crate::text::{
    class_of, escaped, is_blank, joined, lemma_split_nonempty, lines, quoted, single, split,
    unescaped, CharClass,
};
use crate::transducer::{
    feed, lemma_comment, lemma_enters_parts, lemma_no_hash, lemma_scan_parts, on_char, scan,
    start, tokenize, tokenize_all, tokenize_each, tokenize_rows, Config, Mode,
};

verus! {

/// Inside a string, the escaped form of a text and the closing quote add the text to what was
/// gathered and leave the transducer behind the closing quote.
pub proof fn lemma_escaped(cfg: Config, text: Seq<char>)
    requires
        cfg.mode == Mode::InsideQuotedString,
    ensures
        feed(cfg, escaped(text) + seq!['"']) == Ok::<Config, (ErrorKind, nat)>(
            Config { mode: Mode::QuoteOrEscape, buf: cfg.buf + text, row: cfg.row },
        ),
    decreases text.len(),
{
    let closing = seq!['"'];
    let last = Config { mode: Mode::QuoteOrEscape, buf: cfg.buf + text, row: cfg.row };
    let whole = escaped(text) + closing;
    if text.len() == 0 {
        assert(whole =~= closing);
        assert(whole.skip(1) =~= Seq::<char>::empty());
        assert(cfg.buf + text =~= cfg.buf);
        let closed = Config { mode: Mode::QuoteOrEscape, ..cfg };
        assert(on_char(cfg, whole[0]) == Ok::<Config, ErrorKind>(closed));
        assert(feed(closed, whole.skip(1)) == Ok::<Config, (ErrorKind, nat)>(closed));
    } else {
        let c = text[0];
        let rest = text.skip(1);
        let tail = escaped(rest) + closing;
        let paused = Config { mode: Mode::QuoteOrEscape, ..cfg };
        if c == '"' {
            assert(whole =~= seq!['"', '"'] + tail);
            assert(whole.skip(1) =~= seq!['"'] + tail);
            assert(whole.skip(1).skip(1) =~= tail);
            let next = Config { mode: Mode::InsideQuotedString, buf: cfg.buf.push('"'), ..cfg };
            lemma_escaped(next, rest);
            assert(cfg.buf.push('"') + rest =~= cfg.buf + text);
            assert(on_char(paused, whole.skip(1)[0]) == Ok::<Config, ErrorKind>(next));
            assert(feed(paused, whole.skip(1)) == Ok::<Config, (ErrorKind, nat)>(last));
            assert(on_char(cfg, whole[0]) == Ok::<Config, ErrorKind>(paused));
        } else if c == '\n' {
            assert(whole =~= seq!['"', '/', '"'] + tail);
            assert(whole.skip(1) =~= seq!['/', '"'] + tail);
            assert(whole.skip(1).skip(1) =~= seq!['"'] + tail);
            assert(whole.skip(1).skip(1).skip(1) =~= tail);
            let slashed = Config { mode: Mode::MaybeEscapedNewline, ..cfg };
            let next = Config { mode: Mode::InsideQuotedString, buf: cfg.buf.push('\n'), ..cfg };
            lemma_escaped(next, rest);
            assert(cfg.buf.push('\n') + rest =~= cfg.buf + text);
            assert(on_char(slashed, whole.skip(1).skip(1)[0]) == Ok::<Config, ErrorKind>(next));
            assert(feed(slashed, whole.skip(1).skip(1)) == Ok::<Config, (ErrorKind, nat)>(last));
            assert(on_char(paused, whole.skip(1)[0]) == Ok::<Config, ErrorKind>(slashed));
            assert(feed(paused, whole.skip(1)) == Ok::<Config, (ErrorKind, nat)>(last));
            assert(on_char(cfg, whole[0]) == Ok::<Config, ErrorKind>(paused));
        } else {
            assert(whole =~= seq![c] + tail);
            assert(whole.skip(1) =~= tail);
            let next = Config { buf: cfg.buf.push(c), ..cfg };
            lemma_escaped(next, rest);
            assert(cfg.buf.push(c) + rest =~= cfg.buf + text);
            assert(on_char(cfg, whole[0]) == Ok::<Config, ErrorKind>(next));
        }
    }
}

/// Quoting gives back the text: a line that holds one quoted string, whatever its text, has
/// one field, and the field is that text. So a quoted `-` is the text `-` and never null, and
/// a quote, a line feed and a `#` inside a string come back as they went in.
pub proof fn law_quoted_round_trip(row: nat, text: Seq<char>)
    ensures
        tokenize(row, quoted(text)) == Ok::<Row, Fault>(seq![Some(text)]),
{
    let line = quoted(text);
    let opened = Config { mode: Mode::InsideQuotedString, buf: Seq::empty(), row: Seq::empty() };
    assert(line[0] == '"');
    assert(line.skip(1) =~= escaped(text) + seq!['"']);
    lemma_escaped(opened, text);
    lemma_scan_parts(opened, escaped(text) + seq!['"'], Seq::empty(), 1);
    assert(escaped(text) + seq!['"'] + Seq::<char>::empty() =~= escaped(text) + seq!['"']);
    assert(Seq::<char>::empty() + text =~= text);
    assert(Seq::<Option<Seq<char>>>::empty().push(Some(text)) =~= seq![Some(text)]);
}

/// Unescaping undoes escaping: the escaped form of a text, read back, is the text.
pub proof fn law_unescape_inverts_escape(text: Seq<char>)
    ensures
        unescaped(escaped(text)) == text,
    decreases text.len(),
{
    if text.len() == 0 {
        assert(unescaped(escaped(text)) =~= text);
    } else {
        let rest = text.skip(1);
        let written = escaped(text);
        law_unescape_inverts_escape(rest);
        if text[0] == '"' {
            assert(written.skip(2) =~= escaped(rest));
        } else if text[0] == '\n' {
            assert(written.skip(3) =~= escaped(rest));
        } else {
            assert(written.skip(1) =~= escaped(rest));
        }
        assert(seq![text[0]] + rest =~= text);
    }
}

/// A token that is a quoted string stands for the text that was quoted.
pub proof fn law_token_of_quoted(text: Seq<char>)
    ensures
        token_value(quoted(text)) == Some(text),
{
    let token = quoted(text);
    law_unescape_inverts_escape(text);
    assert(token.subrange(1, token.len() - 1) =~= escaped(text));
}

/// Whether a `#` opens a comment behind a configuration: it does outside a string, except
/// directly behind a `-` that opened a token.
pub open spec fn open_to_comment(cfg: Config) -> bool {
    cfg.mode == Mode::Default || cfg.mode == Mode::UnquotedValue || cfg.mode
        == Mode::QuoteOrEscape || cfg.mode == Mode::Comment
}

/// A comment truncates the line: where a `#` opens a comment, the line gives what it would
/// give if it ended before the `#`, whatever follows the `#`.
pub proof fn law_comment_truncation(row: nat, head: Seq<char>, tail: Seq<char>)
    requires
        feed(start(), head) is Ok,
        open_to_comment(feed(start(), head)->Ok_0),
    ensures
        tokenize(row, head + seq!['#'] + tail) == tokenize(row, head),
{
    let cfg = feed(start(), head)->Ok_0;
    let behind = seq!['#'] + tail;
    assert(head + seq!['#'] + tail =~= head + behind);
    lemma_scan_parts(start(), head, behind, 0);
    lemma_scan_parts(start(), head, Seq::empty(), 0);
    assert(head + Seq::<char>::empty() =~= head);
    assert(behind[0] == '#');
    assert(behind.skip(1) =~= tail);
    match on_char(cfg, '#') {
        Ok(next) => {
            lemma_comment(next, tail, (head.len() + 1) as nat);
        },
        Err(_) => {},
    }
}

/// Whitespace before a quote is mandatory: a quote directly behind a bare token, or behind a
/// `-`, is an error at the column of the quote, whatever follows it.
pub proof fn law_quote_needs_whitespace(row: nat, head: Seq<char>, tail: Seq<char>)
    requires
        feed(start(), head) is Ok,
        feed(start(), head)->Ok_0.mode == Mode::UnquotedValue || feed(start(), head)->Ok_0.mode
            == Mode::MaybeNull,
    ensures
        tokenize(row, head + seq!['"'] + tail) == Err::<Row, Fault>(
            fault(ErrorKind::MissingWhitespace, row, head.len() + 1),
        ),
{
    let behind = seq!['"'] + tail;
    assert(head + seq!['"'] + tail =~= head + behind);
    lemma_scan_parts(start(), head, behind, 0);
    assert(behind[0] == '"');
}

/// Whether a text is a bare token: it is not empty, and it holds no whitespace, no quote and
/// no `#`.
pub open spec fn bare(token: Seq<char>) -> bool {
    &&& token.len() > 0
    &&& forall|k: int|
        0 <= k < token.len() ==> !is_blank(#[trigger] token[k]) && token[k] != '"' && token[k]
            != '#'
}

/// A text without whitespace is one word.
pub proof fn lemma_one_word(token: Seq<char>)
    requires
        forall|k: int| 0 <= k < token.len() ==> !is_blank(#[trigger] token[k]),
    ensures
        gathered(token) == (Seq::<Option<Seq<char>>>::empty(), token),
    decreases token.len(),
{
    if token.len() == 0 {
        assert(token =~= Seq::<char>::empty());
    } else {
        let before = token.drop_last();
        assert(forall|k: int| 0 <= k < before.len() ==> before[k] == token[k]);
        lemma_one_word(before);
        assert(before.push(token.last()) =~= token);
    }
}

/// A bare token leaves the transducer behind it, holding it.
pub proof fn lemma_bare_token(token: Seq<char>)
    requires
        bare(token),
    ensures
        feed(start(), token) is Ok,
        feed(start(), token)->Ok_0.row == Seq::<Option<Seq<char>>>::empty(),
        feed(start(), token)->Ok_0.buf == token,
        feed(start(), token)->Ok_0.mode == if token.len() == 1 && token[0] == '-' {
            Mode::MaybeNull
        } else {
            Mode::UnquotedValue
        },
{
    assert(start() == outside(Seq::empty()));
    assert(single(token)) by {
        assert forall|k: int| 0 <= k < token.len() implies token[k] != '\n' by {
            assert(!is_blank(token[k]));
        }
    }
    lemma_no_hash(start(), token);
    lemma_enters_parts(start(), token, Seq::empty());
    lemma_words_fed(Seq::empty(), token);
    lemma_one_word(token);
    assert(Seq::<Option<Seq<char>>>::empty() + Seq::<Option<Seq<char>>>::empty() =~= Seq::<
        Option<Seq<char>>,
    >::empty());
}

/// A `#` directly behind a bare token opens a comment: the line has the token as its one
/// field, whatever follows the `#`. The one bare token behind which a `#` is text is the `-`
/// that stands alone.
pub proof fn law_comment_behind_token(row: nat, token: Seq<char>, tail: Seq<char>)
    requires
        bare(token),
        !(token.len() == 1 && token[0] == '-'),
    ensures
        tokenize(row, token + seq!['#'] + tail) == Ok::<Row, Fault>(seq![Some(token)]),
{
    lemma_bare_token(token);
    law_comment_truncation(row, token, tail);
    lemma_scan_parts(start(), token, Seq::empty(), 0);
    assert(token + Seq::<char>::empty() =~= token);
    assert(Seq::<Option<Seq<char>>>::empty().push(Some(token)) =~= seq![Some(token)]);
}

/// A quote directly behind a bare token is an error at the column of the quote, whatever
/// follows it.
pub proof fn law_quote_behind_token(row: nat, token: Seq<char>, tail: Seq<char>)
    requires
        bare(token),
    ensures
        tokenize(row, token + seq!['"'] + tail) == Err::<Row, Fault>(
            fault(ErrorKind::MissingWhitespace, row, token.len() + 1),
        ),
{
    lemma_bare_token(token);
    law_quote_needs_whitespace(row, token, tail);
}

/// Whitespace behind a closing quote is mandatory: a character directly behind a closed
/// string that is none of whitespace, `#`, quote and `/` is an error at its own column,
/// whatever follows it.
pub proof fn law_closed_string_needs_whitespace(
    row: nat,
    head: Seq<char>,
    c: char,
    tail: Seq<char>,
)
    requires
        feed(start(), head) is Ok,
        feed(start(), head)->Ok_0.mode == Mode::QuoteOrEscape,
        class_of(c) == CharClass::Dash || class_of(c) == CharClass::Other,
    ensures
        tokenize(row, head + seq![c] + tail) == Err::<Row, Fault>(
            fault(ErrorKind::MissingWhitespace, row, head.len() + 1),
        ),
{
    let behind = seq![c] + tail;
    assert(head + seq![c] + tail =~= head + behind);
    lemma_scan_parts(start(), head, behind, 0);
    assert(behind[0] == c);
}

/// A string that is still open where the line ends is an error at the column behind the last
/// character of the line.
pub proof fn law_unterminated_string(row: nat, line: Seq<char>)
    requires
        feed(start(), line) is Ok,
        feed(start(), line)->Ok_0.mode == Mode::InsideQuotedString,
    ensures
        tokenize(row, line) == Err::<Row, Fault>(
            fault(ErrorKind::OddDoubleQuotes, row, line.len() + 1),
        ),
{
    lemma_scan_parts(start(), line, Seq::empty(), 0);
    assert(line + Seq::<char>::empty() =~= line);
}

/// Characters that are neither quote nor line feed keep a string open and are gathered as
/// they come.
pub proof fn lemma_plain_inside(cfg: Config, body: Seq<char>)
    requires
        cfg.mode == Mode::InsideQuotedString,
        forall|k: int| 0 <= k < body.len() ==> body[k] != '"' && body[k] != '\n',
    ensures
        feed(cfg, body) == Ok::<Config, (ErrorKind, nat)>(
            Config { buf: cfg.buf + body, ..cfg },
        ),
    decreases body.len(),
{
    if body.len() == 0 {
        assert(cfg.buf + body =~= cfg.buf);
    } else {
        let next = Config { buf: cfg.buf.push(body[0]), ..cfg };
        lemma_plain_inside(next, body.skip(1));
        assert(cfg.buf.push(body[0]) + body.skip(1) =~= cfg.buf + body);
    }
}

/// A line that opens a string and never closes it is an error at the column behind its last
/// character: the length of the line plus one.
pub proof fn law_open_quote(row: nat, body: Seq<char>)
    requires
        forall|k: int| 0 <= k < body.len() ==> body[k] != '"' && body[k] != '\n',
    ensures
        tokenize(row, seq!['"'] + body) == Err::<Row, Fault>(
            fault(ErrorKind::OddDoubleQuotes, row, body.len() + 2),
        ),
{
    let line = seq!['"'] + body;
    let opened = Config { mode: Mode::InsideQuotedString, buf: Seq::empty(), row: Seq::empty() };
    assert(line[0] == '"');
    assert(line.skip(1) =~= body);
    lemma_plain_inside(opened, body);
    law_unterminated_string(row, line);
}

/// Cutting and joining are inverse: the pieces of a text, joined by the separator, are the
/// text.
pub proof fn law_cut_and_join(text: Seq<char>, sep: char)
    ensures
        joined(split(text, sep), seq![sep]) == text,
    decreases text.len(),
{
    if text.len() == 0 {
        assert(joined(split(text, sep), seq![sep]) =~= text);
    } else {
        let before = split(text.drop_last(), sep);
        lemma_split_nonempty(text.drop_last(), sep);
        law_cut_and_join(text.drop_last(), sep);
        let now = split(text, sep);
        if text.last() == sep {
            assert(now.drop_last() =~= before);
            assert(joined(now, seq![sep]) =~= text.drop_last() + seq![sep] + Seq::empty());
            assert(text.drop_last() + seq![sep] + Seq::<char>::empty() =~= text);
        } else {
            if before.len() == 1 {
                assert(before =~= seq![before[0]]);
                assert(joined(now, seq![sep]) =~= before[0].push(text.last()));
                assert(before[0].push(text.last()) =~= text);
            } else {
                assert(now.drop_last() =~= before.drop_last());
                assert(joined(now, seq![sep]) =~= joined(before.drop_last(), seq![sep]) + seq![
                    sep,
                ] + before.last().push(text.last()));
                assert(joined(before.drop_last(), seq![sep]) + seq![sep] + before.last().push(
                    text.last(),
                ) =~= (joined(before.drop_last(), seq![sep]) + seq![sep] + before.last()).push(
                    text.last(),
                ));
                assert(text.drop_last().push(text.last()) =~= text);
            }
        }
    }
}

/// An empty line is a row without fields, and no error.
pub proof fn law_empty_line(row: nat)
    ensures
        tokenize(row, Seq::empty()) == Ok::<Row, Fault>(Seq::empty()),
{
}

/// An empty text is a document of one line, whose row has no fields.
pub proof fn law_empty_document()
    ensures
        lines(Seq::empty()) == seq![Seq::<char>::empty()],
        tokenize_all(lines(Seq::empty())) == Ok::<Seq<Row>, Fault>(seq![Seq::empty()]),
{
    let only = seq![Seq::<char>::empty()];
    assert(lines(Seq::empty()) =~~= only);
    assert(only.drop_last() =~= Seq::<Seq<char>>::empty());
    assert(tokenize_rows(1, only.drop_last()) == Ok::<Seq<Row>, Fault>(Seq::empty()));
    assert(Seq::<Row>::empty().push(Seq::<Option<Seq<char>>>::empty()) =~= seq![Seq::empty()]);
}

/// A line feed at the end of a text adds one line, which is empty: the document gets one more
/// row, without fields.
pub proof fn law_trailing_line_feed(text: Seq<char>)
    ensures
        lines(text.push('\n')) == lines(text).push(Seq::empty()),
        tokenize_each(1, lines(text.push('\n'))) == tokenize_each(1, lines(text)).push(
            Ok(Seq::empty()),
        ),
{
    assert(text.push('\n').drop_last() =~= text);
    assert(tokenize_each(1, lines(text.push('\n'))) =~= tokenize_each(1, lines(text)).push(
        Ok(Seq::empty()),
    ));
}

/// Every text has at least one line, and every line has its own result.
pub proof fn law_one_result_per_line(text: Seq<char>)
    ensures
        lines(text).len() >= 1,
        tokenize_each(1, lines(text)).len() == lines(text).len(),
{
    lemma_split_nonempty(text, '\n');
}

/// Failing fast and collecting agree: a document as a whole is the rows of its lines where no
/// line has an error, and else the error of the first line that has one.
pub proof fn law_fail_fast_agrees(first: nat, lines: Seq<Seq<char>>)
    ensures
        match tokenize_rows(first, lines) {
            Ok(rows) => {
                &&& rows.len() == lines.len()
                &&& forall|i: int|
                    0 <= i < lines.len() ==> #[trigger] tokenize_each(first, lines)[i] == Ok::<
                        Row,
                        Fault,
                    >(rows[i])
            },
            Err(error) => exists|i: int|
                {
                    &&& 0 <= i < lines.len()
                    &&& #[trigger] tokenize_each(first, lines)[i] == Err::<Row, Fault>(error)
                    &&& forall|j: int| 0 <= j < i ==> (#[trigger] tokenize_each(first, lines)[j]) is Ok
                },
        },
    decreases lines.len(),
{
    if lines.len() > 0 {
        let before = lines.drop_last();
        law_fail_fast_agrees(first, before);
        assert(forall|i: int|
            0 <= i < before.len() ==> tokenize_each(first, before)[i] == tokenize_each(
                first,
                lines,
            )[i]);
        match tokenize_rows(first, before) {
            Ok(rows) => {
                match tokenize((first + lines.len() - 1) as nat, lines.last()) {
                    Ok(row) => {},
                    Err(error) => {
                        let i = lines.len() - 1;
                        assert(tokenize_each(first, lines)[i] == Err::<Row, Fault>(error));
                        assert forall|j: int| 0 <= j < i implies (#[trigger] tokenize_each(
                            first,
                            lines,
                        )[j]) is Ok by {
                            assert(tokenize_each(first, before)[j] == Ok::<Row, Fault>(rows[j]));
                        }
                    },
                }
            },
            Err(error) => {
                let i = choose|i: int|
                    {
                        &&& 0 <= i < before.len()
                        &&& #[trigger] tokenize_each(first, before)[i] == Err::<Row, Fault>(error)
                        &&& forall|j: int|
                            0 <= j < i ==> (#[trigger] tokenize_each(first, before)[j]) is Ok
                    };
                assert(tokenize_each(first, lines)[i] == Err::<Row, Fault>(error));
                assert forall|j: int| 0 <= j < i implies (#[trigger] tokenize_each(
                    first,
                    lines,
                )[j]) is Ok by {
                    assert(tokenize_each(first, before)[j] is Ok);
                }
            },
        }
    }
}

/// Where scanning fails, it fails at an event of the line, with one of the two kinds of error
/// that a line can have.
pub proof fn lemma_scan_error_place(cfg: Config, rest: Seq<char>, col: nat)
    ensures
        match scan(cfg, rest, col) {
            Ok(_) => true,
            Err((kind, at)) => {
                &&& col < at <= col + rest.len() + 1
                &&& kind == ErrorKind::OddDoubleQuotes || kind == ErrorKind::MissingWhitespace
            },
        },
    decreases rest.len(),
{
    if rest.len() > 0 {
        match on_char(cfg, rest[0]) {
            Ok(next) => {
                lemma_scan_error_place(next, rest.skip(1), col + 1);
            },
            Err(_) => {},
        }
    }
}

/// An error names its place: the row is the row of the line, the column is that of one of the
/// events of the line, counted from 1 and with the end of the line as the last event, the
/// kind is one of the two kinds that a line can have, and there is no underlying cause.
pub proof fn law_error_place(row: nat, line: Seq<char>)
    ensures
        match tokenize(row, line) {
            Ok(_) => true,
            Err(error) => {
                &&& error.row == row
                &&& 1 <= error.col <= line.len() + 1
                &&& error.kind == ErrorKind::OddDoubleQuotes || error.kind
                    == ErrorKind::MissingWhitespace
                &&& error.source is None
            },
        },
{
    lemma_scan_error_place(start(), line, 0);
}

} // verus!
