//! The grammar and the transducer agree: on a line without line feed, tokenizing by the rules
//! of the grammar gives what the transducer gives, field by field and error by error.
use vstd::prelude::*;
use crate::data_model::{fault, ErrorKind, Fault, Field, Row};
use crate::nom::{
    dash_alone, double_quote_at, following, grammar_tokenize, inside, item_at, new_line_at, stuck,
    string_at, token_at,
};
use crate::text::{class_of, lemma_reach_bound, reach, single, within, CharClass, Span};
use crate::transducer::{lemma_comment, located, on_char, scan, start, tokenize, Config, Mode};

verus! {

/// What is left of `line` from `at` on, with its first character and its own rest.
proof fn lemma_skip(line: Seq<char>, at: int)
    requires
        0 <= at <= line.len(),
    ensures
        line.skip(at).len() == line.len() - at,
        at < line.len() ==> line.skip(at)[0] == line[at] && line.skip(at).skip(1) == line.skip(
            at + 1,
        ),
        at + 1 < line.len() ==> line.skip(at)[1] == line[at + 1] && line.skip(at).skip(2)
            == line.skip(at + 2),
        at + 2 < line.len() ==> line.skip(at)[2] == line[at + 2] && line.skip(at).skip(3)
            == line.skip(at + 3),
{
    if at < line.len() {
        assert(line.skip(at).skip(1) =~= line.skip(at + 1));
    }
    if at + 1 < line.len() {
        assert(line.skip(at).skip(2) =~= line.skip(at + 2));
    }
    if at + 2 < line.len() {
        assert(line.skip(at).skip(3) =~= line.skip(at + 3));
    }
}

/// Outside any field, whitespace is passed over.
proof fn lemma_gap(cfg: Config, line: Seq<char>, at: int)
    requires
        cfg.mode == Mode::Default,
        0 <= at <= line.len(),
    ensures
        at + reach(Span::Gap, line.skip(at)) <= line.len(),
        scan(cfg, line.skip(at), at as nat) == scan(
            cfg,
            line.skip(at + reach(Span::Gap, line.skip(at))),
            (at + reach(Span::Gap, line.skip(at))) as nat,
        ),
    decreases line.len() - at,
{
    lemma_skip(line, at);
    if at < line.len() && within(Span::Gap, line[at]) {
        lemma_gap(cfg, line, at + 1);
    }
}

/// Inside a bare token, the characters of a bare run are gathered.
proof fn lemma_bare(cfg: Config, line: Seq<char>, at: int)
    requires
        cfg.mode == Mode::UnquotedValue,
        0 <= at <= line.len(),
    ensures
        at + reach(Span::Bare, line.skip(at)) <= line.len(),
        scan(cfg, line.skip(at), at as nat) == scan(
            Config {
                buf: cfg.buf + line.subrange(at, at + reach(Span::Bare, line.skip(at))),
                ..cfg
            },
            line.skip(at + reach(Span::Bare, line.skip(at))),
            (at + reach(Span::Bare, line.skip(at))) as nat,
        ),
        at + reach(Span::Bare, line.skip(at)) < line.len() ==> !within(
            Span::Bare,
            line[at + reach(Span::Bare, line.skip(at))],
        ),
    decreases line.len() - at,
{
    lemma_skip(line, at);
    let n = reach(Span::Bare, line.skip(at)) as int;
    if at < line.len() && within(Span::Bare, line[at]) {
        let next = Config { buf: cfg.buf.push(line[at]), ..cfg };
        lemma_bare(next, line, at + 1);
        assert(next.buf + line.subrange(at + 1, at + n) =~= cfg.buf + line.subrange(at, at + n));
    } else {
        assert(cfg.buf + line.subrange(at, at) =~= cfg.buf);
    }
}

/// Inside a string, the inside of the string is read as the grammar reads it, and it ends at
/// the end of the line, at a line feed, or at a quote that begins no escape.
proof fn lemma_inside(cfg: Config, line: Seq<char>, at: int)
    requires
        cfg.mode == Mode::InsideQuotedString,
        0 <= at <= line.len(),
    ensures
        at + inside(line.skip(at)).0 <= line.len(),
        scan(cfg, line.skip(at), at as nat) == scan(
            Config { buf: cfg.buf + inside(line.skip(at)).1, ..cfg },
            line.skip(at + inside(line.skip(at)).0),
            (at + inside(line.skip(at)).0) as nat,
        ),
        ({
            let end = at + inside(line.skip(at)).0;
            end < line.len() ==> {
                &&& line[end] == '"' || line[end] == '\n'
                &&& !(end + 1 < line.len() && line[end] == '"' && line[end + 1] == '"')
                &&& !(end + 2 < line.len() && line[end] == '"' && line[end + 1] == '/' && line[end
                    + 2] == '"')
            }
        }),
    decreases line.len() - at,
{
    lemma_skip(line, at);
    let text = line.skip(at);
    if at < line.len() && within(Span::Part, line[at]) {
        let next = Config { buf: cfg.buf.push(line[at]), ..cfg };
        lemma_inside(next, line, at + 1);
        assert(next.buf + inside(line.skip(at + 1)).1 =~= cfg.buf + inside(text).1);
    } else if double_quote_at(text) is Some {
        let paused = Config { mode: Mode::QuoteOrEscape, ..cfg };
        let next = Config { buf: cfg.buf.push('"'), ..cfg };
        lemma_skip(line, at + 1);
        lemma_inside(next, line, at + 2);
        assert(next.buf + inside(line.skip(at + 2)).1 =~= cfg.buf + inside(text).1);
        assert(on_char(cfg, line[at]) == Ok::<Config, ErrorKind>(paused));
        assert(on_char(paused, line[at + 1]) == Ok::<Config, ErrorKind>(next));
        assert(scan(paused, line.skip(at + 1), (at + 1) as nat) == scan(
            next,
            line.skip(at + 2),
            (at + 2) as nat,
        ));
    } else if new_line_at(text) is Some {
        let paused = Config { mode: Mode::QuoteOrEscape, ..cfg };
        let slashed = Config { mode: Mode::MaybeEscapedNewline, ..cfg };
        let next = Config { buf: cfg.buf.push('\n'), ..cfg };
        lemma_skip(line, at + 1);
        lemma_skip(line, at + 2);
        lemma_inside(next, line, at + 3);
        assert(next.buf + inside(line.skip(at + 3)).1 =~= cfg.buf + inside(text).1);
        assert(on_char(cfg, line[at]) == Ok::<Config, ErrorKind>(paused));
        assert(on_char(paused, line[at + 1]) == Ok::<Config, ErrorKind>(slashed));
        assert(on_char(slashed, line[at + 2]) == Ok::<Config, ErrorKind>(next));
        assert(scan(slashed, line.skip(at + 2), (at + 2) as nat) == scan(
            next,
            line.skip(at + 3),
            (at + 3) as nat,
        ));
        assert(scan(paused, line.skip(at + 1), (at + 1) as nat) == scan(
            slashed,
            line.skip(at + 2),
            (at + 2) as nat,
        ));
    } else {
        assert(cfg.buf + inside(text).1 =~= cfg.buf);
    }
}

/// The configuration in which the transducer stands behind a field that it has read but not
/// yet added to the row.
pub open spec fn pending(row: Row, text: Seq<char>) -> Config {
    if dash_alone(text) {
        Config { mode: Mode::MaybeNull, buf: seq!['-'], row }
    } else if string_at(text) is Some {
        Config { mode: Mode::QuoteOrEscape, buf: string_at(text).unwrap().1.unwrap(), row }
    } else {
        Config { mode: Mode::UnquotedValue, buf: token_at(text).unwrap().1.unwrap(), row }
    }
}

/// The field that a configuration behind a field holds.
pub open spec fn held(cfg: Config) -> Field {
    if cfg.mode == Mode::MaybeNull {
        None
    } else {
        Some(cfg.buf)
    }
}

/// Whether a configuration can stand behind a field that ends before `at`: what follows is
/// nothing that the field would have taken.
pub open spec fn behind_field(cfg: Config, line: Seq<char>, at: int) -> bool {
    &&& 0 < at <= line.len()
    &&& !within(Span::Gap, line[at - 1])
    &&& match cfg.mode {
        Mode::MaybeNull => at < line.len() ==> class_of(line[at]) == CharClass::Quote || class_of(
            line[at],
        ) == CharClass::Space,
        Mode::UnquotedValue => at < line.len() ==> class_of(line[at]) == CharClass::Quote
            || class_of(line[at]) == CharClass::Hash || class_of(line[at]) == CharClass::Space,
        Mode::QuoteOrEscape => at < line.len() ==> {
            &&& line[at] != '"'
            &&& !(at + 1 < line.len() && line[at] == '/' && line[at + 1] == '"')
        },
        _ => false,
    }
}

/// Whether the transducer reads the field at `at` as the grammar reads it; where the grammar
/// finds no field at a quote, the string that the quote opens is still open where the line
/// ends.
pub open spec fn item_read(row: Row, line: Seq<char>, at: int) -> bool {
    let outside = Config { mode: Mode::Default, buf: Seq::empty(), row };
    match item_at(line.skip(at)) {
        Some((n, field)) => {
            &&& at + n <= line.len()
            &&& n >= 1
            &&& scan(outside, line.skip(at), at as nat) == scan(
                pending(row, line.skip(at)),
                line.skip(at + n),
                (at + n) as nat,
            )
            &&& behind_field(pending(row, line.skip(at)), line, at + n)
            &&& held(pending(row, line.skip(at))) == field
        },
        None => {
            &&& line[at] == '"'
            &&& scan(outside, line.skip(at), at as nat) == Err::<Row, (ErrorKind, nat)>(
                (ErrorKind::OddDoubleQuotes, (line.len() + 1) as nat),
            )
        },
    }
}

/// A field is read by the transducer as the grammar reads it; where the grammar finds no
/// field at a quote, the string that the quote opens is still open where the line ends.
proof fn lemma_item(row: Row, line: Seq<char>, at: int)
    requires
        single(line),
        0 <= at < line.len(),
        class_of(line[at]) != CharClass::Space,
        class_of(line[at]) != CharClass::Hash,
    ensures
        item_read(row, line, at),
{
    let text = line.skip(at);
    let cfg = Config { mode: Mode::Default, buf: Seq::empty(), row };
    lemma_skip(line, at);
    if at + 1 < line.len() {
        lemma_skip(line, at + 1);
    }
    if dash_alone(text) {
        assert(seq![line[at]] =~= seq!['-']);
    } else if line[at] == '"' {
        let opened = Config { mode: Mode::InsideQuotedString, buf: Seq::empty(), row };
        lemma_inside(opened, line, at + 1);
        let body = inside(line.skip(at + 1));
        let close = at + 1 + body.0;
        assert(Seq::<char>::empty() + body.1 =~= body.1);
        let filled = Config { buf: body.1, ..opened };
        if close < line.len() {
            lemma_skip(line, close);
            assert(text[1 + body.0 as int] == line[close]);
            assert(line[close] == '"');
            assert(string_at(text) is Some);
            assert(on_char(filled, line[close]) == Ok::<Config, ErrorKind>(
                Config { mode: Mode::QuoteOrEscape, ..filled },
            ));
            if close + 1 < line.len() {
                lemma_skip(line, close + 1);
            }
        } else {
            assert(line.skip(close).len() == 0);
            assert(string_at(text) is None);
            lemma_reach_bound(Span::Bare, text);
        }
    } else {
        assert(string_at(text) is None);
        if text.len() >= 2 && text[0] == '-' && text[1] == '#' {
            let first = Config { mode: Mode::MaybeNull, buf: seq!['-'], row };
            let second = Config { mode: Mode::UnquotedValue, buf: seq!['-', '#'], row };
            assert(seq![line[at]] =~= seq!['-']);
            assert(seq!['-'].push('#') =~= seq!['-', '#']);
            assert(on_char(cfg, line[at]) == Ok::<Config, ErrorKind>(first));
            assert(on_char(first, line[at + 1]) == Ok::<Config, ErrorKind>(second));
            lemma_skip(line, at + 2);
            lemma_bare(second, line, at + 2);
            lemma_run_ends(Span::Bare, line, at + 2);
            let n = 2 + reach(Span::Bare, line.skip(at + 2));
            assert(second.buf + line.subrange(at + 2, at + n) =~= text.take(n as int));
            assert(scan(first, line.skip(at + 1), (at + 1) as nat) == scan(
                second,
                line.skip(at + 2),
                (at + 2) as nat,
            ));
        } else if line[at] == '-' {
            let first = Config { mode: Mode::MaybeNull, buf: seq!['-'], row };
            let second = Config { mode: Mode::UnquotedValue, buf: seq!['-', line[at + 1]], row };
            assert(seq![line[at]] =~= seq!['-']);
            assert(seq!['-'].push(line[at + 1]) =~= seq!['-', line[at + 1]]);
            assert(on_char(cfg, line[at]) == Ok::<Config, ErrorKind>(first));
            assert(on_char(first, line[at + 1]) == Ok::<Config, ErrorKind>(second));
            lemma_skip(line, at + 2);
            lemma_bare(second, line, at + 2);
            lemma_run_ends(Span::Bare, line, at);
            let n = reach(Span::Bare, text);
            assert(n == 2 + reach(Span::Bare, line.skip(at + 2)));
            assert(second.buf + line.subrange(at + 2, at + n) =~= text.take(n as int));
            assert(scan(first, line.skip(at + 1), (at + 1) as nat) == scan(
                second,
                line.skip(at + 2),
                (at + 2) as nat,
            ));
        } else {
            let first = Config { mode: Mode::UnquotedValue, buf: seq![line[at]], row };
            assert(on_char(cfg, line[at]) == Ok::<Config, ErrorKind>(first));
            lemma_bare(first, line, at + 1);
            lemma_run_ends(Span::Bare, line, at);
            let n = reach(Span::Bare, text);
            assert(first.buf + line.subrange(at + 1, at + n) =~= text.take(n as int));
        }
    }
}

/// What the grammar makes of a line when it has read the fields `fields` and stands at `at`:
/// behind whitespace the line must end or a comment must begin, else the character that
/// stands there is in the way.
pub open spec fn verdict(row: nat, line: Seq<char>, at: int, fields: Row) -> Result<Row, Fault> {
    let next = at + reach(Span::Gap, line.skip(at));
    if next >= line.len() || line[next] == '#' {
        Ok(fields)
    } else {
        Err(stuck(row, line, next))
    }
}

/// Whether the transducer, behind a field, reads the rest of the line as the grammar does.
pub open spec fn rest_read(row: nat, cfg: Config, line: Seq<char>, at: int) -> bool {
    located(row, scan(cfg, line.skip(at), at as nat)) == verdict(
        row,
        line,
        at + following(line.skip(at)).0,
        cfg.row.push(held(cfg)) + following(line.skip(at)).1,
    )
}

/// Behind a field, a character that is no whitespace ends the line: it opens a comment, or it
/// is the error that the grammar names.
proof fn lemma_after_stop(row: nat, cfg: Config, line: Seq<char>, at: int)
    requires
        single(line),
        behind_field(cfg, line, at),
        at < line.len(),
        !within(Span::Gap, line[at]),
    ensures
        rest_read(row, cfg, line, at),
{
    let text = line.skip(at);
    let had = cfg.row.push(held(cfg));
    let c = line[at];
    lemma_skip(line, at);
    assert(reach(Span::Gap, text) == 0);
    assert(following(text).0 == 0);
    assert(had + following(text).1 =~= had);
    assert(line.skip(at + 0) =~= text);
    assert(c != '\n');
    if c == '#' {
        let closed = Config { mode: Mode::Comment, buf: Seq::empty(), row: had };
        assert(on_char(cfg, c) == Ok::<Config, ErrorKind>(closed));
        lemma_comment(closed, line.skip(at + 1), (at + 1) as nat);
    } else if cfg.mode == Mode::QuoteOrEscape && c == '/' {
        let slashed = Config { mode: Mode::MaybeEscapedNewline, ..cfg };
        assert(on_char(cfg, c) == Ok::<Config, ErrorKind>(slashed));
        if at + 1 < line.len() {
            lemma_skip(line, at + 1);
            assert(line[at + 1] != '"');
            assert(on_char(slashed, line[at + 1]) == Err::<Config, ErrorKind>(
                ErrorKind::MissingWhitespace,
            ));
        } else {
            assert(line.skip(at + 1).len() == 0);
        }
        assert(scan(slashed, line.skip(at + 1), (at + 1) as nat) == Err::<Row, (ErrorKind, nat)>(
            (ErrorKind::MissingWhitespace, (at + 2) as nat),
        ));
    } else {
        if cfg.mode == Mode::QuoteOrEscape {
            assert(class_of(c) == CharClass::Dash || class_of(c) == CharClass::Other);
        } else {
            assert(class_of(c) == CharClass::Quote);
            assert(c == '"');
        }
        assert(on_char(cfg, c) == Err::<Config, ErrorKind>(ErrorKind::MissingWhitespace));
        assert(stuck(row, line, at) == fault(ErrorKind::MissingWhitespace, row, (at + 1) as nat));
    }
}

/// Behind a field, the transducer reads the rest of the line as the grammar does: the fields
/// that follow behind whitespace, and then the end of the line, a comment, or an error.
proof fn lemma_after(row: nat, cfg: Config, line: Seq<char>, at: int)
    requires
        single(line),
        behind_field(cfg, line, at),
    ensures
        rest_read(row, cfg, line, at),
    decreases line.len() - at,
{
    let text = line.skip(at);
    let had = cfg.row.push(held(cfg));
    lemma_skip(line, at);
    lemma_reach_bound(Span::Gap, text);
    if at >= line.len() {
        assert(had + following(text).1 =~= had);
        assert(line.skip(at + 0) =~= text);
    } else {
        let c = line[at];
        let gap = reach(Span::Gap, text);
        if gap > 0 {
            let flushed = Config { mode: Mode::Default, buf: Seq::empty(), row: had };
            assert(on_char(cfg, c) == Ok::<Config, ErrorKind>(flushed));
            lemma_gap(flushed, line, at + 1);
            assert(reach(Span::Gap, line.skip(at + 1)) == gap - 1);
            let begin = at + gap;
            lemma_skip(line, begin);
            assert(text.skip(gap as int) =~= line.skip(begin));
            lemma_run_ends(Span::Gap, line, at);
            if begin < line.len() {
                if class_of(line[begin]) == CharClass::Hash {
                    assert(item_at(line.skip(begin)) is None) by {
                        lemma_no_item_at_hash(line, begin);
                    }
                    assert(had + following(text).1 =~= had);
                    assert(line.skip(at + 0) =~= text);
                    lemma_comment(
                        Config { mode: Mode::Comment, ..flushed },
                        line.skip(begin + 1),
                        (begin + 1) as nat,
                    );
                } else {
                    lemma_item(had, line, begin);
                    match item_at(line.skip(begin)) {
                        Some((n, field)) => {
                            let next = pending(had, line.skip(begin));
                            lemma_after(row, next, line, begin + n);
                            assert(text.skip((gap + n) as int) =~= line.skip(begin + n));
                            let more = following(line.skip(begin + n));
                            assert(had.push(field) + more.1 =~= had + (seq![field] + more.1));
                        },
                        None => {
                            assert(had + following(text).1 =~= had);
                            assert(line.skip(at + 0) =~= text);
                            assert(reach(Span::Gap, line.skip(begin)) == 0);
                        },
                    }
                }
            } else {
                assert(item_at(line.skip(begin)) is None) by {
                    lemma_reach_bound(Span::Bare, line.skip(begin));
                }
                assert(had + following(text).1 =~= had);
                assert(line.skip(at + 0) =~= text);
            }
        } else {
            lemma_after_stop(row, cfg, line, at);
        }
    }
}

/// A run ends before a character that does not belong to it.
proof fn lemma_run_ends(span: Span, line: Seq<char>, at: int)
    requires
        0 <= at <= line.len(),
    ensures
        at + reach(span, line.skip(at)) <= line.len(),
        at + reach(span, line.skip(at)) < line.len() ==> !within(
            span,
            line[at + reach(span, line.skip(at))],
        ),
        reach(span, line.skip(at + reach(span, line.skip(at)))) == 0,
        reach(span, line.skip(at)) > 0 ==> within(span, line[at + reach(span, line.skip(at)) - 1]),
    decreases line.len() - at,
{
    lemma_skip(line, at);
    if at < line.len() && within(span, line[at]) {
        lemma_run_ends(span, line, at + 1);
    } else {
        assert(line.skip(at + 0) =~= line.skip(at));
    }
}

/// The fields that follow take no more characters than there are.
proof fn lemma_following_bound(text: Seq<char>)
    ensures
        following(text).0 <= text.len(),
    decreases text.len(),
{
    let gap = reach(Span::Gap, text);
    if !(gap == 0 || gap > text.len()) {
        match item_at(text.skip(gap as int)) {
            None => {},
            Some((n, field)) => {
                if gap + n <= text.len() {
                    lemma_following_bound(text.skip((gap + n) as int));
                }
            },
        }
    }
}

/// No field begins with a `#`.
proof fn lemma_no_item_at_hash(line: Seq<char>, at: int)
    requires
        0 <= at < line.len(),
        class_of(line[at]) == CharClass::Hash,
    ensures
        item_at(line.skip(at)) is None,
{
    lemma_skip(line, at);
}

/// On a line without line feed, a comment runs to the end of the line.
proof fn lemma_remark(line: Seq<char>, at: int)
    requires
        single(line),
        0 <= at <= line.len(),
    ensures
        reach(Span::Remark, line.skip(at)) == line.len() - at,
    decreases line.len() - at,
{
    lemma_skip(line, at);
    if at < line.len() {
        lemma_remark(line, at + 1);
    }
}

/// The grammar and the transducer agree: on a line without line feed, tokenizing by the
/// grammar gives the fields that the transducer gives, or the error that it gives, with the
/// same kind, row and column.
pub proof fn law_grammar_agrees(row: nat, line: Seq<char>)
    requires
        single(line),
    ensures
        grammar_tokenize(row, line) == tokenize(row, line),
{
    assert(line.skip(0) =~= line);
    lemma_gap(start(), line, 0);
    lemma_run_ends(Span::Gap, line, 0);
    let lead = reach(Span::Gap, line) as int;
    let text = line.skip(lead);
    lemma_skip(line, lead);
    if lead < line.len() {
        if class_of(line[lead]) == CharClass::Hash {
            lemma_no_item_at_hash(line, lead);
            lemma_remark(line, lead + 1);
            lemma_comment(
                Config { mode: Mode::Comment, ..start() },
                line.skip(lead + 1),
                (lead + 1) as nat,
            );
            assert(line.skip(lead + 0) =~= text);
        } else {
            lemma_item(Seq::empty(), line, lead);
            match item_at(text) {
                Some((n, field)) => {
                    let cfg = pending(Seq::empty(), text);
                    lemma_after(row, cfg, line, lead + n);
                    let more = following(line.skip(lead + n));
                    assert(text.skip(n as int) =~= line.skip(lead + n));
                    assert(Seq::<Field>::empty().push(field) + more.1 =~= seq![field] + more.1);
                    let behind = lead + n + more.0;
                    lemma_following_bound(line.skip(lead + n));
                    lemma_run_ends(Span::Gap, line, behind);
                    let stop = behind + reach(Span::Gap, line.skip(behind));
                    lemma_skip(line, stop);
                    if stop < line.len() {
                        lemma_remark(line, stop + 1);
                    }
                },
                None => {
                    assert(line.skip(lead + 0) =~= text);
                },
            }
        }
    } else {
        assert(item_at(text) is None) by {
            lemma_reach_bound(Span::Bare, text);
        }
        assert(line.skip(lead + 0) =~= text);
    }
}

} // verus!
