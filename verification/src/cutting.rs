//! Why cutting a line at `#` and at the quotes gives what the transducer gives: where the
//! quotes before a `#` come in pairs the transducer stands outside any string, and between two
//! quotes it reads words, the inside of a string, or an escape.
use vstd::prelude::*;
use crate::data_model::{ErrorKind, Field, Row};
use crate::laws::{law_comment_truncation, lemma_plain_inside};
use crate::text::{is_blank, lemma_split_nonempty, single, split};
use crate::transducer::{
    enters_comment, feed, lemma_enters_parts, lemma_feed_push, lemma_scan_parts, on_char, scan,
    start, tokenize, Config, Mode,
};

verus! {

/// Whether the quotes of a text come in pairs.
pub open spec fn balanced(text: Seq<char>) -> bool {
    split(text, '"').len() % 2 == 1
}

/// Whether a text ends with a `-` that stands alone: the text begins with it, or whitespace
/// stands before it.
pub open spec fn lone_dash(text: Seq<char>) -> bool {
    text.len() > 0 && text.last() == '-' && (text.len() == 1 || is_blank(text[text.len() - 2]))
}

/// Outside a comment, the transducer stands inside a string where the quotes behind it do not
/// come in pairs, and nowhere else.
pub proof fn lemma_parity(text: Seq<char>)
    requires
        !enters_comment(start(), text),
        feed(start(), text) is Ok,
    ensures
        feed(start(), text)->Ok_0.mode == Mode::InsideQuotedString <==> !balanced(text),
    decreases text.len(),
{
    if text.len() == 0 {
        assert(split(text, '"') =~~= seq![Seq::<char>::empty()]);
    } else {
        let before = text.drop_last();
        let c = text.last();
        assert(before.push(c) =~= text);
        lemma_feed_push(start(), before, c);
        lemma_enters_parts(start(), before, seq![c]);
        assert(before + seq![c] =~= text);
        lemma_parity(before);
        lemma_split_nonempty(before, '"');
    }
}

/// The transducer stands outside any field only at the start of a line and behind whitespace.
pub proof fn lemma_outside_behind_blank(text: Seq<char>)
    requires
        feed(start(), text) is Ok,
        feed(start(), text)->Ok_0.mode == Mode::Default,
        text.len() > 0,
    ensures
        is_blank(text.last()),
{
    let before = text.drop_last();
    assert(before.push(text.last()) =~= text);
    lemma_feed_push(start(), before, text.last());
}

/// Where the quotes come in pairs and no comment has begun, the transducer stands behind a
/// `-` that may be the null field exactly where the text ends with a `-` that stands alone.
pub proof fn lemma_lone_dash(text: Seq<char>)
    requires
        !enters_comment(start(), text),
        feed(start(), text) is Ok,
        balanced(text),
    ensures
        feed(start(), text)->Ok_0.mode == Mode::MaybeNull <==> lone_dash(text),
{
    if text.len() > 0 {
        let before = text.drop_last();
        let c = text.last();
        assert(before.push(c) =~= text);
        assert(before + seq![c] =~= text);
        lemma_feed_push(start(), before, c);
        lemma_enters_parts(start(), before, seq![c]);
        lemma_split_nonempty(before, '"');
        let mid = feed(start(), before)->Ok_0;
        if feed(start(), text)->Ok_0.mode == Mode::MaybeNull {
            if before.len() > 0 {
                lemma_outside_behind_blank(before);
            }
        }
        if lone_dash(text) {
            if before.len() > 0 {
                let earlier = before.drop_last();
                let b = before.last();
                assert(earlier.push(b) =~= before);
                lemma_feed_push(start(), earlier, b);
                lemma_parity(before);
            }
        }
    }
}

/// A `#` behind which the line is cut opens the comment: where the quotes before it come in
/// pairs and it does not follow a `-` that stands alone, the line gives what it gives without
/// the `#` and what follows it.
pub proof fn lemma_cut(row: nat, content: Seq<char>, tail: Seq<char>)
    requires
        !enters_comment(start(), content),
        balanced(content),
        !lone_dash(content),
    ensures
        tokenize(row, content + seq!['#'] + tail) == tokenize(row, content),
{
    let behind = seq!['#'] + tail;
    assert(content + seq!['#'] + tail =~= content + behind);
    lemma_scan_parts(start(), content, behind, 0);
    lemma_scan_parts(start(), content, Seq::empty(), 0);
    assert(content + Seq::<char>::empty() =~= content);
    lemma_enters_parts(start(), content, Seq::empty());
    match feed(start(), content) {
        Ok(cfg) => {
            lemma_parity(content);
            lemma_lone_dash(content);
            if cfg.mode == Mode::MaybeEscapedNewline {
                assert(behind[0] == '#');
            } else {
                law_comment_truncation(row, content, tail);
            }
        },
        Err(_) => {},
    }
}

/// A `#` behind which the line is not cut is text: where the quotes before it do not come in
/// pairs, or where it follows a `-` that stands alone, no comment begins at it.
pub proof fn lemma_no_cut(content: Seq<char>)
    requires
        !enters_comment(start(), content),
        !balanced(content) || lone_dash(content),
    ensures
        !enters_comment(start(), content.push('#')),
{
    let behind = seq!['#'];
    assert(content + behind =~= content.push('#'));
    lemma_enters_parts(start(), content, behind);
    match feed(start(), content) {
        Ok(cfg) => {
            lemma_parity(content);
            if balanced(content) {
                lemma_lone_dash(content);
            }
            assert(behind[0] == '#');
            assert(behind.skip(1) =~= Seq::<char>::empty());
            match on_char(cfg, '#') {
                Ok(next) => {
                    assert(!enters_comment(next, behind.skip(1)));
                },
                Err(_) => {},
            }
        },
        Err(_) => {},
    }
}

/// The field that a word stands for: null for `-`, else the word as text.
pub open spec fn word_field(word: Seq<char>) -> Field {
    if word.len() == 1 && word[0] == '-' {
        None
    } else {
        Some(word)
    }
}

/// What reading a text word by word has gathered at its end: the fields of the words that
/// whitespace has ended, and the word that is being read. A word is a longest run without
/// whitespace.
pub open spec fn gathered(text: Seq<char>) -> (Row, Seq<char>)
    decreases text.len(),
{
    if text.len() == 0 {
        (Seq::empty(), Seq::empty())
    } else {
        let before = gathered(text.drop_last());
        if !is_blank(text.last()) {
            (before.0, before.1.push(text.last()))
        } else if before.1.len() > 0 {
            (before.0.push(word_field(before.1)), Seq::empty())
        } else {
            before
        }
    }
}

/// The fields that the words of a text stand for.
pub open spec fn words(text: Seq<char>) -> Row {
    let at_end = gathered(text);
    if at_end.1.len() > 0 {
        at_end.0.push(word_field(at_end.1))
    } else {
        at_end.0
    }
}

/// Whether a text is empty or begins with whitespace.
pub open spec fn starts_blank(text: Seq<char>) -> bool {
    text.len() == 0 || is_blank(text[0])
}

/// Whether a text is empty or ends with whitespace.
pub open spec fn ends_blank(text: Seq<char>) -> bool {
    text.len() == 0 || is_blank(text.last())
}

/// Whether a text holds no quote.
pub open spec fn unquoted(text: Seq<char>) -> bool {
    forall|k: int| 0 <= k < text.len() ==> text[k] != '"'
}

/// Whether a configuration is where reading `text` word by word from outside any field, with
/// the row `row`, leaves the transducer.
pub open spec fn tracks(cfg: Config, row: Row, text: Seq<char>) -> bool {
    let at_end = gathered(text);
    &&& cfg.row == row + at_end.0
    &&& cfg.buf == at_end.1
    &&& cfg.mode == if at_end.1.len() == 0 {
        Mode::Default
    } else if at_end.1.len() == 1 && at_end.1[0] == '-' {
        Mode::MaybeNull
    } else {
        Mode::UnquotedValue
    }
    &&& (at_end.1.len() == 0 <==> ends_blank(text))
}

/// Outside the strings, the transducer reads words: fed a text without quote and line feed
/// from outside any field, it comes to stand in a comment, or where reading the text word by
/// word leaves it.
pub proof fn lemma_words_fed(row: Row, text: Seq<char>)
    requires
        unquoted(text),
        single(text),
    ensures
        feed(Config { mode: Mode::Default, buf: Seq::empty(), row }, text) is Ok,
        ({
            let cfg = feed(Config { mode: Mode::Default, buf: Seq::empty(), row }, text)->Ok_0;
            cfg.mode == Mode::Comment || tracks(cfg, row, text)
        }),
    decreases text.len(),
{
    let outside = Config { mode: Mode::Default, buf: Seq::empty(), row };
    if text.len() == 0 {
        assert(row + gathered(text).0 =~= row);
    } else {
        let before = text.drop_last();
        let c = text.last();
        assert(before.push(c) =~= text);
        assert(forall|k: int| 0 <= k < before.len() ==> before[k] == text[k]);
        lemma_words_fed(row, before);
        lemma_feed_push(outside, before, c);
        let mid = feed(outside, before)->Ok_0;
        let had = gathered(before);
        assert(c != '"');
        assert(c != '\n');
        if mid.mode != Mode::Comment {
            if is_blank(c) {
                if had.1.len() > 0 {
                    assert(row + had.0.push(word_field(had.1)) =~= (row + had.0).push(
                        word_field(had.1),
                    ));
                }
            } else {
                if had.1.len() == 0 {
                    assert(mid.buf =~= Seq::<char>::empty());
                    assert(seq![c] =~= Seq::<char>::empty().push(c));
                }
                assert(had.1.push(c).len() == had.1.len() + 1);
            }
        }
    }
}

/// Whitespace at the start of a text changes nothing in what its words stand for.
pub proof fn lemma_leading_blank(text: Seq<char>)
    requires
        text.len() > 0,
        is_blank(text[0]),
    ensures
        gathered(text) == gathered(text.skip(1)),
        words(text) == words(text.skip(1)),
        ends_blank(text) == ends_blank(text.skip(1)),
    decreases text.len(),
{
    if text.len() == 1 {
        assert(text.drop_last() =~= Seq::<char>::empty());
        assert(text.skip(1) =~= Seq::<char>::empty());
    } else {
        let before = text.drop_last();
        assert(before.skip(1) =~= text.skip(1).drop_last());
        assert(text.skip(1).last() == text.last());
        lemma_leading_blank(before);
    }
}

/// A configuration outside any field.
pub open spec fn outside(row: Row) -> Config {
    Config { mode: Mode::Default, buf: Seq::empty(), row }
}

/// A configuration inside a string.
pub open spec fn inside_string(buf: Seq<char>, row: Row) -> Config {
    Config { mode: Mode::InsideQuotedString, buf, row }
}

/// A configuration behind a quote that was met inside a string.
pub open spec fn behind_quote(buf: Seq<char>, row: Row) -> Config {
    Config { mode: Mode::QuoteOrEscape, buf, row }
}

/// Words and then the end of the line: the fields that the words stand for are added to the
/// row.
pub proof fn lemma_words_then_end(row: Row, piece: Seq<char>, col: nat)
    requires
        unquoted(piece),
        single(piece),
        !enters_comment(outside(row), piece),
    ensures
        scan(outside(row), piece, col) == Ok::<Row, (ErrorKind, nat)>(row + words(piece)),
{
    lemma_words_fed(row, piece);
    lemma_enters_parts(outside(row), piece, Seq::empty());
    lemma_scan_parts(outside(row), piece, Seq::empty(), col);
    assert(piece + Seq::<char>::empty() =~= piece);
    let cfg = feed(outside(row), piece)->Ok_0;
    let at_end = gathered(piece);
    if at_end.1.len() > 0 {
        assert(row + at_end.0.push(word_field(at_end.1)) =~= (row + at_end.0).push(
            word_field(at_end.1),
        ));
    }
}

/// Words and then a quote: the quote opens a string where whitespace stands before it, and is
/// an error where it touches a word.
pub proof fn lemma_words_then_quote(row: Row, piece: Seq<char>)
    requires
        unquoted(piece),
        single(piece),
        !enters_comment(outside(row), piece),
    ensures
        feed(outside(row), piece.push('"')) == if ends_blank(piece) {
            Ok::<Config, (ErrorKind, nat)>(inside_string(Seq::empty(), row + words(piece)))
        } else {
            Err((ErrorKind::MissingWhitespace, piece.len() + 1))
        },
{
    lemma_words_fed(row, piece);
    lemma_enters_parts(outside(row), piece, Seq::empty());
    lemma_feed_push(outside(row), piece, '"');
}

/// Whether a piece between two quotes that is no escape may stand there, and if not, how far
/// behind the quote before it the error lies: whitespace must part it from the quote before
/// it, and behind a `/` only a quote could have gone on.
pub open spec fn gap_before(piece: Seq<char>) -> nat {
    if starts_blank(piece) {
        0
    } else if piece[0] == '/' {
        2
    } else {
        1
    }
}

/// Behind a string and then the end of the line: what stands behind the closing quote must
/// begin with whitespace, and the string and the words behind it are added to the row.
pub proof fn lemma_behind_then_end(buf: Seq<char>, row: Row, piece: Seq<char>, col: nat)
    requires
        unquoted(piece),
        single(piece),
        !enters_comment(behind_quote(buf, row), piece),
    ensures
        scan(behind_quote(buf, row), piece, col) == if starts_blank(piece) {
            Ok::<Row, (ErrorKind, nat)>(row.push(Some(buf)) + words(piece))
        } else {
            Err((ErrorKind::MissingWhitespace, col + gap_before(piece)))
        },
{
    let cfg = behind_quote(buf, row);
    if piece.len() == 0 {
        assert(row.push(Some(buf)) + words(piece) =~= row.push(Some(buf)));
    } else if is_blank(piece[0]) {
        let rest = piece.skip(1);
        assert(forall|k: int| 0 <= k < rest.len() ==> rest[k] == piece[k + 1]);
        lemma_leading_blank(piece);
        let flushed = outside(row.push(Some(buf)));
        assert(on_char(cfg, piece[0]) == Ok::<Config, ErrorKind>(flushed));
        lemma_words_then_end(row.push(Some(buf)), rest, col + 1);
    } else if piece[0] == '/' {
        let slashed = Config { mode: Mode::MaybeEscapedNewline, ..cfg };
        assert(on_char(cfg, piece[0]) == Ok::<Config, ErrorKind>(slashed));
        if piece.len() > 1 {
            assert(piece.skip(1)[0] == piece[1]);
            assert(piece[1] != '"');
            assert(on_char(slashed, piece[1]) == Err::<Config, ErrorKind>(
                ErrorKind::MissingWhitespace,
            ));
        } else {
            assert(piece.skip(1).len() == 0);
        }
        assert(scan(slashed, piece.skip(1), col + 1) == Err::<Row, (ErrorKind, nat)>(
            (ErrorKind::MissingWhitespace, col + 2),
        ));
    } else {
        assert(piece[0] != '"');
        assert(piece[0] != '\n');
        if piece[0] == '#' {
            let closed = Config { mode: Mode::Comment, buf: Seq::empty(), row: row.push(Some(buf)) };
            assert(on_char(cfg, piece[0]) == Ok::<Config, ErrorKind>(closed));
            assert(enters_comment(closed, piece.skip(1)));
        }
        assert(on_char(cfg, piece[0]) == Err::<Config, ErrorKind>(ErrorKind::MissingWhitespace));
    }
}

/// Behind a string and then a quote: nothing between the two quotes is a quote in the string,
/// a `/` between them is a line feed in the string, and anything else ends the string, must
/// be parted from both quotes by whitespace, and holds words.
pub proof fn lemma_behind_then_quote(buf: Seq<char>, row: Row, piece: Seq<char>)
    requires
        unquoted(piece),
        single(piece),
        !enters_comment(behind_quote(buf, row), piece),
    ensures
        feed(behind_quote(buf, row), piece.push('"')) == if piece.len() == 0 {
            Ok::<Config, (ErrorKind, nat)>(inside_string(buf.push('"'), row))
        } else if piece.len() == 1 && piece[0] == '/' {
            Ok(inside_string(buf.push('\n'), row))
        } else if !starts_blank(piece) {
            Err((ErrorKind::MissingWhitespace, gap_before(piece)))
        } else if !ends_blank(piece) {
            Err((ErrorKind::MissingWhitespace, piece.len() + 1))
        } else {
            Ok(inside_string(Seq::empty(), row.push(Some(buf)) + words(piece)))
        },
{
    let cfg = behind_quote(buf, row);
    let whole = piece.push('"');
    if piece.len() == 0 {
        assert(whole.skip(1) =~= Seq::<char>::empty());
        assert(whole[0] == '"');
        assert(on_char(cfg, '"') == Ok::<Config, ErrorKind>(inside_string(buf.push('"'), row)));
        assert(feed(inside_string(buf.push('"'), row), whole.skip(1)) == Ok::<
            Config,
            (ErrorKind, nat),
        >(inside_string(buf.push('"'), row)));
    } else if is_blank(piece[0]) {
        let rest = piece.skip(1);
        let flushed = outside(row.push(Some(buf)));
        assert(forall|k: int| 0 <= k < rest.len() ==> rest[k] == piece[k + 1]);
        assert(whole[0] == piece[0]);
        assert(whole.skip(1) =~= rest.push('"'));
        assert(on_char(cfg, piece[0]) == Ok::<Config, ErrorKind>(flushed));
        lemma_leading_blank(piece);
        lemma_words_then_quote(row.push(Some(buf)), rest);
    } else if piece[0] == '/' {
        let slashed = Config { mode: Mode::MaybeEscapedNewline, ..cfg };
        assert(whole[0] == '/');
        assert(on_char(cfg, '/') == Ok::<Config, ErrorKind>(slashed));
        if piece.len() == 1 {
            assert(whole.skip(1) =~= seq!['"']);
            assert(whole.skip(1).skip(1) =~= Seq::<char>::empty());
            let next = inside_string(buf.push('\n'), row);
            assert(on_char(slashed, '"') == Ok::<Config, ErrorKind>(next));
            assert(feed(next, whole.skip(1).skip(1)) == Ok::<Config, (ErrorKind, nat)>(next));
            assert(feed(slashed, whole.skip(1)) == Ok::<Config, (ErrorKind, nat)>(next));
        } else {
            assert(whole.skip(1)[0] == piece[1]);
            assert(piece[1] != '"');
            assert(on_char(slashed, piece[1]) == Err::<Config, ErrorKind>(
                ErrorKind::MissingWhitespace,
            ));
            assert(feed(slashed, whole.skip(1)) == Err::<Config, (ErrorKind, nat)>(
                (ErrorKind::MissingWhitespace, 1),
            ));
        }
    } else {
        assert(whole[0] == piece[0]);
        assert(piece[0] != '"');
        assert(piece[0] != '\n');
        if piece[0] == '#' {
            let closed = Config { mode: Mode::Comment, buf: Seq::empty(), row: row.push(Some(buf)) };
            assert(on_char(cfg, piece[0]) == Ok::<Config, ErrorKind>(closed));
            assert(enters_comment(closed, piece.skip(1)));
        }
        assert(on_char(cfg, piece[0]) == Err::<Config, ErrorKind>(ErrorKind::MissingWhitespace));
    }
}

/// Inside a string and then a quote: the piece is text of the string.
pub proof fn lemma_within_then_quote(buf: Seq<char>, row: Row, piece: Seq<char>)
    requires
        unquoted(piece),
        single(piece),
    ensures
        feed(inside_string(buf, row), piece.push('"')) == Ok::<Config, (ErrorKind, nat)>(
            behind_quote(buf + piece, row),
        ),
{
    lemma_plain_inside(inside_string(buf, row), piece);
    lemma_feed_push(inside_string(buf, row), piece, '"');
}

/// Inside a string and then the end of the line: the string is still open.
pub proof fn lemma_within_then_end(buf: Seq<char>, row: Row, piece: Seq<char>, col: nat)
    requires
        unquoted(piece),
        single(piece),
    ensures
        scan(inside_string(buf, row), piece, col) == Err::<Row, (ErrorKind, nat)>(
            (ErrorKind::OddDoubleQuotes, col + piece.len() + 1),
        ),
{
    lemma_plain_inside(inside_string(buf, row), piece);
    lemma_scan_parts(inside_string(buf, row), piece, Seq::empty(), col);
    assert(piece + Seq::<char>::empty() =~= piece);
}

/// The mode in which the transducer stands before the piece `index` of a line that is cut at
/// its quotes: outside any field at the start, inside a string before every second piece, and
/// behind a quote that was met in a string before the others.
pub open spec fn mode_before(index: int) -> Mode {
    if index == 0 {
        Mode::Default
    } else if index % 2 == 1 {
        Mode::InsideQuotedString
    } else {
        Mode::QuoteOrEscape
    }
}

} // verus!
