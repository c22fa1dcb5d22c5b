//! A tokenizer that cuts instead of scanning: the line is cut at `#` to find where the comment
//! begins, what stands before the comment is cut at the quotes, and the pieces between the
//! quotes are read by their place and by whether they stand inside or outside a string.
use vstd::prelude::*;
use vstd::string::StrSliceExecFns;
use crate::cutting::{
    behind_quote, ends_blank, gap_before, gathered, inside_string, lemma_behind_then_end,
    lemma_behind_then_quote, lemma_cut, lemma_no_cut, lemma_within_then_end,
    lemma_within_then_quote, lemma_words_then_end, lemma_words_then_quote, lone_dash, mode_before,
    outside, starts_blank, unquoted, word_field, words,
};
use crate::data_model::{
    line_view, lines_view, row_view, strict_view, Error, ErrorKind, Parser, WsvValue,
};
use crate::io::{from_string_with_parser, strict_with_parser};
use crate::text::{
    belongs, chars_of, end_column, joined, lemma_split_head, lines, single, split, split_at_char,
    texts, Span,
};
use crate::transducer::{
    enters_comment, feed, lemma_enters_parts, lemma_feed_parts, lemma_no_hash, lemma_scan_parts,
    start, tokenize, tokenize_all, tokenize_each, Config,
};

verus! {

/// Where a piece stands among the pieces of a cut.
#[derive(Debug, PartialEq, Eq, Clone, Copy, Hash, Structural)]
pub enum Place {
    /// The piece is the only one.
    Only,
    /// The piece is the first of several.
    First,
    /// The piece is neither the first nor the last.
    Middle,
    /// The piece is the last of several.
    Last,
}

/// The place of the piece `index` among `count` pieces.
pub open spec fn place_of(index: int, count: int) -> Place {
    if count == 1 {
        Place::Only
    } else if index == 0 {
        Place::First
    } else if index == count - 1 {
        Place::Last
    } else {
        Place::Middle
    }
}

/// `Itertools::join` on an iterator over the texts: the texts in order, with `sep` between
/// each two of them, and the empty text where there is none.
#[verifier::external_body]
fn join(parts: &Vec<String>, sep: &str) -> (text: String)
    ensures
        text@ == joined(texts(parts@), sep@),
{
    itertools::Itertools::join(&mut parts.iter(), sep)
}

/// `Itertools::with_position` on an iterator over the pieces: each piece with its place, in
/// order. A single piece is the only one; of several, the first and the last are marked as
/// such, and the others stand in the middle.
#[verifier::external_body]
fn with_position(parts: Vec<String>) -> (placed: Vec<(Place, String)>)
    ensures
        placed@.len() == parts@.len(),
        forall|i: int|
            0 <= i < parts@.len() ==> (#[trigger] placed@[i]).0 == place_of(i, parts@.len() as int)
                && placed@[i].1 == parts@[i],
{
    itertools::Itertools::with_position(parts.into_iter()).map(
        |(position, part)|
            match position {
                itertools::Position::Only => (Place::Only, part),
                itertools::Position::First => (Place::First, part),
                itertools::Position::Middle => (Place::Middle, part),
                itertools::Position::Last => (Place::Last, part),
            },
    ).collect()
}

/// What a piece between two strings means.
#[derive(Debug, PartialEq, Eq, Clone, Copy, Structural)]
pub enum Decision {
    /// The piece is an escape, and stands for this character of the string around it.
    SpecialCharacter(char),
    /// The string has ended, and the piece stands outside any string.
    EndOfString,
}

/// What a piece between two strings means: `/` between two quotes is a line feed, nothing
/// between two quotes is a quote, and anything else stands outside the strings.
pub open spec fn decision_of(part: Seq<char>) -> Decision {
    if part.len() == 1 && part[0] == '/' {
        Decision::SpecialCharacter('\n')
    } else if part.len() == 0 {
        Decision::SpecialCharacter('"')
    } else {
        Decision::EndOfString
    }
}

/// What a piece between two strings means.
pub fn identify_string_part(string_part: &str) -> (decision: Decision)
    ensures
        decision == decision_of(string_part@),
{
    let chars = chars_of(string_part);
    if chars.len() == 1 && chars[0] == '/' {
        Decision::SpecialCharacter('\n')
    } else if chars.len() == 0 {
        Decision::SpecialCharacter('"')
    } else {
        Decision::EndOfString
    }
}

/// The field that the word `word` stands for, where `dash` says whether the word is `-`.
fn word_value(word: String, dash: bool) -> (value: WsvValue)
    requires
        dash == (word@.len() == 1 && word@[0] == '-'),
    ensures
        value@ == word_field(word@),
{
    if dash {
        WsvValue::Null
    } else {
        WsvValue::V(word)
    }
}

/// The fields that the words of `main_part` stand for, whether it begins with whitespace, and
/// whether it ends with whitespace. An empty text does both.
pub fn process_part(main_part: &str) -> (found: (Vec<WsvValue>, bool, bool))
    ensures
        row_view(found.0@) == words(main_part@),
        found.1 == starts_blank(main_part@),
        found.2 == ends_blank(main_part@),
{
    let chars = chars_of(main_part);
    let len = chars.len();
    let mut values: Vec<WsvValue> = Vec::new();
    let mut word = String::new();
    let mut dash = false;
    let mut index: usize = 0;
    proof {
        assert(chars@.take(0) =~= Seq::empty());
        assert(row_view(values@) =~= Seq::empty());
    }
    while index < len
        invariant
            chars@ == main_part@,
            len == chars.len(),
            index <= len,
            gathered(chars@.take(index as int)) == (row_view(values@), word@),
            dash == (word@.len() == 1 && word@[0] == '-'),
        decreases len - index,
    {
        let c = chars[index];
        let ghost before = row_view(values@);
        proof {
            assert(chars@.take(index + 1).drop_last() =~= chars@.take(index as int));
            assert(chars@.take(index + 1).last() == c);
        }
        if belongs(Span::Blank, c) {
            if !word.as_str().is_empty() {
                let ghost field = word_field(word@);
                values.push(word_value(word, dash));
                word = String::new();
                dash = false;
                assert(row_view(values@) =~= before.push(field));
            }
        } else {
            dash = word.as_str().is_empty() && c == '-';
            word.push(c);
        }
        index += 1;
    }
    assert(chars@.take(len as int) =~= chars@);
    if !word.as_str().is_empty() {
        let ghost before = row_view(values@);
        let ghost field = word_field(word@);
        values.push(word_value(word, dash));
        assert(row_view(values@) =~= before.push(field));
    }
    (values, len == 0 || belongs(Span::Blank, chars[0]), len == 0 || belongs(
        Span::Blank,
        chars[len - 1],
    ))
}

/// How far behind the quote before it the error of a piece lies that does not begin with
/// whitespace.
fn error_offset(part: &str) -> (offset: usize)
    requires
        part@.len() > 0,
        !starts_blank(part@),
    ensures
        offset == gap_before(part@),
{
    if part.get_char(0) == '/' {
        2
    } else {
        1
    }
}

/// The fields of `input.1`, a line without line feed in which no comment begins, or its
/// first error, in row `input.0`. The line is cut at its quotes, and the pieces are read in
/// turn: a piece outside the strings holds words and must be parted by whitespace from the
/// quotes around it, a piece inside a string is text, and between two strings nothing is a
/// quote of the string and `/` a line feed of it.
fn parse_line_without_comments(input: (usize, &str)) -> (result: Result<
    Vec<WsvValue>,
    Error,
>)
    requires
        single(input.1@),
        !enters_comment(start(), input.1@),
    ensures
        line_view(result) == tokenize(input.0 as nat, input.1@),
{
    let line_number = input.0;
    let limit = end_column(input.1);
    let parts = split_at_char(input.1, '"');
    let ghost content = input.1@;
    let ghost pieces = split(content, '"');
    let placed = with_position(parts);
    let mut result: Vec<WsvValue> = Vec::new();
    let mut string = String::new();
    let mut col: usize = 0;
    let mut i: usize = 0;
    let ghost mut fed: Seq<char> = Seq::empty();
    let ghost mut rest: Seq<char> = content;
    proof {
        assert(row_view(result@) =~= Seq::empty());
        assert(pieces.skip(0) =~= pieces);
        assert(fed + rest =~= content);
        lemma_split_head(content, '"');
    }
    while i < placed.len()
        invariant
            content == input.1@,
            line_number == input.0,
            single(content),
            !enters_comment(start(), content),
            limit == content.len() + 1,
            pieces == split(content, '"'),
            pieces.len() >= 1,
            placed@.len() == pieces.len(),
            forall|k: int|
                0 <= k < pieces.len() ==> (#[trigger] placed@[k]).0 == place_of(
                    k,
                    pieces.len() as int,
                ) && placed@[k].1@ == pieces[k],
            i <= placed.len(),
            i == 0 ==> fed.len() == 0,
            i < placed.len() ==> {
                &&& content == fed + rest
                &&& split(rest, '"') == pieces.skip(i as int)
                &&& feed(start(), fed) == Ok::<Config, (ErrorKind, nat)>(
                    Config {
                        mode: mode_before(i as int),
                        buf: string@,
                        row: row_view(result@),
                    },
                )
                &&& col == fed.len()
            },
            i == placed.len() ==> tokenize(line_number as nat, content) == Ok::<
                crate::data_model::Row,
                crate::data_model::Fault,
            >(row_view(result@)),
        decreases placed.len() - i,
    {
        let place = placed[i].0;
        let part = placed[i].1.as_str();
        let even_part = i % 2 == 1;
        let length = part.unicode_len();
        let ghost piece = pieces[i as int];
        let ghost row = row_view(result@);
        let ghost buf = string@;
        let ghost cfg = Config { mode: mode_before(i as int), buf, row };
        let ghost behind = rest.skip(piece.len() + 1 as int);
        let ghost last = i == placed.len() - 1;
        proof {
            lemma_split_head(rest, '"');
            assert(pieces.skip(i as int)[0] == piece);
            assert(part@ == piece);
            assert(pieces.skip(i as int).len() == pieces.len() - i);
            assert(unquoted(piece));
            assert(single(piece)) by {
                assert forall|k: int| 0 <= k < piece.len() implies piece[k] != '\n' by {
                    assert(piece[k] == rest[k]);
                    assert(rest[k] == content[fed.len() + k]);
                }
            }
            lemma_enters_parts(start(), fed, rest);
            if last {
                assert(rest == piece);
                lemma_scan_parts(start(), fed, piece, 0);
            } else {
                assert(rest == piece + seq!['"'] + behind);
                assert(rest =~= piece.push('"') + behind);
                assert(piece + (seq!['"'] + behind) =~= rest);
                lemma_enters_parts(cfg, piece, seq!['"'] + behind);
                lemma_feed_parts(start(), fed, piece.push('"'));
                assert(content =~= (fed + piece.push('"')) + behind);
                lemma_scan_parts(start(), fed + piece.push('"'), behind, 0);
                assert(pieces.skip(i as int).skip(1) =~= pieces.skip(i + 1));
                lemma_split_head(behind, '"');
            }
            assert(cfg == if i == 0 {
                outside(row)
            } else if even_part {
                inside_string(buf, row)
            } else {
                behind_quote(buf, row)
            }) by {
                if i == 0 {
                    assert(buf =~= Seq::<char>::empty());
                }
            }
        }
        match (place, even_part) {
            (Place::Only, _) => {
                proof {
                    lemma_words_then_end(row, piece, 0);
                }
                let mut these_parts = process_part(part).0;
                let ghost more = row_view(these_parts@);
                result.append(&mut these_parts);
                assert(row_view(result@) =~= row + more);
            },
            (Place::First, _) => {
                proof {
                    lemma_words_then_quote(row, piece);
                }
                let (mut these_parts, _, leading_ws) = process_part(part);
                col += length + 1;
                if !leading_ws {
                    return Err(Error::new(ErrorKind::MissingWhitespace, line_number, col, None));
                } else {
                    let ghost more = row_view(these_parts@);
                    result.append(&mut these_parts);
                    assert(row_view(result@) =~= row + more);
                }
            },
            (Place::Last, false) => {
                proof {
                    lemma_behind_then_end(buf, row, piece, col as nat);
                }
                let (mut these_parts, trailing_ws, _) = process_part(part);
                if !trailing_ws {
                    return Err(
                        Error::new(
                            ErrorKind::MissingWhitespace,
                            line_number,
                            col + error_offset(part),
                            None,
                        ),
                    );
                } else {
                    let ghost more = row_view(these_parts@);
                    result.push(WsvValue::V(string));
                    string = String::new();
                    result.append(&mut these_parts);
                    assert(row_view(result@) =~= row.push(Some(buf)) + more);
                }
            },
            (Place::Last, true) => {
                proof {
                    lemma_within_then_end(buf, row, piece, col as nat);
                }
                return Err(Error::new(ErrorKind::OddDoubleQuotes, line_number, limit, None));
            },
            (Place::Middle, true) => {
                proof {
                    lemma_within_then_quote(buf, row, piece);
                }
                col += length + 1;
                string = vstd::string::StringExecFns::concat(string, part);
            },
            (Place::Middle, false) => {
                proof {
                    lemma_behind_then_quote(buf, row, piece);
                }
                match identify_string_part(part) {
                    Decision::SpecialCharacter(ch) => {
                        string.push(ch);
                        col += length + 1;
                    },
                    Decision::EndOfString => {
                        let (mut these_parts, trailing_ws, leading_ws) = process_part(part);
                        if !trailing_ws {
                            return Err(
                                Error::new(
                                    ErrorKind::MissingWhitespace,
                                    line_number,
                                    col + error_offset(part),
                                    None,
                                ),
                            );
                        } else if !leading_ws {
                            return Err(
                                Error::new(
                                    ErrorKind::MissingWhitespace,
                                    line_number,
                                    col + length + 1,
                                    None,
                                ),
                            );
                        } else {
                            let ghost more = row_view(these_parts@);
                            result.push(WsvValue::V(string));
                            string = String::new();
                            col += length + 1;
                            result.append(&mut these_parts);
                            assert(row_view(result@) =~= row.push(Some(buf)) + more);
                        }
                    },
                }
            },
        }
        proof {
            if !last {
                fed = fed + piece.push('"');
                rest = behind;
            }
        }
        i += 1;
    }
    Ok(result)
}

/// Whether `text` ends with a `-` that stands alone.
fn ends_with_lone_dash(text: &str) -> (lone: bool)
    ensures
        lone == lone_dash(text@),
{
    let chars = chars_of(text);
    let len = chars.len();
    len > 0 && chars[len - 1] == '-' && (len == 1 || belongs(Span::Blank, chars[len - 2]))
}

/// The fields of `input.1`, a line without line feed that follows `input.0` earlier lines, or
/// its first error.
///
/// The line is cut at every `#`. The comment begins at the first `#` before which the quotes
/// come in pairs and which does not follow a `-` that stands alone; what stands before it is
/// read as a line without comment. Where no `#` is such, the whole line is.
pub fn parse_line(input: (usize, &str)) -> (result: Result<Vec<WsvValue>, Error>)
    requires
        input.0 < usize::MAX,
        single(input.1@),
    ensures
        line_view(result) == tokenize((input.0 + 1) as nat, input.1@),
{
    let line_number = input.0 + 1;
    let pieces = split_at_char(input.1, '#');
    let mut parts_without_comment: Vec<String> = Vec::new();
    let mut index: usize = 0;
    let ghost line = input.1@;
    let ghost cuts = split(line, '#');
    let ghost mut before: Seq<char> = Seq::empty();
    let ghost mut rest: Seq<char> = line;
    proof {
        lemma_split_head(line, '#');
        assert(cuts.skip(0) =~= cuts);
        assert(before + rest =~= line);
        assert(texts(parts_without_comment@) =~= cuts.take(0));
    }
    while index < pieces.len()
        invariant
            line == input.1@,
            line_number == input.0 + 1,
            single(line),
            cuts == split(line, '#'),
            texts(pieces@) == cuts,
            cuts.len() >= 1,
            index <= pieces.len(),
            texts(parts_without_comment@) == cuts.take(index as int),
            !enters_comment(start(), before),
            index < pieces.len() ==> {
                &&& line == before + rest
                &&& split(rest, '#') == cuts.skip(index as int)
                &&& before == if index == 0 {
                    Seq::<char>::empty()
                } else {
                    joined(cuts.take(index as int), seq!['#']).push('#')
                }
            },
            index == pieces.len() ==> !enters_comment(start(), line),
        decreases pieces.len() - index,
    {
        let ghost had = parts_without_comment@;
        let ghost piece = cuts[index as int];
        let ghost candidate = before + piece;
        let ghost behind = rest.skip(piece.len() + 1 as int);
        let ghost last = index == pieces.len() - 1;
        let part = pieces[index].clone();
        assert(part@ == texts(pieces@)[index as int]);
        parts_without_comment.push(part);
        proof {
            assert(parts_without_comment@ == had.push(part));
            assert(had.len() == index) by {
                assert(texts(had).len() == cuts.take(index as int).len());
            }
            assert forall|k: int| 0 <= k <= index implies texts(parts_without_comment@)[k]
                == cuts[k] by {
                if k < index {
                    assert(texts(had)[k] == cuts.take(index as int)[k]);
                    assert(parts_without_comment@[k] == had[k]);
                } else {
                    assert(parts_without_comment@[k] == part);
                }
            }
            assert(texts(parts_without_comment@) =~= cuts.take(index + 1));
            reveal_strlit("#");
            assert("#"@ =~= seq!['#']);
            assert(cuts.take(index + 1).drop_last() =~= cuts.take(index as int));
            assert(joined(cuts.take(index + 1), seq!['#']) =~= candidate);
            lemma_split_head(rest, '#');
            assert(cuts.skip(index as int)[0] == piece);
            assert(cuts.skip(index as int).len() == cuts.len() - index);
            lemma_enters_parts(start(), before, piece);
            match feed(start(), before) {
                Ok(mid) => {
                    lemma_no_hash(mid, piece);
                },
                Err(_) => {},
            }
            if last {
                assert(rest == piece);
            } else {
                assert(rest == piece + seq!['#'] + behind);
                assert(line =~= candidate + seq!['#'] + behind);
                assert(cuts.skip(index as int).skip(1) =~= cuts.skip(index + 1));
                assert(candidate + seq!['#'] =~= candidate.push('#'));
                assert(line =~= candidate.push('#') + behind);
            }
            assert(single(candidate)) by {
                assert forall|k: int| 0 <= k < candidate.len() implies candidate[k] != '\n' by {
                    assert(candidate[k] == line[k]);
                }
            }
        }
        let line_without_comment = join(&parts_without_comment, "#");
        let even_number_of_quotes = split_at_char(line_without_comment.as_str(), '"').len() % 2
            == 1;
        if even_number_of_quotes && !ends_with_lone_dash(line_without_comment.as_str()) {
            proof {
                if !last {
                    lemma_cut(line_number as nat, candidate, behind);
                }
            }
            return parse_line_without_comments((line_number, line_without_comment.as_str()));
        }
        proof {
            if !last {
                lemma_no_cut(candidate);
                before = candidate.push('#');
                rest = behind;
            }
        }
        index += 1;
    }
    parse_line_without_comments((line_number, input.1))
}

/// The rows of all the lines of `i`, or the error of the first line that has one.
pub fn parse_strict(i: &str) -> (result: Result<Vec<Vec<WsvValue>>, Error>)
    ensures
        strict_view(result) == tokenize_all(lines(i@)),
{
    strict_with_parser(i, Parser::Split)
}

/// Each line of `i` with its own row or its own error.
pub fn parse(i: &str) -> (result: Vec<Result<Vec<WsvValue>, Error>>)
    ensures
        lines_view(result@) == tokenize_each(1, lines(i@)),
{
    from_string_with_parser(i, Parser::Split)
}

} // verus!
