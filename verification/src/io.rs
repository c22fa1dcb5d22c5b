//! The assembling of documents: a text is cut into lines, each line is tokenized by the
//! strategy that the caller names, and the results are handed back line by line or as a
//! whole.
use vstd::prelude::*;
use crate::data_model::{
    doc_view, field_len, line_view, lines_view, row_view, strict_view, Error, Fault, Parser, Row,
    WsvValue,
};
use crate::text::{decimal, decimal_of, lemma_split_free, lines, split_at_char, texts};
use crate::transducer::{lemma_first_error, tokenize, tokenize_all, tokenize_each, tokenize_rows};

verus! {

/// The lines given, each tokenized by `parser`: every line with its own row or its own error.
/// The first line is row 1.
pub fn from_reader_with_parser(lines: &Vec<String>, parser: Parser) -> (result: Vec<
    Result<Vec<WsvValue>, Error>,
>)
    requires
        forall|k: int| 0 <= k < lines@.len() ==> parser.takes(#[trigger] lines@[k]@),
    ensures
        lines_view(result@) == tokenize_each(1, texts(lines@)),
{
    let mut result: Vec<Result<Vec<WsvValue>, Error>> = Vec::new();
    let mut index: usize = 0;
    while index < lines.len()
        invariant
            index <= lines.len(),
            result@.len() == index,
            forall|k: int| 0 <= k < lines@.len() ==> parser.takes(#[trigger] lines@[k]@),
            forall|k: int|
                0 <= k < index ==> line_view(#[trigger] result@[k]) == tokenize(
                    (k + 1) as nat,
                    lines@[k]@,
                ),
        decreases lines.len() - index,
    {
        let row = parser.fn_ptr((index, lines[index].as_str()));
        result.push(row);
        index += 1;
    }
    assert(lines_view(result@) =~= tokenize_each(1, texts(lines@)));
    result
}

/// The lines given, each tokenized by the default strategy.
pub fn from_reader(lines: &Vec<String>) -> (result: Vec<Result<Vec<WsvValue>, Error>>)
    ensures
        lines_view(result@) == tokenize_each(1, texts(lines@)),
{
    from_reader_with_parser(lines, Parser::default())
}

/// The lines of `i`, each tokenized by `parser`: every line with its own row or its own error.
pub fn from_string_with_parser(i: &str, parser: Parser) -> (result: Vec<
    Result<Vec<WsvValue>, Error>,
>)
    ensures
        lines_view(result@) == tokenize_each(1, lines(i@)),
{
    let pieces = split_at_char(i, '\n');
    proof {
        assert forall|k: int| 0 <= k < pieces@.len() implies parser.takes(
            #[trigger] pieces@[k]@,
        ) by {
            assert(pieces@[k]@ == texts(pieces@)[k]);
            lemma_split_free(i@, '\n', k);
        }
    }
    from_reader_with_parser(&pieces, parser)
}

/// The lines of `i`, each tokenized by the default strategy.
pub fn from_string(i: &str) -> (result: Vec<Result<Vec<WsvValue>, Error>>)
    ensures
        lines_view(result@) == tokenize_each(1, lines(i@)),
{
    from_string_with_parser(i, Parser::default())
}

/// The rows of all the lines of `i`, tokenized by `parser`, or the error of the first line
/// that has one. The lines behind that line are not read.
pub fn strict_with_parser(i: &str, parser: Parser) -> (result: Result<Vec<Vec<WsvValue>>, Error>)
    ensures
        strict_view(result) == tokenize_all(lines(i@)),
{
    let pieces = split_at_char(i, '\n');
    let mut rows: Vec<Vec<WsvValue>> = Vec::new();
    let mut index: usize = 0;
    assert(lines(i@).take(0).len() == 0);
    assert(doc_view(rows@) =~= Seq::empty());
    while index < pieces.len()
        invariant
            texts(pieces@) == lines(i@),
            index <= pieces.len(),
            tokenize_rows(1, lines(i@).take(index as int)) == Ok::<Seq<Row>, Fault>(
                doc_view(rows@),
            ),
        decreases pieces.len() - index,
    {
        proof {
            let upto = lines(i@).take(index + 1);
            assert(upto.drop_last() =~= lines(i@).take(index as int));
            assert(upto.last() == pieces@[index as int]@);
            lemma_split_free(i@, '\n', index as int);
        }
        match parser.fn_ptr((index, pieces[index].as_str())) {
            Ok(row) => {
                let ghost before = rows@;
                let ghost fields = row_view(row@);
                rows.push(row);
                assert(doc_view(rows@) =~= doc_view(before).push(fields));
            },
            Err(error) => {
                proof {
                    lemma_first_error(1, lines(i@), index + 1);
                }
                return Err(error);
            },
        }
        index += 1;
    }
    assert(lines(i@).take(index as int) =~= lines(i@));
    Ok(rows)
}

/// The rows of all the lines of `i`, tokenized by the default strategy, or the error of the
/// first line that has one.
pub fn parse_from_memory(i: &str) -> (result: Result<Vec<Vec<WsvValue>>, Error>)
    ensures
        strict_view(result) == tokenize_all(lines(i@)),
{
    strict_with_parser(i, Parser::default())
}

/// The lengths of the fields of a row, added up.
pub open spec fn row_chars(row: Row) -> nat
    decreases row.len(),
{
    if row.len() == 0 {
        0
    } else {
        row_chars(row.drop_last()) + field_len(row.last())
    }
}

/// What a line counts in characters: the lengths of its fields, and 1 for a line with an
/// error.
pub open spec fn line_chars(line: Result<Row, Fault>) -> nat {
    match line {
        Ok(row) => row_chars(row),
        Err(_) => 1,
    }
}

/// What a line counts in cells: the number of its fields, and 1 for a line with an error.
pub open spec fn line_cells(line: Result<Row, Fault>) -> nat {
    match line {
        Ok(row) => row.len(),
        Err(_) => 1,
    }
}

/// What the lines of a document count in characters, added up.
pub open spec fn total_chars(lines: Seq<Result<Row, Fault>>) -> nat
    decreases lines.len(),
{
    if lines.len() == 0 {
        0
    } else {
        total_chars(lines.drop_last()) + line_chars(lines.last())
    }
}

/// What the lines of a document count in cells, added up.
pub open spec fn total_cells(lines: Seq<Result<Row, Fault>>) -> nat
    decreases lines.len(),
{
    if lines.len() == 0 {
        0
    } else {
        total_cells(lines.drop_last()) + line_cells(lines.last())
    }
}

/// The number that is given as the least size of a document: its characters, and for each
/// row as many separators as the document has cells.
pub open spec fn least_size(lines: Seq<Result<Row, Fault>>) -> nat {
    total_chars(lines) + total_cells(lines) * lines.len()
}

/// The statistics of a document in words.
pub open spec fn statistics(lines: Seq<Result<Row, Fault>>) -> Seq<char> {
    "Minimum Byte Count: "@ + decimal_of(least_size(lines)) + "\nUsed Cell Count: "@
        + decimal_of(total_cells(lines)) + "\nRow Count: "@ + decimal_of(lines.len())
}

/// The first fields of a row count no more than the row.
pub proof fn lemma_row_chars_grow(row: Row, upto: int)
    requires
        0 <= upto <= row.len(),
    ensures
        row_chars(row.take(upto)) <= row_chars(row),
    decreases row.len() - upto,
{
    if upto < row.len() {
        assert(row.take(upto + 1).drop_last() =~= row.take(upto));
        lemma_row_chars_grow(row, upto + 1);
    } else {
        assert(row.take(upto) =~= row);
    }
}

/// The first lines of a document count no more than the document.
pub proof fn lemma_totals_grow(lines: Seq<Result<Row, Fault>>, upto: int)
    requires
        0 <= upto <= lines.len(),
    ensures
        total_chars(lines.take(upto)) <= total_chars(lines),
        total_cells(lines.take(upto)) <= total_cells(lines),
    decreases lines.len() - upto,
{
    if upto < lines.len() {
        assert(lines.take(upto + 1).drop_last() =~= lines.take(upto));
        lemma_totals_grow(lines, upto + 1);
    } else {
        assert(lines.take(upto) =~= lines);
    }
}

/// A document whose least size can be counted has cells that can be counted.
pub proof fn lemma_cells_fit(lines: Seq<Result<Row, Fault>>)
    ensures
        total_chars(lines) <= least_size(lines),
        total_cells(lines) <= least_size(lines),
{
    let cells = total_cells(lines) as int;
    let rows = lines.len() as int;
    if rows == 0 {
        assert(cells == 0);
    } else {
        assert(cells <= cells * rows) by (nonlinear_arith)
            requires
                cells >= 0,
                rows >= 1,
        ;
    }
    assert(cells * rows >= 0) by (nonlinear_arith)
        requires
            cells >= 0,
            rows >= 0,
    ;
}

/// The lengths of the fields of `row`, added up, or nothing where the sum is too large to be
/// counted.
fn count_chars(row: &Vec<WsvValue>) -> (count: Option<usize>)
    ensures
        match count {
            Some(sum) => sum == row_chars(row_view(row@)),
            None => row_chars(row_view(row@)) > usize::MAX,
        },
{
    let mut count: usize = 0;
    let mut index: usize = 0;
    let ghost fields = row_view(row@);
    assert(fields.take(0) =~= Seq::empty());
    while index < row.len()
        invariant
            fields == row_view(row@),
            index <= row.len(),
            count == row_chars(fields.take(index as int)),
        decreases row.len() - index,
    {
        proof {
            assert(fields.take(index + 1).drop_last() =~= fields.take(index as int));
            lemma_row_chars_grow(fields, index + 1);
        }
        let length = row[index].len();
        if length > usize::MAX - count {
            return None;
        }
        count += length;
        index += 1;
    }
    assert(fields.take(index as int) =~= fields);
    Some(count)
}

/// The numbers of the statistics of a document: the number given as its least size, the
/// number of its cells, and the number of its rows; or nothing where the least size is too
/// large to be counted.
pub fn count_stuff(input: &Vec<Result<Vec<WsvValue>, Error>>) -> (counts: Option<
    (usize, usize, usize),
>)
    ensures
        match counts {
            Some((size, cells, rows)) => {
                &&& size == least_size(lines_view(input@))
                &&& cells == total_cells(lines_view(input@))
                &&& rows == input@.len()
            },
            None => least_size(lines_view(input@)) > usize::MAX,
        },
{
    let mut character_count: usize = 0;
    let mut used_cell_count: usize = 0;
    let row_count = input.len();
    let mut index: usize = 0;
    let ghost lines = lines_view(input@);
    proof {
        assert(lines.take(0) =~= Seq::empty());
        lemma_cells_fit(lines);
    }
    while index < input.len()
        invariant
            lines == lines_view(input@),
            total_chars(lines) <= least_size(lines),
            total_cells(lines) <= least_size(lines),
            index <= input.len(),
            character_count == total_chars(lines.take(index as int)),
            used_cell_count == total_cells(lines.take(index as int)),
        decreases input.len() - index,
    {
        proof {
            assert(lines.take(index + 1).drop_last() =~= lines.take(index as int));
            lemma_totals_grow(lines, index + 1);
            assert(lines.take(index + 1).last() == line_view(input@[index as int]));
        }
        let (chars, cells) = match &input[index] {
            Ok(data) => match count_chars(data) {
                Some(sum) => (sum, data.len()),
                None => {
                    return None;
                },
            },
            Err(_) => (1, 1),
        };
        if chars > usize::MAX - character_count || cells > usize::MAX - used_cell_count {
            return None;
        }
        character_count += chars;
        used_cell_count += cells;
        index += 1;
    }
    proof {
        assert(lines.take(index as int) =~= lines);
        assert(used_cell_count * row_count == total_cells(lines) * lines.len());
    }
    proof {
        let cells = used_cell_count as int;
        let rows = row_count as int;
        assert(cells * rows <= 0xFFFF_FFFF_FFFF_FFFF * 0xFFFF_FFFF_FFFF_FFFF) by (nonlinear_arith)
            requires
                0 <= cells <= 0xFFFF_FFFF_FFFF_FFFF,
                0 <= rows <= 0xFFFF_FFFF_FFFF_FFFF,
        ;
    }
    let separators: u128 = (used_cell_count as u128) * (row_count as u128);
    let size: u128 = separators + (character_count as u128);
    if size > usize::MAX as u128 {
        None
    } else {
        Some((size as usize, used_cell_count, row_count))
    }
}

/// The statistics of a document in words: the number given as its least size, the number of
/// its cells, and the number of its rows. A line with an error counts as one cell with one
/// character.
pub fn calculate_stuff(input: &Vec<Result<Vec<WsvValue>, Error>>) -> (out: String)
    requires
        least_size(lines_view(input@)) <= usize::MAX,
    ensures
        out@ == statistics(lines_view(input@)),
{
    let (size, used_cell_count, row_count) = match count_stuff(input) {
        Some(counts) => counts,
        None => (0, 0, 0),
    };
    let mut out = "Minimum Byte Count: ".to_owned();
    out = vstd::string::StringExecFns::concat(out, decimal(size).as_str());
    out = vstd::string::StringExecFns::concat(out, "\nUsed Cell Count: ");
    out = vstd::string::StringExecFns::concat(out, decimal(used_cell_count).as_str());
    out = vstd::string::StringExecFns::concat(out, "\nRow Count: ");
    out = vstd::string::StringExecFns::concat(out, decimal(row_count).as_str());
    out
}

} // verus!
