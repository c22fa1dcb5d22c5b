//! Documents as tables: what stands in each cell and how it is set off, so that a null field,
//! an empty text and an error can be told from any text at a glance.
use vstd::prelude::*;
use crate::data_model::{message_of, Fault, Field, Row, Wsv, WsvValue};

verus! {

/// The colours in which cells are set off.
#[derive(Debug, PartialEq, Eq, Clone, Copy, Hash, Structural)]
pub enum Color {
    DarkRed,
    Green,
    Blue,
}

/// A cell of a table: its text, whether the text is bold, and its colour where it has one.
#[derive(Debug, PartialEq, Eq, Clone)]
pub struct Cell {
    pub text: String,
    pub bold: bool,
    pub color: Option<Color>,
}

/// A cell as a mathematical value.
pub struct Shown {
    pub text: Seq<char>,
    pub bold: bool,
    pub color: Option<Color>,
}

impl View for Cell {
    type V = Shown;

    open spec fn view(&self) -> Shown {
        Shown { text: self.text@, bold: self.bold, color: self.color }
    }
}

/// A cell that is set off: bold, in the colour given.
pub open spec fn marked(text: Seq<char>, color: Color) -> Shown {
    Shown { text, bold: true, color: Some(color) }
}

/// How a field is shown: a text as it is, an empty text by the words `empty` in blue, and the
/// null field by `NULL` in green. What is set off is bold, and a text never is.
pub open spec fn shown_as(field: Field, empty: Seq<char>) -> Shown {
    match field {
        None => marked("NULL"@, Color::Green),
        Some(text) => if text.len() == 0 {
            marked(empty, Color::Blue)
        } else {
            Shown { text, bold: false, color: None }
        },
    }
}

/// How a row is shown: each of its fields in turn.
pub open spec fn row_shown(row: Row, empty: Seq<char>) -> Seq<Shown> {
    Seq::new(row.len(), |i: int| shown_as(row[i], empty))
}

/// How the result of a line is shown: a row cell by cell, an error as one cell that holds the
/// error in words, in dark red.
pub open spec fn line_shown(line: Result<Row, Fault>) -> Seq<Shown> {
    match line {
        Ok(row) => row_shown(row, "Empty String"@),
        Err(error) => seq![marked(message_of(error), Color::DarkRed)],
    }
}

/// The cells of a row of cells as mathematical values.
pub open spec fn cells_view(cells: Seq<Cell>) -> Seq<Shown> {
    Seq::new(cells.len(), |i: int| cells[i]@)
}

/// The rows of a table as mathematical values.
pub open spec fn table_view(table: Seq<Vec<Cell>>) -> Seq<Seq<Shown>> {
    Seq::new(table.len(), |i: int| cells_view(table[i]@))
}

/// The cell that shows `value`, with `empty` as the words for an empty text.
fn cell_for(value: &WsvValue, empty: &str) -> (cell: Cell)
    ensures
        cell@ == shown_as(value@, empty@),
{
    match value {
        WsvValue::Null => Cell { text: "NULL".to_owned(), bold: true, color: Some(Color::Green) },
        WsvValue::V(text) => if text.as_str().is_empty() {
            Cell { text: empty.to_owned(), bold: true, color: Some(Color::Blue) }
        } else {
            Cell { text: text.clone(), bold: false, color: None }
        },
    }
}

/// The cells that show `row`, with `empty` as the words for an empty text.
fn cells_for(row: &Vec<WsvValue>, empty: &str) -> (cells: Vec<Cell>)
    ensures
        cells_view(cells@) == row_shown(crate::data_model::row_view(row@), empty@),
{
    let mut cells: Vec<Cell> = Vec::new();
    let mut index: usize = 0;
    while index < row.len()
        invariant
            index <= row.len(),
            cells@.len() == index,
            forall|k: int| 0 <= k < index ==> (#[trigger] cells@[k])@ == shown_as(row@[k]@, empty@),
        decreases row.len() - index,
    {
        cells.push(cell_for(&row[index], empty));
        index += 1;
    }
    assert(cells_view(cells@) =~= row_shown(crate::data_model::row_view(row@), empty@));
    cells
}

impl WsvValue {
    /// The cell that shows the field.
    pub fn cell(&self) -> (cell: Cell)
        ensures
            cell@ == shown_as(self@, "Empty String"@),
    {
        cell_for(self, "Empty String")
    }
}

impl Wsv {
    /// The table that shows the document: one row of cells for each line.
    pub fn table(&self) -> (table: Vec<Vec<Cell>>)
        ensures
            table_view(table@) == Seq::new(self@.len(), |i: int| line_shown(self@[i])),
    {
        let mut table: Vec<Vec<Cell>> = Vec::new();
        let mut index: usize = 0;
        while index < self.0.len()
            invariant
                index <= self.0.len(),
                table@.len() == index,
                forall|k: int|
                    0 <= k < index ==> cells_view((#[trigger] table@[k])@) == line_shown(self@[k]),
            decreases self.0.len() - index,
        {
            let cells = match &self.0[index] {
                Err(e) => {
                    let mut cells: Vec<Cell> = Vec::new();
                    cells.push(Cell { text: e.message(), bold: true, color: Some(Color::DarkRed) });
                    assert(cells_view(cells@) =~= seq![marked(message_of(e@), Color::DarkRed)]);
                    cells
                },
                Ok(row) => cells_for(row, "Empty String"),
            };
            table.push(cells);
            index += 1;
        }
        assert(table_view(table@) =~= Seq::new(self@.len(), |i: int| line_shown(self@[i])));
        table
    }
}

/// The table that shows a document without errors: one row of cells for each row, where an
/// empty text is shown by the word `Empty`.
pub fn tabulate(wsv: Vec<Vec<WsvValue>>) -> (table: Vec<Vec<Cell>>)
    ensures
        table_view(table@) == Seq::new(
            wsv@.len(),
            |i: int| row_shown(crate::data_model::row_view(wsv@[i]@), "Empty"@),
        ),
{
    let mut table: Vec<Vec<Cell>> = Vec::new();
    let mut index: usize = 0;
    while index < wsv.len()
        invariant
            index <= wsv.len(),
            table@.len() == index,
            forall|k: int|
                0 <= k < index ==> cells_view((#[trigger] table@[k])@) == row_shown(
                    crate::data_model::row_view(wsv@[k]@),
                    "Empty"@,
                ),
        decreases wsv.len() - index,
    {
        table.push(cells_for(&wsv[index], "Empty"));
        index += 1;
    }
    assert(table_view(table@) =~= Seq::new(
        wsv@.len(),
        |i: int| row_shown(crate::data_model::row_view(wsv@[i]@), "Empty"@),
    ));
    table
}

/// What stands for null and for the empty text cannot be mistaken for a text: two fields
/// that are shown alike are the same field.
pub proof fn law_shown_apart(one: Field, other: Field, empty: Seq<char>)
    requires
        shown_as(one, empty) == shown_as(other, empty),
    ensures
        one == other,
{
    match (one, other) {
        (Some(a), Some(b)) => {
            if a.len() == 0 && b.len() == 0 {
                assert(a =~= b);
            }
        },
        _ => {},
    }
}

} // verus!
