//! The shared vocabulary of the parsers: field values, rows, documents and parse errors, each
//! with the mathematical view that the contracts of the crate are stated over.
use vstd::prelude::*;
use vstd::string::StrSliceExecFns;
use crate::text::{debug_form, debug_text, decimal, decimal_of, single};
use crate::transducer::tokenize;

verus! {

/// The ways of tokenizing a line that the crate offers. The assemblers of documents take one
/// as their strategy. All of them give what the transducer gives.
#[derive(Debug, Copy, Clone, PartialEq, Eq, Hash, Structural)]
pub enum Parser {
    /// By the rules of the line grammar.
    Nom,
    /// By the machine whose states name the change that an event makes.
    State,
    /// By the Mealy machine.
    Mealy,
    /// By the Moore machine.
    Moore,
    /// By cutting the line at `#` and at the quotes.
    Split,
    /// By one loop over the events of the line.
    First,
}

impl Default for Parser {
    /// The strategy that is taken where none is named.
    fn default() -> (parser: Parser)
        ensures
            parser == Parser::First,
    {
        Parser::First
    }
}

impl Parser {
    /// Whether the strategy takes the line. The loop and the machine of states take any text
    /// and read a line feed outside a string as whitespace; to the others a line feed is the
    /// end of a line, so a line that goes to them has none.
    pub open spec fn takes(self, line: Seq<char>) -> bool {
        (self != Parser::First && self != Parser::State) ==> single(line)
    }

    /// Tokenizes `input.1`, the line that follows `input.0` earlier lines, by the strategy.
    pub fn fn_ptr(self, input: (usize, &str)) -> (result: Result<Vec<WsvValue>, Error>)
        requires
            input.0 < usize::MAX,
            self.takes(input.1@),
        ensures
            line_view(result) == tokenize((input.0 + 1) as nat, input.1@),
    {
        match self {
            Parser::First => crate::first::parse_line(input),
            Parser::Nom => crate::nom::parse_line(input),
            Parser::Split => crate::split::parse_line(input),
            Parser::State => crate::state::parse_line(input),
            Parser::Moore => crate::moore::parse_line(input),
            Parser::Mealy => crate::mealy::parse_line(input),
        }
    }
}

/// One field of a row: a text, possibly empty, or the null sigil.
#[derive(Debug, PartialEq, Eq, Clone)]
pub enum WsvValue {
    V(String),
    Null,
}

/// A field as a mathematical value: `Some(text)` for a text field, `None` for null.
pub type Field = Option<Seq<char>>;

/// A row as a mathematical value: its fields from left to right.
pub type Row = Seq<Field>;

impl View for WsvValue {
    type V = Field;

    open spec fn view(&self) -> Field {
        match self {
            WsvValue::V(text) => Some(text@),
            WsvValue::Null => None,
        }
    }
}

impl WsvValue {
    /// A text field holding a copy of `i`.
    pub fn new(i: &str) -> (value: WsvValue)
        ensures
            value@ == Some(i@),
    {
        WsvValue::V(i.to_owned())
    }

    /// The length of the field as it is counted in statistics: the number of characters of a
    /// text, and 1 for the null field, which is written with one character.
    pub fn len(&self) -> (length: usize)
        ensures
            length == field_len(self@),
    {
        match self {
            WsvValue::V(text) => text.as_str().unicode_len(),
            WsvValue::Null => 1,
        }
    }
}

impl From<String> for WsvValue {
    /// The text field that holds `string`.
    fn from(string: String) -> (value: WsvValue) {
        WsvValue::V(string)
    }
}

impl vstd::std_specs::convert::FromSpecImpl<String> for WsvValue {
    open spec fn obeys_from_spec() -> bool {
        true
    }

    open spec fn from_spec(string: String) -> WsvValue {
        WsvValue::V(string)
    }
}

impl From<&mut String> for WsvValue {
    /// The text field that holds a copy of `string`.
    fn from(string: &mut String) -> (value: WsvValue) {
        WsvValue::V(string.clone())
    }
}

impl vstd::std_specs::convert::FromSpecImpl<&mut String> for WsvValue {
    open spec fn obeys_from_spec() -> bool {
        true
    }

    open spec fn from_spec(string: &mut String) -> WsvValue {
        WsvValue::V(*string)
    }
}

/// The length of a field as it is counted in statistics.
pub open spec fn field_len(field: Field) -> nat {
    match field {
        Some(text) => text.len(),
        None => 1,
    }
}

/// The fields of a row of values.
pub open spec fn row_view(row: Seq<WsvValue>) -> Row {
    Seq::new(row.len(), |i: int| row[i]@)
}

/// The rows of a document of values.
pub open spec fn doc_view(doc: Seq<Vec<WsvValue>>) -> Seq<Row> {
    Seq::new(doc.len(), |i: int| row_view(doc[i]@))
}

/// The ways in which a line can fail to parse.
#[derive(Debug, Copy, Clone, PartialEq, Eq, Hash, Structural)]
pub enum ErrorKind {
    /// A quoted string is still open where the line ends.
    OddDoubleQuotes,
    /// A quoted string touches another token, or a quote stands where whitespace was required.
    MissingWhitespace,
}

impl ErrorKind {
    /// The sentence that describes this kind of error.
    pub fn message(self) -> (text: &'static str)
        ensures
            text@ == kind_message(self),
    {
        match self {
            ErrorKind::OddDoubleQuotes => "Odd number of double quotes detected",
            ErrorKind::MissingWhitespace => "Whitespace expected",
        }
    }
}

/// The sentence that describes a kind of error.
pub open spec fn kind_message(kind: ErrorKind) -> Seq<char> {
    match kind {
        ErrorKind::OddDoubleQuotes => "Odd number of double quotes detected"@,
        ErrorKind::MissingWhitespace => "Whitespace expected"@,
    }
}

/// A parse error: what went wrong, and at which row and column, both counted from 1.
#[derive(Debug, PartialEq, Eq, Clone)]
pub struct Error {
    pub kind: ErrorKind,
    pub row: usize,
    pub col: usize,
    /// The text of an underlying cause, where there is one.
    pub source: Option<String>,
}

/// A parse error as a mathematical value.
pub struct Fault {
    pub kind: ErrorKind,
    pub row: nat,
    pub col: nat,
    pub source: Option<Seq<char>>,
}

impl View for Error {
    type V = Fault;

    open spec fn view(&self) -> Fault {
        Fault {
            kind: self.kind,
            row: self.row as nat,
            col: self.col as nat,
            source: match self.source {
                Some(text) => Some(text@),
                None => None,
            },
        }
    }
}

impl Error {
    pub fn new(kind: ErrorKind, row: usize, col: usize, source: Option<String>) -> (error: Error)
        ensures
            error.kind == kind,
            error.row == row,
            error.col == col,
            error.source == source,
    {
        Error { kind, row, col, source }
    }
}

impl Error {
    /// The error in words, with `cause` as what is shown of the underlying cause: what went
    /// wrong, on which row and in which column, and below that the cause where there is one.
    pub fn message_with(&self, cause: Option<&str>) -> (text: String)
        ensures
            text@ == described(self.kind, self.row as nat, self.col as nat, match cause {
                Some(shown) => Some(shown@),
                None => None,
            }),
    {
        let mut text = self.kind.message().to_owned();
        text = vstd::string::StringExecFns::concat(text, " on row ");
        text = vstd::string::StringExecFns::concat(text, decimal(self.row).as_str());
        text = vstd::string::StringExecFns::concat(text, ", column ");
        text = vstd::string::StringExecFns::concat(text, decimal(self.col).as_str());
        match cause {
            Some(shown) => {
                text = vstd::string::StringExecFns::concat(text, "\nCaused by ");
                text = vstd::string::StringExecFns::concat(text, shown);
            },
            None => {},
        }
        text
    }

    /// The error in words: what went wrong, on which row and in which column, and below that
    /// the underlying cause where there is one, as its `Debug` shows it.
    pub fn message(&self) -> (text: String)
        ensures
            text@ == message_of(self@),
    {
        match &self.source {
            Some(cause) => {
                let shown = debug_text(cause.as_str());
                self.message_with(Some(shown.as_str()))
            },
            None => self.message_with(None),
        }
    }
}

/// An error in words, with what is shown of its cause.
pub open spec fn described(kind: ErrorKind, row: nat, col: nat, cause: Option<Seq<char>>) -> Seq<
    char,
> {
    let place = kind_message(kind) + " on row "@ + decimal_of(row) + ", column "@ + decimal_of(
        col,
    );
    match cause {
        Some(shown) => place + "\nCaused by "@ + shown,
        None => place,
    }
}

/// An error in words.
pub open spec fn message_of(error: Fault) -> Seq<char> {
    described(error.kind, error.row, error.col, match error.source {
        Some(cause) => Some(debug_form(cause)),
        None => None,
    })
}

/// An error of the given kind and place, without an underlying cause.
pub open spec fn fault(kind: ErrorKind, row: nat, col: nat) -> Fault {
    Fault { kind, row, col, source: None }
}

/// What parsing one line gave, as a mathematical value.
pub open spec fn line_view(result: Result<Vec<WsvValue>, Error>) -> Result<Row, Fault> {
    match result {
        Ok(row) => Ok(row_view(row@)),
        Err(error) => Err(error@),
    }
}

/// What parsing a document gave line by line, as a mathematical value.
pub open spec fn lines_view(results: Seq<Result<Vec<WsvValue>, Error>>) -> Seq<Result<Row, Fault>> {
    Seq::new(results.len(), |i: int| line_view(results[i]))
}

/// What parsing a whole document gave, as a mathematical value.
pub open spec fn strict_view(result: Result<Vec<Vec<WsvValue>>, Error>) -> Result<Seq<Row>, Fault> {
    match result {
        Ok(doc) => Ok(doc_view(doc@)),
        Err(error) => Err(error@),
    }
}

/// A document parsed line by line: every line stands with its own row or its own error.
#[derive(Debug, PartialEq, Eq, Clone)]
pub struct Wsv(pub Vec<Result<Vec<WsvValue>, Error>>);

impl View for Wsv {
    type V = Seq<Result<Row, Fault>>;

    open spec fn view(&self) -> Seq<Result<Row, Fault>> {
        lines_view(self.0@)
    }
}

} // verus!
