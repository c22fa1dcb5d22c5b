//! A tokenizer written as a Mealy machine: a set of states, an input alphabet, an output
//! alphabet, an initial state, a transition function and an output function of state and input.
//! The machine reads a whole text, line feeds included, and emits one change per event; a
//! builder applies the changes to the document under construction.
use vstd::prelude::*;
use crate::data_model::{
    doc_view, fault, line_view, lines_view, row_view, strict_view, Error, ErrorKind, Fault, Parser,
    Row, WsvValue,
};
use crate::io::from_string_with_parser;
use crate::text::{class_of, classify, events, events_of, lines, single, CharClass};
use crate::transducer::{
    lemma_single_line, lemma_stream_rows, on_char, on_end, stream, tokenize, tokenize_all,
    tokenize_each, tokenize_rows, Config, Mode,
};

verus! {

/// A Mealy machine: its three alphabets, its initial state and its two functions.
pub trait Mealy {
    type StateSpace;

    type InputAlphabet;

    type OutputAlphabet;

    /// The state in which the machine starts.
    spec fn initial() -> Self::StateSpace;

    /// The state that follows `state` on `input`.
    spec fn delta(state: Self::StateSpace, input: Self::InputAlphabet) -> Self::StateSpace;

    /// What the machine emits when `input` has led it to `state`.
    spec fn lambda(state: Self::StateSpace, input: Self::InputAlphabet) -> Self::OutputAlphabet;

    /// The state in which the machine starts.
    fn start() -> (state: Self::StateSpace)
        ensures
            state == Self::initial(),
    ;

    /// The state that follows `state` on `input`.
    fn transition(state: &Self::StateSpace, input: &Self::InputAlphabet) -> (next:
        Self::StateSpace)
        ensures
            next == Self::delta(*state, *input),
    ;

    /// What the machine emits when `input` has led it to `state`.
    fn output(state: &Self::StateSpace, input: &Self::InputAlphabet) -> (out: Self::OutputAlphabet)
        ensures
            out == Self::lambda(*state, *input),
    ;
}

/// The state that a machine has reached when it has read `input` from its initial state.
pub open spec fn reached<M: Mealy>(input: Seq<M::InputAlphabet>) -> M::StateSpace
    decreases input.len(),
{
    if input.len() == 0 {
        M::initial()
    } else {
        M::delta(reached::<M>(input.drop_last()), input.last())
    }
}

/// What a machine has emitted when it has read `input` from its initial state.
pub open spec fn emitted<M: Mealy>(input: Seq<M::InputAlphabet>) -> Seq<
    M::OutputAlphabet,
>
    decreases input.len(),
{
    if input.len() == 0 {
        Seq::empty()
    } else {
        emitted::<M>(input.drop_last()).push(M::lambda(reached::<M>(input), input.last()))
    }
}

/// What the machine emits on each of the inputs in turn, from its initial state.
pub fn process_vec<M: Mealy>(input: Vec<M::InputAlphabet>) -> (output: Vec<M::OutputAlphabet>)
    ensures
        output@ == emitted::<M>(input@),
{
    let mut state = M::start();
    let mut output: Vec<M::OutputAlphabet> = Vec::new();
    let mut at: usize = 0;
    assert(input@.take(0) =~= Seq::empty());
    while at < input.len()
        invariant
            at <= input.len(),
            state == reached::<M>(input@.take(at as int)),
            output@ == emitted::<M>(input@.take(at as int)),
        decreases input.len() - at,
    {
        assert(input@.take(at + 1).drop_last() =~= input@.take(at as int));
        state = M::transition(&state, &input[at]);
        output.push(M::output(&state, &input[at]));
        at += 1;
    }
    assert(input@.take(at as int) =~= input@);
    output
}

/// The machine that tokenizes a text.
#[derive(Debug, Default)]
pub struct WsvMachine {}

/// The states of the machine.
#[derive(Debug, PartialEq, Eq, Hash, Clone, Copy, Structural)]
pub enum State {
    Default,
    StartComment,
    Comment,
    Finished,
    MayBeNull,
    Null,
    Value,
    EndOfValue,
    Error(ErrorKind),
    StartString,
    EscapeOrEndOfString,
    MayBeEscapedReturn,
    EscapedReturn,
    EscapedDoubleQuote,
    EndOfValueAndEndOfLine,
    NullEndOfLine,
    EndOfLine,
    StringPart,
}

/// The changes that the machine asks of the builder. Every change also counts one event.
#[derive(Debug, PartialEq, Eq, Clone, Copy, Hash, Structural)]
pub enum Transform {
    AddValue,
    AddValueAndRow,
    AddNull,
    AddNullAndRow,
    AddRow,
    AddError(ErrorKind),
    PushChar(char),
    PushDash,
    PushQuote,
    PushNewline,
    IncrementColumnNumber,
}

impl State {
    /// Whether the state stands outside any field, so that a field may begin.
    pub open spec fn at_boundary(self) -> bool {
        self == State::Default || self == State::EndOfValue || self == State::Null || self
            == State::EndOfLine || self == State::EndOfValueAndEndOfLine || self
            == State::NullEndOfLine
    }

    /// Whether the state stands inside a quoted string, between two of its characters.
    pub open spec fn in_string(self) -> bool {
        self == State::StartString || self == State::EscapedReturn || self
            == State::EscapedDoubleQuote || self == State::StringPart
    }

    /// The mode of the transducer that the state stands for, once its change has been made.
    pub open spec fn mode(self) -> Mode {
        if self == State::StartComment || self == State::Comment {
            Mode::Comment
        } else if self == State::MayBeNull {
            Mode::MaybeNull
        } else if self == State::Value {
            Mode::UnquotedValue
        } else if self.in_string() {
            Mode::InsideQuotedString
        } else if self == State::EscapeOrEndOfString {
            Mode::QuoteOrEscape
        } else if self == State::MayBeEscapedReturn {
            Mode::MaybeEscapedNewline
        } else {
            Mode::Default
        }
    }
}

impl Mealy for WsvMachine {
    type StateSpace = State;

    type InputAlphabet = Option<char>;

    type OutputAlphabet = Transform;

    open spec fn initial() -> State {
        State::Default
    }

    open spec fn delta(state: State, input: Option<char>) -> State {
        if state == State::Finished || state is Error {
            State::Finished
        } else if state == State::Comment || state == State::StartComment {
            match input {
                None => State::Finished,
                Some(c) => if class_of(c) == CharClass::LineFeed {
                    State::EndOfLine
                } else {
                    State::Comment
                },
            }
        } else if state.at_boundary() {
            match input {
                None => State::Finished,
                Some(c) => match class_of(c) {
                    CharClass::LineFeed => State::EndOfLine,
                    CharClass::Hash => State::Comment,
                    CharClass::Dash => State::MayBeNull,
                    CharClass::Quote => State::StartString,
                    CharClass::Space => State::Default,
                    _ => State::Value,
                },
            }
        } else if state == State::MayBeNull {
            match input {
                None => State::Null,
                Some(c) => match class_of(c) {
                    CharClass::LineFeed => State::NullEndOfLine,
                    CharClass::Space => State::Null,
                    CharClass::Quote => State::Error(ErrorKind::MissingWhitespace),
                    _ => State::Value,
                },
            }
        } else if state == State::Value {
            match input {
                None => State::EndOfValue,
                Some(c) => match class_of(c) {
                    CharClass::LineFeed => State::EndOfValueAndEndOfLine,
                    CharClass::Quote => State::Error(ErrorKind::MissingWhitespace),
                    CharClass::Hash => State::StartComment,
                    CharClass::Space => State::EndOfValue,
                    _ => State::Value,
                },
            }
        } else if state.in_string() {
            match input {
                None => State::Error(ErrorKind::OddDoubleQuotes),
                Some(c) => match class_of(c) {
                    CharClass::LineFeed => State::Error(ErrorKind::OddDoubleQuotes),
                    CharClass::Quote => State::EscapeOrEndOfString,
                    _ => State::StringPart,
                },
            }
        } else if state == State::EscapeOrEndOfString {
            match input {
                None => State::EndOfValue,
                Some(c) => match class_of(c) {
                    CharClass::LineFeed => State::EndOfValueAndEndOfLine,
                    CharClass::Hash => State::StartComment,
                    CharClass::Quote => State::EscapedDoubleQuote,
                    CharClass::Slash => State::MayBeEscapedReturn,
                    CharClass::Space => State::EndOfValue,
                    _ => State::Error(ErrorKind::MissingWhitespace),
                },
            }
        } else {
            match input {
                None => State::Error(ErrorKind::MissingWhitespace),
                Some(c) => match class_of(c) {
                    CharClass::Quote => State::EscapedReturn,
                    _ => State::Error(ErrorKind::MissingWhitespace),
                },
            }
        }
    }

    open spec fn lambda(state: State, input: Option<char>) -> Transform {
        match state {
            State::Value | State::StringPart => match input {
                Some(c) => Transform::PushChar(c),
                None => Transform::IncrementColumnNumber,
            },
            State::Error(kind) => Transform::AddError(kind),
            State::MayBeNull => Transform::PushDash,
            State::EscapedReturn => Transform::PushNewline,
            State::EscapedDoubleQuote => Transform::PushQuote,
            State::EndOfValue | State::StartComment => Transform::AddValue,
            State::Null => Transform::AddNull,
            State::EndOfLine => Transform::AddRow,
            State::NullEndOfLine => Transform::AddNullAndRow,
            State::EndOfValueAndEndOfLine => Transform::AddValueAndRow,
            _ => Transform::IncrementColumnNumber,
        }
    }

    fn start() -> (state: State) {
        State::Default
    }

    fn output(state: &State, input: &Option<char>) -> (out: Transform) {
        match (state, input) {
            (State::Value, Some(c)) => Transform::PushChar(*c),
            (State::Value, _) => Transform::IncrementColumnNumber,
            (State::StringPart, Some(c)) => Transform::PushChar(*c),
            (State::StringPart, _) => Transform::IncrementColumnNumber,
            (State::Error(kind), _) => Transform::AddError(*kind),
            (State::MayBeNull, _) => Transform::PushDash,
            (State::EscapedReturn, _) => Transform::PushNewline,
            (State::EscapedDoubleQuote, _) => Transform::PushQuote,
            (State::EndOfValue, _) => Transform::AddValue,
            (State::StartComment, _) => Transform::AddValue,
            (State::Null, _) => Transform::AddNull,
            (State::EndOfLine, _) => Transform::AddRow,
            (State::NullEndOfLine, _) => Transform::AddNullAndRow,
            (State::EndOfValueAndEndOfLine, _) => Transform::AddValueAndRow,
            (_, _) => Transform::IncrementColumnNumber,
        }
    }

    fn transition(state: &State, input: &Option<char>) -> (next: State) {
        let class = match input {
            Some(c) => Some(classify(*c)),
            None => None,
        };
        match (state, class) {
            (State::Finished, _) => State::Finished,
            (State::Error(_), _) => State::Finished,
            (State::Comment, Some(CharClass::LineFeed)) => State::EndOfLine,
            (State::Comment, None) => State::Finished,
            (State::Comment, _) => State::Comment,
            (State::StartComment, Some(CharClass::LineFeed)) => State::EndOfLine,
            (State::StartComment, None) => State::Finished,
            (State::StartComment, _) => State::Comment,
            (State::EndOfValueAndEndOfLine, None) => State::Finished,
            (State::EndOfValueAndEndOfLine, Some(CharClass::LineFeed)) => State::EndOfLine,
            (State::EndOfValueAndEndOfLine, Some(CharClass::Hash)) => State::Comment,
            (State::EndOfValueAndEndOfLine, Some(CharClass::Dash)) => State::MayBeNull,
            (State::EndOfValueAndEndOfLine, Some(CharClass::Quote)) => State::StartString,
            (State::EndOfValueAndEndOfLine, Some(CharClass::Space)) => State::Default,
            (State::EndOfValueAndEndOfLine, Some(_)) => State::Value,
            (State::NullEndOfLine, None) => State::Finished,
            (State::NullEndOfLine, Some(CharClass::LineFeed)) => State::EndOfLine,
            (State::NullEndOfLine, Some(CharClass::Hash)) => State::Comment,
            (State::NullEndOfLine, Some(CharClass::Dash)) => State::MayBeNull,
            (State::NullEndOfLine, Some(CharClass::Quote)) => State::StartString,
            (State::NullEndOfLine, Some(CharClass::Space)) => State::Default,
            (State::NullEndOfLine, Some(_)) => State::Value,
            (State::EndOfLine, None) => State::Finished,
            (State::EndOfLine, Some(CharClass::LineFeed)) => State::EndOfLine,
            (State::EndOfLine, Some(CharClass::Hash)) => State::Comment,
            (State::EndOfLine, Some(CharClass::Dash)) => State::MayBeNull,
            (State::EndOfLine, Some(CharClass::Quote)) => State::StartString,
            (State::EndOfLine, Some(CharClass::Space)) => State::Default,
            (State::EndOfLine, Some(_)) => State::Value,
            (State::Default, None) => State::Finished,
            (State::Default, Some(CharClass::LineFeed)) => State::EndOfLine,
            (State::Default, Some(CharClass::Hash)) => State::Comment,
            (State::Default, Some(CharClass::Dash)) => State::MayBeNull,
            (State::Default, Some(CharClass::Quote)) => State::StartString,
            (State::Default, Some(CharClass::Space)) => State::Default,
            (State::Default, Some(_)) => State::Value,
            (State::EndOfValue, None) => State::Finished,
            (State::EndOfValue, Some(CharClass::LineFeed)) => State::EndOfLine,
            (State::EndOfValue, Some(CharClass::Hash)) => State::Comment,
            (State::EndOfValue, Some(CharClass::Dash)) => State::MayBeNull,
            (State::EndOfValue, Some(CharClass::Quote)) => State::StartString,
            (State::EndOfValue, Some(CharClass::Space)) => State::Default,
            (State::EndOfValue, Some(_)) => State::Value,
            (State::Null, None) => State::Finished,
            (State::Null, Some(CharClass::LineFeed)) => State::EndOfLine,
            (State::Null, Some(CharClass::Hash)) => State::Comment,
            (State::Null, Some(CharClass::Dash)) => State::MayBeNull,
            (State::Null, Some(CharClass::Quote)) => State::StartString,
            (State::Null, Some(CharClass::Space)) => State::Default,
            (State::Null, Some(_)) => State::Value,
            (State::MayBeNull, None) => State::Null,
            (State::MayBeNull, Some(CharClass::LineFeed)) => State::NullEndOfLine,
            (State::MayBeNull, Some(CharClass::Space)) => State::Null,
            (State::MayBeNull, Some(CharClass::Quote)) => State::Error(
                ErrorKind::MissingWhitespace,
            ),
            (State::MayBeNull, Some(_)) => State::Value,
            (State::Value, None) => State::EndOfValue,
            (State::Value, Some(CharClass::LineFeed)) => State::EndOfValueAndEndOfLine,
            (State::Value, Some(CharClass::Quote)) => State::Error(ErrorKind::MissingWhitespace),
            (State::Value, Some(CharClass::Hash)) => State::StartComment,
            (State::Value, Some(CharClass::Space)) => State::EndOfValue,
            (State::Value, Some(_)) => State::Value,
            (State::StartString, None) => State::Error(ErrorKind::OddDoubleQuotes),
            (State::StartString, Some(CharClass::LineFeed)) => State::Error(
                ErrorKind::OddDoubleQuotes,
            ),
            (State::StartString, Some(CharClass::Quote)) => State::EscapeOrEndOfString,
            (State::StartString, Some(_)) => State::StringPart,
            (State::EscapedReturn, None) => State::Error(ErrorKind::OddDoubleQuotes),
            (State::EscapedReturn, Some(CharClass::LineFeed)) => State::Error(
                ErrorKind::OddDoubleQuotes,
            ),
            (State::EscapedReturn, Some(CharClass::Quote)) => State::EscapeOrEndOfString,
            (State::EscapedReturn, Some(_)) => State::StringPart,
            (State::EscapedDoubleQuote, None) => State::Error(ErrorKind::OddDoubleQuotes),
            (State::EscapedDoubleQuote, Some(CharClass::LineFeed)) => State::Error(
                ErrorKind::OddDoubleQuotes,
            ),
            (State::EscapedDoubleQuote, Some(CharClass::Quote)) => State::EscapeOrEndOfString,
            (State::EscapedDoubleQuote, Some(_)) => State::StringPart,
            (State::EscapeOrEndOfString, None) => State::EndOfValue,
            (State::EscapeOrEndOfString, Some(CharClass::LineFeed)) => State::EndOfValueAndEndOfLine,
            (State::EscapeOrEndOfString, Some(CharClass::Hash)) => State::StartComment,
            (State::EscapeOrEndOfString, Some(CharClass::Quote)) => State::EscapedDoubleQuote,
            (State::EscapeOrEndOfString, Some(CharClass::Slash)) => State::MayBeEscapedReturn,
            (State::EscapeOrEndOfString, Some(CharClass::Space)) => State::EndOfValue,
            (State::EscapeOrEndOfString, _) => State::Error(ErrorKind::MissingWhitespace),
            (State::MayBeEscapedReturn, Some(CharClass::Quote)) => State::EscapedReturn,
            (State::MayBeEscapedReturn, _) => State::Error(ErrorKind::MissingWhitespace),
            (State::StringPart, None) => State::Error(ErrorKind::OddDoubleQuotes),
            (State::StringPart, Some(CharClass::LineFeed)) => State::Error(
                ErrorKind::OddDoubleQuotes,
            ),
            (State::StringPart, Some(CharClass::Quote)) => State::EscapeOrEndOfString,
            (State::StringPart, Some(_)) => State::StringPart,
        }
    }
}

/// The document under construction, with the place of the last event.
#[derive(Debug)]
pub struct Data {
    pub row: usize,
    pub col: usize,
    pub buf: String,
    pub out: Vec<Vec<WsvValue>>,
    pub err: Option<Error>,
}

/// The document under construction as a mathematical value.
pub struct Draft {
    pub row: nat,
    pub col: nat,
    pub buf: Seq<char>,
    pub out: Seq<Row>,
    pub err: Option<Fault>,
}

impl View for Data {
    type V = Draft;

    open spec fn view(&self) -> Draft {
        Draft {
            row: self.row as nat,
            col: self.col as nat,
            buf: self.buf@,
            out: doc_view(self.out@),
            err: match self.err {
                Some(error) => Some(error@),
                None => None,
            },
        }
    }
}

impl Draft {
    /// The draft with `field` at the end of its last row.
    pub open spec fn with_field(self, field: Option<Seq<char>>) -> Draft {
        Draft {
            buf: Seq::empty(),
            out: self.out.drop_last().push(self.out.last().push(field)),
            ..self
        }
    }

    /// The draft with a new empty row, at the start of that row.
    pub open spec fn with_row(self) -> Draft {
        Draft { row: self.row + 1, col: 0, out: self.out.push(Seq::empty()), ..self }
    }

    /// The draft once one event has been counted and `transform` has been made.
    pub open spec fn with(self, transform: Transform) -> Draft {
        let counted = Draft { col: self.col + 1, ..self };
        match transform {
            Transform::PushChar(c) => Draft { buf: self.buf.push(c), ..counted },
            Transform::AddError(kind) => Draft {
                err: Some(fault(kind, self.row, self.col + 1)),
                ..counted
            },
            Transform::PushDash => Draft { buf: self.buf.push('-'), ..counted },
            Transform::PushQuote => Draft { buf: self.buf.push('"'), ..counted },
            Transform::PushNewline => Draft { buf: self.buf.push('\n'), ..counted },
            Transform::AddValue => counted.with_field(Some(self.buf)),
            Transform::AddNull => counted.with_field(None),
            Transform::IncrementColumnNumber => counted,
            Transform::AddValueAndRow => counted.with_field(Some(self.buf)).with_row(),
            Transform::AddNullAndRow => counted.with_field(None).with_row(),
            Transform::AddRow => counted.with_row(),
        }
    }

    /// What the draft amounts to as a document when no more events come.
    pub open spec fn outcome(self) -> Result<Seq<Row>, Fault> {
        match self.err {
            Some(error) => Err(error),
            None => Ok(self.out),
        }
    }

    /// What the draft amounts to as a single row when no more events come.
    pub open spec fn last_row(self) -> Result<Row, Fault> {
        match self.err {
            Some(error) => Err(error),
            None => Ok(self.out.last()),
        }
    }
}

impl Data {
    /// The draft of a document that has one row, with nothing in it yet.
    pub fn new() -> (data: Data)
        ensures
            data@ == (Draft {
                row: 1,
                col: 0,
                buf: Seq::empty(),
                out: seq![Seq::empty()],
                err: None,
            }),
    {
        let mut out: Vec<Vec<WsvValue>> = Vec::new();
        out.push(Vec::new());
        let data = Data { row: 1, col: 0, buf: String::new(), out, err: None };
        assert(data@.out =~~= seq![Seq::empty()]);
        data
    }

    /// The draft with its current row numbered as the row that follows `idx` earlier ones.
    pub fn at_row(self, idx: usize) -> (data: Data)
        requires
            idx < usize::MAX,
        ensures
            data@ == (Draft { row: (idx + 1) as nat, ..self@ }),
    {
        let mut data = self;
        data.row = idx + 1;
        data
    }

    /// Puts `value` at the end of the last row.
    fn add(&mut self, value: WsvValue)
        requires
            old(self).out.len() > 0,
        ensures
            final(self).row == old(self).row,
            final(self).col == old(self).col,
            final(self).err == old(self).err,
            final(self).buf@ == Seq::<char>::empty(),
            final(self).out.len() == old(self).out.len(),
            final(self)@.out == old(self)@.out.drop_last().push(old(self)@.out.last().push(value@)),
    {
        let mut last = match self.out.pop() {
            Some(last) => last,
            None => Vec::new(),
        };
        let ghost before = last@;
        last.push(value);
        assert(row_view(last@) =~= row_view(before).push(value@));
        self.out.push(last);
        self.buf = String::new();
        assert(self@.out =~= old(self)@.out.drop_last().push(old(self)@.out.last().push(value@)));
    }

    /// Opens a new row.
    fn add_row(&mut self)
        requires
            old(self).row < usize::MAX,
        ensures
            final(self)@ == old(self)@.with_row(),
            final(self).out.len() == old(self).out.len() + 1,
    {
        self.out.push(Vec::new());
        self.row += 1;
        self.col = 0;
        assert(self@.out =~~= old(self)@.out.push(Seq::empty()));
    }

    /// Counts one event and makes the change that `transform` names.
    pub fn apply(&mut self, transform: Transform)
        requires
            old(self).col < usize::MAX,
            old(self).out.len() > 0,
            old(self).row < usize::MAX || !adds_row(transform),
        ensures
            final(self)@ == old(self)@.with(transform),
            final(self).out.len() > 0,
    {
        self.col += 1;
        match transform {
            Transform::PushChar(c) => {
                self.buf.push(c);
            },
            Transform::AddError(kind) => {
                self.err = Some(Error::new(kind, self.row, self.col, None));
            },
            Transform::PushDash => {
                self.buf.push('-');
            },
            Transform::PushQuote => {
                self.buf.push('"');
            },
            Transform::PushNewline => {
                self.buf.push('\n');
            },
            Transform::AddValue => {
                let value = WsvValue::V(self.buf.clone());
                self.add(value);
            },
            Transform::AddNull => {
                self.add(WsvValue::Null);
            },
            Transform::IncrementColumnNumber => {},
            Transform::AddValueAndRow => {
                let value = WsvValue::V(self.buf.clone());
                self.add(value);
                self.add_row();
            },
            Transform::AddNullAndRow => {
                self.add(WsvValue::Null);
                self.add_row();
            },
            Transform::AddRow => {
                self.add_row();
            },
        }
    }

    /// The finished document, or the error that was met.
    pub fn reconcile(self) -> (result: Result<Vec<Vec<WsvValue>>, Error>)
        ensures
            strict_view(result) == self@.outcome(),
    {
        match self.err {
            Some(e) => Err(e),
            None => Ok(self.out),
        }
    }

    /// The last row of the document, or the error that was met.
    pub fn reconcile_row(self) -> (result: Result<Vec<WsvValue>, Error>)
        requires
            self.out.len() > 0,
        ensures
            line_view(result) == self@.last_row(),
    {
        let mut out = self.out;
        match self.err {
            Some(e) => Err(e),
            None => match out.pop() {
                Some(row) => Ok(row),
                None => Ok(Vec::new()),
            },
        }
    }
}

/// Whether a change opens a new row.
pub open spec fn adds_row(transform: Transform) -> bool {
    transform == Transform::AddRow || transform == Transform::AddValueAndRow || transform
        == Transform::AddNullAndRow
}

/// What is still owed when the machine is in `state` with `draft`, before the event at `at`.
pub open spec fn owed(state: State, draft: Draft, text: Seq<char>, at: int) -> Result<
    Seq<Row>,
    Fault,
> {
    match draft.err {
        Some(error) => Err(error),
        None => if state == State::Finished || at > text.len() {
            Ok(draft.out)
        } else {
            stream(
                Config { mode: state.mode(), buf: draft.buf, row: draft.out.last() },
                draft.out.drop_last(),
                draft.row,
                draft.col,
                text.skip(at),
            )
        },
    }
}

/// What holds of the machine and the builder between two events.
pub open spec fn coherent(state: State, draft: Draft) -> bool {
    &&& draft.out.len() > 0
    &&& state is Error ==> draft.err is Some
    &&& draft.err is Some ==> state is Error || state == State::Finished
    &&& (state.at_boundary() || state == State::StartString || state == State::Comment || state
        == State::StartComment) ==> draft.buf.len() == 0
    &&& state == State::MayBeNull ==> draft.buf == seq!['-']
}

/// One event keeps what is owed: the machine with its builder and the transducer agree.
pub proof fn lemma_step(state: State, draft: Draft, text: Seq<char>, at: int)
    requires
        0 <= at <= text.len(),
        coherent(state, draft),
    ensures
        ({
            let event = events(text)[at];
            let next = WsvMachine::delta(state, event);
            let after = draft.with(WsvMachine::lambda(next, event));
            &&& coherent(next, after)
            &&& owed(next, after, text, at + 1) == owed(state, draft, text, at)
            &&& after.row <= draft.row + 1
            &&& at < text.len() && text[at] != '\n' ==> after.row == draft.row
            &&& adds_row(WsvMachine::lambda(next, event)) ==> at < text.len() && text[at] == '\n'
        }),
{
    let event = events(text)[at];
    let next = WsvMachine::delta(state, event);
    let after = draft.with(WsvMachine::lambda(next, event));
    let cfg = Config { mode: state.mode(), buf: draft.buf, row: draft.out.last() };
    if draft.err is Some || state == State::Finished {
    } else if at < text.len() {
        let c = text[at];
        assert(event == Some(c));
        assert(text.skip(at)[0] == c);
        assert(text.skip(at).skip(1) =~= text.skip(at + 1));
        assert(draft.buf.len() == 0 ==> draft.buf =~= Seq::empty());
        assert(seq![c] =~= Seq::<char>::empty().push(c));
        if c == '\n' {
            match on_end(cfg) {
                Ok(last) => {
                    assert(after.out.drop_last() =~= draft.out.drop_last().push(last));
                    assert(after.out.last() =~= Seq::empty());
                },
                Err(_) => {},
            }
        } else {
            match on_char(cfg, c) {
                Ok(following) => {
                    assert(after.out.drop_last() =~= draft.out.drop_last());
                    assert(after.out.last() =~= following.row);
                    assert(after.buf =~= following.buf);
                },
                Err(_) => {},
            }
        }
    } else {
        assert(event is None);
        assert(text.skip(at).len() == 0);
        match on_end(cfg) {
            Ok(last) => {
                assert(after.out =~= draft.out.drop_last().push(last));
            },
            Err(_) => {},
        }
    }
}

/// A machine emits one output for each input.
pub proof fn lemma_emitted_len(input: Seq<Option<char>>)
    ensures
        emitted::<WsvMachine>(input).len() == input.len(),
    decreases input.len(),
{
    if input.len() > 0 {
        lemma_emitted_len(input.drop_last());
    }
}

/// The output for an input depends on the inputs up to it alone.
pub proof fn lemma_emitted_at(input: Seq<Option<char>>, at: int)
    requires
        0 <= at < input.len(),
    ensures
        emitted::<WsvMachine>(input).len() == input.len(),
        emitted::<WsvMachine>(input)[at] == WsvMachine::lambda(
            reached::<WsvMachine>(input.take(at + 1)),
            input[at],
        ),
    decreases input.len(),
{
    lemma_emitted_len(input);
    lemma_emitted_len(input.drop_last());
    if at == input.len() - 1 {
        assert(input.take(at + 1) =~= input);
    } else {
        lemma_emitted_at(input.drop_last(), at);
        assert(input.drop_last().take(at + 1) =~= input.take(at + 1));
    }
}

/// Each line of `i` with its own row or its own error.
pub fn parse(i: &str) -> (result: Vec<Result<Vec<WsvValue>, Error>>)
    ensures
        lines_view(result@) == tokenize_each(1, lines(i@)),
{
    from_string_with_parser(i, Parser::Mealy)
}

/// The rows of all the lines of `i`, or the error of the first line that has one. The machine
/// reads the text in one pass.
pub fn parse_strict(i: &str) -> (result: Result<Vec<Vec<WsvValue>>, Error>)
    ensures
        strict_view(result) == tokenize_all(lines(i@)),
{
    let input_set = events_of(i);
    let changes = process_vec::<WsvMachine>(input_set);
    let mut data = Data::new();
    let mut at: usize = 0;
    let ghost mut state = State::Default;
    let ghost text = i@;
    proof {
        assert(text.skip(0) =~= text);
        assert(events(text).take(0) =~= Seq::empty());
        assert(data@.out.drop_last() =~= Seq::empty());
        assert(data@.buf =~= Seq::empty());
        lemma_stream_rows(1, text);
        lemma_emitted_len(events(text));
    }
    while at < changes.len()
        invariant
            changes@ == emitted::<WsvMachine>(events(text)),
            changes@.len() == text.len() + 1,
            at <= changes.len(),
            state == reached::<WsvMachine>(events(text).take(at as int)),
            coherent(state, data@),
            data.out.len() > 0,
            data@.col <= at,
            data@.row <= 1 + at,
            owed(state, data@, text, at as int) == tokenize_rows(1, lines(text)),
        decreases changes.len() - at,
    {
        proof {
            lemma_step(state, data@, text, at as int);
            lemma_emitted_at(events(text), at as int);
            assert(events(text).take(at + 1).drop_last() =~= events(text).take(at as int));
            state = WsvMachine::delta(state, events(text)[at as int]);
        }
        data.apply(changes[at]);
        at += 1;
    }
    data.reconcile()
}

/// The fields of `input.1`, a line without line feed that follows `input.0` earlier lines, or
/// its first error.
pub fn parse_line(input: (usize, &str)) -> (result: Result<Vec<WsvValue>, Error>)
    requires
        input.0 < usize::MAX,
        single(input.1@),
    ensures
        line_view(result) == tokenize((input.0 + 1) as nat, input.1@),
{
    let data = Data::new().at_row(input.0);
    let input_set = events_of(input.1);
    let changes = process_vec::<WsvMachine>(input_set);
    let mut data = data;
    let mut at: usize = 0;
    let ghost mut state = State::Default;
    let ghost text = input.1@;
    let ghost first = (input.0 + 1) as nat;
    proof {
        assert(text.skip(0) =~= text);
        assert(events(text).take(0) =~= Seq::empty());
        assert(data@.out.drop_last() =~= Seq::empty());
        assert(data@.buf =~= Seq::empty());
        lemma_stream_rows(first, text);
        lemma_emitted_len(events(text));
        lemma_single_line(first, text);
    }
    while at < changes.len()
        invariant
            changes@ == emitted::<WsvMachine>(events(text)),
            changes@.len() == text.len() + 1,
            single(text),
            at <= changes.len(),
            state == reached::<WsvMachine>(events(text).take(at as int)),
            coherent(state, data@),
            data.out.len() > 0,
            data@.col <= at,
            data@.row == first,
            owed(state, data@, text, at as int) == tokenize_rows(first, lines(text)),
        decreases changes.len() - at,
    {
        proof {
            lemma_step(state, data@, text, at as int);
            lemma_emitted_at(events(text), at as int);
            assert(events(text).take(at + 1).drop_last() =~= events(text).take(at as int));
            state = WsvMachine::delta(state, events(text)[at as int]);
        }
        data.apply(changes[at]);
        at += 1;
    }
    data.reconcile_row()
}

} // verus!
