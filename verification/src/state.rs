//! A tokenizer built from a state machine whose states say what has just happened: the state
//! reached by an event names the change that the event makes to the row under construction.
use vstd::prelude::*;
use crate::data_model::{
    fault, line_view, row_view, strict_view, Error, ErrorKind, Fault, Parser, Row, WsvValue,
};
use crate::io::strict_with_parser;
use crate::text::{class_of, classify, events, events_of, lines, CharClass};
use crate::transducer::{
    lemma_comment, on_char, scan, start, tokenize, tokenize_all, Config, Mode,
};

verus! {

/// The states of the machine. A state that carries a character has just read that character
/// into the field under construction.
#[derive(Debug, PartialEq, Eq, Clone, Copy, Structural)]
pub enum State {
    Default,
    Comment,
    Finished,
    MayBeNull,
    Null,
    Value(char),
    EndOfValue,
    Error(ErrorKind),
    StartString,
    EscapeOrEndOfString,
    MayBeEscapedReturn,
    EscapedReturn,
    EscapedDoubleQuote,
    StringPart(char),
}

impl State {
    /// The state that follows `self` on `event`, where `None` is the end of the line.
    pub open spec fn next(self, event: Option<char>) -> State {
        match self {
            State::Finished | State::Comment | State::Error(_) => State::Finished,
            State::Default | State::EndOfValue | State::Null => match event {
                None => State::Finished,
                Some(c) => match class_of(c) {
                    CharClass::Hash => State::Finished,
                    CharClass::Dash => State::MayBeNull,
                    CharClass::Quote => State::StartString,
                    CharClass::LineFeed | CharClass::Space => State::Default,
                    _ => State::Value(c),
                },
            },
            State::MayBeNull => match event {
                None => State::Null,
                Some(c) => match class_of(c) {
                    CharClass::LineFeed | CharClass::Space => State::Null,
                    CharClass::Quote => State::Error(ErrorKind::MissingWhitespace),
                    _ => State::Value(c),
                },
            },
            State::Value(_) => match event {
                None => State::EndOfValue,
                Some(c) => match class_of(c) {
                    CharClass::Quote => State::Error(ErrorKind::MissingWhitespace),
                    CharClass::Hash => State::Comment,
                    CharClass::LineFeed | CharClass::Space => State::EndOfValue,
                    _ => State::Value(c),
                },
            },
            State::StartString | State::EscapedReturn | State::EscapedDoubleQuote
            | State::StringPart(_) => match event {
                None => State::Error(ErrorKind::OddDoubleQuotes),
                Some(c) => match class_of(c) {
                    CharClass::Quote => State::EscapeOrEndOfString,
                    CharClass::LineFeed => State::Error(ErrorKind::OddDoubleQuotes),
                    _ => State::StringPart(c),
                },
            },
            State::EscapeOrEndOfString => match event {
                None => State::EndOfValue,
                Some(c) => match class_of(c) {
                    CharClass::Hash => State::Comment,
                    CharClass::Quote => State::EscapedDoubleQuote,
                    CharClass::Slash => State::MayBeEscapedReturn,
                    CharClass::LineFeed | CharClass::Space => State::EndOfValue,
                    _ => State::Error(ErrorKind::MissingWhitespace),
                },
            },
            State::MayBeEscapedReturn => match event {
                None => State::Error(ErrorKind::MissingWhitespace),
                Some(c) => match class_of(c) {
                    CharClass::Quote => State::EscapedReturn,
                    _ => State::Error(ErrorKind::MissingWhitespace),
                },
            },
        }
    }

    /// The state that follows `self` on `event`, where `None` is the end of the line.
    pub fn transition(self, event: Option<char>) -> (state: State)
        ensures
            state == self.next(event),
    {
        let class = match event {
            Some(c) => Some((c, classify(c))),
            None => None,
        };
        match (self, class) {
            (State::Finished, _) => State::Finished,
            (State::Comment, _) => State::Finished,
            (State::Error(_), _) => State::Finished,
            (State::Default, None) => State::Finished,
            (State::Default, Some((_, CharClass::Hash))) => State::Finished,
            (State::Default, Some((_, CharClass::Dash))) => State::MayBeNull,
            (State::Default, Some((_, CharClass::Quote))) => State::StartString,
            (State::Default, Some((_, CharClass::LineFeed))) => State::Default,
            (State::Default, Some((_, CharClass::Space))) => State::Default,
            (State::Default, Some((c, _))) => State::Value(c),
            (State::EndOfValue, None) => State::Finished,
            (State::EndOfValue, Some((_, CharClass::Hash))) => State::Finished,
            (State::EndOfValue, Some((_, CharClass::Dash))) => State::MayBeNull,
            (State::EndOfValue, Some((_, CharClass::Quote))) => State::StartString,
            (State::EndOfValue, Some((_, CharClass::LineFeed))) => State::Default,
            (State::EndOfValue, Some((_, CharClass::Space))) => State::Default,
            (State::EndOfValue, Some((c, _))) => State::Value(c),
            (State::Null, None) => State::Finished,
            (State::Null, Some((_, CharClass::Hash))) => State::Finished,
            (State::Null, Some((_, CharClass::Dash))) => State::MayBeNull,
            (State::Null, Some((_, CharClass::Quote))) => State::StartString,
            (State::Null, Some((_, CharClass::LineFeed))) => State::Default,
            (State::Null, Some((_, CharClass::Space))) => State::Default,
            (State::Null, Some((c, _))) => State::Value(c),
            (State::MayBeNull, None) => State::Null,
            (State::MayBeNull, Some((_, CharClass::LineFeed))) => State::Null,
            (State::MayBeNull, Some((_, CharClass::Space))) => State::Null,
            (State::MayBeNull, Some((_, CharClass::Quote))) => State::Error(
                ErrorKind::MissingWhitespace,
            ),
            (State::MayBeNull, Some((c, _))) => State::Value(c),
            (State::Value(_), None) => State::EndOfValue,
            (State::Value(_), Some((_, CharClass::Quote))) => State::Error(
                ErrorKind::MissingWhitespace,
            ),
            (State::Value(_), Some((_, CharClass::Hash))) => State::Comment,
            (State::Value(_), Some((_, CharClass::LineFeed))) => State::EndOfValue,
            (State::Value(_), Some((_, CharClass::Space))) => State::EndOfValue,
            (State::Value(_), Some((c, _))) => State::Value(c),
            (State::StartString, None) => State::Error(ErrorKind::OddDoubleQuotes),
            (State::StartString, Some((_, CharClass::Quote))) => State::EscapeOrEndOfString,
            (State::StartString, Some((_, CharClass::LineFeed))) => State::Error(
                ErrorKind::OddDoubleQuotes,
            ),
            (State::StartString, Some((c, _))) => State::StringPart(c),
            (State::EscapedReturn, None) => State::Error(ErrorKind::OddDoubleQuotes),
            (State::EscapedReturn, Some((_, CharClass::Quote))) => State::EscapeOrEndOfString,
            (State::EscapedReturn, Some((_, CharClass::LineFeed))) => State::Error(
                ErrorKind::OddDoubleQuotes,
            ),
            (State::EscapedReturn, Some((c, _))) => State::StringPart(c),
            (State::EscapedDoubleQuote, None) => State::Error(ErrorKind::OddDoubleQuotes),
            (State::EscapedDoubleQuote, Some((_, CharClass::Quote))) => State::EscapeOrEndOfString,
            (State::EscapedDoubleQuote, Some((_, CharClass::LineFeed))) => State::Error(
                ErrorKind::OddDoubleQuotes,
            ),
            (State::EscapedDoubleQuote, Some((c, _))) => State::StringPart(c),
            (State::EscapeOrEndOfString, None) => State::EndOfValue,
            (State::EscapeOrEndOfString, Some((_, CharClass::Hash))) => State::Comment,
            (State::EscapeOrEndOfString, Some((_, CharClass::Quote))) => State::EscapedDoubleQuote,
            (State::EscapeOrEndOfString, Some((_, CharClass::Slash))) => State::MayBeEscapedReturn,
            (State::EscapeOrEndOfString, Some((_, CharClass::LineFeed))) => State::EndOfValue,
            (State::EscapeOrEndOfString, Some((_, CharClass::Space))) => State::EndOfValue,
            (State::EscapeOrEndOfString, _) => State::Error(ErrorKind::MissingWhitespace),
            (State::MayBeEscapedReturn, Some((_, CharClass::Quote))) => State::EscapedReturn,
            (State::MayBeEscapedReturn, _) => State::Error(ErrorKind::MissingWhitespace),
            (State::StringPart(_), None) => State::Error(ErrorKind::OddDoubleQuotes),
            (State::StringPart(_), Some((_, CharClass::Quote))) => State::EscapeOrEndOfString,
            (State::StringPart(_), Some((_, CharClass::LineFeed))) => State::Error(
                ErrorKind::OddDoubleQuotes,
            ),
            (State::StringPart(_), Some((c, _))) => State::StringPart(c),
        }
    }

    /// The mode of the transducer that the state stands for, once its change has been made.
    pub open spec fn mode(self) -> Mode {
        match self {
            State::Default | State::EndOfValue | State::Null | State::Finished
            | State::Error(_) => Mode::Default,
            State::Comment => Mode::Comment,
            State::MayBeNull => Mode::MaybeNull,
            State::Value(_) => Mode::UnquotedValue,
            State::StartString | State::EscapedReturn | State::EscapedDoubleQuote
            | State::StringPart(_) => Mode::InsideQuotedString,
            State::EscapeOrEndOfString => Mode::QuoteOrEscape,
            State::MayBeEscapedReturn => Mode::MaybeEscapedNewline,
        }
    }
}

/// The row under construction, with the place of the last event.
#[derive(Debug)]
pub struct Data {
    pub row: usize,
    pub col: usize,
    pub buf: String,
    pub out: Vec<WsvValue>,
    pub err: Option<Error>,
}

/// The row under construction as a mathematical value.
pub struct Draft {
    pub row: nat,
    pub col: nat,
    pub buf: Seq<char>,
    pub out: Row,
    pub err: Option<Fault>,
}

impl View for Data {
    type V = Draft;

    open spec fn view(&self) -> Draft {
        Draft {
            row: self.row as nat,
            col: self.col as nat,
            buf: self.buf@,
            out: row_view(self.out@),
            err: match self.err {
                Some(error) => Some(error@),
                None => None,
            },
        }
    }
}

impl Draft {
    /// The draft once the event that led to `state` has been counted and the change that
    /// `state` names has been made.
    pub open spec fn with(self, state: State) -> Draft {
        let counted = Draft { col: self.col + 1, ..self };
        match state {
            State::Value(c) | State::StringPart(c) => Draft { buf: self.buf.push(c), ..counted },
            State::Error(kind) => Draft {
                err: Some(fault(kind, self.row, self.col + 1)),
                ..counted
            },
            State::MayBeNull => Draft { buf: self.buf.push('-'), ..counted },
            State::EscapedReturn => Draft { buf: self.buf.push('\n'), ..counted },
            State::EscapedDoubleQuote => Draft { buf: self.buf.push('"'), ..counted },
            State::EndOfValue | State::Comment => Draft {
                buf: Seq::empty(),
                out: self.out.push(Some(self.buf)),
                ..counted
            },
            State::Null => Draft { buf: Seq::empty(), out: self.out.push(None), ..counted },
            _ => counted,
        }
    }

    /// What the draft amounts to when no more events come.
    pub open spec fn outcome(self) -> Result<Row, Fault> {
        match self.err {
            Some(error) => Err(error),
            None => Ok(self.out),
        }
    }
}

impl Data {
    /// An empty draft for row `row`.
    pub fn new(row: usize) -> (data: Data)
        ensures
            data@ == (Draft {
                row: row as nat,
                col: 0,
                buf: Seq::empty(),
                out: Seq::empty(),
                err: None,
            }),
    {
        let data = Data { row, col: 0, buf: String::new(), out: Vec::new(), err: None };
        assert(data@.out =~= Seq::empty());
        data
    }

    /// Counts one event and makes the change that `state`, the state it led to, names.
    pub fn modify_with(&mut self, state: &State)
        requires
            old(self).col < usize::MAX,
        ensures
            final(self)@ == old(self)@.with(*state),
    {
        self.col += 1;
        match state {
            State::Value(c) => self.buf.push(*c),
            State::StringPart(c) => self.buf.push(*c),
            State::Error(kind) => {
                self.err = Some(Error::new(*kind, self.row, self.col, None));
            },
            State::MayBeNull => self.buf.push('-'),
            State::EscapedReturn => self.buf.push('\n'),
            State::EscapedDoubleQuote => self.buf.push('"'),
            State::EndOfValue => {
                self.out.push(WsvValue::V(self.buf.clone()));
                self.buf = String::new();
            },
            State::Comment => {
                self.out.push(WsvValue::V(self.buf.clone()));
                self.buf = String::new();
            },
            State::Null => {
                self.out.push(WsvValue::Null);
                self.buf = String::new();
            },
            _ => {},
        }
        assert(self@.out =~= old(self)@.with(*state).out);
    }

    /// The finished row, or the error that was met.
    pub fn reconcile(self) -> (result: Result<Vec<WsvValue>, Error>)
        ensures
            line_view(result) == self@.outcome(),
    {
        match self.err {
            Some(e) => Err(e),
            None => Ok(self.out),
        }
    }
}

/// What is still owed when the machine is in `state` with `draft`, before the event at `at`.
pub open spec fn owed(state: State, draft: Draft, line: Seq<char>, at: int) -> Result<
    Row,
    (ErrorKind, nat),
> {
    match draft.err {
        Some(error) => Err((error.kind, error.col)),
        None => if state == State::Finished || at > line.len() {
            Ok(draft.out)
        } else {
            scan(
                Config { mode: state.mode(), buf: draft.buf, row: draft.out },
                line.skip(at),
                at as nat,
            )
        },
    }
}

/// What holds of the machine between two events.
pub open spec fn coherent(state: State, draft: Draft, at: int) -> bool {
    &&& draft.col == at
    &&& state is Error ==> draft.err is Some
    &&& draft.err is Some ==> (state is Error || state == State::Finished) && draft.err->0.row
        == draft.row && draft.err->0.source is None
    &&& (state == State::Default || state == State::EndOfValue || state == State::Null || state
        == State::StartString) ==> draft.buf.len() == 0
    &&& state == State::MayBeNull ==> draft.buf == seq!['-']
}

/// One event keeps what is owed: the machine's step and the transducer's agree.
pub proof fn lemma_step(state: State, draft: Draft, line: Seq<char>, at: int)
    requires
        0 <= at <= line.len(),
        state != State::Finished,
        draft.err is None,
        coherent(state, draft, at),
    ensures
        coherent(state.next(events(line)[at]), draft.with(state.next(events(line)[at])), at + 1),
        owed(state.next(events(line)[at]), draft.with(state.next(events(line)[at])), line, at + 1)
            == owed(state, draft, line, at),
{
    let event = events(line)[at];
    let after = state.next(event);
    let cfg = Config { mode: state.mode(), buf: draft.buf, row: draft.out };
    if at < line.len() {
        let c = line[at];
        assert(event == Some(c));
        assert(line.skip(at)[0] == c);
        assert(line.skip(at).skip(1) =~= line.skip(at + 1));
        match on_char(cfg, c) {
            Ok(next) => {
                if next.mode == Mode::Comment {
                    lemma_comment(next, line.skip(at + 1), (at + 1) as nat);
                }
                assert(draft.buf.len() == 0 ==> draft.buf =~= Seq::empty());
                assert(seq![c] =~= Seq::<char>::empty().push(c));
            },
            Err(kind) => {},
        }
    } else {
        assert(event is None);
        assert(line.skip(at).len() == 0);
    }
}

/// The fields of `input.1`, the line that follows `input.0` earlier lines, or its first error.
pub fn parse_line(input: (usize, &str)) -> (result: Result<Vec<WsvValue>, Error>)
    requires
        input.0 < usize::MAX,
    ensures
        line_view(result) == tokenize((input.0 + 1) as nat, input.1@),
{
    let row = input.0 + 1;
    let inputs = events_of(input.1);
    let mut state = State::Default;
    let mut data = Data::new(row);
    let mut at: usize = 0;
    assert(input.1@.skip(0) =~= input.1@);
    while at < inputs.len() && state != State::Finished
        invariant
            inputs@ == events(input.1@),
            at <= inputs.len(),
            data@.row == row,
            coherent(state, data@, at as int),
            owed(state, data@, input.1@, at as int) == scan(start(), input.1@, 0),
        decreases inputs.len() - at,
    {
        proof {
            if data@.err is None {
                lemma_step(state, data@, input.1@, at as int);
            }
        }
        state = state.transition(inputs[at]);
        data.modify_with(&state);
        at += 1;
    }
    data.reconcile()
}

/// The rows of all the lines of `i`, or the error of the first line that has one.
pub fn parse(i: &str) -> (result: Result<Vec<Vec<WsvValue>>, Error>)
    ensures
        strict_view(result) == tokenize_all(lines(i@)),
{
    strict_with_parser(i, Parser::State)
}

} // verus!
