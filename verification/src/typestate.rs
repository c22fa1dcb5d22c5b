//! A tokenizer in which every state of the machine is a type of its own: a state holds the
//! document under construction, and knows the state that follows it on an event and the
//! change that it makes itself.
use vstd::prelude::*;
use crate::data_model::{
    doc_view, fault, line_view, row_view, strict_view, Error as ParseError, ErrorKind, WsvValue,
};
use crate::mealy::{adds_row, coherent, lemma_step, owed, Draft, Mealy, State as Named, WsvMachine};
use crate::text::{classify, events, events_of, lines, single, CharClass};
use crate::transducer::{
    lemma_single_line, lemma_stream_rows, tokenize, tokenize_all, tokenize_rows,
};

verus! {

/// What a state of the machine can do.
pub trait State: Sized {
    /// The name of the state.
    spec fn name(&self) -> Named;

    /// The document under construction that the state holds.
    spec fn held(&self) -> Draft;

    /// The state that follows on `input`, where `None` is the end of the text. It holds what
    /// this state held.
    fn transition(self, input: Option<char>) -> (next: AnyState)
        ensures
            next.name() == WsvMachine::delta(self.name(), input),
            next.held() == self.held(),
    ;

    /// Counts one event and makes the change that the state stands for, which `input` has led
    /// to.
    fn modify_with(&mut self, input: Option<char>)
        requires
            old(self).held().col < usize::MAX,
            old(self).held().out.len() > 0,
            old(self).held().row < usize::MAX || !adds_row(
                WsvMachine::lambda(old(self).name(), input),
            ),
        ensures
            final(self).name() == old(self).name(),
            final(self).held() == old(self).held().with(
                WsvMachine::lambda(old(self).name(), input),
            ),
    ;
}

/// The class of the character of an event, where there is one.
fn class_of_event(input: Option<char>) -> (class: Option<CharClass>)
    ensures
        class == match input {
            Some(c) => Some(crate::text::class_of(c)),
            None => None,
        },
{
    match input {
        Some(c) => Some(classify(c)),
        None => None,
    }
}

/// The document under construction, with the place of the last event.
#[derive(Debug)]
pub struct Scaffold {
    pub row: usize,
    pub col: usize,
    pub buf: String,
    pub out: Vec<Vec<WsvValue>>,
    pub err: Option<ParseError>,
}

impl View for Scaffold {
    type V = Draft;

    open spec fn view(&self) -> Draft {
        Draft {
            row: self.row as nat,
            col: self.col as nat,
            buf: self.buf@,
            out: doc_view(self.out@),
            err: match self.err {
                Some(error) => Some(error@),
                None => None,
            },
        }
    }
}

impl Scaffold {
    /// The draft of a document that has one row with nothing in it yet, where that row
    /// follows `idx` earlier ones.
    pub fn at_row(idx: usize) -> (scaffold: Scaffold)
        requires
            idx < usize::MAX,
        ensures
            scaffold@ == (Draft {
                row: (idx + 1) as nat,
                col: 0,
                buf: Seq::empty(),
                out: seq![Seq::empty()],
                err: None,
            }),
    {
        let mut out: Vec<Vec<WsvValue>> = Vec::new();
        out.push(Vec::new());
        let scaffold = Scaffold { row: 1 + idx, col: 0, buf: String::new(), out, err: None };
        assert(scaffold@.out =~~= seq![Seq::empty()]);
        scaffold
    }

    /// Counts one event.
    fn tick(&mut self)
        requires
            old(self).col < usize::MAX,
        ensures
            final(self)@ == (Draft { col: old(self)@.col + 1, ..old(self)@ }),
            final(self).out.len() == old(self).out.len(),
    {
        self.col += 1;
    }

    /// Puts `c` at the end of the text that is being gathered.
    fn keep(&mut self, c: char)
        ensures
            final(self)@ == (Draft { buf: old(self)@.buf.push(c), ..old(self)@ }),
            final(self).out.len() == old(self).out.len(),
    {
        self.buf.push(c);
    }

    /// Notes an error of the kind `kind` at the place of the last event.
    fn fail(&mut self, kind: ErrorKind)
        ensures
            final(self)@ == (Draft {
                err: Some(fault(kind, old(self)@.row, old(self)@.col)),
                ..old(self)@
            }),
            final(self).out.len() == old(self).out.len(),
    {
        self.err = Some(ParseError::new(kind, self.row, self.col, None));
    }

    /// Puts `value` at the end of the last row, and forgets the text that was gathered.
    fn add(&mut self, value: WsvValue)
        requires
            old(self).out.len() > 0,
        ensures
            final(self)@ == old(self)@.with_field(value@),
            final(self).out.len() == old(self).out.len(),
    {
        let mut last = match self.out.pop() {
            Some(last) => last,
            None => Vec::new(),
        };
        let ghost before = last@;
        last.push(value);
        assert(row_view(last@) =~= row_view(before).push(value@));
        self.out.push(last);
        self.buf = String::new();
        assert(self@.out =~= old(self)@.out.drop_last().push(old(self)@.out.last().push(value@)));
    }

    /// Puts the text that was gathered at the end of the last row, as a field.
    fn add_value(&mut self)
        requires
            old(self).out.len() > 0,
        ensures
            final(self)@ == old(self)@.with_field(Some(old(self)@.buf)),
            final(self).out.len() == old(self).out.len(),
    {
        let value = WsvValue::V(self.buf.clone());
        self.add(value);
    }

    /// Opens a new row.
    fn add_row(&mut self)
        requires
            old(self).row < usize::MAX,
        ensures
            final(self)@ == old(self)@.with_row(),
            final(self).out.len() == old(self).out.len() + 1,
    {
        self.out.push(Vec::new());
        self.row += 1;
        self.col = 0;
        assert(self@.out =~~= old(self)@.out.push(Seq::empty()));
    }

    /// The finished document, or the error that was met.
    pub fn finish(self) -> (result: Result<Vec<Vec<WsvValue>>, ParseError>)
        ensures
            strict_view(result) == self@.outcome(),
    {
        match self.err {
            Some(e) => Err(e),
            None => Ok(self.out),
        }
    }

    /// The last row of the document, or the error that was met.
    pub fn finish_row(self) -> (result: Result<Vec<WsvValue>, ParseError>)
        requires
            self.out.len() > 0,
        ensures
            line_view(result) == self@.last_row(),
    {
        let mut out = self.out;
        match self.err {
            Some(e) => Err(e),
            None => match out.pop() {
                Some(row) => Ok(row),
                None => Ok(Vec::new()),
            },
        }
    }
}

/// Inside a comment.
pub struct Comment(pub Scaffold);

impl State for Comment {
    open spec fn name(&self) -> Named {
        Named::Comment
    }

    open spec fn held(&self) -> Draft {
        self.0@
    }

    fn transition(self, input: Option<char>) -> (next: AnyState) {
        match class_of_event(input) {
            None => AnyState::Finished(Finished(self.0)),
            Some(CharClass::LineFeed) => AnyState::EndOfLine(EndOfLine(self.0)),
            Some(_) => AnyState::Comment(Comment(self.0)),
        }
    }

    fn modify_with(&mut self, input: Option<char>) {
        self.0.tick();
    }
}

/// Outside any field, behind whitespace.
pub struct Default(pub Scaffold);

impl State for Default {
    open spec fn name(&self) -> Named {
        Named::Default
    }

    open spec fn held(&self) -> Draft {
        self.0@
    }

    fn transition(self, input: Option<char>) -> (next: AnyState) {
        match class_of_event(input) {
            None => AnyState::Finished(Finished(self.0)),
            Some(CharClass::LineFeed) => AnyState::EndOfLine(EndOfLine(self.0)),
            Some(CharClass::Hash) => AnyState::Comment(Comment(self.0)),
            Some(CharClass::Dash) => AnyState::MayBeNull(MayBeNull(self.0)),
            Some(CharClass::Quote) => AnyState::StartString(StartString(self.0)),
            Some(CharClass::Space) => AnyState::Default(Default(self.0)),
            Some(_) => AnyState::Value(Value(self.0)),
        }
    }

    fn modify_with(&mut self, input: Option<char>) {
        self.0.tick();
    }
}

/// Behind a line feed that ended a row.
pub struct EndOfLine(pub Scaffold);

impl State for EndOfLine {
    open spec fn name(&self) -> Named {
        Named::EndOfLine
    }

    open spec fn held(&self) -> Draft {
        self.0@
    }

    fn transition(self, input: Option<char>) -> (next: AnyState) {
        match class_of_event(input) {
            None => AnyState::Finished(Finished(self.0)),
            Some(CharClass::LineFeed) => AnyState::EndOfLine(EndOfLine(self.0)),
            Some(CharClass::Hash) => AnyState::Comment(Comment(self.0)),
            Some(CharClass::Dash) => AnyState::MayBeNull(MayBeNull(self.0)),
            Some(CharClass::Quote) => AnyState::StartString(StartString(self.0)),
            Some(CharClass::Space) => AnyState::Default(Default(self.0)),
            Some(_) => AnyState::Value(Value(self.0)),
        }
    }

    fn modify_with(&mut self, input: Option<char>) {
        self.0.tick();
        self.0.add_row();
    }
}

/// Behind whitespace that ended a field.
pub struct EndOfValue(pub Scaffold);

impl State for EndOfValue {
    open spec fn name(&self) -> Named {
        Named::EndOfValue
    }

    open spec fn held(&self) -> Draft {
        self.0@
    }

    fn transition(self, input: Option<char>) -> (next: AnyState) {
        match class_of_event(input) {
            None => AnyState::Finished(Finished(self.0)),
            Some(CharClass::LineFeed) => AnyState::EndOfLine(EndOfLine(self.0)),
            Some(CharClass::Hash) => AnyState::Comment(Comment(self.0)),
            Some(CharClass::Dash) => AnyState::MayBeNull(MayBeNull(self.0)),
            Some(CharClass::Quote) => AnyState::StartString(StartString(self.0)),
            Some(CharClass::Space) => AnyState::Default(Default(self.0)),
            Some(_) => AnyState::Value(Value(self.0)),
        }
    }

    fn modify_with(&mut self, input: Option<char>) {
        self.0.tick();
        self.0.add_value();
    }
}

/// Behind a line feed that ended a field and its row.
pub struct EndOfValueAndEndOfLine(pub Scaffold);

impl State for EndOfValueAndEndOfLine {
    open spec fn name(&self) -> Named {
        Named::EndOfValueAndEndOfLine
    }

    open spec fn held(&self) -> Draft {
        self.0@
    }

    fn transition(self, input: Option<char>) -> (next: AnyState) {
        match class_of_event(input) {
            None => AnyState::Finished(Finished(self.0)),
            Some(CharClass::LineFeed) => AnyState::EndOfLine(EndOfLine(self.0)),
            Some(CharClass::Hash) => AnyState::Comment(Comment(self.0)),
            Some(CharClass::Dash) => AnyState::MayBeNull(MayBeNull(self.0)),
            Some(CharClass::Quote) => AnyState::StartString(StartString(self.0)),
            Some(CharClass::Space) => AnyState::Default(Default(self.0)),
            Some(_) => AnyState::Value(Value(self.0)),
        }
    }

    fn modify_with(&mut self, input: Option<char>) {
        self.0.tick();
        self.0.add_value();
        self.0.add_row();
    }
}

/// Behind the event that was in error.
pub struct Error(pub Scaffold, pub ErrorKind);

impl State for Error {
    open spec fn name(&self) -> Named {
        Named::Error(self.1)
    }

    open spec fn held(&self) -> Draft {
        self.0@
    }

    fn transition(self, input: Option<char>) -> (next: AnyState) {
        AnyState::Finished(Finished(self.0))
    }

    fn modify_with(&mut self, input: Option<char>) {
        self.0.tick();
        self.0.fail(self.1);
    }
}

/// Behind a quote that was met inside a string.
pub struct EscapeOrEndOfString(pub Scaffold);

impl State for EscapeOrEndOfString {
    open spec fn name(&self) -> Named {
        Named::EscapeOrEndOfString
    }

    open spec fn held(&self) -> Draft {
        self.0@
    }

    fn transition(self, input: Option<char>) -> (next: AnyState) {
        match class_of_event(input) {
            None => AnyState::EndOfValue(EndOfValue(self.0)),
            Some(CharClass::LineFeed) => AnyState::EndOfValueAndEndOfLine(EndOfValueAndEndOfLine(self.0)),
            Some(CharClass::Hash) => AnyState::StartComment(StartComment(self.0)),
            Some(CharClass::Quote) => AnyState::EscapedDoubleQuote(EscapedDoubleQuote(self.0)),
            Some(CharClass::Slash) => AnyState::MayBeEscapedReturn(MayBeEscapedReturn(self.0)),
            Some(CharClass::Space) => AnyState::EndOfValue(EndOfValue(self.0)),
            _ => AnyState::Error(Error(self.0, ErrorKind::MissingWhitespace)),
        }
    }

    fn modify_with(&mut self, input: Option<char>) {
        self.0.tick();
    }
}

/// Behind `""` inside a string.
pub struct EscapedDoubleQuote(pub Scaffold);

impl State for EscapedDoubleQuote {
    open spec fn name(&self) -> Named {
        Named::EscapedDoubleQuote
    }

    open spec fn held(&self) -> Draft {
        self.0@
    }

    fn transition(self, input: Option<char>) -> (next: AnyState) {
        match class_of_event(input) {
            None => AnyState::Error(Error(self.0, ErrorKind::OddDoubleQuotes)),
            Some(CharClass::LineFeed) => AnyState::Error(Error(self.0, ErrorKind::OddDoubleQuotes)),
            Some(CharClass::Quote) => AnyState::EscapeOrEndOfString(EscapeOrEndOfString(self.0)),
            Some(_) => AnyState::StringPart(StringPart(self.0)),
        }
    }

    fn modify_with(&mut self, input: Option<char>) {
        self.0.tick();
        self.0.keep('"');
    }
}

/// Behind `"/"` inside a string.
pub struct EscapedReturn(pub Scaffold);

impl State for EscapedReturn {
    open spec fn name(&self) -> Named {
        Named::EscapedReturn
    }

    open spec fn held(&self) -> Draft {
        self.0@
    }

    fn transition(self, input: Option<char>) -> (next: AnyState) {
        match class_of_event(input) {
            None => AnyState::Error(Error(self.0, ErrorKind::OddDoubleQuotes)),
            Some(CharClass::LineFeed) => AnyState::Error(Error(self.0, ErrorKind::OddDoubleQuotes)),
            Some(CharClass::Quote) => AnyState::EscapeOrEndOfString(EscapeOrEndOfString(self.0)),
            Some(_) => AnyState::StringPart(StringPart(self.0)),
        }
    }

    fn modify_with(&mut self, input: Option<char>) {
        self.0.tick();
        self.0.keep('\n');
    }
}

/// Behind the end of the text, or behind an error.
pub struct Finished(pub Scaffold);

impl State for Finished {
    open spec fn name(&self) -> Named {
        Named::Finished
    }

    open spec fn held(&self) -> Draft {
        self.0@
    }

    fn transition(self, input: Option<char>) -> (next: AnyState) {
        AnyState::Finished(Finished(self.0))
    }

    fn modify_with(&mut self, input: Option<char>) {
        self.0.tick();
    }
}

/// Behind `"/` inside a string.
pub struct MayBeEscapedReturn(pub Scaffold);

impl State for MayBeEscapedReturn {
    open spec fn name(&self) -> Named {
        Named::MayBeEscapedReturn
    }

    open spec fn held(&self) -> Draft {
        self.0@
    }

    fn transition(self, input: Option<char>) -> (next: AnyState) {
        match class_of_event(input) {
            Some(CharClass::Quote) => AnyState::EscapedReturn(EscapedReturn(self.0)),
            _ => AnyState::Error(Error(self.0, ErrorKind::MissingWhitespace)),
        }
    }

    fn modify_with(&mut self, input: Option<char>) {
        self.0.tick();
    }
}

/// Behind a `-` that opened a token.
pub struct MayBeNull(pub Scaffold);

impl State for MayBeNull {
    open spec fn name(&self) -> Named {
        Named::MayBeNull
    }

    open spec fn held(&self) -> Draft {
        self.0@
    }

    fn transition(self, input: Option<char>) -> (next: AnyState) {
        match class_of_event(input) {
            None => AnyState::Null(Null(self.0)),
            Some(CharClass::LineFeed) => AnyState::NullEndOfLine(NullEndOfLine(self.0)),
            Some(CharClass::Space) => AnyState::Null(Null(self.0)),
            Some(CharClass::Quote) => AnyState::Error(Error(self.0, ErrorKind::MissingWhitespace)),
            Some(_) => AnyState::Value(Value(self.0)),
        }
    }

    fn modify_with(&mut self, input: Option<char>) {
        self.0.tick();
        self.0.keep('-');
    }
}

/// Behind whitespace that ended a `-` standing alone.
pub struct Null(pub Scaffold);

impl State for Null {
    open spec fn name(&self) -> Named {
        Named::Null
    }

    open spec fn held(&self) -> Draft {
        self.0@
    }

    fn transition(self, input: Option<char>) -> (next: AnyState) {
        match class_of_event(input) {
            None => AnyState::Finished(Finished(self.0)),
            Some(CharClass::LineFeed) => AnyState::EndOfLine(EndOfLine(self.0)),
            Some(CharClass::Hash) => AnyState::Comment(Comment(self.0)),
            Some(CharClass::Dash) => AnyState::MayBeNull(MayBeNull(self.0)),
            Some(CharClass::Quote) => AnyState::StartString(StartString(self.0)),
            Some(CharClass::Space) => AnyState::Default(Default(self.0)),
            Some(_) => AnyState::Value(Value(self.0)),
        }
    }

    fn modify_with(&mut self, input: Option<char>) {
        self.0.tick();
        self.0.add(WsvValue::Null);
    }
}

/// Behind a line feed that ended a `-` standing alone and its row.
pub struct NullEndOfLine(pub Scaffold);

impl State for NullEndOfLine {
    open spec fn name(&self) -> Named {
        Named::NullEndOfLine
    }

    open spec fn held(&self) -> Draft {
        self.0@
    }

    fn transition(self, input: Option<char>) -> (next: AnyState) {
        match class_of_event(input) {
            None => AnyState::Finished(Finished(self.0)),
            Some(CharClass::LineFeed) => AnyState::EndOfLine(EndOfLine(self.0)),
            Some(CharClass::Hash) => AnyState::Comment(Comment(self.0)),
            Some(CharClass::Dash) => AnyState::MayBeNull(MayBeNull(self.0)),
            Some(CharClass::Quote) => AnyState::StartString(StartString(self.0)),
            Some(CharClass::Space) => AnyState::Default(Default(self.0)),
            Some(_) => AnyState::Value(Value(self.0)),
        }
    }

    fn modify_with(&mut self, input: Option<char>) {
        self.0.tick();
        self.0.add(WsvValue::Null);
        self.0.add_row();
    }
}

/// Behind a `#` that ended a field.
pub struct StartComment(pub Scaffold);

impl State for StartComment {
    open spec fn name(&self) -> Named {
        Named::StartComment
    }

    open spec fn held(&self) -> Draft {
        self.0@
    }

    fn transition(self, input: Option<char>) -> (next: AnyState) {
        match class_of_event(input) {
            None => AnyState::Finished(Finished(self.0)),
            Some(CharClass::LineFeed) => AnyState::EndOfLine(EndOfLine(self.0)),
            Some(_) => AnyState::Comment(Comment(self.0)),
        }
    }

    fn modify_with(&mut self, input: Option<char>) {
        self.0.tick();
        self.0.add_value();
    }
}

/// Behind the quote that opened a string.
pub struct StartString(pub Scaffold);

impl State for StartString {
    open spec fn name(&self) -> Named {
        Named::StartString
    }

    open spec fn held(&self) -> Draft {
        self.0@
    }

    fn transition(self, input: Option<char>) -> (next: AnyState) {
        match class_of_event(input) {
            None => AnyState::Error(Error(self.0, ErrorKind::OddDoubleQuotes)),
            Some(CharClass::LineFeed) => AnyState::Error(Error(self.0, ErrorKind::OddDoubleQuotes)),
            Some(CharClass::Quote) => AnyState::EscapeOrEndOfString(EscapeOrEndOfString(self.0)),
            Some(_) => AnyState::StringPart(StringPart(self.0)),
        }
    }

    fn modify_with(&mut self, input: Option<char>) {
        self.0.tick();
    }
}

/// Behind a character of a string.
pub struct StringPart(pub Scaffold);

impl State for StringPart {
    open spec fn name(&self) -> Named {
        Named::StringPart
    }

    open spec fn held(&self) -> Draft {
        self.0@
    }

    fn transition(self, input: Option<char>) -> (next: AnyState) {
        match class_of_event(input) {
            None => AnyState::Error(Error(self.0, ErrorKind::OddDoubleQuotes)),
            Some(CharClass::LineFeed) => AnyState::Error(Error(self.0, ErrorKind::OddDoubleQuotes)),
            Some(CharClass::Quote) => AnyState::EscapeOrEndOfString(EscapeOrEndOfString(self.0)),
            Some(_) => AnyState::StringPart(StringPart(self.0)),
        }
    }

    fn modify_with(&mut self, input: Option<char>) {
        self.0.tick();
        match input {
            Some(c) => self.0.keep(c),
            None => {},
        }
    }
}

/// Behind a character of a bare token.
pub struct Value(pub Scaffold);

impl State for Value {
    open spec fn name(&self) -> Named {
        Named::Value
    }

    open spec fn held(&self) -> Draft {
        self.0@
    }

    fn transition(self, input: Option<char>) -> (next: AnyState) {
        match class_of_event(input) {
            None => AnyState::EndOfValue(EndOfValue(self.0)),
            Some(CharClass::LineFeed) => AnyState::EndOfValueAndEndOfLine(EndOfValueAndEndOfLine(self.0)),
            Some(CharClass::Quote) => AnyState::Error(Error(self.0, ErrorKind::MissingWhitespace)),
            Some(CharClass::Hash) => AnyState::StartComment(StartComment(self.0)),
            Some(CharClass::Space) => AnyState::EndOfValue(EndOfValue(self.0)),
            Some(_) => AnyState::Value(Value(self.0)),
        }
    }

    fn modify_with(&mut self, input: Option<char>) {
        self.0.tick();
        match input {
            Some(c) => self.0.keep(c),
            None => {},
        }
    }
}

/// A machine in any of its states.
pub enum AnyState {
    Comment(Comment),
    Default(Default),
    EndOfLine(EndOfLine),
    EndOfValue(EndOfValue),
    EndOfValueAndEndOfLine(EndOfValueAndEndOfLine),
    Error(Error),
    EscapeOrEndOfString(EscapeOrEndOfString),
    EscapedDoubleQuote(EscapedDoubleQuote),
    EscapedReturn(EscapedReturn),
    Finished(Finished),
    MayBeEscapedReturn(MayBeEscapedReturn),
    MayBeNull(MayBeNull),
    Null(Null),
    NullEndOfLine(NullEndOfLine),
    StartComment(StartComment),
    StartString(StartString),
    StringPart(StringPart),
    Value(Value),
}

impl AnyState {
    /// The name of the state in which the machine is.
    pub open spec fn name(self) -> Named {
        match self {
            AnyState::Comment(state) => Named::Comment,
            AnyState::Default(state) => Named::Default,
            AnyState::EndOfLine(state) => Named::EndOfLine,
            AnyState::EndOfValue(state) => Named::EndOfValue,
            AnyState::EndOfValueAndEndOfLine(state) => Named::EndOfValueAndEndOfLine,
            AnyState::Error(state) => Named::Error(state.1),
            AnyState::EscapeOrEndOfString(state) => Named::EscapeOrEndOfString,
            AnyState::EscapedDoubleQuote(state) => Named::EscapedDoubleQuote,
            AnyState::EscapedReturn(state) => Named::EscapedReturn,
            AnyState::Finished(state) => Named::Finished,
            AnyState::MayBeEscapedReturn(state) => Named::MayBeEscapedReturn,
            AnyState::MayBeNull(state) => Named::MayBeNull,
            AnyState::Null(state) => Named::Null,
            AnyState::NullEndOfLine(state) => Named::NullEndOfLine,
            AnyState::StartComment(state) => Named::StartComment,
            AnyState::StartString(state) => Named::StartString,
            AnyState::StringPart(state) => Named::StringPart,
            AnyState::Value(state) => Named::Value,
        }
    }

    /// The document under construction that the machine holds.
    pub open spec fn held(self) -> Draft {
        match self {
            AnyState::Comment(state) => state.0@,
            AnyState::Default(state) => state.0@,
            AnyState::EndOfLine(state) => state.0@,
            AnyState::EndOfValue(state) => state.0@,
            AnyState::EndOfValueAndEndOfLine(state) => state.0@,
            AnyState::Error(state) => state.0@,
            AnyState::EscapeOrEndOfString(state) => state.0@,
            AnyState::EscapedDoubleQuote(state) => state.0@,
            AnyState::EscapedReturn(state) => state.0@,
            AnyState::Finished(state) => state.0@,
            AnyState::MayBeEscapedReturn(state) => state.0@,
            AnyState::MayBeNull(state) => state.0@,
            AnyState::Null(state) => state.0@,
            AnyState::NullEndOfLine(state) => state.0@,
            AnyState::StartComment(state) => state.0@,
            AnyState::StartString(state) => state.0@,
            AnyState::StringPart(state) => state.0@,
            AnyState::Value(state) => state.0@,
        }
    }

    /// The machine in the state that follows on `input`, where `None` is the end of the text.
    pub fn transition(self, input: Option<char>) -> (next: AnyState)
        ensures
            next.name() == WsvMachine::delta(self.name(), input),
            next.held() == self.held(),
    {
        match self {
            AnyState::Comment(state) => state.transition(input),
            AnyState::Default(state) => state.transition(input),
            AnyState::EndOfLine(state) => state.transition(input),
            AnyState::EndOfValue(state) => state.transition(input),
            AnyState::EndOfValueAndEndOfLine(state) => state.transition(input),
            AnyState::Error(state) => state.transition(input),
            AnyState::EscapeOrEndOfString(state) => state.transition(input),
            AnyState::EscapedDoubleQuote(state) => state.transition(input),
            AnyState::EscapedReturn(state) => state.transition(input),
            AnyState::Finished(state) => state.transition(input),
            AnyState::MayBeEscapedReturn(state) => state.transition(input),
            AnyState::MayBeNull(state) => state.transition(input),
            AnyState::Null(state) => state.transition(input),
            AnyState::NullEndOfLine(state) => state.transition(input),
            AnyState::StartComment(state) => state.transition(input),
            AnyState::StartString(state) => state.transition(input),
            AnyState::StringPart(state) => state.transition(input),
            AnyState::Value(state) => state.transition(input),
        }
    }

    /// Counts one event and makes the change that the state of the machine stands for.
    pub fn modify_with(&mut self, input: Option<char>)
        requires
            old(self).held().col < usize::MAX,
            old(self).held().out.len() > 0,
            old(self).held().row < usize::MAX || !adds_row(
                WsvMachine::lambda(old(self).name(), input),
            ),
        ensures
            final(self).name() == old(self).name(),
            final(self).held() == old(self).held().with(
                WsvMachine::lambda(old(self).name(), input),
            ),
    {
        match self {
            AnyState::Comment(state) => state.modify_with(input),
            AnyState::Default(state) => state.modify_with(input),
            AnyState::EndOfLine(state) => state.modify_with(input),
            AnyState::EndOfValue(state) => state.modify_with(input),
            AnyState::EndOfValueAndEndOfLine(state) => state.modify_with(input),
            AnyState::Error(state) => state.modify_with(input),
            AnyState::EscapeOrEndOfString(state) => state.modify_with(input),
            AnyState::EscapedDoubleQuote(state) => state.modify_with(input),
            AnyState::EscapedReturn(state) => state.modify_with(input),
            AnyState::Finished(state) => state.modify_with(input),
            AnyState::MayBeEscapedReturn(state) => state.modify_with(input),
            AnyState::MayBeNull(state) => state.modify_with(input),
            AnyState::Null(state) => state.modify_with(input),
            AnyState::NullEndOfLine(state) => state.modify_with(input),
            AnyState::StartComment(state) => state.modify_with(input),
            AnyState::StartString(state) => state.modify_with(input),
            AnyState::StringPart(state) => state.modify_with(input),
            AnyState::Value(state) => state.modify_with(input),
        }
    }

    /// The document under construction, taken out of the machine.
    pub fn scaffold(self) -> (scaffold: Scaffold)
        ensures
            scaffold@ == self.held(),
    {
        match self {
            AnyState::Comment(state) => state.0,
            AnyState::Default(state) => state.0,
            AnyState::EndOfLine(state) => state.0,
            AnyState::EndOfValue(state) => state.0,
            AnyState::EndOfValueAndEndOfLine(state) => state.0,
            AnyState::Error(state) => state.0,
            AnyState::EscapeOrEndOfString(state) => state.0,
            AnyState::EscapedDoubleQuote(state) => state.0,
            AnyState::EscapedReturn(state) => state.0,
            AnyState::Finished(state) => state.0,
            AnyState::MayBeEscapedReturn(state) => state.0,
            AnyState::MayBeNull(state) => state.0,
            AnyState::Null(state) => state.0,
            AnyState::NullEndOfLine(state) => state.0,
            AnyState::StartComment(state) => state.0,
            AnyState::StartString(state) => state.0,
            AnyState::StringPart(state) => state.0,
            AnyState::Value(state) => state.0,
        }
    }
}

/// The machine at the start of a text whose first row follows `idx` earlier ones.
fn begin(idx: usize) -> (state: AnyState)
    requires
        idx < usize::MAX,
    ensures
        state.name() == Named::Default,
        state.held() == (Draft {
            row: (idx + 1) as nat,
            col: 0,
            buf: Seq::empty(),
            out: seq![Seq::empty()],
            err: None,
        }),
{
    AnyState::Default(Default(Scaffold::at_row(idx)))
}

/// The rows of all the lines of `i`, or the error of the first line that has one. The machine
/// reads the text in one pass.
pub fn parse_strict(i: &str) -> (result: Result<Vec<Vec<WsvValue>>, ParseError>)
    ensures
        strict_view(result) == tokenize_all(lines(i@)),
{
    let inputs = events_of(i);
    let mut state = begin(0);
    let mut at: usize = 0;
    let ghost text = i@;
    proof {
        assert(text.skip(0) =~= text);
        assert(state.held().out.drop_last() =~= Seq::empty());
        assert(state.held().buf =~= Seq::empty());
        lemma_stream_rows(1, text);
    }
    while at < inputs.len()
        invariant
            inputs@ == events(text),
            inputs@.len() == text.len() + 1,
            at <= inputs.len(),
            coherent(state.name(), state.held()),
            state.held().col <= at,
            state.held().row <= 1 + at,
            owed(state.name(), state.held(), text, at as int) == tokenize_rows(1, lines(text)),
        decreases inputs.len() - at,
    {
        proof {
            lemma_step(state.name(), state.held(), text, at as int);
        }
        state = state.transition(inputs[at]);
        state.modify_with(inputs[at]);
        at += 1;
    }
    state.scaffold().finish()
}

/// The fields of `input.1`, a line without line feed that follows `input.0` earlier lines, or
/// its first error.
pub fn parse_line(input: (usize, &str)) -> (result: Result<Vec<WsvValue>, ParseError>)
    requires
        input.0 < usize::MAX,
        single(input.1@),
    ensures
        line_view(result) == tokenize((input.0 + 1) as nat, input.1@),
{
    let inputs = events_of(input.1);
    let mut state = begin(input.0);
    let mut at: usize = 0;
    let ghost text = input.1@;
    let ghost first = (input.0 + 1) as nat;
    proof {
        assert(text.skip(0) =~= text);
        assert(state.held().out.drop_last() =~= Seq::empty());
        assert(state.held().buf =~= Seq::empty());
        lemma_stream_rows(first, text);
        lemma_single_line(first, text);
    }
    while at < inputs.len()
        invariant
            inputs@ == events(text),
            inputs@.len() == text.len() + 1,
            single(text),
            at <= inputs.len(),
            coherent(state.name(), state.held()),
            state.held().col <= at,
            state.held().row == first,
            owed(state.name(), state.held(), text, at as int) == tokenize_rows(first, lines(text)),
        decreases inputs.len() - at,
    {
        proof {
            lemma_step(state.name(), state.held(), text, at as int);
        }
        state = state.transition(inputs[at]);
        state.modify_with(inputs[at]);
        at += 1;
    }
    state.scaffold().finish_row()
}

} // verus!
