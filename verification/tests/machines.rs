use wsv::data_model::{Error, ErrorKind, WsvValue};
use wsv::mealy::{process_vec, Mealy, Transform, WsvMachine};
use wsv::moore::Moore;
use wsv::state::State;
use wsv::typestate::{AnyState, Scaffold};
use wsv::text::events_of;

fn v(text: &str) -> WsvValue {
    WsvValue::V(text.to_owned())
}

#[test]
fn events_end_with_the_end_of_the_line() {
    assert_eq!(events_of(""), vec![None]);
    assert_eq!(events_of("a\u{e4}"), vec![Some('a'), Some('\u{e4}'), None]);
}

#[test]
fn mealy_machine_emits_one_change_per_event() {
    assert_eq!(
        process_vec::<WsvMachine>(events_of("a \"b\"\n-")),
        vec![
            Transform::PushChar('a'),
            Transform::AddValue,
            Transform::IncrementColumnNumber,
            Transform::PushChar('b'),
            Transform::IncrementColumnNumber,
            Transform::AddValueAndRow,
            Transform::PushDash,
            Transform::AddNull,
        ]
    );
    assert_eq!(
        process_vec::<WsvMachine>(events_of("a\"b")),
        vec![
            Transform::PushChar('a'),
            Transform::AddError(ErrorKind::MissingWhitespace),
            Transform::IncrementColumnNumber,
            Transform::IncrementColumnNumber,
        ]
    );
}

#[test]
fn mealy_machine_starts_outside_any_field() {
    let state = WsvMachine::start();
    assert_eq!(state, wsv::mealy::State::Default);
    let next = WsvMachine::transition(&state, &Some('"'));
    assert_eq!(next, wsv::mealy::State::StartString);
    assert_eq!(WsvMachine::output(&next, &Some('"')), Transform::IncrementColumnNumber);
}

#[test]
fn moore_machine_emits_by_its_state_alone() {
    let state = wsv::moore::WsvMachine::start();
    let next = wsv::moore::WsvMachine::transition(&state, &Some('x'));
    assert_eq!(next, wsv::moore::State::Value('x'));
    assert_eq!(wsv::moore::WsvMachine::output(&next), Transform::PushChar('x'));
    assert_eq!(
        wsv::moore::process_vec::<wsv::moore::WsvMachine>(events_of("- #")),
        vec![
            Transform::PushDash,
            Transform::AddNull,
            Transform::IncrementColumnNumber,
            Transform::IncrementColumnNumber,
        ]
    );
}

#[test]
fn machine_of_states_names_what_happened() {
    assert_eq!(State::Default.transition(Some('-')), State::MayBeNull);
    assert_eq!(State::MayBeNull.transition(None), State::Null);
    assert_eq!(State::MayBeNull.transition(Some('#')), State::Value('#'));
    assert_eq!(State::Value('a').transition(Some('#')), State::Comment);
    assert_eq!(State::Value('a').transition(Some('"')), State::Error(ErrorKind::MissingWhitespace));
    assert_eq!(State::StringPart('a').transition(Some('\n')), State::Error(ErrorKind::OddDoubleQuotes));
    assert_eq!(State::EscapeOrEndOfString.transition(Some('/')), State::MayBeEscapedReturn);
    assert_eq!(State::MayBeEscapedReturn.transition(Some('"')), State::EscapedReturn);
    assert_eq!(State::Error(ErrorKind::OddDoubleQuotes).transition(Some('a')), State::Finished);
}

#[test]
fn builders_apply_changes_to_the_document() {
    let mut data = wsv::mealy::Data::new().at_row(4);
    data.apply(Transform::PushChar('a'));
    data.apply(Transform::AddValue);
    data.apply(Transform::PushDash);
    data.apply(Transform::AddNullAndRow);
    data.apply(Transform::AddError(ErrorKind::OddDoubleQuotes));
    assert_eq!(data.out, vec![vec![v("a"), WsvValue::Null], vec![]]);
    assert_eq!(
        data.reconcile(),
        Err(Error { kind: ErrorKind::OddDoubleQuotes, row: 6, col: 1, source: None })
    );
    let mut builder = wsv::moore::WsvBuilder::new();
    builder.apply(Transform::PushQuote);
    builder.apply(Transform::PushNewline);
    builder.apply(Transform::AddValueAndRow);
    builder.apply(Transform::AddRow);
    builder.apply(Transform::IncrementColumnNumber);
    assert_eq!(builder.col, 1);
    assert_eq!(builder.row, 3);
    assert_eq!(builder.finish(), Ok(vec![vec![v("\"\n")], vec![], vec![]]));
    let mut row = wsv::moore::WsvBuilder::new().at_row(0);
    row.apply(Transform::AddNull);
    assert_eq!(row.finish_row(), Ok(vec![WsvValue::Null]));
    let mut draft = wsv::state::Data::new(3);
    draft.modify_with(&wsv::state::State::Value('x'));
    draft.modify_with(&wsv::state::State::EndOfValue);
    draft.modify_with(&wsv::state::State::Null);
    assert_eq!(draft.col, 3);
    assert_eq!(draft.reconcile(), Ok(vec![v("x"), WsvValue::Null]));
}

#[test]
fn typestate_machine_steps_from_state_to_state() {
    let mut state = AnyState::Default(wsv::typestate::Default(Scaffold::at_row(1)));
    for event in events_of("a \"b") {
        state = state.transition(event);
        state.modify_with(event);
    }
    assert!(matches!(state, AnyState::Error(_)));
    assert_eq!(
        state.scaffold().finish_row(),
        Err(Error { kind: ErrorKind::OddDoubleQuotes, row: 2, col: 5, source: None })
    );
}
