use wsv::data_model::{Error, ErrorKind, Wsv, WsvValue};
use wsv::tabulate::{tabulate, Cell, Color};
use wsv::{calculate_stuff, count_stuff};

fn v(text: &str) -> WsvValue {
    WsvValue::V(text.to_owned())
}

fn plain(text: &str) -> Cell {
    Cell { text: text.to_owned(), bold: false, color: None }
}

fn marked(text: &str, color: Color) -> Cell {
    Cell { text: text.to_owned(), bold: true, color: Some(color) }
}

#[test]
fn kinds_of_error_in_words() {
    assert_eq!(ErrorKind::OddDoubleQuotes.message(), "Odd number of double quotes detected");
    assert_eq!(ErrorKind::MissingWhitespace.message(), "Whitespace expected");
}

#[test]
fn error_in_words_names_row_and_column() {
    let error = Error::new(ErrorKind::MissingWhitespace, 12, 345, None);
    assert_eq!(error.message(), "Whitespace expected on row 12, column 345");
    let error = Error::new(ErrorKind::OddDoubleQuotes, 1, 0, None);
    assert_eq!(error.message(), "Odd number of double quotes detected on row 1, column 0");
    let error = Error::new(ErrorKind::OddDoubleQuotes, usize::MAX, 1000000007, None);
    assert_eq!(
        error.message(),
        format!("Odd number of double quotes detected on row {}, column 1000000007", usize::MAX)
    );
}

#[test]
fn error_in_words_shows_its_cause() {
    let error = Error::new(ErrorKind::MissingWhitespace, 3, 0, Some("\"def\"\n".to_owned()));
    assert_eq!(
        error.message(),
        "Whitespace expected on row 3, column 0\nCaused by \"\\\"def\\\"\\n\""
    );
}

#[test]
fn error_keeps_what_it_was_made_of() {
    let error = Error::new(ErrorKind::OddDoubleQuotes, 3, 4, Some("cause".to_owned()));
    assert_eq!(error.kind, ErrorKind::OddDoubleQuotes);
    assert_eq!(error.row, 3);
    assert_eq!(error.col, 4);
    assert_eq!(error.source, Some("cause".to_owned()));
}

#[test]
fn value_is_made_from_text() {
    assert_eq!(WsvValue::new("abc"), v("abc"));
    assert_eq!(WsvValue::new("-"), v("-"));
    assert_ne!(WsvValue::new("-"), WsvValue::Null);
}

#[test]
fn field_lengths_count_characters() {
    assert_eq!(v("").len(), 0);
    assert_eq!(v("\u{e4}\u{8d8a}b").len(), 3);
    assert_eq!(WsvValue::Null.len(), 1);
}

#[test]
fn cells_set_null_and_empty_apart() {
    assert_eq!(v("NULL").cell(), plain("NULL"));
    assert_eq!(WsvValue::Null.cell(), marked("NULL", Color::Green));
    assert_eq!(v("").cell(), marked("Empty String", Color::Blue));
    assert_eq!(v("Empty String").cell(), plain("Empty String"));
}

#[test]
fn table_of_a_document_shows_rows_and_errors() {
    let document = Wsv(wsv::from_string("a - \"\"\n\"open\n"));
    assert_eq!(
        document.table(),
        vec![
            vec![plain("a"), marked("NULL", Color::Green), marked("Empty String", Color::Blue)],
            vec![marked("Odd number of double quotes detected on row 2, column 6", Color::DarkRed)],
            vec![],
        ]
    );
}

#[test]
fn table_of_rows_uses_the_short_word_for_empty() {
    assert_eq!(
        tabulate(vec![vec![v("a"), v("")], vec![], vec![WsvValue::Null]]),
        vec![
            vec![plain("a"), marked("Empty", Color::Blue)],
            vec![],
            vec![marked("NULL", Color::Green)],
        ]
    );
}

#[test]
fn statistics_of_a_document() {
    let document = wsv::from_string("ab - \"\"\n\"open\n\ncde");
    assert_eq!(
        calculate_stuff(&document),
        "Minimum Byte Count: 27\nUsed Cell Count: 5\nRow Count: 4"
    );
    assert_eq!(calculate_stuff(&vec![]), "Minimum Byte Count: 0\nUsed Cell Count: 0\nRow Count: 0");
    assert_eq!(count_stuff(&document), Some((27, 5, 4)));
    assert_eq!(count_stuff(&vec![]), Some((0, 0, 0)));
}

#[test]
fn value_is_made_from_a_string() {
    assert_eq!(WsvValue::from("abc".to_owned()), v("abc"));
    let mut text = "-".to_owned();
    assert_eq!(WsvValue::from(&mut text), v("-"));
    assert_eq!(text, "-");
}

#[test]
fn error_in_words_with_a_cause_as_given() {
    let error = Error::new(ErrorKind::OddDoubleQuotes, 2, 6, None);
    assert_eq!(
        error.message_with(Some("the string never ends")),
        "Odd number of double quotes detected on row 2, column 6\nCaused by the string never ends"
    );
    assert_eq!(error.message_with(None), "Odd number of double quotes detected on row 2, column 6");
}
