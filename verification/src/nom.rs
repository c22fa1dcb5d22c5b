//! A tokenizer written as a grammar: each rule of the line grammar is a function that takes a
//! text and gives what the rule matched at its start together with the rest of the text, or
//! says that the rule does not match there. A line is tokenized when the rule for lines
//! consumes all of it.
use vstd::prelude::*;
use vstd::string::StrSliceExecFns;
use crate::data_model::{
    fault, line_view, row_view, strict_view, Error, ErrorKind, Fault, Field, Parser, Row,
    WsvValue,
};
use crate::agreement::law_grammar_agrees;
use crate::io::strict_with_parser;
use crate::transducer::{tokenize, tokenize_all};
use crate::text::{
    belongs, chars_of, class_of, classify, end_column, lines, reach, run_end, single,
    text_between, within, CharClass, Span,
};

verus! {

/// The rules of the grammar, by which a failure names the rule that did not match.
#[derive(Debug, PartialEq, Eq, Clone, Copy, Hash, Structural)]
pub enum Unmatched {
    Whitespace,
    Null,
    Quoted,
    StringPart,
    DoubleQuote,
    NewLine,
    Value,
    Comment,
}

/// What a rule gives on a text as a mathematical value: the rest of the text and what the
/// rule matched, or the rule that did not match.
pub type Matched<O> = Result<(Seq<char>, O), Unmatched>;

/// What a rule finds at the start of a text: how many characters it takes and what they stand
/// for, or nothing where it does not match.
pub type Found<O> = Option<(nat, O)>;

/// The result of the rule `rule` on `text`, from what the rule finds there.
pub open spec fn cut<O>(text: Seq<char>, found: Found<O>, rule: Unmatched) -> Matched<O> {
    match found {
        Some((taken, output)) => Ok((text.skip(taken as int), output)),
        None => Err(rule),
    }
}

/// The result of a rule that matches a piece of the text, as a mathematical value.
pub open spec fn piece_view(result: Result<(&str, &str), Unmatched>) -> Matched<Seq<char>> {
    match result {
        Ok((rest, piece)) => Ok((rest@, piece@)),
        Err(rule) => Err(rule),
    }
}

/// The result of a rule that matches a field, as a mathematical value.
pub open spec fn field_view(result: Result<(&str, WsvValue), Unmatched>) -> Matched<Field> {
    match result {
        Ok((rest, value)) => Ok((rest@, value@)),
        Err(rule) => Err(rule),
    }
}

/// The result of the rule for lines, as a mathematical value.
pub open spec fn row_result_view(result: Result<(&str, Vec<WsvValue>), Unmatched>) -> Matched<
    Row,
> {
    match result {
        Ok((rest, row)) => Ok((rest@, row_view(row@))),
        Err(rule) => Err(rule),
    }
}

/// A run of the kind `span`, possibly empty.
pub open spec fn run0(span: Span, text: Seq<char>) -> Found<Seq<char>> {
    let n = reach(span, text);
    Some((n, text.take(n as int)))
}

/// A run of the kind `span` of at least one character.
pub open spec fn run1(span: Span, text: Seq<char>) -> Found<Seq<char>> {
    let n = reach(span, text);
    if n == 0 {
        None
    } else {
        Some((n, text.take(n as int)))
    }
}

/// The null field: a `-`.
pub open spec fn null_at(text: Seq<char>) -> Found<Field> {
    if text.len() > 0 && text[0] == '-' {
        Some((1, None))
    } else {
        None
    }
}

/// A quote inside a string, written `""`.
pub open spec fn double_quote_at(text: Seq<char>) -> Found<Seq<char>> {
    if text.len() >= 2 && text[0] == '"' && text[1] == '"' {
        Some((2, seq!['"']))
    } else {
        None
    }
}

/// A line break inside a string, written `"/"`.
pub open spec fn new_line_at(text: Seq<char>) -> Found<Seq<char>> {
    if text.len() >= 3 && text[0] == '"' && text[1] == '/' && text[2] == '"' {
        Some((3, seq!['\n']))
    } else {
        None
    }
}

/// The inside of a string as far as it goes from the start of `text`: how many characters it
/// takes, and the text that it stands for. Characters that stand for themselves, `""` and
/// `"/"` are read as long as one of them is there.
pub open spec fn inside(text: Seq<char>) -> (nat, Seq<char>)
    decreases text.len(),
{
    if text.len() > 0 && within(Span::Part, text[0]) {
        let more = inside(text.skip(1));
        (1 + more.0, seq![text[0]] + more.1)
    } else if double_quote_at(text) is Some {
        let more = inside(text.skip(2));
        (2 + more.0, seq!['"'] + more.1)
    } else if new_line_at(text) is Some {
        let more = inside(text.skip(3));
        (3 + more.0, seq!['\n'] + more.1)
    } else {
        (0, Seq::empty())
    }
}

/// The inside of a string is no longer than the text.
pub proof fn lemma_inside_bound(text: Seq<char>)
    ensures
        inside(text).0 <= text.len(),
    decreases text.len(),
{
    if text.len() > 0 && within(Span::Part, text[0]) {
        lemma_inside_bound(text.skip(1));
    } else if double_quote_at(text) is Some {
        lemma_inside_bound(text.skip(2));
    } else if new_line_at(text) is Some {
        lemma_inside_bound(text.skip(3));
    }
}

/// A string: a quote, the inside of the string, and a quote.
pub open spec fn string_at(text: Seq<char>) -> Found<Field> {
    if text.len() > 0 && text[0] == '"' {
        let body = inside(text.skip(1));
        let close = 1 + body.0;
        if close < text.len() && text[close as int] == '"' {
            Some((close + 1, Some(body.1)))
        } else {
            None
        }
    } else {
        None
    }
}

/// A bare value: a run without quote, `#` and whitespace, of at least one character.
pub open spec fn value_at(text: Seq<char>) -> Found<Field> {
    match run1(Span::Bare, text) {
        Some((n, piece)) => Some((n, Some(piece))),
        None => None,
    }
}

/// A comment: a `#` and all that follows it on the line. What the rule matches is the comment
/// without the `#`.
pub open spec fn comment_at(text: Seq<char>) -> Found<Seq<char>> {
    if text.len() > 0 && text[0] == '#' {
        let n = reach(Span::Remark, text.skip(1));
        Some((1 + n, text.subrange(1, 1 + n as int)))
    } else {
        None
    }
}

/// Whether `text` begins with a `-` that is a token of its own: the text ends behind it, or
/// whitespace or a quote follows it.
pub open spec fn dash_alone(text: Seq<char>) -> bool {
    text.len() > 0 && text[0] == '-' && (text.len() == 1 || class_of(text[1]) == CharClass::Quote
        || class_of(text[1]) == CharClass::LineFeed || class_of(text[1]) == CharClass::Space)
}

/// A bare token: a run without quote, `#` and whitespace, of at least one character. Directly
/// behind a `-` that opens the token, a `#` belongs to the token too.
pub open spec fn token_at(text: Seq<char>) -> Found<Field> {
    let n = if text.len() >= 2 && text[0] == '-' && text[1] == '#' {
        2 + reach(Span::Bare, text.skip(2))
    } else {
        reach(Span::Bare, text)
    };
    if n == 0 {
        None
    } else {
        Some((n, Some(text.take(n as int))))
    }
}

/// A field: the null field where a `-` stands alone, else a string, else a bare token.
pub open spec fn item_at(text: Seq<char>) -> Found<Field> {
    if dash_alone(text) {
        Some((1, None))
    } else if string_at(text) is Some {
        string_at(text)
    } else {
        token_at(text)
    }
}

/// The fields that follow a first field, each behind whitespace: how many characters they
/// take with their whitespace, and the fields. Whitespace that no field follows is not taken.
pub open spec fn following(text: Seq<char>) -> (nat, Row)
    decreases text.len(),
{
    let gap = reach(Span::Gap, text);
    if gap == 0 || gap > text.len() {
        (0, Seq::empty())
    } else {
        match item_at(text.skip(gap as int)) {
            None => (0, Seq::empty()),
            Some((n, field)) => if gap + n <= text.len() {
                let more = following(text.skip((gap + n) as int));
                (gap + n + more.0, seq![field] + more.1)
            } else {
                (0, Seq::empty())
            },
        }
    }
}

/// Fields separated by whitespace, possibly none: how many characters they take, and the
/// fields.
pub open spec fn fields_at(text: Seq<char>) -> (nat, Row) {
    match item_at(text) {
        None => (0, Seq::empty()),
        Some((n, field)) => {
            let more = following(text.skip(n as int));
            (n + more.0, seq![field] + more.1)
        },
    }
}

/// A line: whitespace, fields separated by whitespace, whitespace, and a comment if there is
/// one. The rule matches any text.
pub open spec fn line_at(text: Seq<char>) -> Found<Row> {
    let lead = reach(Span::Gap, text);
    let fields = fields_at(text.skip(lead as int));
    let behind = lead + fields.0;
    let trail = reach(Span::Gap, text.skip(behind as int));
    let remark = match comment_at(text.skip((behind + trail) as int)) {
        Some((n, _)) => n,
        None => 0,
    };
    Some((behind + trail + remark, fields.1))
}

/// The error of a line that the rule for lines does not take whole, by the character at
/// which the rule stops. A quote at which a field should begin opens a string that is never
/// closed, which is found where the line ends. A quote anywhere else touches the token before
/// it. Any other character stands directly behind a closed string; where it is a `/`, the
/// character behind it is at fault, because `"/` can only go on to `"/"`.
pub open spec fn stuck(row: nat, line: Seq<char>, at: int) -> Fault {
    if line[at] == '"' {
        if at == 0 || within(Span::Gap, line[at - 1]) {
            fault(ErrorKind::OddDoubleQuotes, row, line.len() + 1)
        } else {
            fault(ErrorKind::MissingWhitespace, row, (at + 1) as nat)
        }
    } else if line[at] == '/' {
        fault(ErrorKind::MissingWhitespace, row, (at + 2) as nat)
    } else {
        fault(ErrorKind::MissingWhitespace, row, (at + 1) as nat)
    }
}

/// What tokenizing a line by the grammar gives: the fields, where the rule for lines takes the
/// whole line, else the error that the character at which the rule stops stands for.
pub open spec fn grammar_tokenize(row: nat, line: Seq<char>) -> Result<Row, Fault> {
    let found = line_at(line).unwrap();
    if found.0 >= line.len() {
        Ok(found.1)
    } else {
        Err(stuck(row, line, found.0 as int))
    }
}

/// Where the inside of the string that starts at `at` ends, and the text that it stands for.
fn inside_end(chars: &Vec<char>, at: usize) -> (found: (usize, String))
    requires
        at <= chars.len(),
    ensures
        found.0 == at + inside(chars@.skip(at as int)).0,
        at <= found.0 <= chars.len(),
        found.1@ == inside(chars@.skip(at as int)).1,
{
    let mut end = at;
    let mut text = String::new();
    let n = chars.len();
    loop
        invariant
            n == chars.len(),
            at <= end <= n,
            inside(chars@.skip(at as int)).0 == (end - at) + inside(chars@.skip(end as int)).0,
            inside(chars@.skip(at as int)).1 == text@ + inside(chars@.skip(end as int)).1,
        decreases n - end,
    {
        let ghost rest = chars@.skip(end as int);
        let ghost gathered = text@;
        proof {
            assert(forall|k: int| 0 <= k < rest.len() ==> rest[k] == chars@[end + k]);
            assert(rest.len() == n - end);
        }
        if end < n && belongs(Span::Part, chars[end]) {
            text.push(chars[end]);
            end += 1;
            proof {
                assert(rest.skip(1) =~= chars@.skip(end as int));
                assert(text@ + inside(chars@.skip(end as int)).1 =~= gathered + (seq![rest[0]]
                    + inside(rest.skip(1)).1));
            }
        } else if n - end >= 2 && chars[end] == '"' && chars[end + 1] == '"' {
            text.push('"');
            end += 2;
            proof {
                assert(rest.skip(2) =~= chars@.skip(end as int));
                assert(text@ + inside(chars@.skip(end as int)).1 =~= gathered + (seq!['"']
                    + inside(rest.skip(2)).1));
            }
        } else if n - end >= 3 && chars[end] == '"' && chars[end + 1] == '/' && chars[end + 2]
            == '"' {
            text.push('\n');
            end += 3;
            proof {
                assert(rest.skip(3) =~= chars@.skip(end as int));
                assert(text@ + inside(chars@.skip(end as int)).1 =~= gathered + (seq!['\n']
                    + inside(rest.skip(3)).1));
            }
        } else {
            proof {
                assert(inside(rest).0 == 0);
                assert(text@ + inside(rest).1 =~= text@);
            }
            return (end, text);
        }
    }
}

/// Where the field that starts at `at` ends, and the field; nothing where no field starts.
fn item_end(chars: &Vec<char>, at: usize) -> (found: Option<(usize, WsvValue)>)
    requires
        at <= chars.len(),
    ensures
        found is Some == item_at(chars@.skip(at as int)) is Some,
        found is Some ==> {
            &&& found.unwrap().0 == at + item_at(chars@.skip(at as int)).unwrap().0
            &&& at < found.unwrap().0 <= chars.len()
            &&& found.unwrap().1@ == item_at(chars@.skip(at as int)).unwrap().1
        },
{
    let ghost rest = chars@.skip(at as int);
    proof {
        assert(forall|k: int| 0 <= k < rest.len() ==> rest[k] == chars@[at + k]);
        assert(rest.len() == chars.len() - at);
    }
    let mut dashed = false;
    if at < chars.len() && chars[at] == '-' {
        if chars.len() - at == 1 {
            return Some((at + 1, WsvValue::Null));
        }
        match classify(chars[at + 1]) {
            CharClass::Quote | CharClass::LineFeed | CharClass::Space => {
                return Some((at + 1, WsvValue::Null));
            },
            CharClass::Hash => {
                dashed = true;
            },
            _ => {},
        }
    }
    if at < chars.len() && chars[at] == '"' {
        let (close, text) = inside_end(chars, at + 1);
        proof {
            assert(rest.skip(1) =~= chars@.skip(at + 1));
        }
        if close < chars.len() && chars[close] == '"' {
            return Some((close + 1, WsvValue::V(text)));
        }
    }
    proof {
        if dashed {
            assert(rest.skip(2) =~= chars@.skip(at + 2));
        }
    }
    let end = if dashed {
        run_end(chars, at + 2, Span::Bare)
    } else {
        run_end(chars, at, Span::Bare)
    };
    if end == at {
        None
    } else {
        let text = text_between(chars, at, end);
        assert(chars@.subrange(at as int, end as int) =~= rest.take(end - at));
        Some((end, WsvValue::V(text)))
    }
}

/// Where the fields that start at `at` end, and the fields.
fn fields_end(chars: &Vec<char>, at: usize) -> (found: (usize, Vec<WsvValue>))
    requires
        at <= chars.len(),
    ensures
        found.0 == at + fields_at(chars@.skip(at as int)).0,
        at <= found.0 <= chars.len(),
        row_view(found.1@) == fields_at(chars@.skip(at as int)).1,
{
    let mut row: Vec<WsvValue> = Vec::new();
    let ghost rest = chars@.skip(at as int);
    let mut end = match item_end(chars, at) {
        None => {
            assert(row_view(row@) =~= Seq::empty());
            return (at, row);
        },
        Some((end, value)) => {
            row.push(value);
            end
        },
    };
    let ghost first = item_at(rest).unwrap();
    proof {
        assert(rest.skip(first.0 as int) =~= chars@.skip(end as int));
        assert(row_view(row@) =~= seq![first.1]);
    }
    loop
        invariant
            at <= end <= chars.len(),
            fields_at(chars@.skip(at as int)).0 == (end - at) + following(
                chars@.skip(end as int),
            ).0,
            fields_at(chars@.skip(at as int)).1 == row_view(row@) + following(
                chars@.skip(end as int),
            ).1,
        decreases chars.len() - end,
    {
        let ghost here = chars@.skip(end as int);
        let ghost before = row_view(row@);
        let gap = run_end(chars, end, Span::Gap);
        if gap == end {
            assert(before + following(here).1 =~= before);
            return (end, row);
        }
        proof {
            assert(here.skip(gap - end) =~= chars@.skip(gap as int));
        }
        match item_end(chars, gap) {
            None => {
                assert(before + following(here).1 =~= before);
                return (end, row);
            },
            Some((next, value)) => {
                let ghost field = value@;
                row.push(value);
                proof {
                    assert(here.skip(next - end) =~= chars@.skip(next as int));
                    assert(row_view(row@) =~= before.push(field));
                    assert(before.push(field) + following(chars@.skip(next as int)).1 =~= before
                        + (seq![field] + following(chars@.skip(next as int)).1));
                }
                end = next;
            },
        }
    }
}

/// Where the line that starts at `at` ends, and its fields.
fn line_end(chars: &Vec<char>) -> (found: (usize, Vec<WsvValue>))
    ensures
        found.0 == line_at(chars@).unwrap().0,
        found.0 <= chars.len(),
        row_view(found.1@) == line_at(chars@).unwrap().1,
{
    let ghost text = chars@;
    assert(text.skip(0) =~= text);
    let lead = run_end(chars, 0, Span::Gap);
    let (behind, row) = fields_end(chars, lead);
    let trail = run_end(chars, behind, Span::Gap);
    proof {
        let rest = text.skip(trail as int);
        assert(forall|k: int| 0 <= k < rest.len() ==> rest[k] == text[trail + k]);
        assert(rest.len() == text.len() - trail);
        if trail < text.len() {
            assert(rest.skip(1) =~= text.skip(trail + 1));
        }
    }
    if trail < chars.len() && chars[trail] == '#' {
        let end = run_end(chars, trail + 1, Span::Remark);
        (end, row)
    } else {
        (trail, row)
    }
}

/// Whitespace, possibly none: the longest run of whitespace without line feed at the start of
/// `i`, and what follows it.
pub fn ws0(i: &str) -> (result: Result<(&str, &str), Unmatched>)
    ensures
        piece_view(result) == cut(i@, run0(Span::Gap, i@), Unmatched::Whitespace),
{
    let chars = chars_of(i);
    assert(chars@.skip(0) =~= chars@);
    let end = run_end(&chars, 0, Span::Gap);
    Ok((i.substring_char(end, chars.len()), i.substring_char(0, end)))
}

/// Whitespace, at least one character of it.
pub fn ws1(i: &str) -> (result: Result<(&str, &str), Unmatched>)
    ensures
        piece_view(result) == cut(i@, run1(Span::Gap, i@), Unmatched::Whitespace),
{
    let chars = chars_of(i);
    assert(chars@.skip(0) =~= chars@);
    let end = run_end(&chars, 0, Span::Gap);
    if end == 0 {
        Err(Unmatched::Whitespace)
    } else {
        Ok((i.substring_char(end, chars.len()), i.substring_char(0, end)))
    }
}

/// The null field: a `-` at the start of `i`.
pub fn nul(i: &str) -> (result: Result<(&str, WsvValue), Unmatched>)
    ensures
        field_view(result) == cut(i@, null_at(i@), Unmatched::Null),
{
    let chars = chars_of(i);
    if chars.len() > 0 && chars[0] == '-' {
        Ok((i.substring_char(1, chars.len()), WsvValue::Null))
    } else {
        Err(Unmatched::Null)
    }
}

/// A string at the start of `i`: a quote, the inside of the string, and a quote. The field
/// holds the text that the inside stands for.
pub fn string(i: &str) -> (result: Result<(&str, WsvValue), Unmatched>)
    ensures
        field_view(result) == cut(i@, string_at(i@), Unmatched::Quoted),
{
    let chars = chars_of(i);
    if chars.len() > 0 && chars[0] == '"' {
        let (close, text) = inside_end(&chars, 1);
        if close < chars.len() && chars[close] == '"' {
            return Ok((i.substring_char(close + 1, chars.len()), WsvValue::V(text)));
        }
    }
    Err(Unmatched::Quoted)
}

/// A piece of a string that stands for itself: the longest run without quote and line feed at
/// the start of `i`, of at least one character.
pub fn string_part(i: &str) -> (result: Result<(&str, &str), Unmatched>)
    ensures
        piece_view(result) == cut(i@, run1(Span::Part, i@), Unmatched::StringPart),
{
    let chars = chars_of(i);
    assert(chars@.skip(0) =~= chars@);
    let end = run_end(&chars, 0, Span::Part);
    if end == 0 {
        Err(Unmatched::StringPart)
    } else {
        Ok((i.substring_char(end, chars.len()), i.substring_char(0, end)))
    }
}

/// A quote inside a string: `""` at the start of `i` stands for one quote.
pub fn double_quote(i: &str) -> (result: Result<(&str, &str), Unmatched>)
    ensures
        piece_view(result) == cut(i@, double_quote_at(i@), Unmatched::DoubleQuote),
{
    let chars = chars_of(i);
    if chars.len() >= 2 && chars[0] == '"' && chars[1] == '"' {
        proof {
            reveal_strlit("\"");
            assert("\""@ =~= seq!['"']);
        }
        Ok((i.substring_char(2, chars.len()), "\""))
    } else {
        Err(Unmatched::DoubleQuote)
    }
}

/// A line break inside a string: `"/"` at the start of `i` stands for one line feed.
pub fn new_line(i: &str) -> (result: Result<(&str, &str), Unmatched>)
    ensures
        piece_view(result) == cut(i@, new_line_at(i@), Unmatched::NewLine),
{
    let chars = chars_of(i);
    if chars.len() >= 3 && chars[0] == '"' && chars[1] == '/' && chars[2] == '"' {
        proof {
            reveal_strlit("\n");
            assert("\n"@ =~= seq!['\n']);
        }
        Ok((i.substring_char(3, chars.len()), "\n"))
    } else {
        Err(Unmatched::NewLine)
    }
}

/// A bare value at the start of `i`: the longest run without quote, `#` and whitespace, of at
/// least one character.
pub fn value(i: &str) -> (result: Result<(&str, WsvValue), Unmatched>)
    ensures
        field_view(result) == cut(i@, value_at(i@), Unmatched::Value),
{
    let chars = chars_of(i);
    assert(chars@.skip(0) =~= chars@);
    let end = run_end(&chars, 0, Span::Bare);
    if end == 0 {
        Err(Unmatched::Value)
    } else {
        Ok((i.substring_char(end, chars.len()), WsvValue::new(i.substring_char(0, end))))
    }
}

/// A comment at the start of `i`: a `#` and all that follows it up to a line feed. What is
/// matched is the comment without the `#`.
pub fn comment(i: &str) -> (result: Result<(&str, &str), Unmatched>)
    ensures
        piece_view(result) == cut(i@, comment_at(i@), Unmatched::Comment),
{
    let chars = chars_of(i);
    if chars.len() > 0 && chars[0] == '#' {
        let end = run_end(&chars, 1, Span::Remark);
        Ok((i.substring_char(end, chars.len()), i.substring_char(1, end)))
    } else {
        Err(Unmatched::Comment)
    }
}

/// A line at the start of `i`: whitespace, fields separated by whitespace, whitespace, and a
/// comment if there is one. The rule matches any text and gives the fields with what it left.
pub fn line(i: &str) -> (result: Result<(&str, Vec<WsvValue>), Unmatched>)
    ensures
        row_result_view(result) == cut(i@, line_at(i@), Unmatched::Value),
{
    let chars = chars_of(i);
    let (end, row) = line_end(&chars);
    Ok((i.substring_char(end, chars.len()), row))
}

/// The fields of `input.1`, the line that follows `input.0` earlier lines, where the rule for
/// lines takes all of it; else the error that the character at which the rule stops stands
/// for.
pub fn parse_line(input: (usize, &str)) -> (result: Result<Vec<WsvValue>, Error>)
    requires
        input.0 < usize::MAX,
    ensures
        line_view(result) == grammar_tokenize((input.0 + 1) as nat, input.1@),
        single(input.1@) ==> line_view(result) == tokenize((input.0 + 1) as nat, input.1@),
{
    proof {
        if single(input.1@) {
            law_grammar_agrees((input.0 + 1) as nat, input.1@);
        }
    }
    let row = input.0 + 1;
    let limit = end_column(input.1);
    let chars = chars_of(input.1);
    let (end, fields) = line_end(&chars);
    if end >= chars.len() {
        Ok(fields)
    } else if chars[end] == '"' {
        if end == 0 || belongs(Span::Gap, chars[end - 1]) {
            Err(Error::new(ErrorKind::OddDoubleQuotes, row, limit, None))
        } else {
            Err(Error::new(ErrorKind::MissingWhitespace, row, end + 1, None))
        }
    } else if chars[end] == '/' {
        Err(Error::new(ErrorKind::MissingWhitespace, row, end + 2, None))
    } else {
        Err(Error::new(ErrorKind::MissingWhitespace, row, end + 1, None))
    }
}

/// The rows of all the lines of `i`, or the error of the first line that has one.
pub fn parse(i: &str) -> (result: Result<Vec<Vec<WsvValue>>, Error>)
    ensures
        strict_view(result) == tokenize_all(lines(i@)),
{
    strict_with_parser(i, Parser::Nom)
}

} // verus!
