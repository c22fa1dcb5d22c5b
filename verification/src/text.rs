//! Characters and lines: the classes of characters that the format tells apart, the events
//! that a line feeds to a tokenizer, and the cutting of a text into lines.
use vstd::prelude::*;

verus! {

/// Whether a character carries the Unicode `White_Space` property.
pub uninterp spec fn is_white_space(c: char) -> bool;

/// `char::is_whitespace` reports the Unicode `White_Space` property of its argument.
pub assume_specification[ char::is_whitespace ](c: char) -> (b: bool)
    ensures
        b == is_white_space(c),
;

/// `String::push` appends one character to the end of the string.
pub assume_specification[ std::string::String::push ](s: &mut std::string::String, c: char)
    ensures
        final(s)@ == old(s)@.push(c),
;

/// What a character means to the format.
#[derive(Debug, Copy, Clone, PartialEq, Eq, Hash, Structural)]
pub enum CharClass {
    /// `"`, which opens, closes and escapes inside a quoted string.
    Quote,
    /// `#`, which opens a comment.
    Hash,
    /// `-`, which alone is the null field.
    Dash,
    /// `/`, which between two quotes writes a line break.
    Slash,
    /// The line feed, which ends a line.
    LineFeed,
    /// Any other whitespace.
    Space,
    /// Anything else.
    Other,
}

/// The class of `c`, given whether `c` is whitespace.
pub open spec fn class_with(c: char, white_space: bool) -> CharClass {
    if c == '"' {
        CharClass::Quote
    } else if c == '#' {
        CharClass::Hash
    } else if c == '-' {
        CharClass::Dash
    } else if c == '/' {
        CharClass::Slash
    } else if c == '\n' {
        CharClass::LineFeed
    } else if white_space {
        CharClass::Space
    } else {
        CharClass::Other
    }
}

/// The class of `c`.
pub open spec fn class_of(c: char) -> CharClass {
    class_with(c, is_white_space(c))
}

/// Whether `c` separates fields: a line feed or any other whitespace.
pub open spec fn is_blank(c: char) -> bool {
    class_of(c) == CharClass::LineFeed || class_of(c) == CharClass::Space
}

/// The class of `c`, given whether `c` is whitespace.
pub fn class_from(c: char, white_space: bool) -> (class: CharClass)
    ensures
        class == class_with(c, white_space),
{
    if c == '"' {
        CharClass::Quote
    } else if c == '#' {
        CharClass::Hash
    } else if c == '-' {
        CharClass::Dash
    } else if c == '/' {
        CharClass::Slash
    } else if c == '\n' {
        CharClass::LineFeed
    } else if white_space {
        CharClass::Space
    } else {
        CharClass::Other
    }
}

/// The class of `c`.
pub fn classify(c: char) -> (class: CharClass)
    ensures
        class == class_of(c),
{
    class_from(c, c.is_whitespace())
}

/// The kinds of runs of characters that are read greedily.
#[derive(Debug, PartialEq, Eq, Clone, Copy, Hash, Structural)]
pub enum Span {
    /// Whitespace other than the line feed.
    Gap,
    /// The characters of a bare value: none of quote, `#` and whitespace.
    Bare,
    /// The characters that stand for themselves inside a string: none of quote and line feed.
    Part,
    /// The characters of a comment: all but the line feed.
    Remark,
    /// What separates fields: whitespace of any kind.
    Blank,
    /// All but what separates fields.
    Word,
}

/// Whether `c` belongs to runs of the kind `span`.
pub open spec fn within(span: Span, c: char) -> bool {
    match span {
        Span::Gap => class_of(c) == CharClass::Space,
        Span::Bare => class_of(c) == CharClass::Dash || class_of(c) == CharClass::Slash
            || class_of(c) == CharClass::Other,
        Span::Part => c != '"' && c != '\n',
        Span::Remark => c != '\n',
        Span::Blank => is_blank(c),
        Span::Word => !is_blank(c),
    }
}

/// The length of the longest run of the kind `span` at the start of `text`.
pub open spec fn reach(span: Span, text: Seq<char>) -> nat
    decreases text.len(),
{
    if text.len() > 0 && within(span, text[0]) {
        1 + reach(span, text.skip(1))
    } else {
        0
    }
}

/// A run is no longer than the text.
pub proof fn lemma_reach_bound(span: Span, text: Seq<char>)
    ensures
        reach(span, text) <= text.len(),
    decreases text.len(),
{
    if text.len() > 0 && within(span, text[0]) {
        lemma_reach_bound(span, text.skip(1));
    }
}

/// Whether `c` belongs to runs of the kind `span`.
pub fn belongs(span: Span, c: char) -> (b: bool)
    ensures
        b == within(span, c),
{
    match span {
        Span::Gap => match classify(c) {
            CharClass::Space => true,
            _ => false,
        },
        Span::Bare => match classify(c) {
            CharClass::Dash | CharClass::Slash | CharClass::Other => true,
            _ => false,
        },
        Span::Part => c != '"' && c != '\n',
        Span::Remark => c != '\n',
        Span::Blank => match classify(c) {
            CharClass::LineFeed | CharClass::Space => true,
            _ => false,
        },
        Span::Word => match classify(c) {
            CharClass::LineFeed | CharClass::Space => false,
            _ => true,
        },
    }
}

/// Where the longest run of the kind `span` that starts at `at` ends.
pub fn run_end(chars: &Vec<char>, at: usize, span: Span) -> (end: usize)
    requires
        at <= chars.len(),
    ensures
        end == at + reach(span, chars@.skip(at as int)),
        at <= end <= chars.len(),
{
    let mut end = at;
    while end < chars.len() && belongs(span, chars[end])
        invariant
            at <= end <= chars.len(),
            reach(span, chars@.skip(at as int)) == (end - at) + reach(
                span,
                chars@.skip(end as int),
            ),
        decreases chars.len() - end,
    {
        assert(chars@.skip(end as int)[0] == chars@[end as int]);
        assert(chars@.skip(end as int).skip(1) =~= chars@.skip(end + 1));
        end += 1;
    }
    proof {
        if end < chars.len() {
            assert(chars@.skip(end as int)[0] == chars@[end as int]);
        } else {
            assert(chars@.skip(end as int).len() == 0);
        }
    }
    end
}

/// The events of a line: each of its characters, then the one event that ends it.
pub open spec fn events(line: Seq<char>) -> Seq<Option<char>> {
    Seq::new(line.len() + 1, |i: int| if i < line.len() { Some(line[i]) } else { None })
}

/// The events of `line`, in order.
pub fn events_of(line: &str) -> (input: Vec<Option<char>>)
    ensures
        input@ == events(line@),
{
    let mut input: Vec<Option<char>> = Vec::new();
    for c in it: line.chars()
        invariant
            it.seq() == line@,
            input@.len() == it.index(),
            forall|k: int| 0 <= k < input@.len() ==> input@[k] == Some(line@[k]),
    {
        input.push(Some(c));
    }
    input.push(None);
    assert(input@ =~= events(line@));
    input
}

/// The characters of `text`, in order.
pub fn chars_of(text: &str) -> (chars: Vec<char>)
    ensures
        chars@ == text@,
{
    let mut chars: Vec<char> = Vec::new();
    for c in it: text.chars()
        invariant
            it.seq() == text@,
            chars@ == text@.take(it.index() as int),
    {
        chars.push(c);
    }
    chars
}

/// The text with the characters of `chars` from `from` up to `to`.
pub fn text_between(chars: &Vec<char>, from: usize, to: usize) -> (text: String)
    requires
        from <= to <= chars.len(),
    ensures
        text@ == chars@.subrange(from as int, to as int),
{
    let mut text = String::new();
    let mut at = from;
    while at < to
        invariant
            from <= at <= to <= chars.len(),
            text@ == chars@.subrange(from as int, at as int),
        decreases to - at,
    {
        text.push(chars[at]);
        at += 1;
        assert(text@ =~= chars@.subrange(from as int, at as int));
    }
    text
}

/// The number of the column behind the last character of `text`, counted from 1.
pub fn end_column(text: &str) -> (col: usize)
    ensures
        col == text@.len() + 1,
{
    events_of(text).len()
}

/// The pieces into which `sep` cuts `text`: one more than `sep` occurs in it, each free of `sep`.
pub open spec fn split(text: Seq<char>, sep: char) -> Seq<Seq<char>>
    decreases text.len(),
{
    if text.len() == 0 {
        seq![Seq::empty()]
    } else {
        let before = split(text.drop_last(), sep);
        if text.last() == sep {
            before.push(Seq::empty())
        } else {
            before.drop_last().push(before.last().push(text.last()))
        }
    }
}

/// Whether a text holds no line feed, as every line of a document does.
pub open spec fn single(line: Seq<char>) -> bool {
    forall|k: int| 0 <= k < line.len() ==> line[k] != '\n'
}

/// Whether `text` holds no line feed.
pub fn is_single(text: &str) -> (whole: bool)
    ensures
        whole == single(text@),
{
    let chars = chars_of(text);
    let mut index: usize = 0;
    while index < chars.len()
        invariant
            chars@ == text@,
            index <= chars.len(),
            forall|k: int| 0 <= k < index ==> chars@[k] != '\n',
        decreases chars.len() - index,
    {
        if chars[index] == '\n' {
            return false;
        }
        index += 1;
    }
    true
}

/// The lines of a text: what the line feed cuts it into.
pub open spec fn lines(text: Seq<char>) -> Seq<Seq<char>> {
    split(text, '\n')
}

/// The views of a sequence of texts.
pub open spec fn texts(pieces: Seq<String>) -> Seq<Seq<char>> {
    Seq::new(pieces.len(), |i: int| pieces[i]@)
}

/// The pieces into which `sep` cuts `text`.
pub fn split_at_char(text: &str, sep: char) -> (pieces: Vec<String>)
    ensures
        texts(pieces@) == split(text@, sep),
{
    let mut done: Vec<String> = Vec::new();
    let mut current = String::new();
    for c in it: text.chars()
        invariant
            it.seq() == text@,
            texts(done@).push(current@) == split(text@.take(it.index() as int), sep),
    {
        proof {
            let before = text@.take(it.index() as int);
            let now = text@.take(it.index() + 1);
            assert(now.drop_last() =~= before);
            assert(now.last() == c);
            lemma_split_nonempty(before, sep);
        }
        if c == sep {
            done.push(current);
            current = String::new();
            assert(texts(done@).push(current@) =~= split(text@.take(it.index() as int), sep).push(
                Seq::empty(),
            ));
        } else {
            current.push(c);
            assert(texts(done@).push(current@) =~= split(
                text@.take(it.index() as int),
                sep,
            ).drop_last().push(split(text@.take(it.index() as int), sep).last().push(c)));
        }
    }
    assert(text@.take(text@.len() as int) =~= text@);
    done.push(current);
    assert(texts(done@) =~= split(text@, sep));
    done
}

/// Cutting never gives nothing: there is one piece more than there are separators.
pub proof fn lemma_split_nonempty(text: Seq<char>, sep: char)
    ensures
        split(text, sep).len() >= 1,
    decreases text.len(),
{
    if text.len() > 0 {
        lemma_split_nonempty(text.drop_last(), sep);
    }
}

/// No piece holds the separator.
pub proof fn lemma_split_free(text: Seq<char>, sep: char, piece: int)
    requires
        0 <= piece < split(text, sep).len(),
    ensures
        forall|k: int| 0 <= k < split(text, sep)[piece].len() ==> split(text, sep)[piece][k] != sep,
        sep == '\n' ==> single(split(text, sep)[piece]),
    decreases text.len(),
{
    if text.len() > 0 {
        let before = split(text.drop_last(), sep);
        lemma_split_nonempty(text.drop_last(), sep);
        if text.last() == sep {
            if piece < before.len() {
                lemma_split_free(text.drop_last(), sep, piece);
            }
        } else {
            lemma_split_free(text.drop_last(), sep, piece);
        }
    }
}

/// A text without the separator is its own single piece.
pub proof fn lemma_split_whole(text: Seq<char>, sep: char)
    requires
        forall|k: int| 0 <= k < text.len() ==> text[k] != sep,
    ensures
        split(text, sep) == seq![text],
    decreases text.len(),
{
    if text.len() == 0 {
        assert(text =~= Seq::empty());
    } else {
        lemma_split_whole(text.drop_last(), sep);
        assert(split(text, sep) =~~= seq![text]);
    }
}

/// How the first character of a text shapes its pieces: a separator opens a new piece, any
/// other character joins the first piece of what follows.
pub proof fn lemma_split_front(text: Seq<char>, sep: char)
    requires
        text.len() > 0,
    ensures
        split(text.skip(1), sep).len() >= 1,
        text[0] == sep ==> split(text, sep) == seq![Seq::<char>::empty()] + split(
            text.skip(1),
            sep,
        ),
        text[0] != sep ==> split(text, sep) == seq![
            seq![text[0]] + split(text.skip(1), sep)[0],
        ] + split(text.skip(1), sep).skip(1),
    decreases text.len(),
{
    let tail = text.skip(1);
    lemma_split_nonempty(tail, sep);
    if text.len() == 1 {
        assert(text.drop_last() =~= Seq::<char>::empty());
        assert(tail =~= Seq::<char>::empty());
        assert(split(Seq::<char>::empty(), sep) =~~= seq![Seq::<char>::empty()]);
        if text[0] == sep {
            assert(split(text, sep) =~~= seq![Seq::<char>::empty()] + split(tail, sep));
        } else {
            assert(split(text, sep) =~~= seq![seq![text[0]] + split(tail, sep)[0]] + split(
                tail,
                sep,
            ).skip(1));
        }
    } else {
        let init = text.drop_last();
        let c = text.last();
        lemma_split_front(init, sep);
        assert(init.skip(1) =~= tail.drop_last());
        assert(tail.last() == c);
        assert(init[0] == text[0]);
        let inner = split(tail.drop_last(), sep);
        lemma_split_nonempty(tail.drop_last(), sep);
        if text[0] == sep {
            assert(split(text, sep) =~~= seq![Seq::<char>::empty()] + split(tail, sep));
        } else {
            assert(split(text, sep) =~~= seq![seq![text[0]] + split(tail, sep)[0]] + split(
                tail,
                sep,
            ).skip(1));
        }
    }
}

/// How the first piece of a text lies in it: a text of one piece is that piece, and any other
/// text is its first piece, the separator, and a rest whose pieces are the other pieces.
pub proof fn lemma_split_head(text: Seq<char>, sep: char)
    ensures
        split(text, sep).len() >= 1,
        split(text, sep)[0].len() <= text.len(),
        forall|k: int| 0 <= k < split(text, sep)[0].len() ==> split(text, sep)[0][k] == text[k],
        forall|k: int| 0 <= k < split(text, sep)[0].len() ==> split(text, sep)[0][k] != sep,
        split(text, sep).len() == 1 ==> text == split(text, sep)[0],
        split(text, sep).len() >= 2 ==> {
            let first = split(text, sep)[0];
            &&& first.len() < text.len()
            &&& text == first + seq![sep] + text.skip(first.len() + 1 as int)
            &&& split(text.skip(first.len() + 1 as int), sep) == split(text, sep).skip(1)
        },
    decreases text.len(),
{
    lemma_split_nonempty(text, sep);
    if text.len() == 0 {
        assert(split(text, sep) =~~= seq![Seq::<char>::empty()]);
        assert(text =~= split(text, sep)[0]);
    } else {
        let tail = text.skip(1);
        lemma_split_front(text, sep);
        lemma_split_head(tail, sep);
        let first = split(text, sep)[0];
        if text[0] == sep {
            assert(first =~= Seq::<char>::empty());
            assert(split(text, sep).skip(1) =~= split(tail, sep));
            assert(text =~= first + seq![sep] + text.skip(first.len() + 1 as int));
        } else {
            let inner = split(tail, sep)[0];
            assert(first =~= seq![text[0]] + inner);
            assert(split(text, sep).skip(1) =~= split(tail, sep).skip(1));
            if split(text, sep).len() == 1 {
                assert(text =~= first);
            } else {
                let rest = tail.skip(inner.len() + 1 as int);
                assert(rest =~= text.skip(first.len() + 1 as int));
                assert(split(tail, sep).len() >= 2);
                assert(tail == inner + seq![sep] + rest);
                assert(text =~= seq![text[0]] + tail);
                assert(text =~= first + seq![sep] + rest);
            }
        }
    }
}

/// The pieces with `sep` between each two of them, as one text.
pub open spec fn joined(pieces: Seq<Seq<char>>, sep: Seq<char>) -> Seq<char>
    decreases pieces.len(),
{
    if pieces.len() == 0 {
        Seq::empty()
    } else if pieces.len() == 1 {
        pieces[0]
    } else {
        joined(pieces.drop_last(), sep) + sep + pieces.last()
    }
}

/// A text as it is written inside a quoted string: a quote is doubled, a line feed becomes
/// `"/"`, and every other character stands for itself.
pub open spec fn escaped(text: Seq<char>) -> Seq<char>
    decreases text.len(),
{
    if text.len() == 0 {
        Seq::empty()
    } else if text[0] == '"' {
        seq!['"', '"'] + escaped(text.skip(1))
    } else if text[0] == '\n' {
        seq!['"', '/', '"'] + escaped(text.skip(1))
    } else {
        seq![text[0]] + escaped(text.skip(1))
    }
}

/// A text as a quoted string: its escaped form between two quotes.
pub open spec fn quoted(text: Seq<char>) -> Seq<char> {
    seq!['"'] + escaped(text) + seq!['"']
}

/// What a text that was written inside a quoted string stands for: `""` is a quote, `"/"` is a
/// line feed, and every other character stands for itself. The text is read from left to
/// right, so that `""/""` is a quote, a slash and a quote.
pub open spec fn unescaped(content: Seq<char>) -> Seq<char>
    decreases content.len(),
{
    if content.len() == 0 {
        Seq::empty()
    } else if content.len() >= 2 && content[0] == '"' && content[1] == '"' {
        seq!['"'] + unescaped(content.skip(2))
    } else if content.len() >= 3 && content[0] == '"' && content[1] == '/' && content[2] == '"' {
        seq!['\n'] + unescaped(content.skip(3))
    } else {
        seq![content[0]] + unescaped(content.skip(1))
    }
}

/// What the characters of `chars` from `from` up to `to` stand for, when they were written
/// inside a quoted string.
pub fn unescape_between(chars: &Vec<char>, from: usize, to: usize) -> (text: String)
    requires
        from <= to <= chars.len(),
    ensures
        text@ == unescaped(chars@.subrange(from as int, to as int)),
{
    let mut text = String::new();
    let mut at = from;
    let ghost content = chars@.subrange(from as int, to as int);
    assert(content.skip(0) =~= content);
    while at < to
        invariant
            from <= at <= to <= chars.len(),
            content == chars@.subrange(from as int, to as int),
            unescaped(content) == text@ + unescaped(content.skip(at - from)),
        decreases to - at,
    {
        let ghost rest = content.skip(at - from);
        let ghost gathered = text@;
        proof {
            assert(forall|k: int| 0 <= k < rest.len() ==> rest[k] == chars@[at + k]);
            assert(rest.len() == to - at);
        }
        if to - at >= 2 && chars[at] == '"' && chars[at + 1] == '"' {
            text.push('"');
            at += 2;
            proof {
                assert(rest.skip(2) =~= content.skip(at - from));
                assert(text@ + unescaped(rest.skip(2)) =~= gathered + (seq!['"'] + unescaped(
                    rest.skip(2),
                )));
            }
        } else if to - at >= 3 && chars[at] == '"' && chars[at + 1] == '/' && chars[at + 2]
            == '"' {
            text.push('\n');
            at += 3;
            proof {
                assert(rest.skip(3) =~= content.skip(at - from));
                assert(text@ + unescaped(rest.skip(3)) =~= gathered + (seq!['\n'] + unescaped(
                    rest.skip(3),
                )));
            }
        } else {
            text.push(chars[at]);
            at += 1;
            proof {
                assert(rest.skip(1) =~= content.skip(at - from));
                assert(text@ + unescaped(rest.skip(1)) =~= gathered + (seq![rest[0]] + unescaped(
                    rest.skip(1),
                )));
            }
        }
    }
    assert(text@ + unescaped(content.skip(to - from)) =~= text@);
    text
}

/// The character that writes the digit `digit`.
pub open spec fn digit_char(digit: nat) -> char {
    if digit == 0 {
        '0'
    } else if digit == 1 {
        '1'
    } else if digit == 2 {
        '2'
    } else if digit == 3 {
        '3'
    } else if digit == 4 {
        '4'
    } else if digit == 5 {
        '5'
    } else if digit == 6 {
        '6'
    } else if digit == 7 {
        '7'
    } else if digit == 8 {
        '8'
    } else {
        '9'
    }
}

/// A number as it is written in decimal, without leading zeros.
pub open spec fn decimal_of(number: nat) -> Seq<char>
    decreases number,
{
    if number < 10 {
        seq![digit_char(number)]
    } else {
        decimal_of(number / 10).push(digit_char(number % 10))
    }
}

/// `number` as it is written in decimal.
pub fn decimal(number: usize) -> (text: String)
    ensures
        text@ == decimal_of(number as nat),
    decreases number,
{
    let mut text = if number < 10 {
        String::new()
    } else {
        decimal(number / 10)
    };
    let digit = number % 10;
    let c = if digit == 0 {
        '0'
    } else if digit == 1 {
        '1'
    } else if digit == 2 {
        '2'
    } else if digit == 3 {
        '3'
    } else if digit == 4 {
        '4'
    } else if digit == 5 {
        '5'
    } else if digit == 6 {
        '6'
    } else if digit == 7 {
        '7'
    } else if digit == 8 {
        '8'
    } else {
        '9'
    };
    text.push(c);
    proof {
        if number < 10 {
            assert(text@ =~= seq![digit_char(number as nat)]);
        }
    }
    text
}

/// A text as `{:?}` shows it: between quotes, with what cannot be shown as it is escaped.
pub uninterp spec fn debug_form(text: Seq<char>) -> Seq<char>;

/// `format!` with `{:?}` on a text gives the text as its `Debug` shows it.
#[verifier::external_body]
pub(crate) fn debug_text(text: &str) -> (shown: String)
    ensures
        shown@ == debug_form(text@),
{
    format!("{:?}", text)
}

} // verus!
