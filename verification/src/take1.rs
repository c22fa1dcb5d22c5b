//! A buffer for the token that is being read: characters are pushed as they come, and the
//! finished token is taken out as the text that it stands for.
use vstd::prelude::*;
use crate::text::{chars_of, unescape_between, unescaped};

verus! {

/// The token that is being read, as it is written.
#[derive(Debug, Default, PartialEq, Eq, Clone)]
pub struct WsvValue(pub String);

impl View for WsvValue {
    type V = Seq<char>;

    open spec fn view(&self) -> Seq<char> {
        self.0@
    }
}

/// A token without the quotes around it, where it stands between two quotes.
pub open spec fn stripped(token: Seq<char>) -> Seq<char> {
    if token.len() >= 2 && token[0] == '"' && token.last() == '"' {
        token.subrange(1, token.len() - 1)
    } else {
        token
    }
}

impl WsvValue {
    /// Takes the token out and leaves the buffer empty. The token is given as the text that it
    /// stands for: without the quotes around it, and with its escapes read.
    pub fn sanitise(&mut self) -> (value: Option<String>)
        ensures
            final(self)@ == Seq::<char>::empty(),
            value is Some,
            value->0@ == unescaped(stripped(old(self)@)),
    {
        let chars = chars_of(self.0.as_str());
        self.0 = String::new();
        let len = chars.len();
        if len >= 2 && chars[0] == '"' && chars[len - 1] == '"' {
            Some(unescape_between(&chars, 1, len - 1))
        } else {
            assert(chars@.subrange(0, len as int) =~= chars@);
            Some(unescape_between(&chars, 0, len))
        }
    }

    /// Puts `ch` at the end of the token.
    pub fn push(&mut self, ch: char)
        ensures
            final(self)@ == old(self)@.push(ch),
    {
        self.0.push(ch);
    }

    /// Whether nothing has been pushed since the token was last taken out.
    pub fn is_empty(&self) -> (empty: bool)
        ensures
            empty == (self@.len() == 0),
    {
        self.0.as_str().is_empty()
    }
}

} // verus!
