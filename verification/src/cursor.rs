//! A cursor over the characters of a text, with one character of lookahead.

use vstd::prelude::*;
use crate::chars::chars_of;
use crate::grammar::peek;

verus! {

/// The characters of a text and a position among them.
pub struct Cursor {
    chars: Vec<char>,
    pos: usize,
}

impl Cursor {
    /// The whole text, read or not.
    pub closed spec fn text(&self) -> Seq<char> {
        self.chars@
    }

    /// The position of the next character to be read.
    pub closed spec fn at(&self) -> nat {
        self.pos as nat
    }

    /// The position does not pass the end of the text, whose length fits in a
    /// machine word.
    pub open spec fn wf(&self) -> bool {
        self.at() <= self.text().len() <= usize::MAX
    }

    /// A cursor at the start of `input`.
    pub fn new(input: &str) -> (cursor: Cursor)
        ensures
            cursor.wf(),
            cursor.text() == input@,
            cursor.at() == 0,
    {
        let chars = chars_of(input);
        assert(chars@.len() == chars.len());
        Cursor { chars, pos: 0 }
    }

    /// The next character, which stays unread.
    pub fn peek(&self) -> (r: Option<char>)
        requires
            self.wf(),
        ensures
            r == peek(self.text(), self.at()),
    {
        if self.pos < self.chars.len() {
            Some(self.chars[self.pos])
        } else {
            None
        }
    }

    /// Reads the next character, if there is one.
    pub fn next(&mut self) -> (r: Option<char>)
        requires
            old(self).wf(),
        ensures
            final(self).wf(),
            final(self).text() == old(self).text(),
            r == peek(old(self).text(), old(self).at()),
            final(self).at() == old(self).at() + if r is Some {
                1nat
            } else {
                0nat
            },
    {
        if self.pos < self.chars.len() {
            let c = self.chars[self.pos];
            self.pos = self.pos + 1;
            Some(c)
        } else {
            None
        }
    }
}

} // verus!
