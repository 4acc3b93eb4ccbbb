use vstd::prelude::*;
use crate::source::{FilePosition, pos_at, lemma_pos_at_bounded};
use crate::text::char_count;

verus! {

/// A cursor over the characters of a source text that keeps the position
/// of the last character it consumed.
pub struct TokenIter {
    pub chars: Vec<char>,
    pub index: usize,
    pub filepos: FilePosition,
}

impl TokenIter {
    pub open spec fn wf(&self) -> bool {
        &&& self.index <= self.chars.len() < usize::MAX
        &&& self.filepos == pos_at(self.chars@, self.index as nat)
    }

    /// The character under the cursor, if any.
    pub open spec fn current(&self) -> Option<char> {
        if self.index < self.chars.len() {
            Some(self.chars@[self.index as int])
        } else {
            None
        }
    }

    /// The cursor moved one character on.
    pub open spec fn stepped(&self, next: &TokenIter) -> bool {
        &&& next.chars@ == self.chars@
        &&& next.index == self.index + 1
        &&& next.filepos == pos_at(self.chars@, next.index as nat)
    }

    pub fn new(chars: Vec<char>) -> (r: TokenIter)
        ensures
            r.wf(),
            r.chars@ == chars@,
            r.index == 0,
    {
        let len = char_count(&chars);
        assert(len < usize::MAX);
        TokenIter { chars, index: 0, filepos: FilePosition::new(1, 0) }
    }

    proof fn lemma_step(&self)
        requires
            self.wf(),
            self.index < self.chars.len(),
        ensures
            self.filepos.lineno < usize::MAX,
            self.filepos.linepos < usize::MAX,
            pos_at(self.chars@, (self.index + 1) as nat) == crate::source::advance(
                self.filepos,
                self.chars@[self.index as int],
            ),
    {
        lemma_pos_at_bounded(self.chars@, self.index as nat);
    }

    /// Consumes the character under the cursor and moves the position past it.
    fn maybe_count_char(&mut self, got: Option<(usize, char)>) -> (r: Option<(usize, char)>)
        requires
            old(self).wf(),
            got matches Some((i, c)) ==> old(self).index < old(self).chars.len() && i == old(self).index
                && c == old(self).chars@[i as int],
        ensures
            r == got,
            got is None ==> *final(self) == *old(self),
            got is Some ==> old(self).stepped(final(self)),
            final(self).wf(),
    {
        if let Some((_, ch)) = got {
            proof {
                self.lemma_step();
            }
            self.filepos.char_inc(ch);
            self.index = self.index + 1;
        }
        got
    }

    /// Consumes and returns the character under the cursor with its index.
    pub fn next(&mut self) -> (r: Option<(usize, char)>)
        requires
            old(self).wf(),
        ensures
            final(self).wf(),
            r == (match old(self).current() {
                Some(c) => Some((old(self).index, c)),
                None => None,
            }),
            r is Some ==> old(self).stepped(final(self)),
            r is None ==> *final(self) == *old(self),
    {
        let got = if self.index < self.chars.len() {
            Some((self.index, self.chars[self.index]))
        } else {
            None
        };
        self.maybe_count_char(got)
    }

    pub fn peek(&self) -> (r: Option<char>)
        requires
            self.wf(),
        ensures
            r == self.current(),
    {
        if self.index < self.chars.len() {
            Some(self.chars[self.index])
        } else {
            None
        }
    }

    /// Consumes the character under the cursor where `func` accepts it.
    pub fn next_if<F: Fn(char) -> bool>(&mut self, func: F) -> (r: Option<(usize, char)>)
        requires
            old(self).wf(),
            forall|c: char| func.requires((c,)),
        ensures
            final(self).wf(),
            old(self).current() is None ==> r is None && *final(self) == *old(self),
            old(self).current() matches Some(c) ==> (r is Some ==> func.ensures((c,), true)) && (r is None
                ==> func.ensures((c,), false)),
            r is Some ==> r == Some((old(self).index, old(self).current()->0)) && old(self).stepped(
                final(self),
            ),
            r is None ==> *final(self) == *old(self),
    {
        let got = if self.index < self.chars.len() {
            let c = self.chars[self.index];
            let ok = func(c);
            if ok {
                Some((self.index, c))
            } else {
                None
            }
        } else {
            None
        };
        self.maybe_count_char(got)
    }

    /// Consumes the character under the cursor where it is `expected`.
    pub fn next_if_eq(&mut self, expected: char) -> (r: Option<(usize, char)>)
        requires
            old(self).wf(),
        ensures
            final(self).wf(),
            r is Some <==> old(self).current() == Some(expected),
            r is Some ==> r == Some((old(self).index, expected)) && old(self).stepped(final(self)),
            r is None ==> *final(self) == *old(self),
    {
        let got = if self.index < self.chars.len() && self.chars[self.index] == expected {
            Some((self.index, expected))
        } else {
            None
        };
        self.maybe_count_char(got)
    }

    /// Consumes the character under the cursor where it is not `unexpected`.
    pub fn next_if_not_eq(&mut self, unexpected: char) -> (r: Option<(usize, char)>)
        requires
            old(self).wf(),
        ensures
            final(self).wf(),
            r is Some <==> (old(self).current() is Some && old(self).current() != Some(unexpected)),
            r is Some ==> r == Some((old(self).index, old(self).current()->0)) && old(self).stepped(
                final(self),
            ),
            r is None ==> *final(self) == *old(self),
    {
        let got = if self.index < self.chars.len() && self.chars[self.index] != unexpected {
            Some((self.index, self.chars[self.index]))
        } else {
            None
        };
        self.maybe_count_char(got)
    }

    /// The index of the character under the cursor, if any.
    pub fn next_index(&self) -> (r: Option<usize>)
        requires
            self.wf(),
        ensures
            r == (if self.index < self.chars.len() {
                Some(self.index)
            } else {
                None
            }),
    {
        match self.peek() {
            Some(_) => Some(self.index),
            None => None,
        }
    }
}

} // verus!
