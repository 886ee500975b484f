//! The cursor and its abstract state.
use core::str::Chars;
use vstd::prelude::*;

use crate::utf8::{
    char_width, lemma_prefix_suffix, lemma_take_monotonic, lemma_take_one_more, split_first,
    utf8_len,
};

verus! {

broadcast use vstd::string::group_string_axioms;

/// The abstract state of a cursor: the whole text it was made from and the
/// number of code points consumed so far.
pub struct CursorView {
    pub text: Seq<char>,
    pub index: nat,
}

impl CursorView {
    /// The position lies within the text.
    pub open spec fn wf(self) -> bool {
        self.index <= self.text.len()
    }

    /// The state after `n` consumptions.
    pub open spec fn advanced_times(self, n: nat) -> CursorView
        decreases n,
    {
        if n == 0 {
            self
        } else {
            self.advanced_times((n - 1) as nat).advanced()
        }
    }

    /// The code points not yet consumed.
    pub open spec fn rest(self) -> Seq<char> {
        self.text.skip(self.index as int)
    }

    /// Byte offset of the position into the text.
    pub open spec fn byte_pos(self) -> nat {
        utf8_len(self.text.take(self.index as int))
    }

    /// The code point `k` places ahead of the position, if there is one.
    pub open spec fn ahead(self, k: nat) -> Option<char> {
        if self.index + k < self.text.len() {
            Some(self.text[(self.index + k) as int])
        } else {
            None
        }
    }

    /// The state after consuming one code point; unchanged at the end of the text.
    pub open spec fn advanced(self) -> CursorView {
        if self.index < self.text.len() {
            CursorView { text: self.text, index: self.index + 1 }
        } else {
            self
        }
    }
}

/// A cursor over the code points of a text, keeping its byte offset.
pub struct Cursor<'a> {
    /// The part of the text not yet consumed.
    rest: &'a str,
    /// Byte offset of the position into the text.
    byte_pos: usize,
    text: Ghost<Seq<char>>,
    index: Ghost<nat>,
}

impl<'a> View for Cursor<'a> {
    type V = CursorView;

    closed spec fn view(&self) -> CursorView {
        CursorView { text: self.text@, index: self.index@ }
    }
}

impl<'a> Cursor<'a> {
    #[verifier::type_invariant]
    closed spec fn inv(self) -> bool {
        &&& self.index@ <= self.text@.len()
        &&& self.rest@ == self.text@.skip(self.index@ as int)
        &&& self.byte_pos == utf8_len(self.text@.take(self.index@ as int))
        &&& utf8_len(self.text@) <= usize::MAX
    }

    /// Creates a cursor at the start of `input`.
    pub fn new(input: &'a str) -> (r: Self)
        ensures
            r@.text == input@,
            r@.index == 0,
            r@.byte_pos() == 0,
            r@.wf(),
    {
        // The byte length of any slice fits in `usize`.
        let bytes = input.as_bytes();
        assert(bytes@.len() <= usize::MAX) by {
            assert(bytes@.len() == vstd::slice::spec_slice_len(bytes));
        }
        assert(input@.skip(0) == input@);
        assert(input@.take(0) == Seq::<char>::empty());
        Cursor { rest: input, byte_pos: 0, text: Ghost(input@), index: Ghost(0) }
    }

    /// An iterator over the code points not yet consumed. Advancing it does
    /// not move the cursor.
    pub fn chars(&self) -> (r: Chars<'a>)
        ensures
            vstd::std_specs::iter::IteratorSpec::remaining(&r) == self@.rest(),
    {
        proof { use_type_invariant(self); }
        self.rest.chars()
    }

    /// The current byte offset of the cursor into the text.
    pub fn byte_pos(&self) -> (r: usize)
        ensures
            r == self@.byte_pos(),
            self@.wf(),
    {
        proof { use_type_invariant(self); }
        self.byte_pos
    }

    /// The next code point, without advancing.
    pub fn peek(&self) -> (r: Option<char>)
        ensures
            r == self@.ahead(0),
            self@.wf(),
    {
        proof { use_type_invariant(self); }
        self.rest.chars().next()
    }

    /// The next two code points, without advancing.
    pub fn peek_two(&self) -> (r: (Option<char>, Option<char>))
        ensures
            r == (self@.ahead(0), self@.ahead(1)),
    {
        proof { use_type_invariant(self); }
        let mut chars = self.rest.chars();
        let first = chars.next();
        let second = chars.next();
        (first, second)
    }

    /// Consumes the next code point and returns it; at the end of the text
    /// returns `None` and leaves the cursor as it is.
    pub fn bump(&mut self) -> (r: Option<char>)
        ensures
            r == old(self)@.ahead(0),
            final(self)@ == old(self)@.advanced(),
            final(self)@.wf(),
    {
        proof { use_type_invariant(&*self); }
        match split_first(self.rest) {
            Some((c, tail)) => {
                proof { lemma_take_one_more(self.text@, self.index@ as int); }
                *self = Cursor {
                    rest: tail,
                    byte_pos: self.byte_pos + char_width(c),
                    text: self.text,
                    index: Ghost(self.index@ + 1),
                };
                Some(c)
            },
            None => None,
        }
    }

    /// Consumes the next two code points and returns them, as two calls of
    /// [`Cursor::bump`] would.
    pub fn bump_two(&mut self) -> (r: (Option<char>, Option<char>))
        ensures
            r == (old(self)@.ahead(0), old(self)@.ahead(1)),
            final(self)@ == old(self)@.advanced().advanced(),
    {
        let first = self.bump();
        let second = self.bump();
        (first, second)
    }

    /// Consumes code points while `predicate` holds of the next one. The first
    /// code point for which it fails is not consumed. The byte offset moves by
    /// the bytes of the code points skipped, added once at the end.
    pub fn skip_while(&mut self, predicate: impl Fn(char) -> bool)
        requires
            forall|c: char| predicate.requires((c,)),
        ensures
            final(self)@.text == old(self)@.text,
            old(self)@.index <= final(self)@.index <= old(self)@.text.len(),
            forall|j: int|
                old(self)@.index <= j < final(self)@.index ==> predicate.ensures(
                    (old(self)@.text[j],),
                    true,
                ),
            final(self)@.ahead(0) matches Some(c) ==> predicate.ensures((c,), false),
    {
        proof { use_type_invariant(&*self); }
        let ghost text = self.text@;
        let ghost start = self.index@;
        let start_length = self.rest.len();
        let mut rest = self.rest;
        let ghost mut index: nat = start;
        loop
            invariant
                start <= index <= text.len(),
                rest@ == text.skip(index as int),
                forall|c: char| predicate.requires((c,)),
                forall|j: int| start <= j < index ==> predicate.ensures((text[j],), true),
            ensures
                start <= index <= text.len(),
                rest@ == text.skip(index as int),
                forall|j: int| start <= j < index ==> predicate.ensures((text[j],), true),
                index < text.len() ==> predicate.ensures((text[index as int],), false),
            decreases text.len() - index,
        {
            match split_first(rest) {
                Some((c, tail)) => {
                    proof { lemma_take_one_more(text, index as int); }
                    if predicate(c) {
                        rest = tail;
                        proof { index = index + 1; }
                    } else {
                        break;
                    }
                },
                None => break,
            }
        }
        let final_length = rest.len();
        proof {
            lemma_prefix_suffix(text, start as int);
            lemma_prefix_suffix(text, index as int);
            lemma_take_monotonic(text, start as int, index as int);
        }
        *self = Cursor {
            rest,
            byte_pos: self.byte_pos + (start_length - final_length),
            text: self.text,
            index: Ghost(index),
        };
    }
}

}
