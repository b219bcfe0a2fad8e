//! The input text, decoded once so that characters are reached by position.

use vstd::prelude::*;

verus! {

/// Source text together with its characters, indexed by position.
///
/// Positions count characters, not bytes. The view is the text as a
/// sequence of characters.
pub struct Source<'a> {
    text: &'a str,
    chars: Vec<char>,
}

impl<'a> View for Source<'a> {
    type V = Seq<char>;

    closed spec fn view(&self) -> Seq<char> {
        self.text@
    }
}

impl<'a> Source<'a> {
    #[verifier::type_invariant]
    spec fn decoded(self) -> bool {
        self.chars@ == self.text@
    }

    /// Decodes `text`.
    pub fn new(text: &'a str) -> (r: Source<'a>)
        ensures
            r@ == text@,
    {
        let mut chars: Vec<char> = Vec::new();
        for c in it: text.chars()
            invariant
                it.seq() == text@,
                chars@ == it.seq().take(it.index()),
        {
            chars.push(c);
            assert(chars@ =~= it.seq().take(it.index() + 1));
        }
        assert(chars@ =~= text@);
        Source { text, chars }
    }

    /// The number of characters.
    pub fn len(&self) -> (n: usize)
        ensures
            n == self@.len(),
    {
        proof {
            use_type_invariant(self);
        }
        self.chars.len()
    }

    /// The character at position `i`.
    pub fn char_at(&self, i: usize) -> (c: char)
        requires
            i < self@.len(),
        ensures
            c == self@[i as int],
    {
        proof {
            use_type_invariant(self);
        }
        self.chars[i]
    }

    /// The characters from `from` up to, not including, `to`, as a string.
    pub fn slice(&self, from: usize, to: usize) -> (r: String)
        requires
            from <= to <= self@.len(),
        ensures
            r@ == self@.subrange(from as int, to as int),
    {
        self.text.substring_char(from, to).to_owned()
    }
}

} // verus!
