//! The source text: an immutable sequence of characters, read by position.

use vstd::prelude::*;
use vstd::string::*;

verus! {

/// A borrowed source text, addressed by character position.
///
/// Text that is all ASCII is read and sliced in constant time. Text with
/// wider characters is decoded from its start on every access, which takes
/// time in proportion to the position.
#[derive(Clone, Copy, Debug)]
pub struct Source<'a> {
    text: &'a str,
    /// The number of characters of `text`.
    length: usize,
    /// Whether `text` is known to hold ASCII characters only.
    ascii: bool,
}

impl<'a> View for Source<'a> {
    type V = Seq<char>;

    closed spec fn view(&self) -> Seq<char> {
        self.text@
    }
}

impl<'a> Source<'a> {
    #[verifier::type_invariant]
    spec fn inv(self) -> bool {
        &&& self.length == self.text@.len()
        &&& self.ascii ==> self.text.is_ascii()
    }

    /// Wraps a text.
    pub fn new(text: &'a str) -> (r: Self)
        ensures
            r@ == text@,
            r@.len() <= usize::MAX,
    {
        Source { text, length: text.unicode_len(), ascii: text.is_ascii() }
    }

    /// The number of characters of the text.
    pub fn len(&self) -> (r: usize)
        ensures
            r == self@.len(),
    {
        proof {
            use_type_invariant(self);
        }
        self.length
    }

    /// The character at position `i`.
    pub fn char_at(&self, i: usize) -> (c: char)
        requires
            i < self@.len(),
        ensures
            c == self@[i as int],
    {
        proof {
            use_type_invariant(self);
        }
        if self.ascii {
            let byte = self.text.get_ascii(i);
            byte as char
        } else {
            self.text.get_char(i)
        }
    }

    /// The characters from position `from` up to, and without, position `to`.
    pub fn slice(&self, from: usize, to: usize) -> (r: &'a str)
        requires
            from <= to <= self@.len(),
        ensures
            r@ == self@.subrange(from as int, to as int),
    {
        proof {
            use_type_invariant(self);
        }
        if self.ascii {
            self.text.substring_ascii(from, to)
        } else {
            self.text.substring_char(from, to)
        }
    }
}

} // verus!
