//! The grapheme cluster held by one terminal cell.
use vstd::prelude::*;
use crate::base::chars::{string_push, str_to_chars};

verus! {

/// A grapheme cluster: the text shown in one cell, or nothing for the
/// trailing half of a wide glyph.
#[derive(Debug, PartialEq, Eq, Hash)]
pub struct Symbol {
    text: String,
}

impl View for Symbol {
    type V = Seq<char>;

    closed spec fn view(&self) -> Seq<char> {
        self.text@
    }
}

impl Symbol {
    /// The empty symbol, used for the trailing half of a wide grapheme.
    #[allow(non_snake_case)]
    pub fn EMPTY() -> (r: Self)
        ensures
            r@ == Seq::<char>::empty(),
    {
        Symbol { text: String::new() }
    }

    /// A single space — the contents of a reset cell.
    #[allow(non_snake_case)]
    pub fn SPACE() -> (r: Self)
        ensures
            r@ == seq![' '],
    {
        let mut text = String::new();
        string_push(&mut text, ' ');
        Symbol { text }
    }

    /// Store a grapheme cluster.
    pub fn new(s: &str) -> (r: Self)
        ensures
            r@ == s@,
    {
        let cs = str_to_chars(s);
        let mut text = String::new();
        let mut i: usize = 0;
        while i < cs.len()
            invariant
                i <= cs@.len(),
                text@ == cs@.take(i as int),
            decreases cs@.len() - i,
        {
            string_push(&mut text, cs[i]);
            assert(cs@.take(i as int).push(cs@[i as int]) =~= cs@.take(i + 1));
            i = i + 1;
        }
        assert(cs@.take(cs@.len() as int) =~= cs@);
        Symbol { text }
    }

    /// Store a single ASCII byte; a byte of `0x80` or above is replaced with
    /// a space, since it is not valid UTF-8 on its own.
    pub fn from_ascii(byte: u8) -> (r: Self)
        ensures
            r@ == seq![if byte < 0x80 { byte as char } else { ' ' }],
    {
        let c: char = if byte < 0x80 { byte as char } else { ' ' };
        let mut text = String::new();
        string_push(&mut text, c);
        Symbol { text }
    }

    /// Store a single `char`.
    pub fn from_char(ch: char) -> (r: Self)
        ensures
            r@ == seq![ch],
    {
        let mut text = String::new();
        string_push(&mut text, ch);
        Symbol { text }
    }

    /// The cluster as a string slice.
    pub fn as_str(&self) -> (r: &str)
        ensures
            r@ == self@,
    {
        self.text.as_str()
    }

    /// Whether this symbol holds no content (a wide-grapheme continuation cell).
    pub fn is_empty(&self) -> (r: bool)
        ensures
            r == (self@.len() == 0),
    {
        self.text.as_str().is_empty()
    }

    /// Length of the cluster in UTF-8 bytes.
    pub fn len(&self) -> (r: usize)
        ensures
            r == vstd::utf8::encode_utf8(self@).len() as usize,
    {
        proof {
            broadcast use vstd::string::group_string_axioms;
        }
        self.text.as_str().len()
    }

    /// Whether two symbols hold the same cluster.
    pub fn same(&self, other: &Symbol) -> (r: bool)
        ensures
            r == (self@ == other@),
    {
        self.text == other.text
    }
}

impl Clone for Symbol {
    fn clone(&self) -> (r: Self)
        ensures
            r == *self,
    {
        Symbol { text: self.text.clone() }
    }
}

impl Default for Symbol {
    fn default() -> (r: Symbol)
        ensures
            r@ == seq![' '],
    {
        Symbol::SPACE()
    }
}

} // verus!
