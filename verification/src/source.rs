//! The character source: the text of a query, read strictly from left to right.
use vstd::prelude::*;

verus! {

/// A text together with a cursor that only moves forward.
///
/// Its view is what has not been read yet: the text from the cursor on.
pub struct Source {
    text: Vec<char>,
    pos: usize,
}

impl View for Source {
    type V = Seq<char>;

    open spec fn view(&self) -> Seq<char> {
        self.text().skip(self.position() as int)
    }
}

impl Source {
    /// The cursor stands in the text or at its end. This holds of every
    /// source.
    #[verifier::type_invariant]
    pub open spec fn cursor_in_text(&self) -> bool {
        self.position() <= self.text().len()
    }

    /// The whole text, read or not.
    pub closed spec fn text(&self) -> Seq<char> {
        self.text@
    }

    /// The number of characters that were read.
    pub closed spec fn position(&self) -> nat {
        self.pos as nat
    }

    /// Whether this source is `old` after some reading, or `old` itself: the
    /// same text, with the cursor no further back and not past the end.
    pub open spec fn read_on_from(&self, old: &Source) -> bool {
        &&& self.text() == old.text()
        &&& old.position() <= self.position() <= self.text().len()
    }

    /// A source that yields the characters of `s`, in order.
    pub fn new(s: &str) -> (src: Source)
        ensures
            src@ == s@,
            src.text() == s@,
            src.position() == 0,
    {
        broadcast use vstd::string::group_string_axioms;

        let mut text: Vec<char> = Vec::new();
        for c in it: s.chars()
            invariant
                it.seq() == s@,
                text@ == s@.take(it.index() as int),
        {
            text.push(c);
            assert(s@.take(it.index() + 1) =~= s@.take(it.index() as int).push(c));
        }
        assert(s@.take(s@.len() as int) =~= s@);
        assert(text@.skip(0) =~= text@);
        Source { text, pos: 0 }
    }

    /// A source that yields the characters of `text`, in order.
    pub fn from_chars(text: Vec<char>) -> (src: Source)
        ensures
            src@ == text@,
            src.text() == text@,
            src.position() == 0,
    {
        assert(text@.skip(0) =~= text@);
        Source { text, pos: 0 }
    }

    /// Reads one character, or `None` once the source is exhausted.
    pub fn next(&mut self) -> (c: Option<char>)
        ensures
            old(self)@.len() > 0 ==> c == Some(old(self)@[0]) && final(self)@ == old(
                self,
            )@.drop_first(),
            old(self)@.len() == 0 ==> c.is_none() && final(self)@ == old(self)@,
            final(self).read_on_from(old(self)),
    {
        proof {
            use_type_invariant(&*self);
        }
        if self.pos < self.text.len() {
            let c = self.text[self.pos];
            self.pos = self.pos + 1;
            assert(self@ =~= old(self)@.drop_first());
            Some(c)
        } else {
            None
        }
    }
}

} // verus!
