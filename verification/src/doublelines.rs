//! A text read line by line.

use crate::text::{
    chars_of, find_char_from, lemma_first_index, lines, string_of, subvec, without_cr,
};
use vstd::prelude::*;

verus! {

/// A text of which the first lines have been read.
pub struct DoubleLines {
    source: Vec<char>,
    pos: usize,
}

impl DoubleLines {
    #[verifier::type_invariant]
    spec fn wf(&self) -> bool {
        self.pos <= self.source.len()
    }

    /// What has not been read yet.
    pub closed spec fn rest(&self) -> Seq<char> {
        self.source@.skip(self.pos as int)
    }

    /// At the start of `text`.
    pub fn new(text: &str) -> (r: DoubleLines)
        ensures
            r.rest() == text@,
    {
        let source = chars_of(text);
        assert(source@.skip(0) == source@);
        DoubleLines { source, pos: 0 }
    }

    /// The next line: what stands before the next line feed, without a
    /// carriage return at its end, or what is left where there is no line
    /// feed. At the end of the text there is none.
    pub fn next(&mut self) -> (r: Option<String>)
        ensures
            match r {
                Some(line) => lines(old(self).rest()).len() > 0 && line@ == lines(
                    old(self).rest(),
                )[0] && lines(final(self).rest()) == lines(old(self).rest()).drop_first(),
                None => old(self).rest().len() == 0 && final(self).rest() == old(self).rest(),
            },
    {
        proof {
            use_type_invariant(&*self);
        }
        let len = self.source.len();
        if self.pos >= len {
            return None;
        }
        let ghost rest = self.rest();
        let k = find_char_from(&self.source, self.pos, '\n');
        proof {
            lemma_first_index(rest, '\n');
        }
        if k == len {
            let line = subvec(&self.source, self.pos, len);
            assert(line@ == rest);
            assert(self.source@.skip(len as int) =~= Seq::<char>::empty());
            self.pos = len;
            assert(lines(rest) =~= seq![rest]);
            assert(lines(rest).drop_first() =~= Seq::<Seq<char>>::empty());
            Some(string_of(&line))
        } else {
            let mut end: usize = k;
            if end > self.pos && self.source[end - 1] == '\r' {
                end -= 1;
            }
            let line = subvec(&self.source, self.pos, end);
            assert(rest.take(k - self.pos) == self.source@.subrange(self.pos as int, k as int));
            assert(line@ == without_cr(rest.take(k - self.pos)));
            assert(rest.skip(k - self.pos + 1) == self.source@.skip(k + 1));
            self.pos = k + 1;
            assert(lines(rest).drop_first() =~= lines(rest.skip(k - old(self).pos + 1)));
            Some(string_of(&line))
        }
    }
}

} // verus!
