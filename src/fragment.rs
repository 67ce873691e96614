use vstd::prelude::*;

use crate::fragment_iter::{find_char, skip_whitespace, step, word_end, FragmentIter};

verus! {

/// Splits command text into fragments like `FragmentIter`, but stops, yielding
/// nothing more, at a quote that is never closed.
pub struct FragmentIterator {
    inner: FragmentIter,
}

impl FragmentIterator {
    /// The characters being split.
    pub closed spec fn text(&self) -> Seq<char> {
        self.inner.text()
    }

    /// The position from which the next fragment is searched.
    pub closed spec fn pos(&self) -> int {
        self.inner.pos()
    }

    pub closed spec fn wf(&self) -> bool {
        self.inner.wf()
    }

    pub fn new(original: String) -> (r: Self)
        ensures
            r.wf(),
            r.text() == original@,
            r.pos() == 0,
    {
        FragmentIterator { inner: FragmentIter::new(original) }
    }

    /// The current position.
    pub fn position(&self) -> (r: usize)
        ensures
            r == self.pos(),
    {
        self.inner.position()
    }

    /// Moves the position past any whitespace.
    pub fn trim_self(&mut self)
        requires
            old(self).wf(),
        ensures
            final(self).wf(),
            final(self).text() == old(self).text(),
            final(self).pos() == skip_whitespace(old(self).text(), old(self).pos()),
    {
        self.inner.trim_self();
    }

    /// The number of characters before the first whitespace of `fragment`.
    pub fn find_end_of_word(fragment: &str) -> (r: usize)
        ensures
            r == word_end(fragment@, 0),
    {
        FragmentIter::find_end_of_word(fragment)
    }

    /// Takes text that begins with a quote character and returns the index of
    /// the next occurrence of that same character, if any.
    pub fn find_end_of_quote(fragment: &str) -> (r: Option<usize>)
        requires
            fragment@.len() > 0,
        ensures
            ({
                let k = find_char(fragment@, fragment@[0], 1);
                match r {
                    Some(e) => k < fragment@.len() && e == k,
                    None => k == fragment@.len(),
                }
            }),
    {
        FragmentIter::find_end_of_quote(fragment)
    }

    /// The next fragment; `None` once drained or at a quote that is never
    /// closed, where the position then stays.
    pub fn next(&mut self) -> (r: Option<String>)
        requires
            old(self).wf(),
        ensures
            final(self).wf(),
            final(self).text() == old(self).text(),
            match step(old(self).text(), old(self).pos()) {
                Some((Ok(f), n)) => r matches Some(g) && g@ == f && final(self).pos() == n,
                _ => r is None && final(self).pos() == old(self).pos(),
            },
    {
        let saved = self.inner.position();
        match self.inner.next() {
            Some(Ok(f)) => Some(f),
            _ => {
                self.inner.restore(saved);
                None
            },
        }
    }
}

} // verus!
