use vstd::prelude::*;

verus! {

/// How many networks one page of the network list holds.
pub const PAGE_SIZE: usize = 10;

/// Where the reading of the network list, one page at a time, stands:
/// how many networks to skip for the next page, and whether a short page
/// has ended the list.
pub struct PageCursor {
    skip: usize,
    done: bool,
}

impl PageCursor {
    /// How many networks the next page skips.
    pub closed spec fn spec_skip(&self) -> nat {
        self.skip as nat
    }

    /// Whether the list has ended.
    pub closed spec fn spec_done(&self) -> bool {
        self.done
    }

    /// The cursor before the first page.
    pub fn new() -> (c: Self)
        ensures
            c.spec_skip() == 0,
            !c.spec_done(),
    {
        PageCursor { skip: 0, done: false }
    }

    /// How many networks the next page skips.
    pub fn skip(&self) -> (s: usize)
        ensures
            s == self.spec_skip(),
    {
        self.skip
    }

    /// Whether the list has ended.
    pub fn is_done(&self) -> (d: bool)
        ensures
            d == self.spec_done(),
    {
        self.done
    }

    /// Records a page of `page_len` networks: a page shorter than
    /// `PAGE_SIZE` ends the list; the next page skips `PAGE_SIZE` more.
    pub fn record_page(&mut self, page_len: usize)
        requires
            old(self).spec_skip() + PAGE_SIZE <= usize::MAX,
        ensures
            final(self).spec_done() == (old(self).spec_done() || page_len < PAGE_SIZE),
            final(self).spec_skip() == old(self).spec_skip() + PAGE_SIZE,
    {
        if page_len < PAGE_SIZE {
            self.done = true;
        }
        self.skip = self.skip + PAGE_SIZE;
    }
}

} // verus!
