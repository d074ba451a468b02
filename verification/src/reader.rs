//! A bounds-checked cursor over an immutable byte slice.

use vstd::prelude::*;
use vstd::slice::slice_subrange;

verus! {

/// A cursor over a byte slice. All consumption is bounds-checked: an
/// operation that would pass the end of the slice fails and leaves the
/// cursor unchanged.
pub struct Reader<'a> {
    buf: &'a [u8],
    offs: usize,
}

impl<'a> Reader<'a> {
    /// The whole byte sequence this reader ranges over.
    pub closed spec fn data(&self) -> Seq<u8> {
        self.buf@
    }

    /// The current cursor position.
    pub closed spec fn pos(&self) -> int {
        self.offs as int
    }

    pub open spec fn wf(&self) -> bool {
        0 <= self.pos() <= self.data().len()
    }

    /// The bytes not yet consumed.
    pub open spec fn remaining(&self) -> Seq<u8> {
        self.data().subrange(self.pos(), self.data().len() as int)
    }

    pub fn init(bytes: &'a [u8]) -> (r: Reader<'a>)
        ensures
            r.wf(),
            r.data() == bytes@,
            r.pos() == 0,
    {
        Reader { buf: bytes, offs: 0 }
    }

    /// Returns the next `n` bytes and advances the cursor by `n`; fails,
    /// leaving the cursor unchanged, when fewer than `n` bytes remain.
    pub fn take(&mut self, n: usize) -> (res: Option<&'a [u8]>)
        requires
            old(self).wf(),
        ensures
            final(self).wf(),
            final(self).data() == old(self).data(),
            match res {
                Some(s) => {
                    &&& n <= old(self).remaining().len()
                    &&& s@ == old(self).remaining().subrange(0, n as int)
                    &&& final(self).pos() == old(self).pos() + n
                },
                None => {
                    &&& old(self).remaining().len() < n
                    &&& final(self).pos() == old(self).pos()
                },
            },
    {
        if n <= self.buf.len() - self.offs {
            let s = slice_subrange(self.buf, self.offs, self.offs + n);
            proof {
                assert(s@ =~= self.remaining().subrange(0, n as int));
            }
            self.offs = self.offs + n;
            Some(s)
        } else {
            None
        }
    }

    /// Returns a new independent reader scoped to exactly the next `n`
    /// bytes, advancing this reader past them; fails, leaving the cursor
    /// unchanged, when fewer than `n` bytes remain.
    pub fn sub(&mut self, n: usize) -> (res: Option<Reader<'a>>)
        requires
            old(self).wf(),
        ensures
            final(self).wf(),
            final(self).data() == old(self).data(),
            match res {
                Some(sub) => {
                    &&& n <= old(self).remaining().len()
                    &&& sub.wf()
                    &&& sub.pos() == 0
                    &&& sub.data() == old(self).remaining().subrange(0, n as int)
                    &&& final(self).pos() == old(self).pos() + n
                },
                None => {
                    &&& old(self).remaining().len() < n
                    &&& final(self).pos() == old(self).pos()
                },
            },
    {
        match self.take(n) {
            Some(s) => Some(Reader::init(s)),
            None => None,
        }
    }

    /// The count of bytes consumed so far; after a successful decode, how
    /// far a caller's buffer position advances.
    pub fn used(&self) -> (n: usize)
        ensures
            n == self.pos(),
    {
        self.offs
    }

    /// True when some bytes have not yet been consumed.
    pub fn any_left(&self) -> (b: bool)
        requires
            self.wf(),
        ensures
            b <==> self.remaining().len() > 0,
    {
        self.offs < self.buf.len()
    }
}

} // verus!
