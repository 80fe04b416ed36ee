use vstd::prelude::*;

verus! {

/// A sequential, single-pass, non-rewindable view over a byte buffer: the
/// position only ever moves forward, one byte at a time, and exhaustion is
/// terminal. There is no peek or pushback, so every decision has to be made
/// on the byte already consumed.
pub struct Cursor<'a> {
    bytes: &'a [u8],
    pos: usize,
}

impl<'a> Cursor<'a> {
    /// The whole underlying buffer; it never changes over the cursor's life.
    pub closed spec fn input(&self) -> Seq<u8> {
        self.bytes@
    }

    /// How many bytes have been consumed so far.
    pub closed spec fn pos(&self) -> int {
        self.pos as int
    }

    /// The position never runs past the end of the buffer.
    pub open spec fn wf(&self) -> bool {
        0 <= self.pos() <= self.input().len()
    }

    /// How many bytes are still unread.
    pub open spec fn remaining(&self) -> int {
        self.input().len() - self.pos()
    }

    /// Starts a cursor at the beginning of `bytes`.
    pub fn new(bytes: &'a [u8]) -> (c: Cursor<'a>)
        ensures
            c.wf(),
            c.input() == bytes@,
            c.pos() == 0,
    {
        Cursor { bytes, pos: 0 }
    }

    /// Returns the next unread byte and advances by one, or reports
    /// exhaustion without moving.
    pub fn next(&mut self) -> (r: Option<u8>)
        requires
            old(self).wf(),
        ensures
            final(self).wf(),
            final(self).input() == old(self).input(),
            old(self).remaining() > 0 ==> r == Some(old(self).input()[old(self).pos()])
                && final(self).pos() == old(self).pos() + 1,
            old(self).remaining() == 0 ==> r is None && final(self).pos() == old(self).pos(),
    {
        if self.pos < self.bytes.len() {
            let b = self.bytes[self.pos];
            self.pos = self.pos + 1;
            Some(b)
        } else {
            None
        }
    }
}

} // verus!
