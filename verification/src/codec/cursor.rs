//! A read position over a borrowed byte buffer.
use vstd::prelude::*;

verus! {

/// A byte buffer with a read position, as frames are checked and parsed from it.
///
/// The position may stand beyond the end of the buffer; nothing remains to be read then.
pub struct Cursor<'a> {
    buf: &'a [u8],
    pos: u64,
}

impl<'a> Cursor<'a> {
    /// All bytes of the underlying buffer.
    pub closed spec fn bytes(&self) -> Seq<u8> {
        self.buf@
    }

    /// The read position.
    pub closed spec fn pos(&self) -> nat {
        self.pos as nat
    }

    /// The bytes from the read position to the end of the buffer.
    pub open spec fn rest(&self) -> Seq<u8> {
        if self.pos() <= self.bytes().len() {
            self.bytes().subrange(self.pos() as int, self.bytes().len() as int)
        } else {
            Seq::empty()
        }
    }

    pub fn new(buf: &'a [u8]) -> (c: Cursor<'a>)
        ensures
            c.bytes() == buf@,
            c.pos() == 0,
    {
        Cursor { buf, pos: 0 }
    }

    pub fn position(&self) -> (p: u64)
        ensures
            p == self.pos(),
    {
        self.pos
    }

    pub fn set_position(&mut self, pos: u64)
        ensures
            final(self).bytes() == old(self).bytes(),
            final(self).pos() == pos,
    {
        self.pos = pos;
    }

    /// Number of bytes between the read position and the end of the buffer.
    pub fn remaining(&self) -> (n: usize)
        ensures
            n == self.rest().len(),
    {
        if self.pos <= self.buf.len() as u64 {
            self.buf.len() - self.pos as usize
        } else {
            0
        }
    }

    pub(crate) fn slice(&self) -> (s: &'a [u8])
        ensures
            s@ == self.bytes(),
    {
        self.buf
    }

    pub(crate) fn advance_to(&mut self, pos: u64)
        ensures
            final(self).bytes() == old(self).bytes(),
            final(self).pos() == pos,
    {
        self.pos = pos;
    }
}

} // verus!
