//! A stream in memory: a vector of bytes and a position in it.

use vstd::prelude::*;
use std::io::Error;
use crate::reader::Reader;
use crate::writer::Writer;

verus! {

/// What a cursor is in a contract: its bytes and where in them it stands.
/// Nothing holds the position inside the bytes.
pub struct CursorView {
    pub bytes: Seq<u8>,
    pub position: nat,
}

impl CursorView {
    /// The bytes from the position on; none where the position is past the end.
    pub open spec fn remaining(self) -> Seq<u8> {
        if self.position <= self.bytes.len() {
            self.bytes.skip(self.position as int)
        } else {
            Seq::empty()
        }
    }

    /// The bytes that a read of up to `limit` bytes delivers: as many of the
    /// remaining ones as there are, up to `limit`.
    pub open spec fn next(self, limit: nat) -> Seq<u8> {
        if limit <= self.remaining().len() {
            self.remaining().take(limit as int)
        } else {
            self.remaining()
        }
    }

    /// The cursor after a read of up to `limit` bytes: the same bytes, the
    /// position past those delivered.
    pub open spec fn after_read(self, limit: nat) -> CursorView {
        CursorView { bytes: self.bytes, position: self.position + self.next(limit).len() }
    }

    /// How long the bytes are after `data` is written at the position.
    pub open spec fn len_after_write(self, data: Seq<u8>) -> nat {
        if self.position + data.len() <= self.bytes.len() {
            self.bytes.len()
        } else {
            self.position + data.len()
        }
    }

    /// The cursor after `data` is written at the position: `data` stands there,
    /// over what was there before and past the old end where it is longer; a
    /// gap between the old end and the position is filled with zeros; the
    /// position is past `data`.
    pub open spec fn after_write(self, data: Seq<u8>) -> CursorView {
        CursorView {
            bytes: Seq::new(
                self.len_after_write(data),
                |i: int|
                    if self.position <= i < self.position + data.len() {
                        data[i - self.position]
                    } else if i < self.bytes.len() {
                        self.bytes[i]
                    } else {
                        0u8
                    },
            ),
            position: self.position + data.len(),
        }
    }
}

/// A vector of bytes with a position, at which it is read and written.
#[derive(Debug)]
pub struct Cursor {
    bytes: Vec<u8>,
    position: usize,
}

impl View for Cursor {
    type V = CursorView;

    closed spec fn view(&self) -> CursorView {
        CursorView { bytes: self.bytes@, position: self.position as nat }
    }
}

impl Cursor {
    /// A cursor over `bytes`, at their start.
    pub fn new(bytes: Vec<u8>) -> (cursor: Cursor)
        ensures
            cursor@ == (CursorView { bytes: bytes@, position: 0 }),
    {
        Cursor { bytes, position: 0 }
    }

    /// Where the cursor stands.
    pub fn position(&self) -> (position: usize)
        ensures
            position == self@.position,
    {
        self.position
    }

    /// Moves the cursor to `position`, which may be past the end.
    pub fn set_position(&mut self, position: usize)
        ensures
            final(self)@ == (CursorView { bytes: old(self)@.bytes, position: position as nat }),
    {
        self.position = position;
    }

    /// The bytes of the cursor.
    pub fn get_ref(&self) -> (bytes: &Vec<u8>)
        ensures
            bytes@ == self@.bytes,
    {
        &self.bytes
    }

    /// Gives up the cursor for its bytes.
    pub fn into_inner(self) -> (bytes: Vec<u8>)
        ensures
            bytes@ == self@.bytes,
    {
        self.bytes
    }
}

impl Reader for Cursor {
    /// A cursor delivers the bytes that follow its position, as many as are
    /// asked for and are there, moves past them, and never fails.
    open spec fn read_step(
        pre: &Self,
        post: &Self,
        limit: nat,
        outcome: Result<Seq<u8>, Error>,
    ) -> bool {
        &&& outcome == Ok::<Seq<u8>, Error>(pre@.next(limit))
        &&& post@ == pre@.after_read(limit)
    }

    fn read(&mut self, buf: &mut [u8]) -> (count: Result<usize, Error>)
        ensures
            count == Ok::<usize, Error>(old(self)@.next(old(buf)@.len()).len() as usize),
            final(buf)@ == old(self)@.next(old(buf)@.len()) + old(buf)@.skip(
                old(self)@.next(old(buf)@.len()).len() as int,
            ),
    {
        let len: usize = self.bytes.len();
        let start: usize = if self.position <= len {
            self.position
        } else {
            len
        };
        let left: usize = len - start;
        let n: usize = if buf.len() <= left {
            buf.len()
        } else {
            left
        };
        let mut i: usize = 0;
        while i < n
            invariant
                i <= n,
                n <= buf@.len(),
                buf@.len() == old(buf)@.len(),
                start + n <= len,
                len == self.bytes@.len(),
                *self == *old(self),
                forall|j: int| 0 <= j < i ==> buf@[j] == self.bytes@[start + j],
                forall|j: int| i <= j < buf@.len() ==> buf@[j] == old(buf)@[j],
            decreases n - i,
        {
            buf[i] = self.bytes[start + i];
            i += 1;
        }
        if n > 0 {
            self.position = start + n;
        }
        assert(buf@.take(n as int) =~= old(self)@.next(old(buf)@.len()));
        assert(buf@ =~= buf@.take(n as int) + old(buf)@.skip(n as int));
        Ok(n)
    }
}

impl Writer for Cursor {
    /// A cursor takes every write at its position, and never fails.
    open spec fn write_step(
        pre: &Self,
        post: &Self,
        bytes: Seq<u8>,
        outcome: Result<(), Error>,
    ) -> bool {
        &&& outcome == Ok::<(), Error>(())
        &&& post@ == pre@.after_write(bytes)
    }

    fn write_all(&mut self, buf: &[u8]) -> (r: Result<(), Error>) {
        // The gap between the end and the position, if there is one.
        while self.bytes.len() < self.position
            invariant
                self.position == old(self).position,
                old(self).bytes@.len() <= self.bytes@.len(),
                self.bytes@.len() <= old(self).bytes@.len() || self.bytes@.len() <= self.position,
                forall|j: int|
                    0 <= j < old(self).bytes@.len() ==> self.bytes@[j] == old(self).bytes@[j],
                forall|j: int|
                    old(self).bytes@.len() <= j < self.bytes@.len() ==> self.bytes@[j] == 0u8,
            decreases self.position - self.bytes@.len(),
        {
            self.bytes.push(0u8);
        }
        let mut i: usize = 0;
        while i < buf.len()
            invariant
                i <= buf@.len(),
                self.position == old(self).position,
                self.position + i <= self.bytes@.len(),
                self.bytes@.len() == (if self.position + i <= old(self).bytes@.len() {
                    old(self).bytes@.len() as int
                } else {
                    self.position + i
                }),
                forall|j: int|
                    0 <= j < self.bytes@.len() ==> self.bytes@[j] == (if self.position <= j
                        < self.position + i {
                        buf@[j - self.position]
                    } else if j < old(self).bytes@.len() {
                        old(self).bytes@[j]
                    } else {
                        0u8
                    }),
            decreases buf@.len() - i,
        {
            let len: usize = self.bytes.len();
            let at: usize = self.position + i;
            if at < len {
                self.bytes[at] = buf[i];
            } else {
                self.bytes.push(buf[i]);
            }
            i += 1;
        }
        assert(self.position + buf@.len() <= self.bytes.len());
        self.position = self.position + buf.len();
        assert(self@.bytes =~= old(self)@.after_write(buf@).bytes);
        Ok(())
    }
}

} // verus!
