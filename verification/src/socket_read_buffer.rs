//! The buffer that bytes read from a reader's socket land in, and from which
//! packets are parsed.
use crate::text::{decimal_digits, u64_to_decimal};
use crate::wire::{read_n_at, read_u8_at, Step};
use vstd::prelude::*;

verus! {

/// The abstract state of a `SocketReadBuffer`: its bytes, the position up to
/// which they have been committed (written and confirmed by the writer), and
/// the position up to which they have been read.
pub struct BufferView {
    pub bytes: Seq<u8>,
    pub read_pos: int,
    pub write_pos: int,
}

impl BufferView {
    /// Positions stay in order: `read_pos <= write_pos <= bytes.len()`.
    pub open spec fn well_formed(self) -> bool {
        0 <= self.read_pos <= self.write_pos <= self.bytes.len()
    }

    /// The committed bytes, read or not.
    pub open spec fn committed(self) -> Seq<u8> {
        self.bytes.subrange(0, self.write_pos)
    }

    /// The committed bytes not read yet.
    pub open spec fn unread(self) -> Seq<u8> {
        self.bytes.subrange(self.read_pos, self.write_pos)
    }

    /// The same state with the read position moved to `pos`.
    pub open spec fn with_read_pos(self, pos: int) -> BufferView {
        BufferView { read_pos: pos, ..self }
    }
}

pub struct SocketReadBuffer {
    buffer: Vec<u8>,
    write_pos: usize,
    read_pos: usize,
}

impl View for SocketReadBuffer {
    type V = BufferView;

    closed spec fn view(&self) -> BufferView {
        BufferView {
            bytes: self.buffer@,
            read_pos: self.read_pos as int,
            write_pos: self.write_pos as int,
        }
    }
}

/// The text that `SocketReadBuffer::to_string` gives for the two positions.
pub open spec fn positions_text(read_pos: nat, write_pos: nat) -> Seq<char> {
    "read:"@ + decimal_digits(read_pos) + "; write;"@ + decimal_digits(write_pos)
}

impl SocketReadBuffer {
    /// Describes both positions, as `read:<read_pos>; write;<write_pos>`.
    pub fn to_string(&self) -> (r: String)
        ensures
            r@ == positions_text(self@.read_pos as nat, self@.write_pos as nat),
    {
        let mut result = String::from_str("read:");
        let read = u64_to_decimal(self.read_pos as u64);
        result.append(read.as_str());
        result.append("; write;");
        let write = u64_to_decimal(self.write_pos as u64);
        result.append(write.as_str());
        result
    }

    /// A buffer of `capacity` zero bytes with nothing written or read.
    pub fn new(capacity: usize) -> (r: Self)
        ensures
            r@.bytes == Seq::new(capacity as nat, |i: int| 0u8),
            r@.read_pos == 0,
            r@.write_pos == 0,
            r@.well_formed(),
    {
        let mut buffer: Vec<u8> = Vec::with_capacity(capacity);
        let mut i: usize = 0;
        while i < capacity
            invariant
                i <= capacity,
                buffer@ == Seq::new(i as nat, |j: int| 0u8),
            decreases capacity - i,
        {
            buffer.push(0u8);
            i = i + 1;
            assert(buffer@ =~= Seq::new(i as nat, |j: int| 0u8));
        }
        Self { buffer, write_pos: 0, read_pos: 0 }
    }

    /// The free space after the committed bytes, to be filled by the writer,
    /// or `None` when the buffer is full. Whatever the writer leaves in the
    /// slice becomes the buffer's bytes from the write position on.
    pub fn borrow_to_write(&mut self) -> (r: Option<&mut [u8]>)
        requires
            old(self)@.well_formed(),
        ensures
            old(self)@.write_pos == old(self)@.bytes.len() ==> r is None && final(self)@ == old(
                self,
            )@,
            old(self)@.write_pos < old(self)@.bytes.len() ==> r is Some,
            r matches Some(s) ==> s@ == old(self)@.bytes.subrange(
                old(self)@.write_pos,
                old(self)@.bytes.len() as int,
            ),
            r matches Some(s) ==> final(self)@ == (BufferView {
                bytes: old(self)@.bytes.subrange(0, old(self)@.write_pos) + final(s)@,
                ..old(self)@
            }),
    {
        if self.write_pos == self.buffer.len() {
            return None;
        }
        let all = self.buffer.as_mut_slice();
        let (_, tail) = all.split_at_mut(self.write_pos);
        Some(tail)
    }

    /// Commits `size` more bytes written into the free space.
    pub fn commit_written_size(&mut self, size: usize)
        requires
            old(self)@.well_formed(),
            size <= old(self)@.bytes.len() - old(self)@.write_pos,
        ensures
            final(self)@ == (BufferView { write_pos: old(self)@.write_pos + size, ..old(self)@ }),
            final(self)@.well_formed(),
    {
        proof {
            assert(self.buffer@.len() == self.buffer.len());
        }
        self.write_pos = self.write_pos + size;
    }

    /// Makes every committed byte unread again.
    pub fn reset_read_pos(&mut self)
        requires
            old(self)@.well_formed(),
        ensures
            final(self)@ == old(self)@.with_read_pos(0),
            final(self)@.well_formed(),
    {
        self.read_pos = 0;
    }

    /// The next unread byte, if any.
    pub fn read_byte(&mut self) -> (r: Option<u8>)
        requires
            old(self)@.well_formed(),
        ensures
            final(self)@.well_formed(),
            match read_u8_at(old(self)@.committed(), old(self)@.read_pos) {
                Step::Done(b, p) => r == Some(b) && final(self)@ == old(self)@.with_read_pos(p),
                _ => r is None && final(self)@ == old(self)@,
            },
    {
        if self.read_pos == self.write_pos {
            return None;
        }
        let result = self.buffer[self.read_pos];
        self.read_pos = self.read_pos + 1;
        Some(result)
    }

    /// The next `size` unread bytes, or `None`, with nothing read, when fewer
    /// are there.
    pub fn read_bytes(&mut self, size: usize) -> (r: Option<&[u8]>)
        requires
            old(self)@.well_formed(),
        ensures
            final(self)@.well_formed(),
            match read_n_at(old(self)@.committed(), old(self)@.read_pos, size as int) {
                Step::Done(b, p) => r matches Some(s) && s@ == b && final(self)@ == old(
                    self,
                )@.with_read_pos(p),
                _ => r is None && final(self)@ == old(self)@,
            },
    {
        if size > self.write_pos - self.read_pos {
            return None;
        }
        let start = self.read_pos;
        self.read_pos = start + size;
        let result = vstd::slice::slice_subrange(self.buffer.as_slice(), start, start + size);
        proof {
            assert(result@ =~= self@.committed().subrange(start as int, start + size));
        }
        Some(result)
    }

    /// Drops the bytes read so far: the unread bytes move to the front of the
    /// buffer, and reading starts over from them.
    pub fn confirm_read_package(&mut self)
        requires
            old(self)@.well_formed(),
        ensures
            final(self)@.well_formed(),
            final(self)@.read_pos == 0,
            final(self)@.write_pos == old(self)@.write_pos - old(self)@.read_pos,
            final(self)@.unread() == old(self)@.unread(),
            final(self)@.bytes == old(self)@.unread() + old(self)@.bytes.subrange(
                old(self)@.write_pos - old(self)@.read_pos,
                old(self)@.bytes.len() as int,
            ),
    {
        let new_data_len = self.write_pos - self.read_pos;
        if new_data_len == 0 {
            self.write_pos = 0;
            self.read_pos = 0;
            proof {
                assert(self@.bytes =~= old(self)@.unread() + old(self)@.bytes.subrange(
                    0,
                    old(self)@.bytes.len() as int,
                ));
            }
            return;
        }
        let read_pos = self.read_pos;
        let mut i: usize = 0;
        while i < new_data_len
            invariant
                i <= new_data_len,
                new_data_len == old(self).write_pos - read_pos,
                read_pos == old(self).read_pos,
                old(self).write_pos <= old(self).buffer@.len(),
                self.buffer@.len() == old(self).buffer@.len(),
                self.read_pos == old(self).read_pos,
                self.write_pos == old(self).write_pos,
                forall|j: int| 0 <= j < i ==> self.buffer@[j] == old(self).buffer@[read_pos + j],
                forall|j: int| i <= j < self.buffer@.len() ==> self.buffer@[j] == old(self).buffer@[j],
            decreases new_data_len - i,
        {
            let v = self.buffer[read_pos + i];
            self.buffer.set(i, v);
            i = i + 1;
        }
        self.write_pos = new_data_len;
        self.read_pos = 0;
        proof {
            assert(self@.bytes =~= old(self)@.unread() + old(self)@.bytes.subrange(
                new_data_len as int,
                old(self)@.bytes.len() as int,
            ));
        }
    }
}

/// Bytes written into the free space and then committed are read after the
/// bytes that were unread before, in the order they were written.
pub proof fn lemma_written_bytes_are_read_next(before: BufferView, written: Seq<u8>, size: nat)
    requires
        before.well_formed(),
        size <= written.len(),
    ensures
        ({
            let filled = BufferView {
                bytes: before.bytes.subrange(0, before.write_pos) + written,
                ..before
            };
            let committed = BufferView { write_pos: before.write_pos + size, ..filled };
            committed.well_formed() && committed.unread() == before.unread() + written.subrange(
                0,
                size as int,
            )
        }),
{
    let filled = BufferView { bytes: before.bytes.subrange(0, before.write_pos) + written, ..before };
    let committed = BufferView { write_pos: before.write_pos + size, ..filled };
    assert(committed.unread() =~= before.unread() + written.subrange(0, size as int));
}

} // verus!
