//! Reading protocol values out of a `SocketReadBuffer`, and writing them into
//! a byte vector.
use crate::socket_read_buffer::SocketReadBuffer;
use crate::text::text_from_utf8;
use crate::wire::{block_bytes, read_block_at, read_text_at, read_u32_at, text_bytes, Step};
use vstd::bytes::{spec_u32_to_le_bytes, u32_from_le_bytes, u32_to_le_bytes};
use vstd::prelude::*;

verus! {

/// What a read that does not panic gives: the value, `Incomplete` when the
/// committed bytes end before it, or `InvalidText` when a string's bytes are
/// not UTF-8.
pub enum Decoded<T> {
    Value(T),
    Incomplete,
    InvalidText,
}

impl SocketReadBuffer {
    /// A little-endian `u32`, or `None` when fewer than four bytes are unread.
    pub fn parse_u32(&mut self) -> (r: Option<u32>)
        requires
            old(self)@.well_formed(),
        ensures
            final(self)@.well_formed(),
            match read_u32_at(old(self)@.committed(), old(self)@.read_pos) {
                Step::Done(v, p) => r == Some(v) && final(self)@ == old(self)@.with_read_pos(p),
                Step::Short(p) => r is None && final(self)@ == old(self)@.with_read_pos(p),
                Step::BadText(_) => false,
            },
    {
        let bytes = self.read_bytes(4)?;
        Some(u32_from_le_bytes(bytes))
    }

    /// A byte block: a little-endian `u32` length, then that many bytes.
    pub fn parse_slice(&mut self) -> (r: Option<Vec<u8>>)
        requires
            old(self)@.well_formed(),
        ensures
            final(self)@.well_formed(),
            match read_block_at(old(self)@.committed(), old(self)@.read_pos) {
                Step::Done(d, p) => r matches Some(v) && v@ == d && final(self)@ == old(
                    self,
                )@.with_read_pos(p),
                Step::Short(p) => r is None && final(self)@ == old(self)@.with_read_pos(p),
                Step::BadText(_) => false,
            },
    {
        let data_size = self.parse_u32()?;
        let buffer = self.read_bytes(data_size as usize)?;
        Some(vstd::slice::slice_to_vec(buffer))
    }

    /// A string (one length byte, then its bytes), telling apart bytes that
    /// are missing from bytes that are not UTF-8.
    pub fn read_text(&mut self) -> (r: Decoded<String>)
        requires
            old(self)@.well_formed(),
        ensures
            final(self)@.well_formed(),
            match read_text_at(old(self)@.committed(), old(self)@.read_pos) {
                Step::Done(s, p) => r matches Decoded::Value(t) && t@ == s && final(self)@ == old(
                    self,
                )@.with_read_pos(p),
                Step::Short(p) => r is Incomplete && final(self)@ == old(self)@.with_read_pos(p),
                Step::BadText(p) => r is InvalidText && final(self)@ == old(self)@.with_read_pos(p),
            },
    {
        let len = match self.read_byte() {
            Some(b) => b,
            None => return Decoded::Incomplete,
        };
        let bytes = match self.read_bytes(len as usize) {
            Some(b) => b,
            None => return Decoded::Incomplete,
        };
        match text_from_utf8(bytes) {
            Some(s) => Decoded::Value(s),
            None => Decoded::InvalidText,
        }
    }

    /// A string (one length byte, then its UTF-8 bytes), or `None` when the
    /// committed bytes end before it. Bytes that are not UTF-8 are outside
    /// the contract: there the reader panics.
    pub fn parse_pascal_string(&mut self) -> (r: Option<String>)
        requires
            old(self)@.well_formed(),
            !(read_text_at(old(self)@.committed(), old(self)@.read_pos) is BadText),
        ensures
            final(self)@.well_formed(),
            match read_text_at(old(self)@.committed(), old(self)@.read_pos) {
                Step::Done(s, p) => r matches Some(t) && t@ == s && final(self)@ == old(
                    self,
                )@.with_read_pos(p),
                Step::Short(p) => r is None && final(self)@ == old(self)@.with_read_pos(p),
                Step::BadText(_) => false,
            },
    {
        match self.read_text() {
            Decoded::Value(s) => Some(s),
            _ => None,
        }
    }
}

/// Writing protocol values at the end of a byte sink.
pub trait SocketPacketWriter {
    fn push_pascal_string(&mut self, value: &str);

    fn push_u32(&mut self, value: u32);

    fn push_slice(&mut self, value: &[u8]);
}

impl SocketPacketWriter for Vec<u8> {
    /// Appends the string's UTF-8 length truncated to one byte, then its
    /// UTF-8 bytes.
    fn push_pascal_string(&mut self, value: &str)
        ensures
            final(self)@ == old(self)@ + text_bytes(value@),
    {
        let buffer = value.as_bytes();
        let string_size = buffer.len() as u8;
        self.push(string_size);
        self.extend_from_slice(buffer);
        proof {
            assert(final(self)@ =~= old(self)@ + text_bytes(value@));
        }
    }

    /// Appends the value as four little-endian bytes.
    fn push_u32(&mut self, value: u32)
        ensures
            final(self)@ == old(self)@ + spec_u32_to_le_bytes(value),
    {
        let arr = u32_to_le_bytes(value);
        self.extend_from_slice(arr.as_slice());
        proof {
            assert(final(self)@ =~= old(self)@ + spec_u32_to_le_bytes(value));
        }
    }

    /// Appends the length truncated to a `u32`, then the bytes.
    fn push_slice(&mut self, value: &[u8])
        ensures
            final(self)@ == old(self)@ + block_bytes(value@),
    {
        self.push_u32(value.len() as u32);
        self.extend_from_slice(value);
        proof {
            assert(final(self)@ =~= old(self)@ + block_bytes(value@));
        }
    }
}

} // verus!
