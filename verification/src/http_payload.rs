//! The frames in which sync payloads are delivered to readers that poll over
//! HTTP: a header string, then the content as a byte block.
use crate::wire::{block_bytes, text_bytes};
use vstd::prelude::*;

verus! {

/// Appends the string's UTF-8 length truncated to one byte, then its UTF-8
/// bytes.
pub fn write_pascal_string(src: &str, dest: &mut Vec<u8>)
    ensures
        final(dest)@ == old(dest)@ + text_bytes(src@),
{
    let bytes = src.as_bytes();
    dest.push(bytes.len() as u8);
    dest.extend_from_slice(bytes);
    proof {
        assert(final(dest)@ =~= old(dest)@ + text_bytes(src@));
    }
}

/// Appends the length truncated to a little-endian `u32`, then the bytes.
pub fn write_byte_array(src: &[u8], dest: &mut Vec<u8>)
    ensures
        final(dest)@ == old(dest)@ + block_bytes(src@),
{
    let bytes_size_as_u32 = src.len() as u32;
    let size = vstd::bytes::u32_to_le_bytes(bytes_size_as_u32);
    dest.extend_from_slice(size.as_slice());
    dest.extend_from_slice(src);
    proof {
        assert(final(dest)@ =~= old(dest)@ + block_bytes(src@));
    }
}

/// The header of a sync frame: the sync kind, a colon, then the JSON that
/// names the table.
pub open spec fn sync_header(kind: Seq<char>, header_json: Seq<char>) -> Seq<char> {
    kind + ":"@ + header_json
}

/// A sync frame: the header `<kind>:<header_json>` as a string, then the
/// content as a byte block (`initTable`, `initPartitions`, `updateRows` and
/// `deleteRows` frames all take this shape).
pub fn write_sync_frame(kind: &str, header_json: &str, content: &[u8]) -> (r: Vec<u8>)
    ensures
        r@ == text_bytes(sync_header(kind@, header_json@)) + block_bytes(content@),
{
    let mut header = String::from_str(kind);
    header.append(":");
    header.append(header_json);
    let mut result: Vec<u8> = Vec::new();
    write_pascal_string(header.as_str(), &mut result);
    write_byte_array(content, &mut result);
    proof {
        assert(result@ =~= text_bytes(sync_header(kind@, header_json@)) + block_bytes(content@));
    }
    result
}

} // verus!
