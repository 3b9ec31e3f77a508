//! Names of the blobs that partitions are persisted in.
use vstd::prelude::*;
use vstd::utf8::{decode_utf8, encode_utf8, valid_utf8};

verus! {

/// The character of the standard base64 alphabet for the six bits `v`.
pub open spec fn base64_char(v: int) -> char {
    if v < 26 {
        (65 + v) as char
    } else if v < 52 {
        (97 + v - 26) as char
    } else if v < 62 {
        (48 + v - 52) as char
    } else if v == 62 {
        '+'
    } else {
        '/'
    }
}

/// Standard base64 with padding, as `base64::encode` gives it: every three
/// bytes become four characters, and a last group of one or two bytes is
/// padded with `=`.
pub open spec fn base64_text(bytes: Seq<u8>) -> Seq<char>
    decreases bytes.len(),
{
    if bytes.len() == 0 {
        Seq::empty()
    } else if bytes.len() == 1 {
        let b0 = bytes[0] as int;
        seq![base64_char(b0 / 4), base64_char((b0 % 4) * 16), '=', '=']
    } else if bytes.len() == 2 {
        let b0 = bytes[0] as int;
        let b1 = bytes[1] as int;
        seq![base64_char(b0 / 4), base64_char((b0 % 4) * 16 + b1 / 16), base64_char((b1 % 16) * 4), '=']
    } else {
        let b0 = bytes[0] as int;
        let b1 = bytes[1] as int;
        let b2 = bytes[2] as int;
        seq![
            base64_char(b0 / 4),
            base64_char((b0 % 4) * 16 + b1 / 16),
            base64_char((b1 % 16) * 4 + b2 / 64),
            base64_char(b2 % 64),
        ] + base64_text(bytes.subrange(3, bytes.len() as int))
    }
}

/// What `base64::decode` (standard alphabet) gives for the bytes of a text:
/// the decoded bytes, or `None` where the text is not base64.
pub uninterp spec fn base64_bytes(text: Seq<u8>) -> Option<Seq<u8>>;

/// Calls `base64::encode`: standard base64 with padding, as `base64_text`
/// states it; decoding it with `base64::decode` gives the input back (the
/// crate documents the two as inverse for the standard configuration).
#[verifier::external_body]
fn encode_base64(bytes: &[u8]) -> (r: String)
    ensures
        r@ == base64_text(bytes@),
        base64_bytes(encode_utf8(r@)) == Some(bytes@),
{
    base64::encode(bytes)
}

/// Calls `base64::decode`, a function of its input alone: the decoded bytes,
/// or `None` for input that is not base64.
#[verifier::external_body]
fn decode_base64(text: &[u8]) -> (r: Option<Vec<u8>>)
    ensures
        match r {
            Some(v) => base64_bytes(text@) == Some(v@),
            None => base64_bytes(text@) is None,
        },
{
    base64::decode(text).ok()
}

/// The blob a partition is saved in: the base64 text of the partition key's
/// UTF-8 bytes.
pub fn get_blob_file_name_by_partition_name(partition_name: &str) -> (r: String)
    ensures
        r@ == base64_text(encode_utf8(partition_name@)),
        base64_bytes(encode_utf8(r@)) == Some(encode_utf8(partition_name@)),
{
    encode_base64(partition_name.as_bytes())
}

/// The partition key a blob name stands for: the base64-decoded name as
/// UTF-8, or `None` when the name is not base64 of UTF-8 text.
pub fn partition_name_from_blob_file_name(blob_name: &str) -> (r: Option<String>)
    ensures
        match base64_bytes(encode_utf8(blob_name@)) {
            Some(b) => if valid_utf8(b) {
                r matches Some(s) && s@ == decode_utf8(b)
            } else {
                r is None
            },
            None => r is None,
        },
{
    let decoded = decode_base64(blob_name.as_bytes())?;
    crate::text::text_from_utf8(decoded.as_slice())
}

/// A partition key read back from the name of the blob it was saved in is
/// that partition key.
pub proof fn lemma_blob_name_round_trip(partition_name: Seq<char>, blob_name: Seq<char>)
    requires
        blob_name == base64_text(encode_utf8(partition_name)),
        base64_bytes(encode_utf8(blob_name)) == Some(encode_utf8(partition_name)),
    ensures
        base64_bytes(encode_utf8(blob_name)) matches Some(b) && valid_utf8(b) && decode_utf8(b)
            == partition_name,
{
    vstd::utf8::encode_utf8_valid_utf8(partition_name);
    vstd::utf8::encode_utf8_decode_utf8(partition_name);
}

} // verus!
