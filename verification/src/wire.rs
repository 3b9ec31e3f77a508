//! The byte layout of the data-reader protocol, as spec functions: how values
//! are laid down and how a reader that walks a byte sequence from a position
//! picks them up again.
use vstd::bytes::*;
use vstd::prelude::*;
use vstd::utf8::*;

verus! {

/// The outcome of reading one value at a position of the committed bytes:
/// the value and the position just after it, `Short` with the position the
/// reader stopped at when the bytes ran out, or `BadText`, with the position
/// after the offending bytes, when a string's bytes are not UTF-8.
pub enum Step<T> {
    Done(T, int),
    Short(int),
    BadText(int),
}

/// The single byte at `pos`.
pub open spec fn read_u8_at(data: Seq<u8>, pos: int) -> Step<u8> {
    if 0 <= pos < data.len() {
        Step::Done(data[pos], pos + 1)
    } else {
        Step::Short(pos)
    }
}

/// The `n` bytes that start at `pos`.
pub open spec fn read_n_at(data: Seq<u8>, pos: int, n: int) -> Step<Seq<u8>> {
    if 0 <= pos && 0 <= n && pos + n <= data.len() {
        Step::Done(data.subrange(pos, pos + n), pos + n)
    } else {
        Step::Short(pos)
    }
}

/// A little-endian `u32` at `pos`.
pub open spec fn read_u32_at(data: Seq<u8>, pos: int) -> Step<u32> {
    match read_n_at(data, pos, 4) {
        Step::Done(b, p) => Step::Done(spec_u32_from_le_bytes(b), p),
        Step::Short(p) => Step::Short(p),
        Step::BadText(p) => Step::BadText(p),
    }
}

/// A string of at most 255 bytes: one length byte, then the UTF-8 bytes.
pub open spec fn read_text_at(data: Seq<u8>, pos: int) -> Step<Seq<char>> {
    match read_u8_at(data, pos) {
        Step::Done(len, p1) => match read_n_at(data, p1, len as int) {
            Step::Done(bytes, p2) => if valid_utf8(bytes) {
                Step::Done(decode_utf8(bytes), p2)
            } else {
                Step::BadText(p2)
            },
            Step::Short(p) => Step::Short(p),
            Step::BadText(p) => Step::BadText(p),
        },
        Step::Short(p) => Step::Short(p),
        Step::BadText(p) => Step::BadText(p),
    }
}

/// A byte block: its length as a little-endian `u32`, then the bytes.
pub open spec fn read_block_at(data: Seq<u8>, pos: int) -> Step<Seq<u8>> {
    match read_u32_at(data, pos) {
        Step::Done(n, p) => read_n_at(data, p, n as int),
        Step::Short(p) => Step::Short(p),
        Step::BadText(p) => Step::BadText(p),
    }
}

/// `n` pairs of strings, one pair after the other.
pub open spec fn read_pairs_at(data: Seq<u8>, pos: int, n: nat) -> Step<Seq<(Seq<char>, Seq<char>)>>
    decreases n,
{
    if n == 0 {
        Step::Done(Seq::empty(), pos)
    } else {
        match read_pairs_at(data, pos, (n - 1) as nat) {
            Step::Done(pairs, p1) => match read_text_at(data, p1) {
                Step::Done(first, p2) => match read_text_at(data, p2) {
                    Step::Done(second, p3) => Step::Done(pairs.push((first, second)), p3),
                    Step::Short(p) => Step::Short(p),
                    Step::BadText(p) => Step::BadText(p),
                },
                Step::Short(p) => Step::Short(p),
                Step::BadText(p) => Step::BadText(p),
            },
            Step::Short(p) => Step::Short(p),
            Step::BadText(p) => Step::BadText(p),
        }
    }
}

/// The bytes that lay down a string: its UTF-8 length truncated to one byte,
/// then its UTF-8 bytes.
pub open spec fn text_bytes(s: Seq<char>) -> Seq<u8> {
    seq![(encode_utf8(s).len() as u8)] + encode_utf8(s)
}

/// The bytes that lay down a byte block: its length truncated to a
/// little-endian `u32`, then the bytes.
pub open spec fn block_bytes(d: Seq<u8>) -> Seq<u8> {
    spec_u32_to_le_bytes(d.len() as u32) + d
}

/// The bytes of a sequence of string pairs, each pair as two strings.
pub open spec fn pairs_bytes(pairs: Seq<(Seq<char>, Seq<char>)>) -> Seq<u8>
    decreases pairs.len(),
{
    if pairs.len() == 0 {
        Seq::empty()
    } else {
        pairs_bytes(pairs.drop_last()) + text_bytes(pairs.last().0) + text_bytes(
            pairs.last().1,
        )
    }
}

/// A string fits the wire: its UTF-8 form is at most 255 bytes long.
pub open spec fn text_fits(s: Seq<char>) -> bool {
    encode_utf8(s).len() < 256
}

/// `t` stands in `data` starting at `pos`.
pub open spec fn holds_at(data: Seq<u8>, pos: int, t: Seq<u8>) -> bool {
    &&& 0 <= pos
    &&& pos + t.len() <= data.len()
    &&& data.subrange(pos, pos + t.len()) == t
}

pub proof fn lemma_holds_at_concat(data: Seq<u8>, pos: int, a: Seq<u8>, b: Seq<u8>)
    requires
        holds_at(data, pos, a + b),
    ensures
        holds_at(data, pos, a),
        holds_at(data, pos + a.len(), b),
{
    let ab = a + b;
    let big = data.subrange(pos, pos + ab.len());
    assert(big == ab);
    assert(data.subrange(pos, pos + a.len()) =~= big.subrange(0, a.len() as int));
    assert(big.subrange(0, a.len() as int) =~= a);
    assert(data.subrange(pos + a.len(), pos + a.len() + b.len()) =~= big.subrange(
        a.len() as int,
        ab.len() as int,
    ));
    assert(big.subrange(a.len() as int, ab.len() as int) =~= b);
}

/// A string laid down by `text_bytes` is read back unchanged.
pub proof fn lemma_read_text(data: Seq<u8>, pos: int, s: Seq<char>)
    requires
        holds_at(data, pos, text_bytes(s)),
        text_fits(s),
    ensures
        read_text_at(data, pos) == Step::Done(s, pos + text_bytes(s).len()),
{
    let e = encode_utf8(s);
    lemma_holds_at_concat(data, pos, seq![(e.len() as u8)], e);
    assert(data.subrange(pos, pos + 1)[0] == data[pos]);
    encode_utf8_valid_utf8(s);
    encode_utf8_decode_utf8(s);
}

/// A little-endian `u32` is read back unchanged.
pub proof fn lemma_read_u32(data: Seq<u8>, pos: int, n: u32)
    requires
        holds_at(data, pos, spec_u32_to_le_bytes(n)),
    ensures
        read_u32_at(data, pos) == Step::Done(n, pos + 4),
{
    lemma_auto_spec_u32_to_from_le_bytes();
}

/// A byte block shorter than 2^32 is read back unchanged.
pub proof fn lemma_read_block(data: Seq<u8>, pos: int, d: Seq<u8>)
    requires
        holds_at(data, pos, block_bytes(d)),
        d.len() <= u32::MAX,
    ensures
        read_block_at(data, pos) == Step::Done(d, pos + block_bytes(d).len()),
{
    lemma_auto_spec_u32_to_from_le_bytes();
    lemma_holds_at_concat(data, pos, spec_u32_to_le_bytes(d.len() as u32), d);
    lemma_read_u32(data, pos, d.len() as u32);
}

/// Pairs of fitting strings are read back unchanged.
pub proof fn lemma_read_pairs(data: Seq<u8>, pos: int, pairs: Seq<(Seq<char>, Seq<char>)>)
    requires
        holds_at(data, pos, pairs_bytes(pairs)),
        forall|i: int| 0 <= i < pairs.len() ==> text_fits(#[trigger] pairs[i].0) && text_fits(pairs[i].1),
    ensures
        read_pairs_at(data, pos, pairs.len()) == Step::Done(pairs, pos + pairs_bytes(pairs).len()),
    decreases pairs.len(),
{
    if pairs.len() > 0 {
        let init = pairs.drop_last();
        let last = pairs.last();
        let a = pairs_bytes(init);
        let b = text_bytes(last.0);
        let c = text_bytes(last.1);
        assert(pairs_bytes(pairs) == a + b + c);
        lemma_holds_at_concat(data, pos, a + b, c);
        lemma_holds_at_concat(data, pos, a, b);
        assert forall|i: int| 0 <= i < init.len() implies text_fits(#[trigger] init[i].0) && text_fits(init[i].1) by {
            assert(init[i] == pairs[i]);
        }
        lemma_read_pairs(data, pos, init);
        assert(text_fits(pairs[pairs.len() - 1].0));
        lemma_read_text(data, pos + a.len(), last.0);
        lemma_read_text(data, pos + a.len() + b.len(), last.1);
        assert(init.push(last) =~= pairs);
        assert(init.len() == (pairs.len() - 1) as nat);
        assert(read_pairs_at(data, pos, pairs.len()) == Step::Done(init.push(last), pos + a.len() + b.len() + c.len()));
    } else {
        assert(pairs =~= Seq::<(Seq<char>, Seq<char>)>::empty());
    }
}

/// `data` is a prefix of `more`: `more` holds the same bytes and possibly
/// more after them.
pub open spec fn is_prefix(data: Seq<u8>, more: Seq<u8>) -> bool {
    data.len() <= more.len() && more.subrange(0, data.len() as int) == data
}

/// A read over a prefix of the bytes either stops short, or gives exactly
/// what the read over all of them gives.
pub open spec fn stable<T>(short: Step<T>, long: Step<T>) -> bool {
    short is Short || short == long
}

/// A read that completes ends within the bytes it read.
pub open spec fn ends_within<T>(s: Step<T>, len: int) -> bool {
    s matches Step::Done(_, q) ==> q <= len
}

pub proof fn lemma_prefix_index(data: Seq<u8>, more: Seq<u8>, i: int)
    requires
        is_prefix(data, more),
        0 <= i < data.len(),
    ensures
        data[i] == more[i],
{
    assert(more.subrange(0, data.len() as int)[i] == more[i]);
}

pub proof fn lemma_prefix_read_n(data: Seq<u8>, more: Seq<u8>, pos: int, n: int)
    requires
        is_prefix(data, more),
    ensures
        stable(read_n_at(data, pos, n), read_n_at(more, pos, n)),
        ends_within(read_n_at(data, pos, n), data.len() as int),
{
    if 0 <= pos && 0 <= n && pos + n <= data.len() {
        assert(data.subrange(pos, pos + n) =~= more.subrange(pos, pos + n)) by {
            assert forall|i: int| 0 <= i < n implies #[trigger] data.subrange(pos, pos + n)[i] == more.subrange(pos, pos + n)[i] by {
                lemma_prefix_index(data, more, pos + i);
            }
        }
    }
}

pub proof fn lemma_prefix_read_u8(data: Seq<u8>, more: Seq<u8>, pos: int)
    requires
        is_prefix(data, more),
    ensures
        stable(read_u8_at(data, pos), read_u8_at(more, pos)),
        ends_within(read_u8_at(data, pos), data.len() as int),
{
    if 0 <= pos < data.len() {
        lemma_prefix_index(data, more, pos);
    }
}

pub proof fn lemma_prefix_read_u32(data: Seq<u8>, more: Seq<u8>, pos: int)
    requires
        is_prefix(data, more),
    ensures
        stable(read_u32_at(data, pos), read_u32_at(more, pos)),
        ends_within(read_u32_at(data, pos), data.len() as int),
{
    lemma_prefix_read_n(data, more, pos, 4);
}

pub proof fn lemma_prefix_read_text(data: Seq<u8>, more: Seq<u8>, pos: int)
    requires
        is_prefix(data, more),
    ensures
        stable(read_text_at(data, pos), read_text_at(more, pos)),
        ends_within(read_text_at(data, pos), data.len() as int),
{
    lemma_prefix_read_u8(data, more, pos);
    if let Step::Done(len, p1) = read_u8_at(data, pos) {
        lemma_prefix_read_n(data, more, p1, len as int);
    }
}

pub proof fn lemma_prefix_read_block(data: Seq<u8>, more: Seq<u8>, pos: int)
    requires
        is_prefix(data, more),
    ensures
        stable(read_block_at(data, pos), read_block_at(more, pos)),
        ends_within(read_block_at(data, pos), data.len() as int),
{
    lemma_prefix_read_u32(data, more, pos);
    if let Step::Done(n, p) = read_u32_at(data, pos) {
        lemma_prefix_read_n(data, more, p, n as int);
    }
}

pub proof fn lemma_prefix_read_pairs(data: Seq<u8>, more: Seq<u8>, pos: int, n: nat)
    requires
        is_prefix(data, more),
        pos <= data.len(),
    ensures
        stable(read_pairs_at(data, pos, n), read_pairs_at(more, pos, n)),
        ends_within(read_pairs_at(data, pos, n), data.len() as int),
    decreases n,
{
    if n > 0 {
        lemma_prefix_read_pairs(data, more, pos, (n - 1) as nat);
        if let Step::Done(_, p1) = read_pairs_at(data, pos, (n - 1) as nat) {
            lemma_prefix_read_text(data, more, p1);
            if let Step::Done(_, p2) = read_text_at(data, p1) {
                lemma_prefix_read_text(data, more, p2);
            }
        }
    }
}

} // verus!
