//! Encoding of outgoing packets and of the replies that carry data.

use byteorder::{BigEndian, ByteOrder};
use vstd::prelude::*;
use crate::hex::{byte_hex, checksum_hex, checksum_of, push_byte_hex};

verus! {

/// `$<payload>#<checksum>`, the checksum as two lower-case hex digits.
pub open spec fn frame(p: Seq<u8>) -> Seq<u8> {
    seq![36u8] + p + seq![35u8] + byte_hex(checksum_of(p))
}

/// The four bytes of `n`, most significant first.
pub open spec fn be_bytes(n: u32) -> Seq<u8> {
    seq![(n >> 24u32) as u8, (n >> 16u32) as u8, (n >> 8u32) as u8, n as u8]
}

/// Each byte as two hex digits, in order.
pub open spec fn bytes_hex(b: Seq<u8>) -> Seq<u8>
    decreases b.len(),
{
    if b.len() == 0 {
        seq![]
    } else {
        bytes_hex(b.drop_last()) + byte_hex(b.last())
    }
}

/// Eight hex digits: the big-endian encoding of `n`.
pub open spec fn word_hex(n: u32) -> Seq<u8> {
    bytes_hex(be_bytes(n))
}

/// The big-endian hex encodings of `vals`, concatenated in order.
pub open spec fn words_hex(vals: Seq<u32>) -> Seq<u8>
    decreases vals.len(),
{
    if vals.len() == 0 {
        seq![]
    } else {
        words_hex(vals.drop_last()) + word_hex(vals.last())
    }
}

/// The reply to a windowed read of `data`: `l` alone past its end, else the
/// window after `m` where the full window was there, or after `l` where not.
pub open spec fn window(data: Seq<u8>, offset: nat, len: nat) -> Seq<u8> {
    if offset > data.len() {
        seq![108u8]
    } else {
        let end = if offset + len < data.len() { offset + len } else { data.len() as nat };
        let slice = data.subrange(offset as int, end as int);
        if slice.len() >= len {
            seq![109u8] + slice
        } else {
            seq![108u8] + slice
        }
    }
}

/// Frames a payload for sending.
pub fn encode_packet(p: &[u8]) -> (r: Vec<u8>)
    ensures
        r@ == frame(p@),
{
    let mut out: Vec<u8> = Vec::new();
    out.push(36);
    let mut i: usize = 0;
    while i < p.len()
        invariant
            i <= p@.len(),
            out@ == seq![36u8] + p@.subrange(0, i as int),
        decreases p@.len() - i,
    {
        out.push(p[i]);
        i += 1;
        assert(out@ =~= seq![36u8] + p@.subrange(0, i as int));
    }
    out.push(35);
    let sum = checksum_hex(p);
    out.push(sum[0]);
    out.push(sum[1]);
    assert(p@.subrange(0, p@.len() as int) =~= p@);
    assert(out@ =~= frame(p@));
    out
}

/// Relies on byteorder's `BigEndian::write_u32`, which stores `n` in the
/// first four bytes of the buffer, most significant byte first.
#[verifier::external_body]
fn big_endian_bytes(n: u32) -> (r: Vec<u8>)
    ensures
        r@ == be_bytes(n),
{
    let mut buf = [0u8; 4];
    BigEndian::write_u32(&mut buf, n);
    buf.to_vec()
}

/// Appends the eight hex digits of `n` in big-endian order.
pub fn push_word_hex(out: &mut Vec<u8>, n: u32)
    ensures
        final(out)@ == old(out)@ + word_hex(n),
{
    let bytes = big_endian_bytes(n);
    let mut i: usize = 0;
    while i < 4
        invariant
            i <= 4,
            bytes@ == be_bytes(n),
            out@ == old(out)@ + bytes_hex(bytes@.subrange(0, i as int)),
        decreases 4 - i,
    {
        let ghost before = out@;
        push_byte_hex(out, bytes[i]);
        proof {
            let next = bytes@.subrange(0, i as int + 1);
            assert(next.drop_last() =~= bytes@.subrange(0, i as int));
            assert(out@ =~= old(out)@ + bytes_hex(next));
        }
        i += 1;
    }
    assert(bytes@.subrange(0, 4) =~= be_bytes(n));
}

/// The reply to a memory read: each value in big-endian hex, in order.
pub fn memory_reply(vals: &[u32]) -> (r: Vec<u8>)
    ensures
        r@ == words_hex(vals@),
{
    let mut out: Vec<u8> = Vec::new();
    let mut i: usize = 0;
    while i < vals.len()
        invariant
            i <= vals@.len(),
            out@ == words_hex(vals@.subrange(0, i as int)),
        decreases vals@.len() - i,
    {
        push_word_hex(&mut out, vals[i]);
        proof {
            let next = vals@.subrange(0, i as int + 1);
            assert(next.drop_last() =~= vals@.subrange(0, i as int));
        }
        i += 1;
    }
    assert(vals@.subrange(0, vals@.len() as int) =~= vals@);
    out
}

/// Serves the window of `data` that starts at `offset` and spans `len` bytes.
pub fn transfer_window(data: &[u8], offset: u32, len: u32) -> (r: Vec<u8>)
    ensures
        r@ == window(data@, offset as nat, len as nat),
{
    let offset = offset as usize;
    let len = len as usize;
    if offset > data.len() {
        let mut out: Vec<u8> = Vec::new();
        out.push(108);
        assert(out@ =~= seq![108u8]);
        return out;
    }
    let end: usize = if len < data.len() - offset { offset + len } else { data.len() };
    let mut out: Vec<u8> = Vec::new();
    if end - offset >= len {
        out.push(109);
    } else {
        out.push(108);
    }
    let mut i: usize = offset;
    while i < end
        invariant
            offset <= i <= end <= data@.len(),
            out@.len() == 1 + i - offset,
            out@.subrange(1, out@.len() as int) == data@.subrange(offset as int, i as int),
            out@[0] == (if end - offset >= len { 109u8 } else { 108u8 }),
        decreases end - i,
    {
        out.push(data[i]);
        i += 1;
        assert(out@.subrange(1, out@.len() as int) =~= data@.subrange(offset as int, i as int));
    }
    assert(out@ =~= seq![out@[0]] + out@.subrange(1, out@.len() as int));
    out
}

} // verus!
