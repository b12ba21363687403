//! Hexadecimal digits, the packet checksum and hexadecimal number fields.

use vstd::prelude::*;

verus! {

/// The lower-case ASCII hex digit of a nybble.
pub open spec fn hex_char(n: nat) -> u8 {
    if n < 10 {
        (48 + n) as u8
    } else {
        (87 + n) as u8
    }
}

/// Two lower-case hex digits for a byte, high nybble first.
pub open spec fn byte_hex(b: u8) -> Seq<u8> {
    seq![hex_char((b / 16) as nat), hex_char((b % 16) as nat)]
}

/// Sum of all bytes, as an unbounded integer.
pub open spec fn byte_sum(s: Seq<u8>) -> nat
    decreases s.len(),
{
    if s.len() == 0 {
        0
    } else {
        byte_sum(s.drop_last()) + s.last() as nat
    }
}

/// The packet checksum: the sum of the payload bytes modulo 256.
pub open spec fn checksum_of(s: Seq<u8>) -> u8 {
    (byte_sum(s) % 256) as u8
}

pub fn hex_digit(n: u8) -> (r: u8)
    requires
        n < 16,
    ensures
        r == hex_char(n as nat),
{
    if n < 10 {
        48 + n
    } else {
        87 + n
    }
}

/// Appends the two hex digits of `b`.
pub fn push_byte_hex(out: &mut Vec<u8>, b: u8)
    ensures
        final(out)@ == old(out)@ + byte_hex(b),
{
    out.push(hex_digit(b / 16));
    out.push(hex_digit(b % 16));
    assert(final(out)@ =~= old(out)@ + byte_hex(b));
}

/// Adding a byte to a payload adds it to the checksum, modulo 256.
pub proof fn lemma_checksum_push(s: Seq<u8>, b: u8)
    ensures
        checksum_of(s.push(b)) as int == (checksum_of(s) as int + b as int) % 256,
{
    assert(s.push(b).drop_last() =~= s);
    vstd::arithmetic::div_mod::lemma_add_mod_noop(byte_sum(s) as int, b as int, 256);
    vstd::arithmetic::div_mod::lemma_mod_twice(b as int, 256);
}

/// Sum of the payload bytes modulo 256.
pub fn checksum(p: &[u8]) -> (r: u8)
    ensures
        r == checksum_of(p@),
{
    let mut sum: u8 = 0;
    let mut i: usize = 0;
    while i < p.len()
        invariant
            i <= p@.len(),
            sum == checksum_of(p@.subrange(0, i as int)),
        decreases p@.len() - i,
    {
        proof {
            let s = p@.subrange(0, i as int + 1);
            assert(s.drop_last() =~= p@.subrange(0, i as int));
            vstd::arithmetic::div_mod::lemma_add_mod_noop(byte_sum(s.drop_last()) as int, p@[i as int] as int, 256);
        }
        sum = sum.wrapping_add(p[i]);
        i += 1;
    }
    assert(p@.subrange(0, p@.len() as int) =~= p@);
    sum
}

/// The checksum rendered as exactly two lower-case hex digits.
pub fn checksum_hex(p: &[u8]) -> (r: Vec<u8>)
    ensures
        r@ == byte_hex(checksum_of(p@)),
        r@.len() == 2,
{
    let mut r: Vec<u8> = Vec::new();
    push_byte_hex(&mut r, checksum(p));
    assert(r@ =~= byte_hex(checksum_of(p@)));
    r
}

/// Value of an ASCII hex digit of either case.
pub open spec fn digit_value(c: u8) -> Option<nat> {
    if 48 <= c <= 57 {
        Some((c - 48) as nat)
    } else if 97 <= c <= 102 {
        Some((c - 87) as nat)
    } else if 65 <= c <= 70 {
        Some((c - 55) as nat)
    } else {
        None
    }
}

/// Value of a hex digit, with any other byte counting as zero.
pub open spec fn nybble(c: u8) -> nat {
    match digit_value(c) {
        Some(d) => d,
        None => 0,
    }
}

pub open spec fn all_hex(s: Seq<u8>) -> bool {
    forall|i: int| 0 <= i < s.len() ==> (#[trigger] digit_value(s[i])).is_some()
}

/// The number that a sequence of hex digits denotes, most significant first.
pub open spec fn hex_value(s: Seq<u8>) -> nat
    decreases s.len(),
{
    if s.len() == 0 {
        0
    } else {
        hex_value(s.drop_last()) * 16 + nybble(s.last())
    }
}

/// A non-empty run of hex digits whose value is at most `max`.
pub open spec fn hex_number(d: Seq<u8>, max: nat) -> Option<nat> {
    if d.len() > 0 && all_hex(d) && hex_value(d) <= max {
        Some(hex_value(d))
    } else {
        None
    }
}

/// An unsigned hex field: an optional `+`, then hex digits, at most `max`.
pub open spec fn parse_unsigned(s: Seq<u8>, max: nat) -> Option<nat> {
    if s.len() > 0 && s[0] == 43 {
        hex_number(s.drop_first(), max)
    } else {
        hex_number(s, max)
    }
}

/// A signed 32-bit hex field: an optional sign, then hex digits.
pub open spec fn parse_i32(s: Seq<u8>) -> Option<int> {
    if s.len() > 0 && s[0] == 45 {
        match hex_number(s.drop_first(), 0x8000_0000) {
            Some(v) => Some(-v),
            None => None,
        }
    } else {
        match parse_unsigned(s, 0x7fff_ffff) {
            Some(v) => Some(v as int),
            None => None,
        }
    }
}

/// Pairs of hex digits read as bytes; a trailing odd digit is dropped.
pub open spec fn decode_pairs(s: Seq<u8>) -> Seq<u8> {
    Seq::new(s.len() / 2, |k: int| (nybble(s[2 * k]) * 16 + nybble(s[2 * k + 1])) as u8)
}

pub fn digit_of(c: u8) -> (r: Option<u8>)
    ensures
        match r {
            Some(d) => digit_value(c) == Some(d as nat) && d < 16,
            None => digit_value(c).is_none(),
        },
{
    if 48 <= c && c <= 57 {
        Some(c - 48)
    } else if 97 <= c && c <= 102 {
        Some(c - 87)
    } else if 65 <= c && c <= 70 {
        Some(c - 55)
    } else {
        None
    }
}

proof fn lemma_hex_value_prefix(s: Seq<u8>, k: int)
    requires
        0 <= k <= s.len(),
    ensures
        hex_value(s.subrange(0, k)) <= hex_value(s),
    decreases s.len(),
{
    if k < s.len() {
        lemma_hex_value_prefix(s.drop_last(), k);
        assert(s.drop_last().subrange(0, k) =~= s.subrange(0, k));
    } else {
        assert(s.subrange(0, k) =~= s);
    }
}

/// Reads the hex number that fills `s` from `start` to its end.
fn number_from(s: &[u8], start: usize, max: u64) -> (r: Option<u64>)
    requires
        start <= s@.len(),
        max >= 15,
    ensures
        match hex_number(s@.subrange(start as int, s@.len() as int), max as nat) {
            Some(v) => r == Some(v as u64),
            None => r.is_none(),
        },
{
    let ghost d = s@.subrange(start as int, s@.len() as int);
    if start == s.len() {
        return None;
    }
    let mut acc: u64 = 0;
    let mut i: usize = start;
    while i < s.len()
        invariant
            start <= i <= s@.len(),
            d == s@.subrange(start as int, s@.len() as int),
            all_hex(s@.subrange(start as int, i as int)),
            acc as nat == hex_value(s@.subrange(start as int, i as int)),
            acc <= max,
            max >= 15,
        decreases s@.len() - i,
    {
        let ghost next = s@.subrange(start as int, i as int + 1);
        assert(next.drop_last() =~= s@.subrange(start as int, i as int));
        assert(next =~= d.subrange(0, i - start + 1));
        let dv = digit_of(s[i]);
        match dv {
            None => {
                assert(digit_value(d[i - start]).is_none());
                return None;
            },
            Some(v) => {
                if acc > (max - v as u64) / 16 {
                    assert(acc * 16 + v > max) by (nonlinear_arith)
                        requires
                            acc > (max - v as u64) / 16,
                            v < 16,
                            max >= 15,
                    ;
                    proof {
                        lemma_hex_value_prefix(d, i - start + 1);
                    }
                    return None;
                }
                assert(acc * 16 + v <= max) by (nonlinear_arith)
                    requires
                        acc <= (max - v as u64) / 16,
                        v < 16,
                        max >= 15,
                ;
                acc = acc * 16 + v as u64;
                i += 1;
            },
        }
    }
    assert(s@.subrange(start as int, i as int) =~= d);
    Some(acc)
}

/// Hex field of at most `max`, with an optional leading `+`.
pub fn parse_hex(s: &[u8], max: u64) -> (r: Option<u64>)
    requires
        max >= 15,
    ensures
        match parse_unsigned(s@, max as nat) {
            Some(v) => r == Some(v as u64),
            None => r.is_none(),
        },
{
    if s.len() > 0 && s[0] == 43 {
        assert(s@.drop_first() =~= s@.subrange(1, s@.len() as int));
        number_from(s, 1, max)
    } else {
        assert(s@ =~= s@.subrange(0, s@.len() as int));
        number_from(s, 0, max)
    }
}

pub fn parse_hex_u32(s: &[u8]) -> (r: Option<u32>)
    ensures
        match parse_unsigned(s@, u32::MAX as nat) {
            Some(v) => r == Some(v as u32),
            None => r.is_none(),
        },
{
    match parse_hex(s, u32::MAX as u64) {
        Some(v) => Some(v as u32),
        None => None,
    }
}

pub fn parse_hex_u64(s: &[u8]) -> (r: Option<u64>)
    ensures
        match parse_unsigned(s@, u64::MAX as nat) {
            Some(v) => r == Some(v as u64),
            None => r.is_none(),
        },
{
    parse_hex(s, u64::MAX)
}

pub fn parse_hex_i32(s: &[u8]) -> (r: Option<i32>)
    ensures
        match parse_i32(s@) {
            Some(v) => r == Some(v as i32),
            None => r.is_none(),
        },
{
    if s.len() > 0 && s[0] == 45 {
        assert(s@.drop_first() =~= s@.subrange(1, s@.len() as int));
        match number_from(s, 1, 0x8000_0000) {
            Some(v) => Some((0 - v as i64) as i32),
            None => None,
        }
    } else {
        match parse_hex(s, 0x7fff_ffff) {
            Some(v) => Some(v as i32),
            None => None,
        }
    }
}

/// Reads each pair of hex digits as one byte; other characters count as zero.
pub fn decode_hex_pairs(s: &[u8]) -> (r: Vec<u8>)
    ensures
        r@ == decode_pairs(s@),
{
    let mut r: Vec<u8> = Vec::new();
    let n: usize = s.len() / 2;
    let mut k: usize = 0;
    while k < n
        invariant
            n == s@.len() / 2,
            k <= n,
            r@ =~= decode_pairs(s@).subrange(0, k as int),
        decreases n - k,
    {
        let hi: u8 = match digit_of(s[2 * k]) {
            Some(v) => v,
            None => 0,
        };
        let lo: u8 = match digit_of(s[2 * k + 1]) {
            Some(v) => v,
            None => 0,
        };
        r.push(hi * 16 + lo);
        k += 1;
    }
    r
}

} // verus!
