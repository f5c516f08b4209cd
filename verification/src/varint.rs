//! Unsigned LEB128 varints: their mathematical model, the outside encoder of
//! the `varinteger` crate, and the incremental decoder of the wire protocol.
use vstd::prelude::*;

verus! {

/// `128^d`.
pub open spec fn pow128(d: nat) -> nat
    decreases d,
{
    if d == 0 {
        1
    } else {
        128 * pow128((d - 1) as nat)
    }
}

/// The LEB128 encoding of `v`: seven bits per byte, least significant group
/// first, the high bit set on every byte but the last.
pub open spec fn varint_bytes(v: u64) -> Seq<u8>
    decreases v,
{
    if v < 128 {
        seq![v as u8]
    } else {
        seq![(v % 128 + 128) as u8] + varint_bytes(v / 128)
    }
}

/// What one more byte does to a varint being read: `acc` holds the value of
/// the `d` bytes read so far.
pub enum VarintStep {
    /// The value no longer fits in a `u64`, or the varint has grown past ten bytes.
    Invalid,
    /// The byte was the last one; the varint's value.
    Done(u64),
    /// The byte announced more to come; the new accumulator and byte count.
    More(u64, nat),
}

pub open spec fn varint_step(acc: u64, d: nat, b: u8) -> VarintStep {
    let v = acc + (b % 128) as int * pow128(d);
    if v > u64::MAX {
        VarintStep::Invalid
    } else if b < 128 {
        VarintStep::Done(v as u64)
    } else if d + 1 >= 10 {
        VarintStep::Invalid
    } else {
        VarintStep::More(v as u64, d + 1)
    }
}

/// The outcome of reading the bytes of `s` into a varint that has already
/// taken `d` bytes of value `acc`.
pub enum VarintScan {
    Invalid,
    /// The value and how many bytes of `s` it took (the last one included).
    Done(u64, nat),
    /// All of `s` was taken and the varint is still open.
    Partial(u64, nat),
}

pub open spec fn varint_scan(acc: u64, d: nat, s: Seq<u8>) -> VarintScan
    decreases s.len(),
{
    if s.len() == 0 {
        VarintScan::Partial(acc, d)
    } else {
        match varint_step(acc, d, s[0]) {
            VarintStep::Invalid => VarintScan::Invalid,
            VarintStep::Done(v) => VarintScan::Done(v, 1),
            VarintStep::More(a, d2) => match varint_scan(a, d2, s.drop_first()) {
                VarintScan::Done(v, n) => VarintScan::Done(v, n + 1),
                other => other,
            },
        }
    }
}

/// One past the last byte of the varint at the start of `s` (all of `s`
/// when no byte of it ends a varint).
pub open spec fn varint_end(s: Seq<u8>) -> nat
    decreases s.len(),
{
    if s.len() == 0 {
        0
    } else if s[0] < 128 {
        1
    } else {
        1 + varint_end(s.drop_first())
    }
}

/// `s` holds a byte below 128, which ends a varint.
pub open spec fn terminated(s: Seq<u8>) -> bool {
    exists|i: int| 0 <= i < s.len() && s[i] < 128
}

/// What `varinteger::decode` adds up over the first `n` bytes of `s`: the
/// low seven bits of each of the first ten bytes, each group 128 times more
/// significant than the one before; later bytes are shifted out of a `u64`
/// and add nothing.
pub open spec fn decode_sum(s: Seq<u8>, n: nat) -> int
    decreases n,
{
    if n == 0 {
        0
    } else {
        decode_sum(s, (n - 1) as nat) + if n - 1 < 10 {
            (s[n - 1] % 128) as int * pow128((n - 1) as nat)
        } else {
            0int
        }
    }
}

/// `s` starts with bytes that `varinteger::decode` reads without running off
/// `s` or overflowing: a byte below 128 ends them, and their sum fits in a `u64`.
pub open spec fn decodable(s: Seq<u8>) -> bool {
    terminated(s) && decode_sum(s, varint_end(s)) <= u64::MAX
}

/// What `varinteger::decode` reads from the start of a decodable `s`.
pub open spec fn decoded_value(s: Seq<u8>) -> u64 {
    decode_sum(s, varint_end(s)) as u64
}

proof fn lemma_decode_sum_monotone(s: Seq<u8>, n: nat, m: nat)
    requires
        n <= m,
    ensures
        decode_sum(s, n) <= decode_sum(s, m),
    decreases m,
{
    if n < m {
        lemma_decode_sum_monotone(s, n, (m - 1) as nat);
        if m - 1 < 10 {
            assert((s[m - 1] % 128) as int * pow128((m - 1) as nat) >= 0) by (nonlinear_arith);
        }
    }
}

proof fn lemma_varint_end_after(s: Seq<u8>, i: nat)
    requires
        i <= s.len(),
        forall|j: int| 0 <= j < i ==> s[j] >= 128,
    ensures
        varint_end(s) == i + varint_end(s.skip(i as int)),
    decreases i,
{
    if i > 0 {
        assert(s[0] >= 128);
        let t = s.drop_first();
        lemma_varint_end_after(t, (i - 1) as nat);
        assert(t.skip(i - 1) =~= s.skip(i as int));
    } else {
        assert(s.skip(0) =~= s);
    }
}

/// Whether `varinteger::decode` can read the start of `bytes`.
pub fn decodable_varint(bytes: &[u8]) -> (r: bool)
    ensures
        r == decodable(bytes@),
{
    let mut i: usize = 0;
    let mut acc: u64 = 0;
    let mut fac: u64 = 1;
    while i < bytes.len()
        invariant
            i <= bytes@.len(),
            forall|j: int| 0 <= j < i ==> bytes@[j] >= 128,
            acc == decode_sum(bytes@, i as nat),
            i <= 9 ==> fac == pow128(i as nat),
        decreases bytes.len() - i,
    {
        let b = bytes[i];
        proof {
            lemma_pow128_bounds(i as nat);
            lemma_varint_end_after(bytes@, i as nat);
        }
        if i < 10 {
            let d = (b % 128) as u64;
            let sum = match d.checked_mul(fac) {
                Some(p) => p.checked_add(acc),
                None => None,
            };
            match sum {
                Some(v) => {
                    acc = v;
                },
                None => {
                    proof {
                        if terminated(bytes@) {
                            let k = choose|k: int| 0 <= k < bytes@.len() && bytes@[k] < 128;
                            assert(varint_end(bytes@.skip(i as int)) >= 1) by {
                                assert(bytes@.skip(i as int)[k - i] < 128);
                                lemma_varint_end_pos(bytes@.skip(i as int), (k - i) as nat);
                            }
                            lemma_decode_sum_monotone(bytes@, (i + 1) as nat, varint_end(bytes@));
                        }
                    }
                    return false;
                },
            }
            if i < 9 {
                fac = fac * 128;
            }
        }
        if b < 128 {
            assert(varint_end(bytes@.skip(i as int)) == 1);
            return true;
        }
        i += 1;
    }
    false
}

proof fn lemma_varint_end_pos(s: Seq<u8>, k: nat)
    requires
        k < s.len(),
        s[k as int] < 128,
    ensures
        varint_end(s) >= 1,
    decreases k,
{
    if k > 0 && s[0] >= 128 {
        lemma_varint_end_pos(s.drop_first(), (k - 1) as nat);
    }
}

/// A scan of a suffix, seen from `k` bytes earlier.
pub open spec fn shift_scan(r: VarintScan, k: nat) -> VarintScan {
    match r {
        VarintScan::Done(v, n) => VarintScan::Done(v, n + k),
        other => other,
    }
}

/// Reading `a` and then `b` is reading them joined: a varint split over two
/// reads has the value and length it has in one.
pub proof fn lemma_varint_scan_append(acc: u64, d: nat, a: Seq<u8>, b: Seq<u8>)
    ensures
        varint_scan(acc, d, a + b) == match varint_scan(acc, d, a) {
            VarintScan::Partial(a2, d2) => shift_scan(varint_scan(a2, d2, b), a.len()),
            other => other,
        },
    decreases a.len(),
{
    if a.len() == 0 {
        assert(a + b =~= b);
    } else {
        assert((a + b)[0] == a[0]);
        assert((a + b).drop_first() =~= a.drop_first() + b);
        match varint_step(acc, d, a[0]) {
            VarintStep::More(a2, d2) => lemma_varint_scan_append(a2, d2, a.drop_first(), b),
            _ => {},
        }
    }
}

/// `s` starts with a well-formed varint (at most ten bytes, value within `u64`).
pub open spec fn starts_with_varint(s: Seq<u8>) -> bool {
    varint_scan(0, 0, s) is Done
}

/// The value of the well-formed varint at the start of `s`.
pub open spec fn leading_varint_value(s: Seq<u8>) -> u64 {
    match varint_scan(0, 0, s) {
        VarintScan::Done(v, _) => v,
        _ => 0,
    }
}

/// The length in bytes of the well-formed varint at the start of `s`.
pub open spec fn leading_varint_len(s: Seq<u8>) -> nat {
    match varint_scan(0, 0, s) {
        VarintScan::Done(_, n) => n,
        _ => 0,
    }
}

pub proof fn lemma_pow128_bounds(d: nat)
    ensures
        pow128(d) >= 1,
        d <= 8 ==> pow128(d) <= 0x0100_0000_0000_0000,
        d <= 9 ==> pow128(d) <= 0x8000_0000_0000_0000,
        d == 9 ==> pow128(d) == 0x8000_0000_0000_0000,
        d >= 9 ==> pow128(d) * 128 > u64::MAX,
    decreases d,
{
    reveal_with_fuel(pow128, 11);
    if d > 10 {
        lemma_pow128_bounds((d - 1) as nat);
    }
}

/// A varint never grows past ten bytes.
pub proof fn lemma_varint_scan_bounds(acc: u64, d: nat, s: Seq<u8>)
    requires
        d <= 9,
    ensures
        varint_scan(acc, d, s) matches VarintScan::Partial(_, d2) ==> d2 == d + s.len() && d2 <= 9,
        varint_scan(acc, d, s) matches VarintScan::Done(_, k) ==> 1 <= k <= s.len() && d + k <= 10,
    decreases s.len(),
{
    if s.len() > 0 {
        match varint_step(acc, d, s[0]) {
            VarintStep::More(a, d2) => lemma_varint_scan_bounds(a, d2, s.drop_first()),
            _ => {},
        }
    }
}

/// Every `u64` has an encoding of at most ten bytes.
pub proof fn lemma_varint_bytes_len(v: u64)
    ensures
        1 <= varint_bytes(v).len() <= 10,
{
    lemma_pow128_bounds(9);
    lemma_varint_bytes_len_below(v, 10);
}

proof fn lemma_varint_bytes_len_below(v: u64, k: nat)
    requires
        k >= 1,
        v < pow128(k),
    ensures
        1 <= varint_bytes(v).len() <= k,
    decreases v,
{
    if v >= 128 {
        assert(v / 128 < pow128((k - 1) as nat)) by {
            assert(k >= 2) by {
                if k == 1 {
                    reveal_with_fuel(pow128, 2);
                }
            }
            assert(pow128(k) == 128 * pow128((k - 1) as nat));
        }
        lemma_varint_bytes_len_below(v / 128, (k - 1) as nat);
    }
}

/// Reading the encoding of `v` into a varint that already holds `acc` over `d`
/// bytes finishes it, with `v` shifted above the bytes already read, and
/// takes exactly the encoding's bytes.
pub proof fn lemma_scan_encoded(acc: u64, d: nat, v: u64, rest: Seq<u8>)
    requires
        d + varint_bytes(v).len() <= 10,
        acc + v * pow128(d) <= u64::MAX,
    ensures
        varint_scan(acc, d, varint_bytes(v) + rest) == VarintScan::Done(
            (acc + v * pow128(d)) as u64,
            varint_bytes(v).len(),
        ),
    decreases v,
{
    let s = varint_bytes(v) + rest;
    let p = pow128(d);
    if v < 128 {
        assert(s[0] == v as u8);
        assert((v as u8) % 128 == v);
    } else {
        let b = (v % 128 + 128) as u8;
        assert(s[0] == b);
        assert(b % 128 == v % 128);
        let a2 = acc + (v % 128) * p;
        assert((v % 128) * p <= v * p) by (nonlinear_arith)
            requires
                v % 128 <= v,
                p >= 0,
        ;
        lemma_varint_bytes_len(v / 128);
        assert(pow128(d + 1) == 128 * p);
        assert(v * p == (v % 128) * p + (v / 128) * (128 * p)) by (nonlinear_arith)
            requires
                v == 128 * (v / 128) + v % 128,
        ;
        assert(s.drop_first() =~= varint_bytes(v / 128) + rest);
        lemma_scan_encoded(a2 as u64, d + 1, v / 128, rest);
    }
}

/// A varint reads back as the value that was encoded, and takes exactly the
/// bytes of its encoding.
pub proof fn lemma_varint_roundtrip(v: u64, rest: Seq<u8>)
    ensures
        starts_with_varint(varint_bytes(v) + rest),
        leading_varint_value(varint_bytes(v) + rest) == v,
        leading_varint_len(varint_bytes(v) + rest) == varint_bytes(v).len(),
{
    lemma_varint_bytes_len(v);
    assert(pow128(0) == 1);
    lemma_scan_encoded(0, 0, v, rest);
}

// ---------------------------------------------------------------------------
// The outside encoder.

/// `varinteger::length` returns the number of bytes of the LEB128 encoding of
/// `value`.
pub assume_specification[ varinteger::length ](value: u64) -> (r: usize)
    ensures
        r == varint_bytes(value).len(),
;

/// `varinteger::encode_with_offset` writes the LEB128 encoding of `value` at
/// `offset` in `buf`, leaves the other bytes alone, and returns how many bytes
/// it wrote. It indexes `buf` without checks, so the encoding must fit.
pub assume_specification[ varinteger::encode_with_offset ](
    value: u64,
    buf: &mut [u8],
    offset: usize,
) -> (r: usize)
    requires
        offset + varint_bytes(value).len() <= old(buf)@.len(),
    ensures
        r == varint_bytes(value).len(),
        final(buf)@ == old(buf)@.take(offset as int) + varint_bytes(value) + old(buf)@.skip(
            offset + r,
        ),
;

/// `varinteger::decode` reads bytes of `buf` up to and including the first
/// one below 128, sets `value` to the sum of their low seven bits, each group
/// 128 times more significant than the one before (groups past the tenth are
/// shifted out), and returns how many bytes it read. It indexes `buf`
/// without checks and adds and multiplies with overflow checks, so such a
/// byte must be there and the sum must fit in a `u64`.
pub assume_specification[ varinteger::decode ](buf: &[u8], value: &mut u64) -> (r: usize)
    requires
        decodable(buf@),
    ensures
        *final(value) == decoded_value(buf@),
        r == varint_end(buf@),
;

} // verus!
