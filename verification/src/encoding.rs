//! Low-level byte encodings shared by tag and length fields: minimal
//! big-endian bytes and base-128 continuation bytes, with their parsers and
//! the lemmas tying the two directions together.

use vstd::prelude::*;

use crate::error::Error;

verus! {

/// Minimal big-endian bytes of `n` (empty for zero).
pub open spec fn spec_be_bytes(n: nat) -> Seq<u8>
    decreases n,
{
    if n == 0 {
        Seq::empty()
    } else {
        spec_be_bytes(n / 256) + seq![(n % 256) as u8]
    }
}

/// The value read back from big-endian bytes.
pub open spec fn spec_be_value(s: Seq<u8>) -> nat
    decreases s.len(),
{
    if s.len() == 0 {
        0
    } else {
        (spec_be_value(s.drop_last()) * 256 + s.last()) as nat
    }
}

/// Continuation bytes (high bit set) for the base-128 digits of `n`,
/// highest digit first; empty for zero.
pub open spec fn spec_base128_hi(n: nat) -> Seq<u8>
    decreases n,
{
    if n == 0 {
        Seq::empty()
    } else {
        spec_base128_hi(n / 128) + seq![(128 + n % 128) as u8]
    }
}

/// The full minimal base-128 encoding of `n`: continuation bytes for the
/// high digits, then the last digit with the high bit clear.
pub open spec fn spec_base128(n: nat) -> Seq<u8> {
    spec_base128_hi(n / 128) + seq![(n % 128) as u8]
}

/// 128 raised to `k`.
pub open spec fn pow128(k: nat) -> nat
    decreases k,
{
    if k == 0 {
        1
    } else {
        128 * pow128((k - 1) as nat)
    }
}

/// 256 raised to `k`.
pub open spec fn pow256(k: nat) -> nat
    decreases k,
{
    if k == 0 {
        1
    } else {
        256 * pow256((k - 1) as nat)
    }
}

/// Base-128 continuation parse: consumes bytes while the high bit is set,
/// then the final byte, folding each 7-bit digit into `acc`.  Rejects
/// values that do not fit a `u32` and input that ends before the final
/// byte.
pub open spec fn spec_parse_base128(s: Seq<u8>, pos: int, acc: nat) -> Result<(u32, int), Error>
    decreases s.len() - pos,
{
    if pos < 0 || pos >= s.len() {
        Err(Error::MalformedHeader)
    } else {
        let b = s[pos];
        let acc2 = acc * 128 + (b % 128) as nat;
        if acc2 > u32::MAX as nat {
            Err(Error::MalformedHeader)
        } else if b >= 128 {
            spec_parse_base128(s, pos + 1, acc2)
        } else {
            Ok((acc2 as u32, pos + 1))
        }
    }
}

/// Big-endian parse of exactly `k` bytes folded into `acc`, rejecting
/// values beyond `usize::MAX`.
pub open spec fn spec_parse_be(s: Seq<u8>, pos: int, k: nat, acc: nat) -> Result<(usize, int), Error>
    decreases k,
{
    if k == 0 {
        Ok((acc as usize, pos))
    } else if pos < 0 || pos >= s.len() {
        Err(Error::MalformedHeader)
    } else {
        let acc2 = (acc * 256 + s[pos]) as nat;
        if acc2 > usize::MAX as nat {
            Err(Error::MalformedHeader)
        } else {
            spec_parse_be(s, pos + 1, (k - 1) as nat, acc2)
        }
    }
}

/// Exact-mirror executable parse of a base-128 continuation encoding.
pub fn parse_base128(input: &[u8], pos: usize, acc: u32) -> (r: Result<(u32, usize), Error>)
    ensures
        match r {
            Ok((v, p)) => spec_parse_base128(input@, pos as int, acc as nat)
                == Ok::<(u32, int), Error>((v, p as int)) && pos < p <= input@.len(),
            Err(e) => spec_parse_base128(input@, pos as int, acc as nat)
                == Err::<(u32, int), Error>(e),
        },
    decreases input@.len() - pos,
{
    if pos >= input.len() {
        return Err(Error::MalformedHeader);
    }
    let b = input[pos];
    let low = b % 128;
    let acc2: u64 = acc as u64 * 128 + low as u64;
    if acc2 > u32::MAX as u64 {
        return Err(Error::MalformedHeader);
    }
    if b >= 128 {
        parse_base128(input, pos + 1, acc2 as u32)
    } else {
        Ok((acc2 as u32, pos + 1))
    }
}

/// Exact-mirror executable big-endian parse of `k` bytes.
pub fn parse_be(input: &[u8], pos: usize, k: usize, acc: usize) -> (r: Result<(usize, usize), Error>)
    requires
        pos <= input@.len(),
    ensures
        match r {
            Ok((v, p)) => spec_parse_be(input@, pos as int, k as nat, acc as nat)
                == Ok::<(usize, int), Error>((v, p as int)) && pos <= p <= input@.len(),
            Err(e) => spec_parse_be(input@, pos as int, k as nat, acc as nat)
                == Err::<(usize, int), Error>(e),
        },
    decreases k,
{
    if k == 0 {
        return Ok((acc, pos));
    }
    if pos >= input.len() {
        return Err(Error::MalformedHeader);
    }
    let b = input[pos];
    if acc > (usize::MAX - b as usize) / 256 {
        return Err(Error::MalformedHeader);
    }
    let acc2: usize = acc * 256 + b as usize;
    parse_be(input, pos + 1, k - 1, acc2)
}

/// Appends the continuation bytes for the high digits of `n`.
pub fn write_base128_hi(n: u64, out: &mut Vec<u8>)
    ensures
        final(out)@ == old(out)@ + spec_base128_hi(n as nat),
    decreases n,
{
    if n != 0 {
        write_base128_hi(n / 128, out);
        out.push((128 + (n % 128) as u8) as u8);
    }
}

/// Appends the minimal base-128 encoding of `n`.
pub fn write_base128(n: u64, out: &mut Vec<u8>)
    ensures
        final(out)@ == old(out)@ + spec_base128(n as nat),
{
    write_base128_hi(n / 128, out);
    out.push((n % 128) as u8);
}

/// The minimal base-128 encoding of `n` as a fresh vector, highest digit
/// first, continuation bit on every byte but the last.
pub fn encode_base128(value: u64) -> (r: Vec<u8>)
    ensures
        r@ == spec_base128(value as nat),
{
    let mut v: Vec<u8> = Vec::new();
    write_base128(value, &mut v);
    v
}

/// The minimal big-endian bytes of `value` as a fresh vector: the
/// bytes of the value with leading zero bytes left out, empty for zero.
pub fn encode_int_bytes(value: u64) -> (r: Vec<u8>)
    ensures
        r@ == spec_be_bytes(value as nat),
{
    let mut v: Vec<u8> = Vec::new();
    write_be_bytes(value, &mut v);
    v
}

/// Appends the minimal big-endian bytes of `n`.
pub fn write_be_bytes(n: u64, out: &mut Vec<u8>)
    ensures
        final(out)@ == old(out)@ + spec_be_bytes(n as nat),
    decreases n,
{
    if n != 0 {
        write_be_bytes(n / 256, out);
        out.push((n % 256) as u8);
    }
}

/// A value below `128^k` has at most `k` base-128 continuation bytes.
pub proof fn lemma_base128_hi_len_le(n: nat, k: nat)
    requires
        n < pow128(k),
    ensures
        spec_base128_hi(n).len() <= k,
    decreases n,
{
    if n != 0 {
        if k == 0 {
        } else {
            assert(n / 128 < pow128((k - 1) as nat)) by (nonlinear_arith)
                requires n < pow128(k), pow128(k) == 128 * pow128((k - 1) as nat);
            lemma_base128_hi_len_le(n / 128, (k - 1) as nat);
        }
    }
}

/// Number of bytes in the minimal base-128 encoding of `n`; at most
/// five for any tag number that fits a `u32`.
pub fn base128_len(n: u64) -> (k: usize)
    ensures
        k as nat == spec_base128(n as nat).len(),
        1 <= k <= 10,
        n <= u32::MAX as u64 ==> k <= 5,
    decreases n,
{
    proof {
        if n <= u32::MAX as u64 {
            assert(pow128(4) == 0x1000_0000) by {
                reveal_with_fuel(pow128, 5);
            }
            assert(n as nat / 128 < pow128(4));
            lemma_base128_hi_len_le(n as nat / 128, 4);
        }
        assert(pow128(9) == 0x8000_0000_0000_0000) by {
            reveal_with_fuel(pow128, 10);
        }
        assert(n as nat / 128 < pow128(9));
        lemma_base128_hi_len_le(n as nat / 128, 9);
    }
    if n < 128 {
        1
    } else {
        proof {
            assert(spec_base128_hi(n as nat / 128).len()
                == spec_base128((n / 128) as nat).len()) by {
                assert(spec_base128_hi(n as nat / 128)
                    == spec_base128_hi((n as nat / 128) / 128)
                        + seq![(128 + (n as nat / 128) % 128) as u8]);
            }
        }
        1 + base128_len(n / 128)
    }
}

/// Number of minimal big-endian bytes of `n`.
pub fn be_len(n: u64) -> (k: usize)
    ensures
        k as nat == spec_be_bytes(n as nat).len(),
        k <= 8,
    decreases n,
{
    proof {
        lemma_be_bytes_len_u64(n);
    }
    if n == 0 {
        0
    } else {
        1 + be_len(n / 256)
    }
}

/// A value below `256^k` has at most `k` minimal big-endian bytes.
pub proof fn lemma_be_bytes_len_le(n: nat, k: nat)
    requires
        n < pow256(k),
    ensures
        spec_be_bytes(n).len() <= k,
    decreases n,
{
    if n != 0 {
        if k == 0 {
        } else {
            assert(n / 256 < pow256((k - 1) as nat)) by (nonlinear_arith)
                requires n < pow256(k), pow256(k) == 256 * pow256((k - 1) as nat);
            lemma_be_bytes_len_le(n / 256, (k - 1) as nat);
        }
    }
}

/// Every `u64` fits in eight big-endian bytes.
pub proof fn lemma_be_bytes_len_u64(n: u64)
    ensures
        spec_be_bytes(n as nat).len() <= 8,
{
    assert(pow256(8) == 0x1_0000_0000_0000_0000) by {
        reveal_with_fuel(pow256, 9);
    }
    lemma_be_bytes_len_le(n as nat, 8);
}

/// `pow256` is positive.
pub proof fn lemma_pow256_pos(k: nat)
    ensures
        pow256(k) >= 1,
    decreases k,
{
    if k > 0 {
        lemma_pow256_pos((k - 1) as nat);
    }
}

/// `pow128` is positive.
pub proof fn lemma_pow128_pos(k: nat)
    ensures
        pow128(k) >= 1,
    decreases k,
{
    if k > 0 {
        lemma_pow128_pos((k - 1) as nat);
    }
}

/// The leading minimal big-endian byte of a nonzero value is nonzero.
pub proof fn lemma_be_bytes_first_nonzero(n: nat)
    requires
        n > 0,
    ensures
        spec_be_bytes(n).len() > 0,
        spec_be_bytes(n)[0] != 0,
    decreases n,
{
    let rest = spec_be_bytes(n / 256);
    assert(spec_be_bytes(n) == rest + seq![(n % 256) as u8]);
    if n / 256 > 0 {
        lemma_be_bytes_first_nonzero(n / 256);
        assert(spec_be_bytes(n)[0] == rest[0]);
    } else {
        assert(n % 256 == n);
        assert(spec_be_bytes(n)[0] == (n % 256) as u8);
    }
}

/// A value is below `256` to the number of its minimal big-endian bytes.
pub proof fn lemma_be_bytes_value_bound(n: nat)
    ensures
        n < pow256(spec_be_bytes(n).len()),
    decreases n,
{
    if n == 0 {
    } else {
        lemma_be_bytes_value_bound(n / 256);
        let k = spec_be_bytes(n / 256).len();
        lemma_pow256_pos(k);
        assert(spec_be_bytes(n).len() == k + 1);
        assert(n < 256 * pow256(k)) by (nonlinear_arith)
            requires n / 256 < pow256(k), pow256(k) >= 1;
    }
}

/// A value with more than one minimal big-endian byte is at least `256^(k-1)`.
pub proof fn lemma_be_bytes_value_lower(n: nat)
    requires
        n > 0,
    ensures
        n >= pow256((spec_be_bytes(n).len() - 1) as nat),
    decreases n,
{
    if n / 256 == 0 {
        assert(spec_be_bytes(n).len() == 1);
    } else {
        lemma_be_bytes_value_lower(n / 256);
        let k = (spec_be_bytes(n / 256).len() - 1) as nat;
        assert(n >= 256 * pow256(k)) by (nonlinear_arith)
            requires n / 256 >= pow256(k);
    }
}

/// Parsing `k` big-endian digits of `m` laid down in `s` extends the
/// accumulator exactly as the digits demand.
pub proof fn lemma_parse_be_digits(s: Seq<u8>, pos: int, m: nat, acc: nat)
    requires
        0 <= pos,
        pos + spec_be_bytes(m).len() <= s.len(),
        s.subrange(pos, pos + spec_be_bytes(m).len()) =~= spec_be_bytes(m),
        acc * pow256(spec_be_bytes(m).len()) + m <= usize::MAX,
    ensures
        spec_parse_be(s, pos, spec_be_bytes(m).len(), acc)
            == Ok::<(usize, int), Error>((
            (acc * pow256(spec_be_bytes(m).len()) + m) as usize,
            pos + spec_be_bytes(m).len(),
        )),
    decreases m,
{
    let k = spec_be_bytes(m).len();
    lemma_pow256_pos(k);
    if m == 0 {
        assert(spec_be_bytes(m).len() == 0);
        assert(pow256(0) == 1);
        let p = pow256(spec_be_bytes(m).len());
        assert(p == 1);
        assert(acc * p == acc) by (nonlinear_arith)
            requires p == 1;
        assert(spec_parse_be(s, pos, 0, acc) == Ok::<(usize, int), Error>((acc as usize, pos)));
    } else {
        let hi = m / 256;
        let d = m % 256;
        let kh = spec_be_bytes(hi).len();
        assert(k == kh + 1);
        assert(spec_be_bytes(m) == spec_be_bytes(hi) + seq![d as u8]);
        assert(s.subrange(pos, pos + kh as int) =~= spec_be_bytes(hi));
        // the accumulator after the high digits
        let acc_hi = acc * pow256(kh) + hi;
        assert(acc_hi * 256 + d == acc * pow256(k) + m) by (nonlinear_arith)
            requires
                acc_hi == acc * pow256(kh) + hi,
                pow256(k) == 256 * pow256(kh),
                m == hi * 256 + d,
                k == kh + 1;
        assert(acc_hi <= acc_hi * 256 + d) by (nonlinear_arith);
        assert(acc <= acc * pow256(k)) by (nonlinear_arith)
            requires pow256(k) >= 1;
        lemma_parse_be_digits(s, pos, hi, acc);
        // one more digit: s[pos + kh] == d, below 256, no overflow
        assert(s.subrange(pos, pos + k as int)[kh as int] == s[pos + kh as int]);
        assert(spec_be_bytes(m)[kh as int] == d as u8);
        assert(s[pos + kh as int] == d as u8);
        let acc2 = (acc_hi * 256 + d) as nat;
        assert(spec_parse_be(s, pos + k as int, 0, acc2)
            == Ok::<(usize, int), Error>((acc2 as usize, pos + k)));
        assert(spec_parse_be(s, pos + kh as int, 1, acc_hi)
            == Ok::<(usize, int), Error>((acc2 as usize, pos + k)));
        // splitting k = kh + 1 steps
        lemma_parse_be_split(s, pos, kh, 1, acc);
        assert(acc_hi <= usize::MAX);
        assert((acc_hi as usize) as nat == acc_hi);
        assert(spec_parse_be(s, pos, k, acc)
            == spec_parse_be(s, pos + kh as int, 1, acc_hi));
        assert(spec_parse_be(s, pos, spec_be_bytes(m).len(), acc)
            == Ok::<(usize, int), Error>((
            (acc * pow256(spec_be_bytes(m).len()) + m) as usize,
            pos + spec_be_bytes(m).len(),
        )));
    }
}

/// `spec_parse_be` over `k1 + k2` digits equals parsing `k1` digits and
/// then `k2` more from where that left off.
pub proof fn lemma_parse_be_split(s: Seq<u8>, pos: int, k1: nat, k2: nat, acc: nat)
    requires
        acc <= usize::MAX,
    ensures
        spec_parse_be(s, pos, k1 + k2, acc) == match spec_parse_be(s, pos, k1, acc) {
            Ok((v, p)) => spec_parse_be(s, p, k2, v as nat),
            Err(e) => Err(e),
        },
    decreases k1,
{
    if k1 == 0 {
    } else if pos < 0 || pos >= s.len() {
    } else {
        let acc2 = (acc * 256 + s[pos]) as nat;
        if acc2 > usize::MAX as nat {
        } else {
            lemma_parse_be_split(s, pos + 1, (k1 - 1) as nat, k2, acc2);
        }
    }
}

/// A successful big-endian parse of `k` digits starting from a zero
/// accumulator yields a value below `256^k`.
pub proof fn lemma_parse_be_value_bound(s: Seq<u8>, pos: int, k: nat, acc: nat)
    ensures
        spec_parse_be(s, pos, k, acc) matches Ok((v, p))
            ==> ((v as nat) < (acc + 1) * pow256(k) && p == pos + k),
    decreases k,
{
    lemma_pow256_pos(k);
    if k == 0 {
        assert((acc + 1) * pow256(0) == acc + 1) by (nonlinear_arith)
            requires pow256(0) == 1;
        if acc <= usize::MAX {
        } else {
        }
        assert(acc as usize as nat <= acc);
        assert(acc < acc + 1);
        assert((acc as usize as nat) < ((acc + 1) * pow256(k)));
    } else if pos < 0 || pos >= s.len() {
    } else {
        let acc2 = (acc * 256 + s[pos]) as nat;
        if acc2 > usize::MAX as nat {
        } else {
            lemma_pow256_pos((k - 1) as nat);
            lemma_parse_be_value_bound(s, pos + 1, (k - 1) as nat, acc2);
            if spec_parse_be(s, pos + 1, (k - 1) as nat, acc2) matches Ok((v, p)) {
                assert((acc2 + 1) * pow256((k - 1) as nat) <= (acc + 1) * pow256(k))
                    by (nonlinear_arith)
                    requires
                        acc2 <= acc * 256 + 255,
                        pow256(k) == 256 * pow256((k - 1) as nat),
                        pow256((k - 1) as nat) >= 1;
            }
        }
    }
}

/// Parsing the base-128 continuation digits of `m` laid down in `s`
/// advances past them, folding `m` into the accumulator.
pub proof fn lemma_parse_base128_hi(s: Seq<u8>, pos: int, m: nat, acc: nat)
    requires
        0 <= pos,
        pos + spec_base128_hi(m).len() < s.len(),
        s.subrange(pos, pos + spec_base128_hi(m).len()) =~= spec_base128_hi(m),
        acc * pow128(spec_base128_hi(m).len()) + m <= u32::MAX,
    ensures
        spec_parse_base128(s, pos, acc)
            == spec_parse_base128(s, pos + spec_base128_hi(m).len(),
                acc * pow128(spec_base128_hi(m).len()) + m),
    decreases m,
{
    let k = spec_base128_hi(m).len();
    if m == 0 {
        assert(spec_base128_hi(m).len() == 0);
        assert(pow128(0) == 1);
        let p = pow128(spec_base128_hi(m).len());
        assert(p == 1);
        assert(acc * p == acc) by (nonlinear_arith)
            requires p == 1;
    } else {
        let hi = m / 128;
        let d = m % 128;
        let kh = spec_base128_hi(hi).len();
        assert(k == kh + 1);
        assert(spec_base128_hi(m) == spec_base128_hi(hi) + seq![(128 + d) as u8]);
        assert(s.subrange(pos, pos + kh as int) =~= spec_base128_hi(hi));
        let acc_hi = acc * pow128(kh) + hi;
        assert(acc_hi * 128 + d == acc * pow128(k) + m) by (nonlinear_arith)
            requires
                acc_hi == acc * pow128(kh) + hi,
                pow128(k) == 128 * pow128(kh),
                m == hi * 128 + d,
                k == kh + 1;
        assert(acc_hi <= acc_hi * 128 + d) by (nonlinear_arith);
        lemma_parse_base128_hi(s, pos, hi, acc);
        // the continuation byte at pos + kh folds in the last digit of m
        assert(s.subrange(pos, pos + k as int)[kh as int] == s[pos + kh as int]);
        assert(spec_base128_hi(m)[kh as int] == (128 + d) as u8);
        let b = s[pos + kh as int];
        assert(b == (128 + d) as u8);
        assert(b % 128 == d);
        assert(b >= 128);
        assert(spec_parse_base128(s, pos + kh as int, acc_hi)
            == spec_parse_base128(s, pos + k as int, (acc_hi * 128 + d) as nat));
        assert((acc_hi * 128 + d) as nat == acc * pow128(k) + m);
    }
}

/// Round trip for base-128: the minimal encoding of `n`, followed by
/// anything, parses back to exactly `n`.
pub proof fn lemma_parse_base128_round_trip(s: Seq<u8>, pos: int, n: u32)
    requires
        0 <= pos,
        pos + spec_base128(n as nat).len() <= s.len(),
        s.subrange(pos, pos + spec_base128(n as nat).len()) =~= spec_base128(n as nat),
    ensures
        spec_parse_base128(s, pos, 0)
            == Ok::<(u32, int), Error>((n, pos + spec_base128(n as nat).len())),
{
    let hi = (n as nat) / 128;
    let d = (n as nat) % 128;
    let kh = spec_base128_hi(hi).len();
    assert(spec_base128(n as nat) == spec_base128_hi(hi) + seq![d as u8]);
    assert(s.subrange(pos, pos + kh as int) =~= spec_base128_hi(hi));
    assert(hi * 128 + d <= u32::MAX);
    assert(hi <= hi * 128 + d) by (nonlinear_arith);
    assert(0 * pow128(kh) + hi == hi);
    lemma_parse_base128_hi(s, pos, hi, 0);
    // the final byte has the high bit clear and closes the parse
    let k = spec_base128(n as nat).len();
    assert(s.subrange(pos, pos + k as int)[kh as int] == s[pos + kh as int]);
    assert(spec_base128(n as nat)[kh as int] == d as u8);
    let b = s[pos + kh as int];
    assert(b == d as u8);
    assert(b < 128);
    assert(hi * 128 + (b % 128) as nat == n as nat);
}

/// The first continuation byte of the minimal encoding of a value with
/// high digits is never the bare continuation marker `0x80`.
pub proof fn lemma_base128_hi_first_not_bare(m: nat)
    requires
        m > 0,
    ensures
        spec_base128_hi(m).len() > 0,
        spec_base128_hi(m)[0] != 128,
    decreases m,
{
    let rest = spec_base128_hi(m / 128);
    assert(spec_base128_hi(m) == rest + seq![(128 + m % 128) as u8]);
    if m / 128 > 0 {
        lemma_base128_hi_first_not_bare(m / 128);
        assert(spec_base128_hi(m)[0] == rest[0]);
    } else {
        assert(m % 128 == m);
        assert(spec_base128_hi(m)[0] == (128 + m % 128) as u8);
    }
}

} // verus!
