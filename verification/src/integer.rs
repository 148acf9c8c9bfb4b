//! The INTEGER leaf: stored as its raw content bytes, with conversions
//! to and from machine integers.

use vstd::prelude::*;
use vstd::slice::slice_to_vec;

use crate::any::{spec_parse_any_ber, spec_parse_any_der, Any};
use crate::encoding::{
    lemma_parse_be_digits, lemma_parse_be_value_bound, parse_be, pow256, spec_be_bytes,
    spec_parse_be, write_be_bytes,
};
use crate::error::Error;
use crate::header::{spec_header_bytes, Header};
use crate::length::Length;
use crate::octetstring::spec_primitive_header;
use crate::tag::{Class, Tag, TAG_INTEGER};
use crate::traits::{CheckDerConstraints, FromAny, FromBer, FromDer, Tagged, ToDer};

verus! {

/// An INTEGER value, kept as its raw big-endian content bytes.
#[derive(Clone, Debug, PartialEq, Eq)]
pub struct Integer {
    data: Vec<u8>,
}

impl View for Integer {
    type V = Seq<u8>;

    closed spec fn view(&self) -> Seq<u8> {
        self.data@
    }
}

/// What decoding an INTEGER from a unit yields: the content bytes of a
/// primitive unit with the INTEGER tag; at least one byte is required.
pub open spec fn spec_integer_from_any(h: Header, data: Seq<u8>) -> Result<Seq<u8>, Error> {
    if h.tag != Tag(TAG_INTEGER) {
        Err(Error::UnexpectedTag)
    } else if h.constructed {
        Err(Error::ConstructedExpected)
    } else if data.len() == 0 {
        Err(Error::InvalidValueEncoding)
    } else {
        Ok(data)
    }
}

/// The content bytes of an unsigned 32-bit value: the minimal
/// big-endian bytes, with one zero byte for zero, and a zero byte
/// prefixed whenever the leading byte would set the sign bit.
pub open spec fn spec_u32_content(v: u32) -> Seq<u8> {
    if v == 0 {
        seq![0u8]
    } else if spec_be_bytes(v as nat)[0] >= 128 {
        seq![0u8] + spec_be_bytes(v as nat)
    } else {
        spec_be_bytes(v as nat)
    }
}

/// The first position in `s` from `i` on holding a nonzero byte, or the
/// length if none does.
pub open spec fn spec_skip_zeros(s: Seq<u8>, i: int) -> int
    decreases s.len() - i,
{
    if 0 <= i < s.len() && s[i] == 0 {
        spec_skip_zeros(s, i + 1)
    } else {
        i
    }
}

/// The unsigned 32-bit value read from INTEGER content bytes: rejected
/// when empty, when the sign bit is set, or when, after discounting
/// leading zero bytes, the magnitude does not fit.
pub open spec fn spec_u32_from_content(data: Seq<u8>) -> Result<u32, Error> {
    if data.len() == 0 {
        Err(Error::InvalidValueEncoding)
    } else if data[0] >= 128 {
        Err(Error::InvalidValueEncoding)
    } else {
        let j = spec_skip_zeros(data, 0);
        if data.len() - j > 4 {
            Err(Error::InvalidValueEncoding)
        } else {
            match spec_parse_be(data, j, (data.len() - j) as nat, 0) {
                Ok((m, _)) => Ok(m as u32),
                Err(_) => Err(Error::InvalidValueEncoding),
            }
        }
    }
}

/// The signed 32-bit value read from INTEGER content bytes: leading
/// zero bytes are discounted, at most four bytes of magnitude may
/// remain, and the first remaining byte's top bit gives the sign.
pub open spec fn spec_i32_from_content(data: Seq<u8>) -> Result<i32, Error> {
    if data.len() == 0 {
        Err(Error::InvalidValueEncoding)
    } else {
        let j = spec_skip_zeros(data, 0);
        let rem = data.len() - j;
        if rem > 4 {
            Err(Error::InvalidValueEncoding)
        } else if rem == 0 {
            Ok(0i32)
        } else {
            match spec_parse_be(data, j, rem as nat, 0) {
                Ok((m, _)) => Ok(
                    (if data[j] >= 128 {
                        m - pow256(rem as nat)
                    } else {
                        m as int
                    }) as i32,
                ),
                Err(_) => Err(Error::InvalidValueEncoding),
            }
        }
    }
}

/// The content bytes of a signed 32-bit value: for nonnegative values
/// the unsigned form; for negative values a zero byte followed by the
/// four big-endian bytes of the value's two's-complement image.
pub open spec fn spec_i32_content(v: i32) -> Seq<u8> {
    if v >= 0 {
        spec_u32_content(v as u32)
    } else {
        let m = (v + 0x1_0000_0000) as nat;
        seq![
            0u8,
            ((m / 0x100_0000) % 256) as u8,
            ((m / 0x1_0000) % 256) as u8,
            ((m / 0x100) % 256) as u8,
            (m % 256) as u8,
        ]
    }
}

/// Executable twin of [`spec_skip_zeros`] from position zero.
fn skip_zeros(data: &[u8]) -> (j: usize)
    ensures
        j as int == spec_skip_zeros(data@, 0),
        j <= data@.len(),
{
    let mut i: usize = 0;
    while i < data.len() && data[i] == 0
        invariant
            i <= data@.len(),
            spec_skip_zeros(data@, 0) == spec_skip_zeros(data@, i as int),
        decreases data@.len() - i,
    {
        i = i + 1;
    }
    i
}

/// Executable twin of [`spec_u32_from_content`].
pub fn u32_from_content(data: &[u8]) -> (r: Result<u32, Error>)
    ensures
        r == spec_u32_from_content(data@),
{
    if data.len() == 0 {
        return Err(Error::InvalidValueEncoding);
    }
    if data[0] >= 128 {
        return Err(Error::InvalidValueEncoding);
    }
    let j = skip_zeros(data);
    if data.len() - j > 4 {
        return Err(Error::InvalidValueEncoding);
    }
    match parse_be(data, j, data.len() - j, 0) {
        Ok((m, _)) => {
            proof {
                lemma_parse_be_value_bound(data@, j as int, (data@.len() - j) as nat, 0);
                assert(pow256(4) == 0x1_0000_0000) by {
                    reveal_with_fuel(pow256, 5);
                }
                crate::encoding::lemma_pow256_pos((data@.len() - j) as nat);
                assert(pow256((data@.len() - j) as nat) <= pow256(4)) by {
                    lemma_pow256_le((data@.len() - j) as nat, 4);
                }
            }
            Ok(m as u32)
        }
        Err(_) => Err(Error::InvalidValueEncoding),
    }
}

/// `pow256` is monotone in its exponent.
pub proof fn lemma_pow256_le(a: nat, b: nat)
    requires
        a <= b,
    ensures
        pow256(a) <= pow256(b),
    decreases b,
{
    if a < b {
        lemma_pow256_le(a, (b - 1) as nat);
        crate::encoding::lemma_pow256_pos((b - 1) as nat);
    }
}

/// Executable twin of [`spec_i32_from_content`].
pub fn i32_from_content(data: &[u8]) -> (r: Result<i32, Error>)
    ensures
        r == spec_i32_from_content(data@),
{
    if data.len() == 0 {
        return Err(Error::InvalidValueEncoding);
    }
    let j = skip_zeros(data);
    let rem = data.len() - j;
    if rem > 4 {
        return Err(Error::InvalidValueEncoding);
    }
    if rem == 0 {
        return Ok(0);
    }
    match parse_be(data, j, rem, 0) {
        Ok((m, _)) => {
            proof {
                lemma_parse_be_value_bound(data@, j as int, rem as nat, 0);
                assert(pow256(4) == 0x1_0000_0000) by {
                    reveal_with_fuel(pow256, 5);
                }
                lemma_pow256_le(rem as nat, 4);
                crate::encoding::lemma_pow256_pos(rem as nat);
            }
            proof {
                assert((m as nat) < 1 * pow256(rem as nat));
                assert((m as nat) < pow256(rem as nat));
                assert(pow256(rem as nat) <= 0x1_0000_0000);
            }
            let scale: u64 = if rem == 1 {
                0x100
            } else if rem == 2 {
                0x1_0000
            } else if rem == 3 {
                0x100_0000
            } else {
                0x1_0000_0000
            };
            proof {
                assert(scale as nat == pow256(rem as nat)) by {
                    reveal_with_fuel(pow256, 5);
                }
            }
            if data[j] >= 128 {
                let signed: i64 = m as i64 - scale as i64;
                let out: i32 = #[verifier::truncate] (signed as i32);
                Ok(out)
            } else {
                let out: i32 = #[verifier::truncate] ((m as i64) as i32);
                Ok(out)
            }
        }
        Err(_) => Err(Error::InvalidValueEncoding),
    }
}

impl Integer {
    /// An INTEGER holding a copy of the given content bytes.
    pub fn new(data: &[u8]) -> (r: Integer)
        ensures
            r@ == data@,
    {
        Integer { data: slice_to_vec(data) }
    }

    /// The INTEGER whose value is the given unsigned 32-bit number, in
    /// minimal signed big-endian content form.
    pub fn from_u32(v: u32) -> (r: Integer)
        ensures
            r@ == spec_u32_content(v),
    {
        let mut data: Vec<u8> = Vec::new();
        if v == 0 {
            data.push(0);
        } else {
            let mut be: Vec<u8> = Vec::new();
            write_be_bytes(v as u64, &mut be);
            proof {
                crate::encoding::lemma_be_bytes_first_nonzero(v as nat);
            }
            if be[0] >= 128 {
                data.push(0);
            }
            data.extend_from_slice(be.as_slice());
            proof {
                if spec_be_bytes(v as nat)[0] >= 128 {
                    assert(data@ =~= seq![0u8] + spec_be_bytes(v as nat));
                } else {
                    assert(data@ =~= spec_be_bytes(v as nat));
                }
            }
        }
        Integer { data }
    }

    /// The raw content bytes.
    pub fn as_bytes(&self) -> (r: &[u8])
        ensures
            r@ == self@,
    {
        self.data.as_slice()
    }

    /// The raw content bytes, owned.
    pub fn into_bytes(self) -> (r: Vec<u8>)
        ensures
            r@ == self@,
    {
        self.data
    }

    /// The value as an unsigned 32-bit number.
    pub fn as_u32(&self) -> (r: Result<u32, Error>)
        ensures
            r == spec_u32_from_content(self@),
    {
        u32_from_content(self.data.as_slice())
    }

    /// The value as a signed 32-bit number.
    pub fn as_i32(&self) -> (r: Result<i32, Error>)
        ensures
            r == spec_i32_from_content(self@),
    {
        i32_from_content(self.data.as_slice())
    }
}

impl Tagged for Integer {
    open spec fn spec_tag() -> Tag {
        Tag(TAG_INTEGER)
    }

    fn tag() -> Tag {
        Tag(TAG_INTEGER)
    }
}

impl FromAny for Integer {
    open spec fn spec_from_any(h: Header, data: Seq<u8>) -> Result<Seq<u8>, Error> {
        spec_integer_from_any(h, data)
    }

    fn from_any(any: &Any<'_>) -> Result<Self, Error> {
        match any.assert_tag(Tag(TAG_INTEGER)) {
            Err(e) => return Err(e),
            Ok(_) => {}
        }
        if any.header.constructed {
            return Err(Error::ConstructedExpected);
        }
        if any.data.len() == 0 {
            return Err(Error::InvalidValueEncoding);
        }
        Ok(Integer { data: slice_to_vec(any.data) })
    }
}

impl FromBer for Integer {
    open spec fn spec_from_ber(s: Seq<u8>, pos: int) -> Result<(Seq<u8>, int), Error> {
        match spec_parse_any_ber(s, pos) {
            Err(e) => Err(e),
            Ok(((h, data), p)) => match spec_integer_from_any(h, data) {
                Err(e) => Err(e),
                Ok(v) => Ok((v, p)),
            },
        }
    }

    fn from_ber(input: &[u8], pos: usize) -> Result<(Self, usize), Error> {
        match Any::from_ber(input, pos) {
            Err(e) => Err(e),
            Ok((any, p)) => match Self::from_any(&any) {
                Err(e) => Err(e),
                Ok(v) => Ok((v, p)),
            },
        }
    }
}

impl FromDer for Integer {
    open spec fn spec_from_der(s: Seq<u8>, pos: int) -> Result<(Seq<u8>, int), Error> {
        match spec_parse_any_der(s, pos) {
            Err(e) => Err(e),
            Ok(((h, data), p)) => match spec_integer_from_any(h, data) {
                Err(e) => Err(e),
                Ok(v) => Ok((v, p)),
            },
        }
    }

    fn from_der(input: &[u8], pos: usize) -> Result<(Self, usize), Error> {
        match Any::from_der(input, pos) {
            Err(e) => Err(e),
            Ok((any, p)) => match Self::from_any(&any) {
                Err(e) => Err(e),
                Ok(v) => Ok((v, p)),
            },
        }
    }
}

impl CheckDerConstraints for Integer {
    open spec fn spec_check_der(h: Header, data: Seq<u8>) -> Result<(), Error> {
        match spec_integer_from_any(h, data) {
            Err(e) => Err(e),
            Ok(_) => Ok(()),
        }
    }

    fn check_constraints(any: &Any<'_>) -> Result<(), Error> {
        match Self::from_any(any) {
            Err(e) => Err(e),
            Ok(_) => Ok(()),
        }
    }
}

impl ToDer for Integer {
    open spec fn spec_der_content(v: Seq<u8>) -> Seq<u8> {
        v
    }

    open spec fn spec_der_header(v: Seq<u8>) -> Seq<u8> {
        spec_header_bytes(spec_primitive_header(TAG_INTEGER, v))
    }

    fn to_der_len(&self) -> Result<usize, Error> {
        let h = Header::new(
            Class::Universal,
            false,
            Tag(TAG_INTEGER),
            Length::Definite(self.data.len()),
        );
        match h.der_len().checked_add(self.data.len()) {
            Some(n) => Ok(n),
            None => Err(Error::InvalidLength),
        }
    }

    fn write_der_header(&self, out: &mut Vec<u8>) -> Result<usize, Error> {
        let h = Header::new(
            Class::Universal,
            false,
            Tag(TAG_INTEGER),
            Length::Definite(self.data.len()),
        );
        let n = h.der_len();
        h.write_der(out);
        Ok(n)
    }

    fn write_der_content(&self, out: &mut Vec<u8>) -> Result<usize, Error> {
        out.extend_from_slice(self.data.as_slice());
        proof {
            assert(out@ =~= old(out)@ + self.data@);
        }
        Ok(self.data.len())
    }

    fn to_der_vec(&self) -> Result<Vec<u8>, Error> {
        let mut v: Vec<u8> = Vec::new();
        match self.write_der_header(&mut v) {
            Err(e) => return Err(e),
            Ok(_) => {}
        }
        match self.write_der_content(&mut v) {
            Err(e) => return Err(e),
            Ok(_) => {}
        }
        Ok(v)
    }
}

impl Tagged for u32 {
    open spec fn spec_tag() -> Tag {
        Tag(TAG_INTEGER)
    }

    fn tag() -> Tag {
        Tag(TAG_INTEGER)
    }
}

impl FromAny for u32 {
    open spec fn spec_from_any(h: Header, data: Seq<u8>) -> Result<u32, Error> {
        match spec_integer_from_any(h, data) {
            Err(e) => Err(e),
            Ok(v) => spec_u32_from_content(v),
        }
    }

    fn from_any(any: &Any<'_>) -> Result<Self, Error> {
        match Integer::from_any(any) {
            Err(e) => Err(e),
            Ok(v) => v.as_u32(),
        }
    }
}

impl FromBer for u32 {
    open spec fn spec_from_ber(s: Seq<u8>, pos: int) -> Result<(u32, int), Error> {
        match spec_parse_any_ber(s, pos) {
            Err(e) => Err(e),
            Ok(((h, data), p)) => match <u32 as FromAny>::spec_from_any(h, data) {
                Err(e) => Err(e),
                Ok(v) => Ok((v, p)),
            },
        }
    }

    fn from_ber(input: &[u8], pos: usize) -> Result<(Self, usize), Error> {
        match Any::from_ber(input, pos) {
            Err(e) => Err(e),
            Ok((any, p)) => match <u32 as FromAny>::from_any(&any) {
                Err(e) => Err(e),
                Ok(v) => Ok((v, p)),
            },
        }
    }
}

impl FromDer for u32 {
    open spec fn spec_from_der(s: Seq<u8>, pos: int) -> Result<(u32, int), Error> {
        match spec_parse_any_der(s, pos) {
            Err(e) => Err(e),
            Ok(((h, data), p)) => match <u32 as FromAny>::spec_from_any(h, data) {
                Err(e) => Err(e),
                Ok(v) => Ok((v, p)),
            },
        }
    }

    fn from_der(input: &[u8], pos: usize) -> Result<(Self, usize), Error> {
        match Any::from_der(input, pos) {
            Err(e) => Err(e),
            Ok((any, p)) => match <u32 as FromAny>::from_any(&any) {
                Err(e) => Err(e),
                Ok(v) => Ok((v, p)),
            },
        }
    }
}

impl ToDer for u32 {
    open spec fn spec_der_content(v: u32) -> Seq<u8> {
        spec_u32_content(v)
    }

    open spec fn spec_der_header(v: u32) -> Seq<u8> {
        spec_header_bytes(spec_primitive_header(TAG_INTEGER, spec_u32_content(v)))
    }

    fn to_der_len(&self) -> Result<usize, Error> {
        let i = Integer::from_u32(*self);
        i.to_der_len()
    }

    fn write_der_header(&self, out: &mut Vec<u8>) -> Result<usize, Error> {
        let i = Integer::from_u32(*self);
        i.write_der_header(out)
    }

    fn write_der_content(&self, out: &mut Vec<u8>) -> Result<usize, Error> {
        let i = Integer::from_u32(*self);
        i.write_der_content(out)
    }

    fn to_der_vec(&self) -> Result<Vec<u8>, Error> {
        let i = Integer::from_u32(*self);
        i.to_der_vec()
    }
}

/// The INTEGER content bytes of a signed 32-bit value, as
/// [`spec_i32_content`] describes them.
pub fn i32_content(v: i32) -> (r: Vec<u8>)
    ensures
        r@ == spec_i32_content(v),
{
    let mut data: Vec<u8> = Vec::new();
    if v >= 0 {
        let i = Integer::from_u32(v as u32);
        data = i.into_bytes();
    } else {
        let m: u64 = (v as i64 + 0x1_0000_0000) as u64;
        data.push(0);
        data.push(((m / 0x100_0000) % 256) as u8);
        data.push(((m / 0x1_0000) % 256) as u8);
        data.push(((m / 0x100) % 256) as u8);
        data.push((m % 256) as u8);
        proof {
            assert(data@ =~= spec_i32_content(v));
        }
    }
    data
}

impl Tagged for i32 {
    open spec fn spec_tag() -> Tag {
        Tag(TAG_INTEGER)
    }

    fn tag() -> Tag {
        Tag(TAG_INTEGER)
    }
}

impl FromAny for i32 {
    open spec fn spec_from_any(h: Header, data: Seq<u8>) -> Result<i32, Error> {
        match spec_integer_from_any(h, data) {
            Err(e) => Err(e),
            Ok(v) => spec_i32_from_content(v),
        }
    }

    fn from_any(any: &Any<'_>) -> Result<Self, Error> {
        match Integer::from_any(any) {
            Err(e) => Err(e),
            Ok(v) => v.as_i32(),
        }
    }
}

impl FromDer for i32 {
    open spec fn spec_from_der(s: Seq<u8>, pos: int) -> Result<(i32, int), Error> {
        match spec_parse_any_der(s, pos) {
            Err(e) => Err(e),
            Ok(((h, data), p)) => match <i32 as FromAny>::spec_from_any(h, data) {
                Err(e) => Err(e),
                Ok(v) => Ok((v, p)),
            },
        }
    }

    fn from_der(input: &[u8], pos: usize) -> Result<(Self, usize), Error> {
        match Any::from_der(input, pos) {
            Err(e) => Err(e),
            Ok((any, p)) => match <i32 as FromAny>::from_any(&any) {
                Err(e) => Err(e),
                Ok(v) => Ok((v, p)),
            },
        }
    }
}

impl ToDer for i32 {
    open spec fn spec_der_content(v: i32) -> Seq<u8> {
        spec_i32_content(v)
    }

    open spec fn spec_der_header(v: i32) -> Seq<u8> {
        spec_header_bytes(spec_primitive_header(TAG_INTEGER, spec_i32_content(v)))
    }

    fn to_der_len(&self) -> Result<usize, Error> {
        let data = i32_content(*self);
        let i = Integer::new(data.as_slice());
        i.to_der_len()
    }

    fn write_der_header(&self, out: &mut Vec<u8>) -> Result<usize, Error> {
        let data = i32_content(*self);
        let i = Integer::new(data.as_slice());
        i.write_der_header(out)
    }

    fn write_der_content(&self, out: &mut Vec<u8>) -> Result<usize, Error> {
        let data = i32_content(*self);
        let i = Integer::new(data.as_slice());
        i.write_der_content(out)
    }

    fn to_der_vec(&self) -> Result<Vec<u8>, Error> {
        let data = i32_content(*self);
        let i = Integer::new(data.as_slice());
        i.to_der_vec()
    }
}

/// Round trip for the numeric conversion: the content bytes written
/// for an unsigned 32-bit value always read back as that value.
pub proof fn lemma_u32_content_round_trip(v: u32)
    ensures
        spec_u32_from_content(spec_u32_content(v)) == Ok::<u32, Error>(v),
{
    let data = spec_u32_content(v);
    if v == 0 {
        assert(data =~= seq![0u8]);
        assert(spec_skip_zeros(data, 1) == 1);
        assert(spec_skip_zeros(data, 0) == 1);
        assert(spec_parse_be(data, 1, 0, 0) == Ok::<(usize, int), Error>((0, 1)));
    } else {
        let be = spec_be_bytes(v as nat);
        let k = be.len();
        crate::encoding::lemma_be_bytes_first_nonzero(v as nat);
        assert(pow256(4) == 0x1_0000_0000) by {
            reveal_with_fuel(pow256, 5);
        }
        crate::encoding::lemma_be_bytes_len_le(v as nat, 4);
        assert(0 * pow256(k) + v as nat == v as nat);
        if be[0] >= 128 {
            assert(data == seq![0u8] + be);
            assert(data[0] == 0);
            assert(data[1] == be[0]);
            assert(spec_skip_zeros(data, 1) == 1);
            assert(spec_skip_zeros(data, 0) == 1);
            assert(data.subrange(1, 1 + k as int) =~= be);
            lemma_parse_be_digits(data, 1, v as nat, 0);
        } else {
            assert(data == be);
            assert(data[0] != 0);
            assert(spec_skip_zeros(data, 0) == 0);
            assert(data.subrange(0, k as int) =~= be);
            lemma_parse_be_digits(data, 0, v as nat, 0);
        }
    }
}

/// Round trip for the signed conversion: the content bytes written
/// for a signed 32-bit value read back as that value, for every
/// negative value and for every nonnegative value whose magnitude
/// bytes leave the top bit clear.  A nonnegative value whose leading
/// magnitude byte sets the top bit is excluded: its content carries a
/// zero prefix byte, which the reader discounts before taking the top
/// bit of the next byte as the sign.
pub proof fn lemma_i32_content_round_trip(v: i32)
    requires
        v <= 0 || spec_be_bytes(v as nat)[0] < 128,
    ensures
        spec_i32_from_content(spec_i32_content(v)) == Ok::<i32, Error>(v),
{
    let data = spec_i32_content(v);
    if v == 0 {
        assert(data =~= seq![0u8]);
        assert(spec_skip_zeros(data, 1) == 1);
        assert(spec_skip_zeros(data, 0) == 1);
    } else if v > 0 {
        let u = v as u32;
        let be = spec_be_bytes(u as nat);
        crate::encoding::lemma_be_bytes_first_nonzero(u as nat);
        assert(data == be);
        assert(spec_skip_zeros(data, 0) == 0);
        let rem = data.len();
        assert(pow256(4) == 0x1_0000_0000) by {
            reveal_with_fuel(pow256, 5);
        }
        crate::encoding::lemma_be_bytes_len_le(u as nat, 4);
        assert(1 <= rem <= 4);
        assert(data.subrange(0, rem as int) =~= be);
        assert(0 * pow256(rem as nat) + u as nat == u as nat);
        lemma_parse_be_digits(data, 0, u as nat, 0);
        assert(data[0] < 128);
    } else {
        let m = (v + 0x1_0000_0000) as nat;
        let b3 = ((m / 0x100_0000) % 256) as u8;
        assert(m >= 0x8000_0000);
        assert(m / 0x100_0000 >= 128 && m / 0x100_0000 < 256) by (nonlinear_arith)
            requires 0x8000_0000 <= m < 0x1_0000_0000;
        assert(b3 >= 128);
        assert(data[0] == 0 && data[1] == b3);
        assert(spec_skip_zeros(data, 1) == 1);
        assert(spec_skip_zeros(data, 0) == 1);
        // the four explicit bytes are the minimal big-endian bytes of m
        assert((m / 256) / 256 == m / 0x1_0000) by (nonlinear_arith);
        assert((m / 0x1_0000) / 256 == m / 0x100_0000) by (nonlinear_arith);
        assert((m / 0x100_0000) / 256 == 0) by (nonlinear_arith)
            requires m < 0x1_0000_0000;
        assert((m / 0x100_0000) % 256 == m / 0x100_0000);
        assert(spec_be_bytes((m / 0x100_0000) / 256) =~= Seq::<u8>::empty());
        assert(spec_be_bytes(m / 0x100_0000) =~= seq![b3]);
        assert(spec_be_bytes(m / 0x1_0000) =~= seq![b3, ((m / 0x1_0000) % 256) as u8]);
        assert(spec_be_bytes(m / 256)
            =~= seq![b3, ((m / 0x1_0000) % 256) as u8, ((m / 256) % 256) as u8]);
        assert((m / 256) % 256 == (m / 0x100) % 256);
        assert(spec_be_bytes(m) =~= seq![
            b3,
            ((m / 0x1_0000) % 256) as u8,
            ((m / 0x100) % 256) as u8,
            (m % 256) as u8,
        ]);
        assert(data.subrange(1, 5) =~= spec_be_bytes(m));
        assert(spec_be_bytes(m).len() == 4);
        assert(0 * pow256(4) + m == m) by {
            reveal_with_fuel(pow256, 5);
        }
        assert(m <= usize::MAX);
        lemma_parse_be_digits(data, 1, m, 0);
        assert(pow256(4) == 0x1_0000_0000) by {
            reveal_with_fuel(pow256, 5);
        }
        assert(m - pow256(4) == v);
    }
}

/// Size of the unsigned content encoding: one to five bytes, so its
/// header is always two bytes.
pub proof fn lemma_u32_content_len(v: u32)
    ensures
        1 <= spec_u32_content(v).len() <= 5,
        <u32 as ToDer>::spec_der_header(v).len() == 2,
{
    if v != 0 {
        assert(pow256(4) == 0x1_0000_0000) by {
            reveal_with_fuel(pow256, 5);
        }
        crate::encoding::lemma_be_bytes_len_le(v as nat, 4);
        crate::encoding::lemma_be_bytes_first_nonzero(v as nat);
    }
}

/// Round trip for the unsigned leaf: the full serialization of an
/// unsigned 32-bit value, followed by anything, canonically parses
/// back to the same value.
pub proof fn lemma_u32_round_trip(s: Seq<u8>, pos: int, v: u32)
    requires
        0 <= pos,
        pos + <u32 as ToDer>::spec_der_header(v).len()
            + <u32 as ToDer>::spec_der_content(v).len() <= s.len(),
        s.subrange(
            pos,
            pos + <u32 as ToDer>::spec_der_header(v).len()
                + <u32 as ToDer>::spec_der_content(v).len(),
        ) =~= <u32 as ToDer>::spec_der_header(v) + <u32 as ToDer>::spec_der_content(v),
    ensures
        <u32 as FromDer>::spec_from_der(s, pos) == Ok::<(u32, int), Error>((
            v,
            pos + <u32 as ToDer>::spec_der_header(v).len()
                + <u32 as ToDer>::spec_der_content(v).len(),
        )),
{
    let c = spec_u32_content(v);
    let h = spec_primitive_header(TAG_INTEGER, c);
    if v != 0 {
        crate::encoding::lemma_be_bytes_first_nonzero(v as nat);
        assert(pow256(4) == 0x1_0000_0000) by {
            reveal_with_fuel(pow256, 5);
        }
        crate::encoding::lemma_be_bytes_len_le(v as nat, 4);
    }
    assert(1 <= c.len() <= 5);
    assert(<u32 as ToDer>::spec_der_header(v) + <u32 as ToDer>::spec_der_content(v)
        =~= crate::any::spec_any_to_der(h, c));
    crate::any::lemma_parse_any_round_trip(s, pos, h, c);
    lemma_u32_content_round_trip(v);
}

/// The unsigned leaf meets the element-level round-trip obligation,
/// so the container round-trip law applies to runs of unsigned values.
pub proof fn lemma_u32_elem_round_trips()
    ensures
        forall|m: u32| #[trigger] crate::container::spec_elem_round_trips::<u32>(m),
{
    assert forall|m: u32| #[trigger] crate::container::spec_elem_round_trips::<u32>(m) by {
        lemma_u32_content_len(m);
        let e = crate::traits::spec_to_der_of::<u32>(m);
        assert forall|s: Seq<u8>, pos: int|
            0 <= pos && pos + e.len() <= s.len() && s.subrange(pos, pos + e.len()) == e
                implies #[trigger] <u32 as FromDer>::spec_from_der(s, pos)
                == Ok::<(u32, int), Error>((m, pos + e.len())) by {
            lemma_u32_round_trip(s, pos, m);
        }
    }
}

/// Round trip: the serialization of an INTEGER's content bytes,
/// followed by anything, parses back to the same bytes under both
/// profiles.
pub proof fn lemma_integer_round_trip(s: Seq<u8>, pos: int, v: Seq<u8>)
    requires
        0 <= pos,
        1 <= v.len() <= usize::MAX,
        pos + Integer::spec_der_header(v).len() + Integer::spec_der_content(v).len() <= s.len(),
        s.subrange(
            pos,
            pos + Integer::spec_der_header(v).len() + Integer::spec_der_content(v).len(),
        ) =~= Integer::spec_der_header(v) + Integer::spec_der_content(v),
    ensures
        Integer::spec_from_der(s, pos) == Ok::<(Seq<u8>, int), Error>((
            v,
            pos + Integer::spec_der_header(v).len() + Integer::spec_der_content(v).len(),
        )),
        Integer::spec_from_ber(s, pos) == Ok::<(Seq<u8>, int), Error>((
            v,
            pos + Integer::spec_der_header(v).len() + Integer::spec_der_content(v).len(),
        )),
{
    let h = spec_primitive_header(TAG_INTEGER, v);
    assert(Integer::spec_der_header(v) + Integer::spec_der_content(v)
        =~= crate::any::spec_any_to_der(h, v));
    crate::any::lemma_parse_any_round_trip(s, pos, h, v);
}

} // verus!
