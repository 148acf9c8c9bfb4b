//! The BIT STRING leaf: a count of unused trailing bits followed by
//! the packed bit data.

use vstd::prelude::*;
use vstd::slice::slice_to_vec;

use crate::any::{spec_parse_any_ber, spec_parse_any_der, Any};
use crate::error::Error;
use crate::header::{spec_header_bytes, Header};
use crate::length::Length;
use crate::octetstring::spec_primitive_header;
use crate::tag::{Class, Tag, TAG_BIT_STRING};
use crate::traits::{CheckDerConstraints, FromAny, FromBer, FromDer, Tagged, ToDer};

verus! {

/// A BIT STRING value: how many bits of the last byte are unused, and
/// the packed bit data.
#[derive(Clone, Debug, PartialEq, Eq)]
pub struct BitString {
    pub unused_bits: u8,
    data: Vec<u8>,
}

impl View for BitString {
    type V = (u8, Seq<u8>);

    closed spec fn view(&self) -> (u8, Seq<u8>) {
        (self.unused_bits, self.data@)
    }
}

/// What decoding a BIT STRING from a unit yields: the first content
/// byte counts the unused trailing bits, at most seven, and the rest
/// is the bit data.
pub open spec fn spec_bit_string_from_any(h: Header, data: Seq<u8>) -> Result<(u8, Seq<u8>), Error> {
    if h.tag != Tag(TAG_BIT_STRING) {
        Err(Error::UnexpectedTag)
    } else if h.constructed {
        Err(Error::ConstructedExpected)
    } else if data.len() == 0 {
        Err(Error::InvalidValueEncoding)
    } else if data[0] > 7 {
        Err(Error::InvalidValueEncoding)
    } else {
        Ok((data[0], data.skip(1)))
    }
}

/// The content bytes of a BIT STRING: the unused-bit count then the
/// bit data.
pub open spec fn spec_bit_string_content(v: (u8, Seq<u8>)) -> Seq<u8> {
    seq![v.0] + v.1
}

impl BitString {
    /// A BIT STRING from an unused-bit count and packed data.
    pub fn new(unused_bits: u8, data: &[u8]) -> (r: BitString)
        ensures
            r@ == (unused_bits, data@),
    {
        BitString { unused_bits, data: slice_to_vec(data) }
    }

    /// The packed bit data.
    pub fn as_bytes(&self) -> (r: &[u8])
        ensures
            r@ == self@.1,
    {
        self.data.as_slice()
    }
}

impl Tagged for BitString {
    open spec fn spec_tag() -> Tag {
        Tag(TAG_BIT_STRING)
    }

    fn tag() -> Tag {
        Tag(TAG_BIT_STRING)
    }
}

impl FromAny for BitString {
    open spec fn spec_from_any(h: Header, data: Seq<u8>) -> Result<(u8, Seq<u8>), Error> {
        spec_bit_string_from_any(h, data)
    }

    fn from_any(any: &Any<'_>) -> Result<Self, Error> {
        match any.assert_tag(Tag(TAG_BIT_STRING)) {
            Err(e) => return Err(e),
            Ok(_) => {}
        }
        if any.header.constructed {
            return Err(Error::ConstructedExpected);
        }
        if any.data.len() == 0 {
            return Err(Error::InvalidValueEncoding);
        }
        let unused = any.data[0];
        if unused > 7 {
            return Err(Error::InvalidValueEncoding);
        }
        let rest = vstd::slice::slice_subrange(any.data, 1, any.data.len());
        Ok(BitString { unused_bits: unused, data: slice_to_vec(rest) })
    }
}

impl FromBer for BitString {
    open spec fn spec_from_ber(s: Seq<u8>, pos: int) -> Result<((u8, Seq<u8>), int), Error> {
        match spec_parse_any_ber(s, pos) {
            Err(e) => Err(e),
            Ok(((h, data), p)) => match spec_bit_string_from_any(h, data) {
                Err(e) => Err(e),
                Ok(v) => Ok((v, p)),
            },
        }
    }

    fn from_ber(input: &[u8], pos: usize) -> Result<(Self, usize), Error> {
        match Any::from_ber(input, pos) {
            Err(e) => Err(e),
            Ok((any, p)) => match Self::from_any(&any) {
                Err(e) => Err(e),
                Ok(v) => Ok((v, p)),
            },
        }
    }
}

impl FromDer for BitString {
    open spec fn spec_from_der(s: Seq<u8>, pos: int) -> Result<((u8, Seq<u8>), int), Error> {
        match spec_parse_any_der(s, pos) {
            Err(e) => Err(e),
            Ok(((h, data), p)) => match spec_bit_string_from_any(h, data) {
                Err(e) => Err(e),
                Ok(v) => Ok((v, p)),
            },
        }
    }

    fn from_der(input: &[u8], pos: usize) -> Result<(Self, usize), Error> {
        match Any::from_der(input, pos) {
            Err(e) => Err(e),
            Ok((any, p)) => match Self::from_any(&any) {
                Err(e) => Err(e),
                Ok(v) => Ok((v, p)),
            },
        }
    }
}

impl CheckDerConstraints for BitString {
    open spec fn spec_check_der(h: Header, data: Seq<u8>) -> Result<(), Error> {
        match spec_bit_string_from_any(h, data) {
            Err(e) => Err(e),
            Ok(_) => Ok(()),
        }
    }

    fn check_constraints(any: &Any<'_>) -> Result<(), Error> {
        match Self::from_any(any) {
            Err(e) => Err(e),
            Ok(_) => Ok(()),
        }
    }
}

impl ToDer for BitString {
    open spec fn spec_der_content(v: (u8, Seq<u8>)) -> Seq<u8> {
        spec_bit_string_content(v)
    }

    open spec fn spec_der_header(v: (u8, Seq<u8>)) -> Seq<u8> {
        spec_header_bytes(spec_primitive_header(TAG_BIT_STRING, spec_bit_string_content(v)))
    }

    fn to_der_len(&self) -> Result<usize, Error> {
        let c = match self.data.len().checked_add(1) {
            Some(n) => n,
            None => return Err(Error::InvalidLength),
        };
        let h = Header::new(Class::Universal, false, Tag(TAG_BIT_STRING), Length::Definite(c));
        match h.der_len().checked_add(c) {
            Some(n) => Ok(n),
            None => Err(Error::InvalidLength),
        }
    }

    fn write_der_header(&self, out: &mut Vec<u8>) -> Result<usize, Error> {
        let c = match self.data.len().checked_add(1) {
            Some(n) => n,
            None => return Err(Error::InvalidLength),
        };
        let h = Header::new(Class::Universal, false, Tag(TAG_BIT_STRING), Length::Definite(c));
        let n = h.der_len();
        h.write_der(out);
        Ok(n)
    }

    fn write_der_content(&self, out: &mut Vec<u8>) -> Result<usize, Error> {
        if self.data.len() == usize::MAX {
            return Err(Error::InvalidLength);
        }
        out.push(self.unused_bits);
        out.extend_from_slice(self.data.as_slice());
        proof {
            assert(out@ =~= old(out)@ + spec_bit_string_content(self@));
        }
        Ok(1 + self.data.len())
    }

    fn to_der_vec(&self) -> Result<Vec<u8>, Error> {
        let mut v: Vec<u8> = Vec::new();
        match self.write_der_header(&mut v) {
            Err(e) => return Err(e),
            Ok(_) => {}
        }
        match self.write_der_content(&mut v) {
            Err(e) => return Err(e),
            Ok(_) => {}
        }
        Ok(v)
    }
}

/// Round trip: a BIT STRING with at most seven unused bits serialized
/// and canonically parsed again yields the same value.
pub proof fn lemma_bit_string_round_trip(s: Seq<u8>, pos: int, v: (u8, Seq<u8>))
    requires
        0 <= pos,
        v.0 <= 7,
        v.1.len() + 1 <= usize::MAX,
        pos + BitString::spec_der_header(v).len() + BitString::spec_der_content(v).len()
            <= s.len(),
        s.subrange(
            pos,
            pos + BitString::spec_der_header(v).len() + BitString::spec_der_content(v).len(),
        ) =~= BitString::spec_der_header(v) + BitString::spec_der_content(v),
    ensures
        BitString::spec_from_der(s, pos) == Ok::<((u8, Seq<u8>), int), Error>((
            v,
            pos + BitString::spec_der_header(v).len() + BitString::spec_der_content(v).len(),
        )),
{
    let c = spec_bit_string_content(v);
    let h = spec_primitive_header(TAG_BIT_STRING, c);
    assert(BitString::spec_der_header(v) + BitString::spec_der_content(v)
        =~= crate::any::spec_any_to_der(h, c));
    crate::any::lemma_parse_any_round_trip(s, pos, h, c);
    assert(c[0] == v.0);
    assert(c.skip(1) =~= v.1);
}

} // verus!
