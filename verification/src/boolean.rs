//! The BOOLEAN leaf: one content byte, zero for false, anything else
//! for true; the canonical profile admits only `0x00` and `0xFF`.

use vstd::prelude::*;

use crate::any::{spec_parse_any_ber, spec_parse_any_der, Any};
use crate::error::Error;
use crate::header::{spec_header_bytes, Header};
use crate::length::Length;
use crate::octetstring::spec_primitive_header;
use crate::tag::{Class, Tag, TAG_BOOLEAN};
use crate::traits::{CheckDerConstraints, FromAny, FromBer, FromDer, Tagged, ToDer};

verus! {

/// A BOOLEAN value, keeping the raw content byte it was built from.
#[derive(Clone, Copy, Debug, PartialEq, Eq, Structural)]
pub struct Boolean {
    pub value: u8,
}

impl View for Boolean {
    type V = u8;

    open spec fn view(&self) -> u8 {
        self.value
    }
}

/// What decoding a BOOLEAN from a unit yields: the single content byte
/// of a primitive unit with the BOOLEAN tag.
pub open spec fn spec_boolean_from_any(h: Header, data: Seq<u8>) -> Result<u8, Error> {
    if h.tag != Tag(TAG_BOOLEAN) {
        Err(Error::UnexpectedTag)
    } else if h.constructed {
        Err(Error::ConstructedExpected)
    } else if data.len() != 1 {
        Err(Error::InvalidValueEncoding)
    } else {
        Ok(data[0])
    }
}

/// The canonical content byte: `0xFF` for true, `0x00` for false.
pub open spec fn spec_boolean_content(v: u8) -> Seq<u8> {
    seq![if v != 0 { 255u8 } else { 0u8 }]
}

impl Boolean {
    /// A BOOLEAN from its raw content byte.
    pub fn new(value: u8) -> (r: Boolean)
        ensures
            r.value == value,
    {
        Boolean { value }
    }

    /// The truth value: any nonzero byte is true.
    pub fn bool(&self) -> (r: bool)
        ensures
            r == (self.value != 0),
    {
        self.value != 0
    }

    /// The value serialized with its raw content byte kept as stored,
    /// not normalized to the canonical `0x00` / `0xFF`.
    pub fn to_der_vec_raw(&self) -> (r: Vec<u8>)
        ensures
            r@ == spec_header_bytes(spec_primitive_header(TAG_BOOLEAN, seq![self.value]))
                + seq![self.value],
    {
        let h = Header::new(Class::Universal, false, Tag(TAG_BOOLEAN), Length::Definite(1));
        let mut v: Vec<u8> = Vec::new();
        h.write_der(&mut v);
        v.push(self.value);
        proof {
            assert(v@ =~= spec_header_bytes(spec_primitive_header(TAG_BOOLEAN, seq![self.value]))
                + seq![self.value]);
        }
        v
    }
}

impl Tagged for Boolean {
    open spec fn spec_tag() -> Tag {
        Tag(TAG_BOOLEAN)
    }

    fn tag() -> Tag {
        Tag(TAG_BOOLEAN)
    }
}

impl FromAny for Boolean {
    open spec fn spec_from_any(h: Header, data: Seq<u8>) -> Result<u8, Error> {
        spec_boolean_from_any(h, data)
    }

    fn from_any(any: &Any<'_>) -> Result<Self, Error> {
        match any.assert_tag(Tag(TAG_BOOLEAN)) {
            Err(e) => return Err(e),
            Ok(_) => {}
        }
        if any.header.constructed {
            return Err(Error::ConstructedExpected);
        }
        if any.data.len() != 1 {
            return Err(Error::InvalidValueEncoding);
        }
        Ok(Boolean { value: any.data[0] })
    }
}

impl FromBer for Boolean {
    open spec fn spec_from_ber(s: Seq<u8>, pos: int) -> Result<(u8, int), Error> {
        match spec_parse_any_ber(s, pos) {
            Err(e) => Err(e),
            Ok(((h, data), p)) => match spec_boolean_from_any(h, data) {
                Err(e) => Err(e),
                Ok(v) => Ok((v, p)),
            },
        }
    }

    fn from_ber(input: &[u8], pos: usize) -> Result<(Self, usize), Error> {
        match Any::from_ber(input, pos) {
            Err(e) => Err(e),
            Ok((any, p)) => match Self::from_any(&any) {
                Err(e) => Err(e),
                Ok(v) => Ok((v, p)),
            },
        }
    }
}

impl FromDer for Boolean {
    open spec fn spec_from_der(s: Seq<u8>, pos: int) -> Result<(u8, int), Error> {
        match spec_parse_any_der(s, pos) {
            Err(e) => Err(e),
            Ok(((h, data), p)) => match spec_boolean_from_any(h, data) {
                Err(e) => Err(e),
                Ok(v) => if v == 0 || v == 255 {
                    Ok((v, p))
                } else {
                    Err(Error::NotCanonical)
                },
            },
        }
    }

    fn from_der(input: &[u8], pos: usize) -> Result<(Self, usize), Error> {
        match Any::from_der(input, pos) {
            Err(e) => Err(e),
            Ok((any, p)) => match Self::from_any(&any) {
                Err(e) => Err(e),
                Ok(v) => if v.value == 0 || v.value == 255 {
                    Ok((v, p))
                } else {
                    Err(Error::NotCanonical)
                },
            },
        }
    }
}

impl CheckDerConstraints for Boolean {
    open spec fn spec_check_der(h: Header, data: Seq<u8>) -> Result<(), Error> {
        match spec_boolean_from_any(h, data) {
            Err(e) => Err(e),
            Ok(v) => if v == 0 || v == 255 {
                Ok(())
            } else {
                Err(Error::NotCanonical)
            },
        }
    }

    fn check_constraints(any: &Any<'_>) -> Result<(), Error> {
        match Self::from_any(any) {
            Err(e) => Err(e),
            Ok(v) => if v.value == 0 || v.value == 255 {
                Ok(())
            } else {
                Err(Error::NotCanonical)
            },
        }
    }
}

impl ToDer for Boolean {
    open spec fn spec_der_content(v: u8) -> Seq<u8> {
        spec_boolean_content(v)
    }

    open spec fn spec_der_header(v: u8) -> Seq<u8> {
        spec_header_bytes(spec_primitive_header(TAG_BOOLEAN, spec_boolean_content(v)))
    }

    fn to_der_len(&self) -> Result<usize, Error> {
        Ok(3)
    }

    fn write_der_header(&self, out: &mut Vec<u8>) -> Result<usize, Error> {
        let h = Header::new(Class::Universal, false, Tag(TAG_BOOLEAN), Length::Definite(1));
        h.write_der(out);
        Ok(2)
    }

    fn write_der_content(&self, out: &mut Vec<u8>) -> Result<usize, Error> {
        out.push(if self.value != 0 { 255 } else { 0 });
        proof {
            assert(out@ =~= old(out)@ + spec_boolean_content(self.value));
        }
        Ok(1)
    }

    fn to_der_vec(&self) -> Result<Vec<u8>, Error> {
        let mut v: Vec<u8> = Vec::new();
        match self.write_der_header(&mut v) {
            Err(e) => return Err(e),
            Ok(_) => {}
        }
        match self.write_der_content(&mut v) {
            Err(e) => return Err(e),
            Ok(_) => {}
        }
        Ok(v)
    }
}

impl Tagged for bool {
    open spec fn spec_tag() -> Tag {
        Tag(TAG_BOOLEAN)
    }

    fn tag() -> Tag {
        Tag(TAG_BOOLEAN)
    }
}

impl FromAny for bool {
    open spec fn spec_from_any(h: Header, data: Seq<u8>) -> Result<bool, Error> {
        match spec_boolean_from_any(h, data) {
            Err(e) => Err(e),
            Ok(v) => Ok(v != 0),
        }
    }

    fn from_any(any: &Any<'_>) -> Result<Self, Error> {
        match Boolean::from_any(any) {
            Err(e) => Err(e),
            Ok(v) => Ok(v.value != 0),
        }
    }
}

impl FromDer for bool {
    open spec fn spec_from_der(s: Seq<u8>, pos: int) -> Result<(bool, int), Error> {
        match Boolean::spec_from_der(s, pos) {
            Err(e) => Err(e),
            Ok((v, p)) => Ok((v != 0, p)),
        }
    }

    fn from_der(input: &[u8], pos: usize) -> Result<(Self, usize), Error> {
        match Boolean::from_der(input, pos) {
            Err(e) => Err(e),
            Ok((v, p)) => Ok((v.value != 0, p)),
        }
    }
}

impl ToDer for bool {
    open spec fn spec_der_content(v: bool) -> Seq<u8> {
        seq![if v { 255u8 } else { 0u8 }]
    }

    open spec fn spec_der_header(v: bool) -> Seq<u8> {
        spec_header_bytes(spec_primitive_header(TAG_BOOLEAN, seq![if v { 255u8 } else { 0u8 }]))
    }

    fn to_der_len(&self) -> Result<usize, Error> {
        Ok(3)
    }

    fn write_der_header(&self, out: &mut Vec<u8>) -> Result<usize, Error> {
        let h = Header::new(Class::Universal, false, Tag(TAG_BOOLEAN), Length::Definite(1));
        h.write_der(out);
        Ok(2)
    }

    fn write_der_content(&self, out: &mut Vec<u8>) -> Result<usize, Error> {
        out.push(if *self { 255 } else { 0 });
        proof {
            assert(out@ =~= old(out)@ + <bool as ToDer>::spec_der_content(*self));
        }
        Ok(1)
    }

    fn to_der_vec(&self) -> Result<Vec<u8>, Error> {
        let mut v: Vec<u8> = Vec::new();
        match self.write_der_header(&mut v) {
            Err(e) => return Err(e),
            Ok(_) => {}
        }
        match self.write_der_content(&mut v) {
            Err(e) => return Err(e),
            Ok(_) => {}
        }
        Ok(v)
    }
}

/// Round trip: a canonical BOOLEAN content byte (`0x00` or `0xFF`)
/// serialized and canonically parsed again yields the same byte.
pub proof fn lemma_boolean_round_trip(s: Seq<u8>, pos: int, v: u8)
    requires
        0 <= pos,
        v == 0 || v == 255,
        pos + Boolean::spec_der_header(v).len() + Boolean::spec_der_content(v).len() <= s.len(),
        s.subrange(
            pos,
            pos + Boolean::spec_der_header(v).len() + Boolean::spec_der_content(v).len(),
        ) =~= Boolean::spec_der_header(v) + Boolean::spec_der_content(v),
    ensures
        Boolean::spec_from_der(s, pos) == Ok::<(u8, int), Error>((
            v,
            pos + Boolean::spec_der_header(v).len() + Boolean::spec_der_content(v).len(),
        )),
{
    let c = spec_boolean_content(v);
    let h = spec_primitive_header(TAG_BOOLEAN, c);
    assert(Boolean::spec_der_header(v) + Boolean::spec_der_content(v)
        =~= crate::any::spec_any_to_der(h, c));
    crate::any::lemma_parse_any_round_trip(s, pos, h, c);
    assert(c[0] == v);
}

} // verus!
