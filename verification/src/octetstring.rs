//! The OCTET STRING leaf: an owned run of raw bytes.

use vstd::prelude::*;
use vstd::slice::slice_to_vec;

use crate::any::{spec_parse_any_ber, spec_parse_any_der, Any};
use crate::error::Error;
use crate::header::{spec_header_bytes, Header};
use crate::length::Length;
use crate::tag::{Class, Tag, TAG_OCTET_STRING};
use crate::traits::{CheckDerConstraints, FromAny, FromBer, FromDer, Tagged, ToDer};

verus! {

/// An OCTET STRING value: arbitrary bytes.
#[derive(Clone, Debug, PartialEq, Eq)]
pub struct OctetString {
    data: Vec<u8>,
}

impl View for OctetString {
    type V = Seq<u8>;

    closed spec fn view(&self) -> Seq<u8> {
        self.data@
    }
}

/// What decoding an OCTET STRING from a unit yields: the content bytes
/// of a primitive unit with the OCTET STRING tag.
pub open spec fn spec_octet_string_from_any(h: Header, data: Seq<u8>) -> Result<Seq<u8>, Error> {
    if h.tag != Tag(TAG_OCTET_STRING) {
        Err(Error::UnexpectedTag)
    } else if h.constructed {
        Err(Error::ConstructedExpected)
    } else {
        Ok(data)
    }
}

/// The canonical header for a run of content bytes under a given tag.
pub open spec fn spec_primitive_header(tag: u32, content: Seq<u8>) -> Header {
    Header {
        class: Class::Universal,
        constructed: false,
        tag: Tag(tag),
        length: Length::Definite(content.len() as usize),
    }
}

impl OctetString {
    /// An OCTET STRING holding a copy of the given bytes.
    pub fn from_slice(data: &[u8]) -> (r: OctetString)
        ensures
            r@ == data@,
    {
        OctetString { data: slice_to_vec(data) }
    }

    /// An OCTET STRING taking ownership of the given bytes.
    pub fn new(data: Vec<u8>) -> (r: OctetString)
        ensures
            r@ == data@,
    {
        OctetString { data }
    }

    /// The bytes held.
    pub fn as_bytes(&self) -> (r: &[u8])
        ensures
            r@ == self@,
    {
        self.data.as_slice()
    }
}

impl Tagged for OctetString {
    open spec fn spec_tag() -> Tag {
        Tag(TAG_OCTET_STRING)
    }

    fn tag() -> Tag {
        Tag(TAG_OCTET_STRING)
    }
}

impl FromAny for OctetString {
    open spec fn spec_from_any(h: Header, data: Seq<u8>) -> Result<Seq<u8>, Error> {
        spec_octet_string_from_any(h, data)
    }

    fn from_any(any: &Any<'_>) -> Result<Self, Error> {
        match any.assert_tag(Tag(TAG_OCTET_STRING)) {
            Err(e) => return Err(e),
            Ok(_) => {}
        }
        if any.header.constructed {
            return Err(Error::ConstructedExpected);
        }
        Ok(OctetString { data: slice_to_vec(any.data) })
    }
}

impl FromBer for OctetString {
    open spec fn spec_from_ber(s: Seq<u8>, pos: int) -> Result<(Seq<u8>, int), Error> {
        match spec_parse_any_ber(s, pos) {
            Err(e) => Err(e),
            Ok(((h, data), p)) => match spec_octet_string_from_any(h, data) {
                Err(e) => Err(e),
                Ok(v) => Ok((v, p)),
            },
        }
    }

    fn from_ber(input: &[u8], pos: usize) -> Result<(Self, usize), Error> {
        match Any::from_ber(input, pos) {
            Err(e) => Err(e),
            Ok((any, p)) => match Self::from_any(&any) {
                Err(e) => Err(e),
                Ok(v) => Ok((v, p)),
            },
        }
    }
}

impl FromDer for OctetString {
    open spec fn spec_from_der(s: Seq<u8>, pos: int) -> Result<(Seq<u8>, int), Error> {
        match spec_parse_any_der(s, pos) {
            Err(e) => Err(e),
            Ok(((h, data), p)) => match spec_octet_string_from_any(h, data) {
                Err(e) => Err(e),
                Ok(v) => Ok((v, p)),
            },
        }
    }

    fn from_der(input: &[u8], pos: usize) -> Result<(Self, usize), Error> {
        match Any::from_der(input, pos) {
            Err(e) => Err(e),
            Ok((any, p)) => match Self::from_any(&any) {
                Err(e) => Err(e),
                Ok(v) => Ok((v, p)),
            },
        }
    }
}

impl CheckDerConstraints for OctetString {
    open spec fn spec_check_der(h: Header, data: Seq<u8>) -> Result<(), Error> {
        if h.tag != Tag(TAG_OCTET_STRING) {
            Err(Error::UnexpectedTag)
        } else if h.constructed {
            Err(Error::ConstructedExpected)
        } else if !(h.length is Definite) {
            Err(Error::NotCanonical)
        } else {
            Ok(())
        }
    }

    fn check_constraints(any: &Any<'_>) -> Result<(), Error> {
        match any.assert_tag(Tag(TAG_OCTET_STRING)) {
            Err(e) => return Err(e),
            Ok(_) => {}
        }
        if any.header.constructed {
            return Err(Error::ConstructedExpected);
        }
        any.canonical_check()
    }
}

impl ToDer for OctetString {
    open spec fn spec_der_content(v: Seq<u8>) -> Seq<u8> {
        v
    }

    open spec fn spec_der_header(v: Seq<u8>) -> Seq<u8> {
        spec_header_bytes(spec_primitive_header(TAG_OCTET_STRING, v))
    }

    fn to_der_len(&self) -> Result<usize, Error> {
        let h = Header::new(
            Class::Universal,
            false,
            Tag(TAG_OCTET_STRING),
            Length::Definite(self.data.len()),
        );
        match h.der_len().checked_add(self.data.len()) {
            Some(n) => Ok(n),
            None => Err(Error::InvalidLength),
        }
    }

    fn write_der_header(&self, out: &mut Vec<u8>) -> Result<usize, Error> {
        let h = Header::new(
            Class::Universal,
            false,
            Tag(TAG_OCTET_STRING),
            Length::Definite(self.data.len()),
        );
        let n = h.der_len();
        h.write_der(out);
        Ok(n)
    }

    fn write_der_content(&self, out: &mut Vec<u8>) -> Result<usize, Error> {
        out.extend_from_slice(self.data.as_slice());
        proof {
            assert(out@ =~= old(out)@ + self.data@);
        }
        Ok(self.data.len())
    }

    fn to_der_vec(&self) -> Result<Vec<u8>, Error> {
        let mut v: Vec<u8> = Vec::new();
        match self.write_der_header(&mut v) {
            Err(e) => return Err(e),
            Ok(_) => {}
        }
        match self.write_der_content(&mut v) {
            Err(e) => return Err(e),
            Ok(_) => {}
        }
        Ok(v)
    }
}

/// Round trip: the serialization of an OCTET STRING, followed by
/// anything, parses back to the same bytes under both profiles.
pub proof fn lemma_octet_string_round_trip(s: Seq<u8>, pos: int, v: Seq<u8>)
    requires
        0 <= pos,
        v.len() <= usize::MAX,
        pos + OctetString::spec_der_header(v).len() + OctetString::spec_der_content(v).len()
            <= s.len(),
        s.subrange(
            pos,
            pos + OctetString::spec_der_header(v).len()
                + OctetString::spec_der_content(v).len(),
        ) =~= OctetString::spec_der_header(v) + OctetString::spec_der_content(v),
    ensures
        OctetString::spec_from_der(s, pos) == Ok::<(Seq<u8>, int), Error>((
            v,
            pos + OctetString::spec_der_header(v).len() + OctetString::spec_der_content(v).len(),
        )),
        OctetString::spec_from_ber(s, pos) == Ok::<(Seq<u8>, int), Error>((
            v,
            pos + OctetString::spec_der_header(v).len() + OctetString::spec_der_content(v).len(),
        )),
{
    let h = spec_primitive_header(TAG_OCTET_STRING, v);
    assert(OctetString::spec_der_header(v) + OctetString::spec_der_content(v)
        =~= crate::any::spec_any_to_der(h, v));
    crate::any::lemma_parse_any_round_trip(s, pos, h, v);
}

} // verus!
