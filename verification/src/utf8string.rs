//! The UTF8String leaf: bytes that must form valid UTF-8.

use vstd::prelude::*;
use vstd::slice::slice_to_vec;

use crate::any::{spec_parse_any_ber, spec_parse_any_der, Any};
use crate::error::Error;
use crate::header::{spec_header_bytes, Header};
use crate::length::Length;
use crate::octetstring::spec_primitive_header;
use crate::tag::{Class, Tag, TAG_UTF8_STRING};
use crate::traits::{CheckDerConstraints, FromAny, FromBer, FromDer, Tagged, ToDer};

verus! {

/// Whether a run of bytes is valid UTF-8; decided by the standard
/// library's validator, a function of the bytes alone.
pub uninterp spec fn utf8_valid(s: Seq<u8>) -> bool;

/// Relies on core::str::from_utf8: whether it accepts a run of bytes
/// depends on the bytes alone.
#[verifier::external_body]
fn check_utf8(b: &[u8]) -> (r: bool)
    ensures
        r == utf8_valid(b@),
{
    core::str::from_utf8(b).is_ok()
}

/// A UTF8String value: bytes known to form valid UTF-8.
#[derive(Clone, Debug, PartialEq, Eq)]
pub struct Utf8String {
    data: Vec<u8>,
}

impl View for Utf8String {
    type V = Seq<u8>;

    closed spec fn view(&self) -> Seq<u8> {
        self.data@
    }
}

/// What decoding a UTF8String from a unit yields: the content bytes of
/// a primitive unit with the UTF8String tag, valid UTF-8.
pub open spec fn spec_utf8_string_from_any(h: Header, data: Seq<u8>) -> Result<Seq<u8>, Error> {
    if h.tag != Tag(TAG_UTF8_STRING) {
        Err(Error::UnexpectedTag)
    } else if h.constructed {
        Err(Error::ConstructedExpected)
    } else if !utf8_valid(data) {
        Err(Error::InvalidValueEncoding)
    } else {
        Ok(data)
    }
}

impl Utf8String {
    /// A UTF8String from raw bytes; fails with `InvalidValueEncoding`
    /// exactly when the bytes are not valid UTF-8.
    pub fn from_bytes(data: Vec<u8>) -> (r: Result<Utf8String, Error>)
        ensures
            match r {
                Ok(v) => v@ == data@ && utf8_valid(data@),
                Err(e) => e == Error::InvalidValueEncoding && !utf8_valid(data@),
            },
    {
        if check_utf8(data.as_slice()) {
            Ok(Utf8String { data })
        } else {
            Err(Error::InvalidValueEncoding)
        }
    }

    /// The bytes held; always valid UTF-8.
    pub fn as_bytes(&self) -> (r: &[u8])
        ensures
            r@ == self@,
    {
        self.data.as_slice()
    }
}

impl Tagged for Utf8String {
    open spec fn spec_tag() -> Tag {
        Tag(TAG_UTF8_STRING)
    }

    fn tag() -> Tag {
        Tag(TAG_UTF8_STRING)
    }
}

impl FromAny for Utf8String {
    open spec fn spec_from_any(h: Header, data: Seq<u8>) -> Result<Seq<u8>, Error> {
        spec_utf8_string_from_any(h, data)
    }

    fn from_any(any: &Any<'_>) -> Result<Self, Error> {
        match any.assert_tag(Tag(TAG_UTF8_STRING)) {
            Err(e) => return Err(e),
            Ok(_) => {}
        }
        if any.header.constructed {
            return Err(Error::ConstructedExpected);
        }
        if !check_utf8(any.data) {
            return Err(Error::InvalidValueEncoding);
        }
        Ok(Utf8String { data: slice_to_vec(any.data) })
    }
}

impl FromBer for Utf8String {
    open spec fn spec_from_ber(s: Seq<u8>, pos: int) -> Result<(Seq<u8>, int), Error> {
        match spec_parse_any_ber(s, pos) {
            Err(e) => Err(e),
            Ok(((h, data), p)) => match spec_utf8_string_from_any(h, data) {
                Err(e) => Err(e),
                Ok(v) => Ok((v, p)),
            },
        }
    }

    fn from_ber(input: &[u8], pos: usize) -> Result<(Self, usize), Error> {
        match Any::from_ber(input, pos) {
            Err(e) => Err(e),
            Ok((any, p)) => match Self::from_any(&any) {
                Err(e) => Err(e),
                Ok(v) => Ok((v, p)),
            },
        }
    }
}

impl FromDer for Utf8String {
    open spec fn spec_from_der(s: Seq<u8>, pos: int) -> Result<(Seq<u8>, int), Error> {
        match spec_parse_any_der(s, pos) {
            Err(e) => Err(e),
            Ok(((h, data), p)) => match spec_utf8_string_from_any(h, data) {
                Err(e) => Err(e),
                Ok(v) => Ok((v, p)),
            },
        }
    }

    fn from_der(input: &[u8], pos: usize) -> Result<(Self, usize), Error> {
        match Any::from_der(input, pos) {
            Err(e) => Err(e),
            Ok((any, p)) => match Self::from_any(&any) {
                Err(e) => Err(e),
                Ok(v) => Ok((v, p)),
            },
        }
    }
}

impl CheckDerConstraints for Utf8String {
    open spec fn spec_check_der(h: Header, data: Seq<u8>) -> Result<(), Error> {
        match spec_utf8_string_from_any(h, data) {
            Err(e) => Err(e),
            Ok(_) => Ok(()),
        }
    }

    fn check_constraints(any: &Any<'_>) -> Result<(), Error> {
        match Self::from_any(any) {
            Err(e) => Err(e),
            Ok(_) => Ok(()),
        }
    }
}

impl ToDer for Utf8String {
    open spec fn spec_der_content(v: Seq<u8>) -> Seq<u8> {
        v
    }

    open spec fn spec_der_header(v: Seq<u8>) -> Seq<u8> {
        spec_header_bytes(spec_primitive_header(TAG_UTF8_STRING, v))
    }

    fn to_der_len(&self) -> Result<usize, Error> {
        let h = Header::new(
            Class::Universal,
            false,
            Tag(TAG_UTF8_STRING),
            Length::Definite(self.data.len()),
        );
        match h.der_len().checked_add(self.data.len()) {
            Some(n) => Ok(n),
            None => Err(Error::InvalidLength),
        }
    }

    fn write_der_header(&self, out: &mut Vec<u8>) -> Result<usize, Error> {
        let h = Header::new(
            Class::Universal,
            false,
            Tag(TAG_UTF8_STRING),
            Length::Definite(self.data.len()),
        );
        let n = h.der_len();
        h.write_der(out);
        Ok(n)
    }

    fn write_der_content(&self, out: &mut Vec<u8>) -> Result<usize, Error> {
        out.extend_from_slice(self.data.as_slice());
        proof {
            assert(out@ =~= old(out)@ + self.data@);
        }
        Ok(self.data.len())
    }

    fn to_der_vec(&self) -> Result<Vec<u8>, Error> {
        let mut v: Vec<u8> = Vec::new();
        match self.write_der_header(&mut v) {
            Err(e) => return Err(e),
            Ok(_) => {}
        }
        match self.write_der_content(&mut v) {
            Err(e) => return Err(e),
            Ok(_) => {}
        }
        Ok(v)
    }
}

/// Round trip: a valid UTF8String serialized and canonically parsed
/// again yields the same bytes.
pub proof fn lemma_utf8_string_round_trip(s: Seq<u8>, pos: int, v: Seq<u8>)
    requires
        0 <= pos,
        v.len() <= usize::MAX,
        utf8_valid(v),
        pos + Utf8String::spec_der_header(v).len() + Utf8String::spec_der_content(v).len()
            <= s.len(),
        s.subrange(
            pos,
            pos + Utf8String::spec_der_header(v).len() + Utf8String::spec_der_content(v).len(),
        ) =~= Utf8String::spec_der_header(v) + Utf8String::spec_der_content(v),
    ensures
        Utf8String::spec_from_der(s, pos) == Ok::<(Seq<u8>, int), Error>((
            v,
            pos + Utf8String::spec_der_header(v).len() + Utf8String::spec_der_content(v).len(),
        )),
{
    let h = spec_primitive_header(TAG_UTF8_STRING, v);
    assert(Utf8String::spec_der_header(v) + Utf8String::spec_der_content(v)
        =~= crate::any::spec_any_to_der(h, v));
    crate::any::lemma_parse_any_round_trip(s, pos, h, v);
}

} // verus!
