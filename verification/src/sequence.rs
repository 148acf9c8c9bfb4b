//! The SEQUENCE container: an ordered run of TLV units, kept as raw
//! content bytes, with element codecs layered on the generic container
//! machinery.

use vstd::prelude::*;
use vstd::slice::slice_to_vec;

use crate::any::{spec_parse_any_ber, spec_parse_any_der, Any};
use crate::container::{der_items_len, spec_concat_der, write_der_items};
use crate::error::Error;
use crate::header::{spec_header_bytes, Header};
use crate::length::Length;
use crate::tag::{Class, Tag, TAG_SEQUENCE};
use crate::traits::{CheckDerConstraints, FromAny, FromBer, FromDer, Tagged, ToDer};

verus! {

/// A SEQUENCE value: its raw content bytes, an in-order concatenation
/// of the element encodings.
#[derive(Clone, Debug, PartialEq, Eq)]
pub struct Sequence {
    content: Vec<u8>,
}

impl View for Sequence {
    type V = Seq<u8>;

    closed spec fn view(&self) -> Seq<u8> {
        self.content@
    }
}

/// The canonical header for constructed content under a given tag.
pub open spec fn spec_constructed_header(tag: u32, content: Seq<u8>) -> Header {
    Header {
        class: Class::Universal,
        constructed: true,
        tag: Tag(tag),
        length: Length::Definite(content.len() as usize),
    }
}

/// What decoding a SEQUENCE from a unit yields: the content bytes of a
/// constructed unit with the SEQUENCE tag.
pub open spec fn spec_sequence_from_any(h: Header, data: Seq<u8>) -> Result<Seq<u8>, Error> {
    if h.tag != Tag(TAG_SEQUENCE) {
        Err(Error::UnexpectedTag)
    } else if !h.constructed {
        Err(Error::ConstructedExpected)
    } else {
        Ok(data)
    }
}

impl Sequence {
    /// A SEQUENCE over the given raw content bytes.
    pub fn new(content: Vec<u8>) -> (r: Sequence)
        ensures
            r@ == content@,
    {
        Sequence { content }
    }

    /// The raw content bytes.
    pub fn as_bytes(&self) -> (r: &[u8])
        ensures
            r@ == self@,
    {
        self.content.as_slice()
    }

    /// A SEQUENCE whose content is the in-order concatenation of the
    /// given elements' serializations.
    pub fn from_iter_to_der<T: ToDer>(items: &Vec<T>) -> (r: Result<Sequence, Error>)
        ensures
            match r {
                Ok(s) => s@ == spec_concat_der::<T>(items@.map_values(|t: T| t@)),
                Err(e) => e == Error::InvalidLength
                    && spec_concat_der::<T>(items@.map_values(|t: T| t@)).len() > usize::MAX,
            },
    {
        let mut content: Vec<u8> = Vec::new();
        match write_der_items(items, &mut content) {
            Err(e) => Err(e),
            Ok(_) => Ok(Sequence { content }),
        }
    }

    /// The elements decoded canonically, in encounter order.
    pub fn der_elements<T: FromDer>(&self) -> (r: Result<Vec<T>, Error>)
        ensures
            match r {
                Ok(items) => crate::container::spec_elements_from_der::<T>(
                    self@,
                    0,
                    self@.len() as nat,
                ) == Ok::<Seq<T::V>, Error>(items@.map_values(|t: T| t@)),
                Err(e) => crate::container::spec_elements_from_der::<T>(
                    self@,
                    0,
                    self@.len() as nat,
                ) == Err::<Seq<T::V>, Error>(e),
            },
    {
        crate::container::parse_elements_der(self.content.as_slice())
    }
}

impl Tagged for Sequence {
    open spec fn spec_tag() -> Tag {
        Tag(TAG_SEQUENCE)
    }

    fn tag() -> Tag {
        Tag(TAG_SEQUENCE)
    }
}

impl FromAny for Sequence {
    open spec fn spec_from_any(h: Header, data: Seq<u8>) -> Result<Seq<u8>, Error> {
        spec_sequence_from_any(h, data)
    }

    fn from_any(any: &Any<'_>) -> Result<Self, Error> {
        match any.assert_tag(Tag(TAG_SEQUENCE)) {
            Err(e) => return Err(e),
            Ok(_) => {}
        }
        match any.assert_constructed() {
            Err(e) => return Err(e),
            Ok(_) => {}
        }
        Ok(Sequence { content: slice_to_vec(any.data) })
    }
}

impl FromBer for Sequence {
    open spec fn spec_from_ber(s: Seq<u8>, pos: int) -> Result<(Seq<u8>, int), Error> {
        match spec_parse_any_ber(s, pos) {
            Err(e) => Err(e),
            Ok(((h, data), p)) => match spec_sequence_from_any(h, data) {
                Err(e) => Err(e),
                Ok(v) => Ok((v, p)),
            },
        }
    }

    fn from_ber(input: &[u8], pos: usize) -> Result<(Self, usize), Error> {
        match Any::from_ber(input, pos) {
            Err(e) => Err(e),
            Ok((any, p)) => match Self::from_any(&any) {
                Err(e) => Err(e),
                Ok(v) => Ok((v, p)),
            },
        }
    }
}

impl FromDer for Sequence {
    open spec fn spec_from_der(s: Seq<u8>, pos: int) -> Result<(Seq<u8>, int), Error> {
        match spec_parse_any_der(s, pos) {
            Err(e) => Err(e),
            Ok(((h, data), p)) => match spec_sequence_from_any(h, data) {
                Err(e) => Err(e),
                Ok(v) => Ok((v, p)),
            },
        }
    }

    fn from_der(input: &[u8], pos: usize) -> Result<(Self, usize), Error> {
        match Any::from_der(input, pos) {
            Err(e) => Err(e),
            Ok((any, p)) => match Self::from_any(&any) {
                Err(e) => Err(e),
                Ok(v) => Ok((v, p)),
            },
        }
    }
}

impl CheckDerConstraints for Sequence {
    open spec fn spec_check_der(h: Header, data: Seq<u8>) -> Result<(), Error> {
        match spec_sequence_from_any(h, data) {
            Err(e) => Err(e),
            Ok(c) => crate::container::spec_check_der_elements(c, 0, c.len() as nat),
        }
    }

    fn check_constraints(any: &Any<'_>) -> Result<(), Error> {
        match any.assert_tag(Tag(TAG_SEQUENCE)) {
            Err(e) => return Err(e),
            Ok(_) => {}
        }
        match any.assert_constructed() {
            Err(e) => return Err(e),
            Ok(_) => {}
        }
        crate::container::canonical_check_elements(any.data)
    }
}

impl ToDer for Sequence {
    open spec fn spec_der_content(v: Seq<u8>) -> Seq<u8> {
        v
    }

    open spec fn spec_der_header(v: Seq<u8>) -> Seq<u8> {
        spec_header_bytes(spec_constructed_header(TAG_SEQUENCE, v))
    }

    fn to_der_len(&self) -> Result<usize, Error> {
        let h = Header::new(
            Class::Universal,
            true,
            Tag(TAG_SEQUENCE),
            Length::Definite(self.content.len()),
        );
        match h.der_len().checked_add(self.content.len()) {
            Some(n) => Ok(n),
            None => Err(Error::InvalidLength),
        }
    }

    fn write_der_header(&self, out: &mut Vec<u8>) -> Result<usize, Error> {
        let h = Header::new(
            Class::Universal,
            true,
            Tag(TAG_SEQUENCE),
            Length::Definite(self.content.len()),
        );
        let n = h.der_len();
        h.write_der(out);
        Ok(n)
    }

    fn write_der_content(&self, out: &mut Vec<u8>) -> Result<usize, Error> {
        out.extend_from_slice(self.content.as_slice());
        proof {
            assert(out@ =~= old(out)@ + self.content@);
        }
        Ok(self.content.len())
    }

    fn to_der_vec(&self) -> Result<Vec<u8>, Error> {
        let mut v: Vec<u8> = Vec::new();
        match self.write_der_header(&mut v) {
            Err(e) => return Err(e),
            Ok(_) => {}
        }
        match self.write_der_content(&mut v) {
            Err(e) => return Err(e),
            Ok(_) => {}
        }
        Ok(v)
    }
}

impl<T: ToDer> ToDer for Vec<T> {
    open spec fn spec_der_content(v: Seq<T>) -> Seq<u8> {
        spec_concat_der::<T>(v.map_values(|t: T| t@))
    }

    open spec fn spec_der_header(v: Seq<T>) -> Seq<u8> {
        spec_header_bytes(
            spec_constructed_header(TAG_SEQUENCE, spec_concat_der::<T>(v.map_values(|t: T| t@))),
        )
    }

    fn to_der_len(&self) -> Result<usize, Error> {
        let c = match der_items_len(self) {
            Err(e) => return Err(e),
            Ok(n) => n,
        };
        let h = Header::new(Class::Universal, true, Tag(TAG_SEQUENCE), Length::Definite(c));
        match h.der_len().checked_add(c) {
            Some(n) => Ok(n),
            None => Err(Error::InvalidLength),
        }
    }

    fn write_der_header(&self, out: &mut Vec<u8>) -> Result<usize, Error> {
        let c = match der_items_len(self) {
            Err(e) => return Err(e),
            Ok(n) => n,
        };
        let h = Header::new(Class::Universal, true, Tag(TAG_SEQUENCE), Length::Definite(c));
        let n = h.der_len();
        h.write_der(out);
        Ok(n)
    }

    fn write_der_content(&self, out: &mut Vec<u8>) -> Result<usize, Error> {
        write_der_items(self, out)
    }

    fn to_der_vec(&self) -> Result<Vec<u8>, Error> {
        let mut v: Vec<u8> = Vec::new();
        match self.write_der_header(&mut v) {
            Err(e) => return Err(e),
            Ok(_) => {}
        }
        match self.write_der_content(&mut v) {
            Err(e) => return Err(e),
            Ok(_) => {}
        }
        Ok(v)
    }
}

/// Round trip: the serialization of a SEQUENCE's content bytes,
/// followed by anything, parses back to the same bytes under both
/// profiles.
pub proof fn lemma_sequence_round_trip(s: Seq<u8>, pos: int, v: Seq<u8>)
    requires
        0 <= pos,
        v.len() <= usize::MAX,
        pos + Sequence::spec_der_header(v).len() + Sequence::spec_der_content(v).len() <= s.len(),
        s.subrange(
            pos,
            pos + Sequence::spec_der_header(v).len() + Sequence::spec_der_content(v).len(),
        ) =~= Sequence::spec_der_header(v) + Sequence::spec_der_content(v),
    ensures
        Sequence::spec_from_der(s, pos) == Ok::<(Seq<u8>, int), Error>((
            v,
            pos + Sequence::spec_der_header(v).len() + Sequence::spec_der_content(v).len(),
        )),
        Sequence::spec_from_ber(s, pos) == Ok::<(Seq<u8>, int), Error>((
            v,
            pos + Sequence::spec_der_header(v).len() + Sequence::spec_der_content(v).len(),
        )),
{
    let h = spec_constructed_header(TAG_SEQUENCE, v);
    assert(Sequence::spec_der_header(v) + Sequence::spec_der_content(v)
        =~= crate::any::spec_any_to_der(h, v));
    crate::any::lemma_parse_any_round_trip(s, pos, h, v);
}

} // verus!
