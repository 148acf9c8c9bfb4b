//! The SET OF container: a homogeneous run of elements decoded from a
//! SET unit, kept in encounter order.

use vstd::prelude::*;

use crate::any::{spec_parse_any_ber, spec_parse_any_der, Any};
use crate::container::{
    der_items_len, parse_elements_ber, parse_elements_der, spec_concat_der,
    spec_elements_from_ber, spec_elements_from_der, write_der_items,
};
use crate::error::Error;
use crate::header::{spec_header_bytes, Header};
use crate::length::Length;
use crate::sequence::spec_constructed_header;
use crate::tag::{Class, Tag, TAG_SET};
use crate::traits::{FromBer, FromDer, Tagged, ToDer};

verus! {

/// A SET OF container: the decoded elements, in encounter order.
#[derive(Clone, Debug, PartialEq, Eq)]
pub struct SetOf<T> {
    items: Vec<T>,
}

impl<T: View> View for SetOf<T> {
    type V = Seq<T::V>;

    closed spec fn view(&self) -> Seq<T::V> {
        self.items@.map_values(|t: T| t@)
    }
}

/// What decoding the elements of a SET unit demands of its header.
pub open spec fn spec_set_content_from_any(h: Header, data: Seq<u8>) -> Result<Seq<u8>, Error> {
    if h.tag != Tag(TAG_SET) {
        Err(Error::UnexpectedTag)
    } else if !h.constructed {
        Err(Error::ConstructedExpected)
    } else {
        Ok(data)
    }
}

impl<T: View> SetOf<T> {
    /// A container over the given elements.
    pub fn new(items: Vec<T>) -> (r: SetOf<T>)
        ensures
            r@ == items@.map_values(|t: T| t@),
    {
        SetOf { items }
    }

    /// The number of elements held.
    pub fn len(&self) -> (n: usize)
        ensures
            n == self@.len(),
    {
        self.items.len()
    }

    /// Whether no element is held.
    pub fn is_empty(&self) -> (r: bool)
        ensures
            r == (self@.len() == 0),
    {
        self.items.len() == 0
    }

    /// The elements, in encounter order.
    pub fn as_ref(&self) -> (r: &Vec<T>)
        ensures
            r@.map_values(|t: T| t@) == self@,
    {
        &self.items
    }

    /// The elements, owned, in encounter order.
    pub fn into_vec(self) -> (r: Vec<T>)
        ensures
            r@.map_values(|t: T| t@) == self@,
    {
        self.items
    }
}

impl<T: View> Tagged for SetOf<T> {
    open spec fn spec_tag() -> Tag {
        Tag(TAG_SET)
    }

    fn tag() -> Tag {
        Tag(TAG_SET)
    }
}

impl<T: FromBer> FromBer for SetOf<T> {
    open spec fn spec_from_ber(s: Seq<u8>, pos: int) -> Result<(Seq<T::V>, int), Error> {
        match spec_parse_any_ber(s, pos) {
            Err(e) => Err(e),
            Ok(((h, data), p)) => match spec_set_content_from_any(h, data) {
                Err(e) => Err(e),
                Ok(c) => match spec_elements_from_ber::<T>(c, 0, c.len() as nat) {
                    Err(e) => Err(e),
                    Ok(vs) => Ok((vs, p)),
                },
            },
        }
    }

    fn from_ber(input: &[u8], pos: usize) -> Result<(Self, usize), Error> {
        match Any::from_ber(input, pos) {
            Err(e) => Err(e),
            Ok((any, p)) => {
                match any.assert_tag(Tag(TAG_SET)) {
                    Err(e) => return Err(e),
                    Ok(_) => {}
                }
                match any.assert_constructed() {
                    Err(e) => return Err(e),
                    Ok(_) => {}
                }
                match parse_elements_ber::<T>(any.data) {
                    Err(e) => Err(e),
                    Ok(items) => Ok((SetOf { items }, p)),
                }
            }
        }
    }
}

impl<T: FromDer> FromDer for SetOf<T> {
    open spec fn spec_from_der(s: Seq<u8>, pos: int) -> Result<(Seq<T::V>, int), Error> {
        match spec_parse_any_der(s, pos) {
            Err(e) => Err(e),
            Ok(((h, data), p)) => match spec_set_content_from_any(h, data) {
                Err(e) => Err(e),
                Ok(c) => match spec_elements_from_der::<T>(c, 0, c.len() as nat) {
                    Err(e) => Err(e),
                    Ok(vs) => Ok((vs, p)),
                },
            },
        }
    }

    fn from_der(input: &[u8], pos: usize) -> Result<(Self, usize), Error> {
        match Any::from_der(input, pos) {
            Err(e) => Err(e),
            Ok((any, p)) => {
                match any.assert_tag(Tag(TAG_SET)) {
                    Err(e) => return Err(e),
                    Ok(_) => {}
                }
                match any.assert_constructed() {
                    Err(e) => return Err(e),
                    Ok(_) => {}
                }
                match parse_elements_der::<T>(any.data) {
                    Err(e) => Err(e),
                    Ok(items) => Ok((SetOf { items }, p)),
                }
            }
        }
    }
}

impl<T: ToDer> ToDer for SetOf<T> {
    open spec fn spec_der_content(v: Seq<T::V>) -> Seq<u8> {
        spec_concat_der::<T>(v)
    }

    open spec fn spec_der_header(v: Seq<T::V>) -> Seq<u8> {
        spec_header_bytes(spec_constructed_header(TAG_SET, spec_concat_der::<T>(v)))
    }

    fn to_der_len(&self) -> Result<usize, Error> {
        let c = match der_items_len(&self.items) {
            Err(e) => return Err(e),
            Ok(n) => n,
        };
        let h = Header::new(Class::Universal, true, Tag(TAG_SET), Length::Definite(c));
        match h.der_len().checked_add(c) {
            Some(n) => Ok(n),
            None => Err(Error::InvalidLength),
        }
    }

    fn write_der_header(&self, out: &mut Vec<u8>) -> Result<usize, Error> {
        let c = match der_items_len(&self.items) {
            Err(e) => return Err(e),
            Ok(n) => n,
        };
        let h = Header::new(Class::Universal, true, Tag(TAG_SET), Length::Definite(c));
        let n = h.der_len();
        h.write_der(out);
        Ok(n)
    }

    fn write_der_content(&self, out: &mut Vec<u8>) -> Result<usize, Error> {
        write_der_items(&self.items, out)
    }

    fn to_der_vec(&self) -> Result<Vec<u8>, Error> {
        let mut v: Vec<u8> = Vec::new();
        match self.write_der_header(&mut v) {
            Err(e) => return Err(e),
            Ok(_) => {}
        }
        match self.write_der_content(&mut v) {
            Err(e) => return Err(e),
            Ok(_) => {}
        }
        Ok(v)
    }
}

/// Round trip for the SET OF container: serializing elements whose
/// own serializations parse back to them, then canonically parsing the
/// whole unit, yields the same element views in the same order.
pub proof fn lemma_set_of_round_trip<T: FromDer + ToDer>(s: Seq<u8>, pos: int, vs: Seq<T::V>)
    requires
        0 <= pos,
        spec_concat_der::<T>(vs).len() <= usize::MAX,
        pos + <SetOf<T> as ToDer>::spec_der_header(vs).len()
            + <SetOf<T> as ToDer>::spec_der_content(vs).len() <= s.len(),
        s.subrange(
            pos,
            pos + <SetOf<T> as ToDer>::spec_der_header(vs).len()
                + <SetOf<T> as ToDer>::spec_der_content(vs).len(),
        ) =~= <SetOf<T> as ToDer>::spec_der_header(vs) + <SetOf<T> as ToDer>::spec_der_content(vs),
        forall|i: int| 0 <= i < vs.len() ==> #[trigger] crate::container::spec_elem_round_trips::<
            T,
        >(vs[i]),
    ensures
        <SetOf<T> as FromDer>::spec_from_der(s, pos) == Ok::<(Seq<T::V>, int), Error>((
            vs,
            pos + <SetOf<T> as ToDer>::spec_der_header(vs).len()
                + <SetOf<T> as ToDer>::spec_der_content(vs).len(),
        )),
{
    let c = spec_concat_der::<T>(vs);
    let h = spec_constructed_header(TAG_SET, c);
    assert(<SetOf<T> as ToDer>::spec_der_header(vs) + <SetOf<T> as ToDer>::spec_der_content(vs)
        =~= crate::any::spec_any_to_der(h, c));
    crate::any::lemma_parse_any_round_trip(s, pos, h, c);
    assert(c.subrange(0, c.len() as int) =~= c);
    crate::container::lemma_elements_round_trip::<T>(c, 0, vs, c.len() as nat);
}

} // verus!
