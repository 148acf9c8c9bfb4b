//! The tag wrapper protocol: explicit wrapping nests a value's whole
//! TLV unchanged inside an outer unit carrying the substitute tag;
//! implicit wrapping replaces the value's tag in place, reusing the
//! content bytes with no extra nesting.

use vstd::prelude::*;

use crate::any::{spec_parse_any_der, Any};
use crate::error::Error;
use crate::header::{spec_header_bytes, Header};
use crate::length::Length;
use crate::tag::{Class, Tag};
use crate::traits::{FromAny, FromDer, Tagged, ToDer};

verus! {

/// The two tag-wrapping kinds a field may carry.
#[derive(Copy, Clone, Debug, PartialEq, Eq, Structural)]
pub enum Asn1TagKind {
    Explicit,
    Implicit,
}

/// A tagged wrapper around an inner value: the substitute tag, its
/// class, the wrapping kind, and the constructed flag of the outer
/// unit.
#[derive(Clone, Debug, PartialEq, Eq)]
pub struct TaggedValue<T> {
    pub kind: Asn1TagKind,
    pub class: Class,
    pub constructed: bool,
    pub tag: u32,
    pub inner: T,
}

/// The serialization of an explicit wrapper: an outer constructed
/// header with the substitute tag, around the inner value's whole
/// serialization.
pub open spec fn spec_explicit_der(class: Class, tag: u32, inner_der: Seq<u8>) -> Seq<u8> {
    spec_header_bytes(
        Header {
            class,
            constructed: true,
            tag: Tag(tag),
            length: Length::Definite(inner_der.len() as usize),
        },
    ) + inner_der
}

/// The serialization of an implicit wrapper: a header with the
/// substitute tag around the inner value's content bytes alone.
pub open spec fn spec_implicit_der(
    class: Class,
    constructed: bool,
    tag: u32,
    content: Seq<u8>,
) -> Seq<u8> {
    spec_header_bytes(
        Header {
            class,
            constructed,
            tag: Tag(tag),
            length: Length::Definite(content.len() as usize),
        },
    ) + content
}

/// What canonically parsing an explicit wrapper yields: the outer
/// unit's class and tag, and the inner value parsed from the whole
/// content as its own complete TLV.
pub open spec fn spec_explicit_from_der<T: FromDer>(s: Seq<u8>, pos: int) -> Result<
    ((Class, u32, T::V), int),
    Error,
> {
    match spec_parse_any_der(s, pos) {
        Err(e) => Err(e),
        Ok(((h, data), p)) => if !h.constructed {
            Err(Error::ConstructedExpected)
        } else {
            match T::spec_from_der(data, 0) {
                Err(e) => Err(e),
                Ok((v, _)) => Ok(((h.class, h.tag.0, v), p)),
            }
        },
    }
}

/// What canonically parsing an implicit wrapper yields: the outer
/// unit's class, flag and tag, and the inner value decoded from the
/// content bytes directly, under its own tag substituted back in.
pub open spec fn spec_implicit_from_der<T: FromAny + Tagged>(s: Seq<u8>, pos: int) -> Result<
    ((Class, bool, u32, T::V), int),
    Error,
> {
    match spec_parse_any_der(s, pos) {
        Err(e) => Err(e),
        Ok(((h, data), p)) => match T::spec_from_any(
            Header { class: h.class, constructed: h.constructed, tag: T::spec_tag(), length: h.length },
            data,
        ) {
            Err(e) => Err(e),
            Ok(v) => Ok(((h.class, h.constructed, h.tag.0, v), p)),
        },
    }
}

impl<T> TaggedValue<T> {
    /// An explicit wrapper: the outer unit is always constructed.
    pub fn new_explicit(class: Class, tag: u32, inner: T) -> (r: TaggedValue<T>)
        ensures
            r.kind == Asn1TagKind::Explicit,
            r.class == class,
            r.constructed,
            r.tag == tag,
            r.inner == inner,
    {
        TaggedValue { kind: Asn1TagKind::Explicit, class, constructed: true, tag, inner }
    }

    /// An implicit wrapper: the constructed flag follows the inner
    /// value's own encoding.
    pub fn new_implicit(class: Class, constructed: bool, tag: u32, inner: T) -> (r: TaggedValue<T>)
        ensures
            r.kind == Asn1TagKind::Implicit,
            r.class == class,
            r.constructed == constructed,
            r.tag == tag,
            r.inner == inner,
    {
        TaggedValue { kind: Asn1TagKind::Implicit, class, constructed, tag, inner }
    }
}

impl<T: ToDer> TaggedValue<T> {
    /// The wrapper serialized: for explicit wrapping the inner value's
    /// whole TLV is nested; for implicit wrapping only its content
    /// bytes are, under the substitute tag.
    pub fn to_der_vec(&self) -> (r: Result<Vec<u8>, Error>)
        ensures
            match r {
                Ok(v) => if self.kind == Asn1TagKind::Explicit {
                    v@ == spec_explicit_der(
                        self.class,
                        self.tag,
                        T::spec_der_header(self.inner@) + T::spec_der_content(self.inner@),
                    )
                } else {
                    v@ == spec_implicit_der(
                        self.class,
                        self.constructed,
                        self.tag,
                        T::spec_der_content(self.inner@),
                    )
                },
                Err(e) => e == Error::InvalidLength,
            },
    {
        match self.kind {
            Asn1TagKind::Explicit => {
                let inner_len = match self.inner.to_der_len() {
                    Err(e) => return Err(e),
                    Ok(n) => n,
                };
                let h = Header::new(self.class, true, Tag(self.tag), Length::Definite(inner_len));
                let mut v: Vec<u8> = Vec::new();
                h.write_der(&mut v);
                match self.inner.write_der_header(&mut v) {
                    Err(e) => return Err(e),
                    Ok(_) => {}
                }
                match self.inner.write_der_content(&mut v) {
                    Err(e) => return Err(e),
                    Ok(_) => {}
                }
                proof {
                    assert(v@ =~= spec_explicit_der(
                        self.class,
                        self.tag,
                        T::spec_der_header(self.inner@) + T::spec_der_content(self.inner@),
                    ));
                }
                Ok(v)
            }
            Asn1TagKind::Implicit => {
                let mut content: Vec<u8> = Vec::new();
                match self.inner.write_der_content(&mut content) {
                    Err(e) => return Err(e),
                    Ok(_) => {}
                }
                let h = Header::new(
                    self.class,
                    self.constructed,
                    Tag(self.tag),
                    Length::Definite(content.len()),
                );
                let mut v: Vec<u8> = Vec::new();
                h.write_der(&mut v);
                v.extend_from_slice(content.as_slice());
                proof {
                    assert(v@ =~= spec_implicit_der(
                        self.class,
                        self.constructed,
                        self.tag,
                        T::spec_der_content(self.inner@),
                    ));
                }
                Ok(v)
            }
        }
    }
}

impl<T: FromDer> TaggedValue<T> {
    /// Canonical parse of an explicit wrapper at `pos`: the outer
    /// header's class and tag are recorded, the outer unit must be
    /// constructed, and the whole content is parsed as the inner
    /// value's own complete TLV.
    pub fn parse_der_explicit(input: &[u8], pos: usize) -> (r: Result<(TaggedValue<T>, usize), Error>)
        ensures
            match r {
                Ok((tv, p)) => spec_explicit_from_der::<T>(input@, pos as int)
                    == Ok::<((Class, u32, T::V), int), Error>((
                    (tv.class, tv.tag, tv.inner@),
                    p as int,
                )) && tv.kind == Asn1TagKind::Explicit && tv.constructed,
                Err(e) => spec_explicit_from_der::<T>(input@, pos as int)
                    == Err::<((Class, u32, T::V), int), Error>(e),
            },
    {
        match Any::from_der(input, pos) {
            Err(e) => Err(e),
            Ok((any, p)) => {
                match any.assert_constructed() {
                    Err(e) => return Err(e),
                    Ok(_) => {}
                }
                match T::from_der(any.data, 0) {
                    Err(e) => Err(e),
                    Ok((v, _)) => Ok((
                        TaggedValue {
                            kind: Asn1TagKind::Explicit,
                            class: any.header.class,
                            constructed: true,
                            tag: any.header.tag.0,
                            inner: v,
                        },
                        p,
                    )),
                }
            }
        }
    }
}

impl<T: FromAny + Tagged> TaggedValue<T> {
    /// Canonical parse of an implicit wrapper at `pos`: the outer
    /// header's class, flag and tag are recorded, and the inner value
    /// is decoded from the content bytes directly, its own tag
    /// substituted back into the header handed to its decoder.
    pub fn parse_der_implicit(input: &[u8], pos: usize) -> (r: Result<(TaggedValue<T>, usize), Error>)
        ensures
            match r {
                Ok((tv, p)) => spec_implicit_from_der::<T>(input@, pos as int)
                    == Ok::<((Class, bool, u32, T::V), int), Error>((
                    (tv.class, tv.constructed, tv.tag, tv.inner@),
                    p as int,
                )) && tv.kind == Asn1TagKind::Implicit,
                Err(e) => spec_implicit_from_der::<T>(input@, pos as int)
                    == Err::<((Class, bool, u32, T::V), int), Error>(e),
            },
    {
        match Any::from_der(input, pos) {
            Err(e) => Err(e),
            Ok((any, p)) => {
                let h2 = Header::new(
                    any.header.class,
                    any.header.constructed,
                    T::tag(),
                    any.header.length,
                );
                let any2 = Any::new(h2, any.data);
                match T::from_any(&any2) {
                    Err(e) => Err(e),
                    Ok(v) => Ok((
                        TaggedValue {
                            kind: Asn1TagKind::Implicit,
                            class: any.header.class,
                            constructed: any.header.constructed,
                            tag: any.header.tag.0,
                            inner: v,
                        },
                        p,
                    )),
                }
            }
        }
    }
}

/// Round trip for an explicit wrapper around an unsigned 32-bit
/// value: serializing and canonically parsing again yields the same
/// class, substitute tag and inner value.
pub proof fn lemma_explicit_u32_round_trip(s: Seq<u8>, pos: int, class: Class, tag: u32, v: u32)
    requires
        0 <= pos,
        pos + spec_explicit_der(
            class,
            tag,
            crate::traits::spec_to_der_of::<u32>(v),
        ).len() <= s.len(),
        s.subrange(
            pos,
            pos + spec_explicit_der(class, tag, crate::traits::spec_to_der_of::<u32>(v)).len(),
        ) =~= spec_explicit_der(class, tag, crate::traits::spec_to_der_of::<u32>(v)),
    ensures
        spec_explicit_from_der::<u32>(s, pos) == Ok::<((Class, u32, u32), int), Error>((
            (class, tag, v),
            pos + spec_explicit_der(class, tag, crate::traits::spec_to_der_of::<u32>(v)).len(),
        )),
{
    let inner = crate::traits::spec_to_der_of::<u32>(v);
    let h = Header {
        class,
        constructed: true,
        tag: Tag(tag),
        length: Length::Definite(inner.len() as usize),
    };
    crate::integer::lemma_u32_content_len(v);
    assert(spec_explicit_der(class, tag, inner) =~= crate::any::spec_any_to_der(h, inner));
    crate::any::lemma_parse_any_round_trip(s, pos, h, inner);
    crate::integer::lemma_u32_round_trip(inner, 0, v);
}

/// Round trip for an implicit wrapper around an unsigned 32-bit
/// value: serializing and canonically parsing again yields the same
/// class, flag, substitute tag and inner value.
pub proof fn lemma_implicit_u32_round_trip(s: Seq<u8>, pos: int, class: Class, tag: u32, v: u32)
    requires
        0 <= pos,
        pos + spec_implicit_der(class, false, tag, crate::integer::spec_u32_content(v)).len()
            <= s.len(),
        s.subrange(
            pos,
            pos + spec_implicit_der(class, false, tag, crate::integer::spec_u32_content(v)).len(),
        ) =~= spec_implicit_der(class, false, tag, crate::integer::spec_u32_content(v)),
    ensures
        spec_implicit_from_der::<u32>(s, pos) == Ok::<((Class, bool, u32, u32), int), Error>((
            (class, false, tag, v),
            pos + spec_implicit_der(class, false, tag, crate::integer::spec_u32_content(v)).len(),
        )),
{
    let c = crate::integer::spec_u32_content(v);
    let h = Header {
        class,
        constructed: false,
        tag: Tag(tag),
        length: Length::Definite(c.len() as usize),
    };
    crate::integer::lemma_u32_content_len(v);
    assert(spec_implicit_der(class, false, tag, c) =~= crate::any::spec_any_to_der(h, c));
    crate::any::lemma_parse_any_round_trip(s, pos, h, c);
    crate::integer::lemma_u32_content_round_trip(v);
}

} // verus!
