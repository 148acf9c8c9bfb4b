//! The capability contracts: the four operations a value type may
//! support — permissive parse, canonical parse, canonical-form check,
//! and three-phase serialization — plus the fixed tag every
//! participating type declares.  Contracts are stated over each type's
//! view, so generic code built on these traits is verified against the
//! same specifications as the concrete types.

use vstd::prelude::*;

use crate::any::Any;
use crate::error::Error;
use crate::header::Header;
use crate::tag::Tag;

verus! {

/// A fixed tag associated with a type.
pub trait Tagged {
    /// The tag this type expects and writes.
    spec fn spec_tag() -> Tag;

    /// Executable twin of [`Tagged::spec_tag`].
    fn tag() -> (t: Tag)
        ensures
            t == Self::spec_tag(),
    ;
}

/// Decoding from an already-materialized borrowed unit, driven purely by
/// the header and content handed in.  Implicit tag substitution relies
/// on this: the caller may hand a header whose tag was replaced.
pub trait FromAny: View + Sized {
    /// What decoding yields for a given header and content.
    spec fn spec_from_any(h: Header, data: Seq<u8>) -> Result<Self::V, Error>;

    /// Decode one unit.  The result is exactly what the specification
    /// says for the unit's header and content, error kind included.
    fn from_any(any: &Any<'_>) -> (r: Result<Self, Error>)
        ensures
            match r {
                Ok(v) => Self::spec_from_any(any.header, any.data@) == Ok::<Self::V, Error>(v@),
                Err(e) => Self::spec_from_any(any.header, any.data@) == Err::<Self::V, Error>(e),
            },
    ;
}

/// The permissive parse contract: indefinite lengths and non-minimal
/// encodings are accepted.
pub trait FromBer: View + Sized {
    /// What parsing at `pos` yields, as value-view and new position.
    spec fn spec_from_ber(s: Seq<u8>, pos: int) -> Result<(Self::V, int), Error>;

    /// Parse one value at `pos`.  On success the cursor strictly
    /// advances and never passes the end of the input.
    fn from_ber(input: &[u8], pos: usize) -> (r: Result<(Self, usize), Error>)
        requires
            pos <= input@.len(),
        ensures
            match r {
                Ok((v, p)) => Self::spec_from_ber(input@, pos as int)
                    == Ok::<(Self::V, int), Error>((v@, p as int)) && pos < p <= input@.len(),
                Err(e) => Self::spec_from_ber(input@, pos as int)
                    == Err::<(Self::V, int), Error>(e),
            },
    ;
}

/// The canonical parse contract: any canonical-form violation in the
/// value's own encoding fails the parse with `NotCanonical`.
pub trait FromDer: View + Sized {
    /// What canonical parsing at `pos` yields.
    spec fn spec_from_der(s: Seq<u8>, pos: int) -> Result<(Self::V, int), Error>;

    /// Canonically parse one value at `pos`.
    fn from_der(input: &[u8], pos: usize) -> (r: Result<(Self, usize), Error>)
        requires
            pos <= input@.len(),
        ensures
            match r {
                Ok((v, p)) => Self::spec_from_der(input@, pos as int)
                    == Ok::<(Self::V, int), Error>((v@, p as int)) && pos < p <= input@.len(),
                Err(e) => Self::spec_from_der(input@, pos as int)
                    == Err::<(Self::V, int), Error>(e),
            },
    ;
}

/// The canonical-form check on a materialized unit, without fully
/// decoding its value.
pub trait CheckDerConstraints {
    /// What the check decides for a given header and content.
    spec fn spec_check_der(h: Header, data: Seq<u8>) -> Result<(), Error>;

    /// Check one unit.
    fn check_constraints(any: &Any<'_>) -> (r: Result<(), Error>)
        ensures
            r == Self::spec_check_der(any.header, any.data@),
    ;
}

/// The three-phase serialization contract: the content length is
/// computable first, then the header and the content can each stream to
/// the output sink.  Serialization is always canonical, whatever parse
/// produced the value.
pub trait ToDer: View {
    /// The content bytes of the value.
    spec fn spec_der_content(v: Self::V) -> Seq<u8>;

    /// The header bytes of the value: always the minimal encoding, with
    /// the length recomputed from the content.
    spec fn spec_der_header(v: Self::V) -> Seq<u8>;

    /// The total number of bytes `write_der` would emit; fails with
    /// `InvalidLength` exactly when that count cannot be represented.
    fn to_der_len(&self) -> (r: Result<usize, Error>)
        ensures
            match r {
                Ok(n) => n as nat == Self::spec_der_header(self@).len()
                    + Self::spec_der_content(self@).len(),
                Err(e) => e == Error::InvalidLength
                    && Self::spec_der_header(self@).len()
                    + Self::spec_der_content(self@).len() > usize::MAX,
            },
    ;

    /// Appends the header bytes; fails with `InvalidLength` exactly when
    /// the content length cannot be represented in a length field.
    fn write_der_header(&self, out: &mut Vec<u8>) -> (r: Result<usize, Error>)
        ensures
            match r {
                Ok(n) => final(out)@ == old(out)@ + Self::spec_der_header(self@)
                    && n as nat == Self::spec_der_header(self@).len(),
                Err(e) => e == Error::InvalidLength
                    && Self::spec_der_content(self@).len() > usize::MAX,
            },
    ;

    /// Appends the content bytes; fails with `InvalidLength` exactly
    /// when the content length cannot be represented.
    fn write_der_content(&self, out: &mut Vec<u8>) -> (r: Result<usize, Error>)
        ensures
            match r {
                Ok(n) => final(out)@ == old(out)@ + Self::spec_der_content(self@)
                    && n as nat == Self::spec_der_content(self@).len(),
                Err(e) => e == Error::InvalidLength
                    && Self::spec_der_content(self@).len() > usize::MAX,
            },
    ;

    /// The full serialization as a fresh vector: header then content.
    fn to_der_vec(&self) -> (r: Result<Vec<u8>, Error>)
        ensures
            match r {
                Ok(v) => v@ == Self::spec_der_header(self@) + Self::spec_der_content(self@),
                Err(e) => e == Error::InvalidLength
                    && Self::spec_der_content(self@).len() > usize::MAX,
            },
    ;
}

/// The full serialization of a value's view: header bytes then content
/// bytes, what `to_der_vec` returns.
pub open spec fn spec_to_der_of<T: ToDer>(v: T::V) -> Seq<u8> {
    T::spec_der_header(v) + T::spec_der_content(v)
}

/// Any two serializations of equal values are byte-identical: the
/// output of `to_der_vec` is a function of the value's view alone, so
/// serializing the same value twice yields the same bytes.
pub proof fn lemma_serialize_idempotent<T: ToDer>(b1: Seq<u8>, b2: Seq<u8>, v: T::V)
    requires
        b1 == spec_to_der_of::<T>(v),
        b2 == spec_to_der_of::<T>(v),
    ensures
        b1 == b2,
{
}

} // verus!
