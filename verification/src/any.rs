//! The borrowed unit: a decoded header plus a borrowed content slice,
//! the universal intermediate representation every decoder consumes or
//! produces.  The slice always borrows from the caller's input buffer;
//! nothing is copied.

use vstd::prelude::*;
use vstd::slice::slice_subrange;

use crate::error::Error;
use crate::header::{spec_header_bytes, spec_identifier, spec_parse_header_ber, spec_parse_header_der, Header};
use crate::length::{spec_len_bytes, Length};
use crate::tag::{Class, Tag};

verus! {

/// Scans sibling TLV units from `pos` for the end-of-contents marker of
/// an enclosing indefinite-length unit, skipping nested units, the
/// indefinite ones recursively.  Returns the marker's position and the
/// position just past it.  `fuel` bounds the recursion; one unit of it
/// is spent per unit skipped, so any fuel of at least the remaining
/// byte count never runs out before the input does.
pub open spec fn spec_find_eoc(s: Seq<u8>, pos: int, fuel: nat) -> Result<(int, int), Error>
    decreases fuel,
{
    if fuel == 0 {
        Err(Error::MalformedHeader)
    } else if pos + 2 <= s.len() && s[pos] == 0 && s[pos + 1] == 0 {
        Ok((pos, pos + 2))
    } else {
        match spec_parse_header_ber(s, pos) {
            Err(e) => Err(e),
            Ok((h, p)) => match h.length {
                Length::Definite(n) => if p + n > s.len() {
                    Err(Error::TruncatedInput)
                } else {
                    spec_find_eoc(s, p + n, (fuel - 1) as nat)
                },
                Length::Indefinite => if !h.constructed {
                    Err(Error::MalformedHeader)
                } else {
                    match spec_find_eoc(s, p, (fuel - 1) as nat) {
                        Err(e) => Err(e),
                        Ok((_, after)) => spec_find_eoc(s, after, (fuel - 1) as nat),
                    }
                },
            },
        }
    }
}

/// Permissive parse of one TLV unit: header, then exactly the declared
/// content bytes, or, under an indefinite length, the bytes up to and
/// excluding the matching end-of-contents marker.
pub open spec fn spec_parse_any_ber(s: Seq<u8>, pos: int) -> Result<((Header, Seq<u8>), int), Error> {
    match spec_parse_header_ber(s, pos) {
        Err(e) => Err(e),
        Ok((h, p)) => match h.length {
            Length::Definite(n) => if p + n > s.len() {
                Err(Error::TruncatedInput)
            } else {
                Ok(((h, s.subrange(p, p + n)), p + n))
            },
            Length::Indefinite => if !h.constructed {
                Err(Error::MalformedHeader)
            } else {
                match spec_find_eoc(s, p, (s.len() - p) as nat) {
                    Err(e) => Err(e),
                    Ok((ce, after)) => Ok(((h, s.subrange(p, ce)), after)),
                }
            },
        },
    }
}

/// Canonical parse of one TLV unit: a canonical header, which is always
/// definite, then exactly the declared content bytes.
pub open spec fn spec_parse_any_der(s: Seq<u8>, pos: int) -> Result<((Header, Seq<u8>), int), Error> {
    match spec_parse_header_der(s, pos) {
        Err(e) => Err(e),
        Ok((h, p)) => match h.length {
            Length::Definite(n) => if p + n > s.len() {
                Err(Error::TruncatedInput)
            } else {
                Ok(((h, s.subrange(p, p + n)), p + n))
            },
            Length::Indefinite => Err(Error::NotCanonical),
        },
    }
}

/// The serialization of a unit with its length recomputed from the
/// content, the way `to_der_vec` writes it.
pub open spec fn spec_any_to_der(h: Header, data: Seq<u8>) -> Seq<u8> {
    spec_identifier(h.class, h.constructed, h.tag.0)
        + spec_len_bytes(Length::Definite(data.len() as usize)) + data
}

/// The serialization of a unit with its header written exactly as
/// stored, even when the stored length disagrees with the content.
pub open spec fn spec_any_to_der_raw(h: Header, data: Seq<u8>) -> Seq<u8> {
    spec_header_bytes(h) + data
}

/// Exact-mirror executable end-of-contents scan.
fn find_eoc(input: &[u8], pos: usize, fuel: usize) -> (r: Result<(usize, usize), Error>)
    requires
        pos <= input@.len(),
    ensures
        match r {
            Ok((ce, after)) => spec_find_eoc(input@, pos as int, fuel as nat)
                == Ok::<(int, int), Error>((ce as int, after as int)) && pos <= ce
                && after == ce + 2 && after <= input@.len(),
            Err(e) => spec_find_eoc(input@, pos as int, fuel as nat) == Err::<(int, int), Error>(e),
        },
    decreases fuel,
{
    if fuel == 0 {
        return Err(Error::MalformedHeader);
    }
    if input.len() >= 2 && pos <= input.len() - 2 && input[pos] == 0 && input[pos + 1] == 0 {
        return Ok((pos, pos + 2));
    }
    match Header::from_ber(input, pos) {
        Err(e) => Err(e),
        Ok((h, p)) => match h.length {
            Length::Definite(n) => {
                if n > input.len() - p {
                    Err(Error::TruncatedInput)
                } else {
                    find_eoc(input, p + n, fuel - 1)
                }
            }
            Length::Indefinite => {
                if !h.constructed {
                    Err(Error::MalformedHeader)
                } else {
                    match find_eoc(input, p, fuel - 1) {
                        Err(e) => Err(e),
                        Ok((_, after)) => find_eoc(input, after, fuel - 1),
                    }
                }
            }
        },
    }
}

/// A decoded unit: a header and a borrowed view of its content bytes,
/// tied to the input buffer they were parsed from.
#[derive(Clone, Copy, Debug, PartialEq, Eq)]
pub struct Any<'a> {
    pub header: Header,
    pub data: &'a [u8],
}

impl<'a> Any<'a> {
    /// A unit built from a header and a borrowed content slice.
    pub fn new(header: Header, data: &'a [u8]) -> (r: Any<'a>)
        ensures
            r.header == header,
            r.data@ == data@,
    {
        Any { header, data }
    }

    /// The unit's tag.
    pub fn tag(&self) -> (t: Tag)
        ensures
            t == self.header.tag,
    {
        self.header.tag
    }

    /// Fails with `UnexpectedTag` unless the unit carries `tag`.
    pub fn assert_tag(&self, tag: Tag) -> (r: Result<(), Error>)
        ensures
            r == if self.header.tag == tag {
                Ok::<(), Error>(())
            } else {
                Err::<(), Error>(Error::UnexpectedTag)
            },
    {
        self.header.assert_tag(tag)
    }

    /// Fails with `UnexpectedClass` unless the unit carries `class`.
    pub fn assert_class(&self, class: Class) -> (r: Result<(), Error>)
        ensures
            r == if self.header.class == class {
                Ok::<(), Error>(())
            } else {
                Err::<(), Error>(Error::UnexpectedClass)
            },
    {
        self.header.assert_class(class)
    }

    /// Fails with `ConstructedExpected` unless the unit is constructed.
    pub fn assert_constructed(&self) -> (r: Result<(), Error>)
        ensures
            r == if self.header.constructed {
                Ok::<(), Error>(())
            } else {
                Err::<(), Error>(Error::ConstructedExpected)
            },
    {
        self.header.assert_constructed()
    }

    /// Permissive parse of one unit at `pos`, borrowing its content.
    pub fn from_ber(input: &'a [u8], pos: usize) -> (r: Result<(Any<'a>, usize), Error>)
        ensures
            match r {
                Ok((any, p)) => spec_parse_any_ber(input@, pos as int)
                    == Ok::<((Header, Seq<u8>), int), Error>(((any.header, any.data@), p as int))
                    && pos < p <= input@.len() && any.data@.len() <= p,
                Err(e) => spec_parse_any_ber(input@, pos as int)
                    == Err::<((Header, Seq<u8>), int), Error>(e),
            },
    {
        match Header::from_ber(input, pos) {
            Err(e) => Err(e),
            Ok((h, p)) => match h.length {
                Length::Definite(n) => {
                    if n > input.len() - p {
                        Err(Error::TruncatedInput)
                    } else {
                        let data = slice_subrange(input, p, p + n);
                        Ok((Any { header: h, data }, p + n))
                    }
                }
                Length::Indefinite => {
                    if !h.constructed {
                        Err(Error::MalformedHeader)
                    } else {
                        match find_eoc(input, p, input.len() - p) {
                            Err(e) => Err(e),
                            Ok((ce, after)) => {
                                let data = slice_subrange(input, p, ce);
                                Ok((Any { header: h, data }, after))
                            }
                        }
                    }
                }
            },
        }
    }

    /// Canonical parse of one unit at `pos`, borrowing its content.  The
    /// header must be in canonical form; its length is always definite.
    pub fn from_der(input: &'a [u8], pos: usize) -> (r: Result<(Any<'a>, usize), Error>)
        ensures
            match r {
                Ok((any, p)) => spec_parse_any_der(input@, pos as int)
                    == Ok::<((Header, Seq<u8>), int), Error>(((any.header, any.data@), p as int))
                    && pos < p <= input@.len() && any.data@.len() <= p
                    && any.header.length == Length::Definite(any.data@.len() as usize),
                Err(e) => spec_parse_any_der(input@, pos as int)
                    == Err::<((Header, Seq<u8>), int), Error>(e),
            },
    {
        match Header::from_der(input, pos) {
            Err(e) => Err(e),
            Ok((h, p)) => match h.length {
                Length::Definite(n) => {
                    if n > input.len() - p {
                        Err(Error::TruncatedInput)
                    } else {
                        let data = slice_subrange(input, p, p + n);
                        Ok((Any { header: h, data }, p + n))
                    }
                }
                Length::Indefinite => Err(Error::NotCanonical),
            },
        }
    }

    /// The shallow canonical-form check on a materialized unit: its
    /// length must be definite.  The canonical parser is what rejects
    /// non-minimal encodings on the way in.
    pub fn canonical_check(&self) -> (r: Result<(), Error>)
        ensures
            r == if self.header.length is Definite {
                Ok::<(), Error>(())
            } else {
                Err::<(), Error>(Error::NotCanonical)
            },
    {
        self.header.canonical_check()
    }

    /// Appends the unit with its length recomputed from the content.
    pub fn write_der(&self, out: &mut Vec<u8>)
        ensures
            final(out)@ == old(out)@ + spec_any_to_der(self.header, self.data@),
    {
        crate::header::write_identifier(self.header.class, self.header.constructed, self.header.tag, out);
        Length::Definite(self.data.len()).write_der(out);
        out.extend_from_slice(self.data);
        proof {
            assert(final(out)@ =~= old(out)@ + spec_any_to_der(self.header, self.data@));
        }
    }

    /// The unit serialized with its length recomputed from the content.
    pub fn to_der_vec(&self) -> (r: Vec<u8>)
        ensures
            r@ == spec_any_to_der(self.header, self.data@),
    {
        let mut v: Vec<u8> = Vec::new();
        self.write_der(&mut v);
        v
    }

    /// The unit serialized with the header exactly as stored, even when
    /// its stored length disagrees with the content.
    pub fn to_der_vec_raw(&self) -> (r: Vec<u8>)
        ensures
            r@ == spec_any_to_der_raw(self.header, self.data@),
    {
        let mut v: Vec<u8> = Vec::new();
        self.header.write_der(&mut v);
        v.extend_from_slice(self.data);
        proof {
            assert(v@ =~= spec_any_to_der_raw(self.header, self.data@));
        }
        v
    }
}

/// Round trip for a unit: serializing a header-and-content pair whose
/// length field matches the content, then parsing canonically, yields
/// the same pair, under both profiles.
pub proof fn lemma_parse_any_round_trip(s: Seq<u8>, pos: int, h: Header, data: Seq<u8>)
    requires
        0 <= pos,
        h.length == Length::Definite(data.len() as usize),
        data.len() <= usize::MAX,
        pos + spec_any_to_der(h, data).len() <= s.len(),
        s.subrange(pos, pos + spec_any_to_der(h, data).len()) =~= spec_any_to_der(h, data),
    ensures
        spec_parse_any_der(s, pos) == Ok::<((Header, Seq<u8>), int), Error>((
            (h, data),
            pos + spec_any_to_der(h, data).len(),
        )),
        spec_parse_any_ber(s, pos) == Ok::<((Header, Seq<u8>), int), Error>((
            (h, data),
            pos + spec_any_to_der(h, data).len(),
        )),
{
    let hb = spec_header_bytes(h);
    let enc = spec_any_to_der(h, data);
    assert(spec_len_bytes(Length::Definite(data.len() as usize)) == spec_len_bytes(h.length));
    assert(enc == hb + data);
    assert(s.subrange(pos, pos + hb.len() as int) =~= hb) by {
        assert forall|i: int| 0 <= i < hb.len() implies
            s.subrange(pos, pos + hb.len() as int)[i] == hb[i] by {
            assert(s.subrange(pos, pos + enc.len() as int)[i] == s[pos + i]);
            assert(enc[i] == hb[i]);
        }
    }
    crate::header::lemma_parse_header_round_trip(s, pos, h);
    let p = pos + hb.len();
    assert(s.subrange(p, p + data.len() as int) =~= data) by {
        assert forall|i: int| 0 <= i < data.len() implies
            s.subrange(p, p + data.len() as int)[i] == data[i] by {
            assert(s.subrange(pos, pos + enc.len() as int)[hb.len() + i] == s[p + i]);
            assert(enc[hb.len() + i] == data[i]);
        }
    }
}

} // verus!
