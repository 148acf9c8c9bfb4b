//! The header of a TLV unit: class, constructed flag, tag and length,
//! with its identifier-byte encoding, the permissive and canonical
//! parsers, the always-minimal writer, and the round-trip lemmas.

use vstd::prelude::*;

use crate::encoding::{
    lemma_base128_hi_first_not_bare, lemma_parse_base128_round_trip, parse_base128,
    spec_base128, spec_base128_hi, spec_parse_base128, write_base128,
};
use crate::error::Error;
use crate::length::{
    parse_length_ber, parse_length_der, spec_len_bytes, spec_parse_length_ber,
    spec_parse_length_der, Length,
};
use crate::tag::{Class, Tag};

verus! {

/// The identifier bytes of a header: one byte carrying class, the
/// constructed flag and a tag below 31, else a lead byte with the low
/// five bits set followed by the minimal base-128 bytes of the tag.
pub open spec fn spec_identifier(class: Class, constructed: bool, tag: u32) -> Seq<u8> {
    let lead: int = class.spec_bits() + if constructed { 32int } else { 0int };
    if tag < 31 {
        seq![(lead + tag) as u8]
    } else {
        seq![(lead + 31) as u8] + spec_base128(tag as nat)
    }
}

/// Permissive parse of the identifier bytes: any terminating long form
/// whose value fits a `u32` is accepted, minimal or not.
pub open spec fn spec_parse_identifier_ber(s: Seq<u8>, pos: int) -> Result<
    ((Class, bool, u32), int),
    Error,
> {
    if pos < 0 || pos >= s.len() {
        Err(Error::MalformedHeader)
    } else {
        let b = s[pos];
        let class = Class::spec_of_byte(b);
        let constructed = (b / 32) % 2 == 1;
        let low = b % 32;
        if low < 31 {
            Ok(((class, constructed, low as u32), pos + 1))
        } else {
            match spec_parse_base128(s, pos + 1, 0) {
                Ok((t, p)) => Ok(((class, constructed, t), p)),
                Err(e) => Err(e),
            }
        }
    }
}

/// Canonical parse of the identifier bytes: additionally rejects a long
/// form that starts with a bare continuation byte or that carries a tag
/// the short form could carry.
pub open spec fn spec_parse_identifier_der(s: Seq<u8>, pos: int) -> Result<
    ((Class, bool, u32), int),
    Error,
> {
    if pos < 0 || pos >= s.len() {
        Err(Error::MalformedHeader)
    } else {
        let b = s[pos];
        let class = Class::spec_of_byte(b);
        let constructed = (b / 32) % 2 == 1;
        let low = b % 32;
        if low < 31 {
            Ok(((class, constructed, low as u32), pos + 1))
        } else if pos + 1 >= s.len() {
            Err(Error::MalformedHeader)
        } else if s[pos + 1] == 128 {
            Err(Error::NotCanonical)
        } else {
            match spec_parse_base128(s, pos + 1, 0) {
                Ok((t, p)) => if t < 31 {
                    Err(Error::NotCanonical)
                } else {
                    Ok(((class, constructed, t), p))
                },
                Err(e) => Err(e),
            }
        }
    }
}

/// Exact-mirror executable permissive identifier parse.
pub fn parse_identifier_ber(input: &[u8], pos: usize) -> (r: Result<((Class, bool, u32), usize), Error>)
    ensures
        match r {
            Ok((v, p)) => spec_parse_identifier_ber(input@, pos as int)
                == Ok::<((Class, bool, u32), int), Error>((v, p as int)) && pos < p <= input@.len(),
            Err(e) => spec_parse_identifier_ber(input@, pos as int)
                == Err::<((Class, bool, u32), int), Error>(e),
        },
{
    if pos >= input.len() {
        return Err(Error::MalformedHeader);
    }
    let b = input[pos];
    let class = Class::of_byte(b);
    let constructed = (b / 32) % 2 == 1;
    let low = b % 32;
    if low < 31 {
        Ok(((class, constructed, low as u32), pos + 1))
    } else {
        match parse_base128(input, pos + 1, 0) {
            Ok((t, p)) => Ok(((class, constructed, t), p)),
            Err(e) => Err(e),
        }
    }
}

/// Exact-mirror executable canonical identifier parse.
pub fn parse_identifier_der(input: &[u8], pos: usize) -> (r: Result<((Class, bool, u32), usize), Error>)
    ensures
        match r {
            Ok((v, p)) => spec_parse_identifier_der(input@, pos as int)
                == Ok::<((Class, bool, u32), int), Error>((v, p as int)) && pos < p <= input@.len(),
            Err(e) => spec_parse_identifier_der(input@, pos as int)
                == Err::<((Class, bool, u32), int), Error>(e),
        },
{
    if pos >= input.len() {
        return Err(Error::MalformedHeader);
    }
    let b = input[pos];
    let class = Class::of_byte(b);
    let constructed = (b / 32) % 2 == 1;
    let low = b % 32;
    if low < 31 {
        Ok(((class, constructed, low as u32), pos + 1))
    } else if pos + 1 >= input.len() {
        Err(Error::MalformedHeader)
    } else if input[pos + 1] == 128 {
        Err(Error::NotCanonical)
    } else {
        match parse_base128(input, pos + 1, 0) {
            Ok((t, p)) => if t < 31 {
                Err(Error::NotCanonical)
            } else {
                Ok(((class, constructed, t), p))
            },
            Err(e) => Err(e),
        }
    }
}

/// Appends the minimal identifier bytes.
pub fn write_identifier(class: Class, constructed: bool, tag: Tag, out: &mut Vec<u8>)
    ensures
        final(out)@ == old(out)@ + spec_identifier(class, constructed, tag.0),
{
    let lead: u8 = class.bits() + if constructed { 32 } else { 0 };
    if tag.0 < 31 {
        out.push(lead + tag.0 as u8);
    } else {
        out.push(lead + 31);
        write_base128(tag.0 as u64, out);
    }
}

/// A decoded header: purely descriptive, it owns no content.
#[derive(Clone, Copy, Debug, PartialEq, Eq, Structural)]
pub struct Header {
    pub class: Class,
    pub constructed: bool,
    pub tag: Tag,
    pub length: Length,
}

/// The full encoding of a header: identifier bytes then length bytes,
/// both always in their minimal form.
pub open spec fn spec_header_bytes(h: Header) -> Seq<u8> {
    spec_identifier(h.class, h.constructed, h.tag.0) + spec_len_bytes(h.length)
}

/// Permissive parse of a full header.
pub open spec fn spec_parse_header_ber(s: Seq<u8>, pos: int) -> Result<(Header, int), Error> {
    match spec_parse_identifier_ber(s, pos) {
        Err(e) => Err(e),
        Ok(((class, constructed, tag), p)) => match spec_parse_length_ber(s, p) {
            Err(e) => Err(e),
            Ok((l, p2)) => Ok((
                Header { class, constructed, tag: Tag(tag), length: l },
                p2,
            )),
        },
    }
}

/// Canonical parse of a full header.
pub open spec fn spec_parse_header_der(s: Seq<u8>, pos: int) -> Result<(Header, int), Error> {
    match spec_parse_identifier_der(s, pos) {
        Err(e) => Err(e),
        Ok(((class, constructed, tag), p)) => match spec_parse_length_der(s, p) {
            Err(e) => Err(e),
            Ok((l, p2)) => Ok((
                Header { class, constructed, tag: Tag(tag), length: l },
                p2,
            )),
        },
    }
}

impl Header {
    /// A header built from its four parts.
    pub fn new(class: Class, constructed: bool, tag: Tag, length: Length) -> (h: Header)
        ensures
            h == (Header { class, constructed, tag, length }),
    {
        Header { class, constructed, tag, length }
    }

    /// A primitive universal header with zero length.
    pub fn new_simple(tag: Tag) -> (h: Header)
        ensures
            h == (Header {
                class: Class::Universal,
                constructed: false,
                tag,
                length: Length::Definite(0),
            }),
    {
        Header { class: Class::Universal, constructed: false, tag, length: Length::Definite(0) }
    }

    /// The header's tag.
    pub fn tag(&self) -> (t: Tag)
        ensures
            t == self.tag,
    {
        self.tag
    }

    /// Fails with `UnexpectedTag` unless the header carries `tag`.
    pub fn assert_tag(&self, tag: Tag) -> (r: Result<(), Error>)
        ensures
            r == if self.tag == tag {
                Ok::<(), Error>(())
            } else {
                Err::<(), Error>(Error::UnexpectedTag)
            },
    {
        self.tag.assert_eq(tag)
    }

    /// Fails with `UnexpectedClass` unless the header carries `class`.
    pub fn assert_class(&self, class: Class) -> (r: Result<(), Error>)
        ensures
            r == if self.class == class {
                Ok::<(), Error>(())
            } else {
                Err::<(), Error>(Error::UnexpectedClass)
            },
    {
        self.class.assert_eq(class)
    }

    /// Fails with `ConstructedExpected` unless the constructed flag is set.
    pub fn assert_constructed(&self) -> (r: Result<(), Error>)
        ensures
            r == if self.constructed {
                Ok::<(), Error>(())
            } else {
                Err::<(), Error>(Error::ConstructedExpected)
            },
    {
        if self.constructed {
            Ok(())
        } else {
            Err(Error::ConstructedExpected)
        }
    }

    /// The canonical-form check on a materialized header.  Only the
    /// indefinite marker is visible here: a header value keeps no record
    /// of a non-minimal encoding, which the canonical parser rejects on
    /// the way in.
    pub fn canonical_check(&self) -> (r: Result<(), Error>)
        ensures
            r == if self.length is Definite {
                Ok::<(), Error>(())
            } else {
                Err::<(), Error>(Error::NotCanonical)
            },
    {
        self.length.assert_definite()
    }

    /// Permissive header parse at `pos`.
    pub fn from_ber(input: &[u8], pos: usize) -> (r: Result<(Header, usize), Error>)
        ensures
            match r {
                Ok((h, p)) => spec_parse_header_ber(input@, pos as int)
                    == Ok::<(Header, int), Error>((h, p as int)) && pos < p <= input@.len(),
                Err(e) => spec_parse_header_ber(input@, pos as int) == Err::<(Header, int), Error>(e),
            },
    {
        match parse_identifier_ber(input, pos) {
            Err(e) => Err(e),
            Ok(((class, constructed, tag), p)) => match parse_length_ber(input, p) {
                Err(e) => Err(e),
                Ok((l, p2)) => Ok((
                    Header { class, constructed, tag: Tag(tag), length: l },
                    p2,
                )),
            },
        }
    }

    /// Canonical header parse at `pos`: rejects every non-minimal tag or
    /// length form and the indefinite marker with `NotCanonical`.
    pub fn from_der(input: &[u8], pos: usize) -> (r: Result<(Header, usize), Error>)
        ensures
            match r {
                Ok((h, p)) => spec_parse_header_der(input@, pos as int)
                    == Ok::<(Header, int), Error>((h, p as int)) && pos < p <= input@.len()
                    && h.length is Definite,
                Err(e) => spec_parse_header_der(input@, pos as int) == Err::<(Header, int), Error>(e),
            },
    {
        match parse_identifier_der(input, pos) {
            Err(e) => Err(e),
            Ok(((class, constructed, tag), p)) => match parse_length_der(input, p) {
                Err(e) => Err(e),
                Ok((l, p2)) => Ok((
                    Header { class, constructed, tag: Tag(tag), length: l },
                    p2,
                )),
            },
        }
    }

    /// Appends the minimal encoding of this header, whatever way the
    /// header was built.
    pub fn write_der(&self, out: &mut Vec<u8>)
        ensures
            final(out)@ == old(out)@ + spec_header_bytes(*self),
    {
        write_identifier(self.class, self.constructed, self.tag, out);
        self.length.write_der(out);
    }

    /// The minimal encoding of this header as a fresh vector.
    pub fn to_der_vec(&self) -> (r: Vec<u8>)
        ensures
            r@ == spec_header_bytes(*self),
    {
        let mut v: Vec<u8> = Vec::new();
        self.write_der(&mut v);
        v
    }

    /// The number of bytes `write_der` emits for this header: at most
    /// six identifier bytes and nine length bytes.
    pub fn der_len(&self) -> (n: usize)
        ensures
            n as nat == spec_header_bytes(*self).len(),
            1 <= n <= 15,
    {
        let id_len: usize = if self.tag.0 < 31 {
            1
        } else {
            1 + crate::encoding::base128_len(self.tag.0 as u64)
        };
        let len_len: usize = match self.length {
            Length::Indefinite => 1,
            Length::Definite(n) => if n < 128 {
                1
            } else {
                1 + crate::encoding::be_len(n as u64)
            },
        };
        id_len + len_len
    }
}

/// The minimal identifier bytes, followed by anything, parse back to the
/// same class, flag and tag under both profiles.
pub proof fn lemma_parse_identifier_round_trip(s: Seq<u8>, pos: int, class: Class, constructed: bool, tag: u32)
    requires
        0 <= pos,
        pos + spec_identifier(class, constructed, tag).len() <= s.len(),
        s.subrange(pos, pos + spec_identifier(class, constructed, tag).len())
            =~= spec_identifier(class, constructed, tag),
    ensures
        spec_parse_identifier_der(s, pos)
            == Ok::<((Class, bool, u32), int), Error>((
            (class, constructed, tag),
            pos + spec_identifier(class, constructed, tag).len(),
        )),
        spec_parse_identifier_ber(s, pos)
            == Ok::<((Class, bool, u32), int), Error>((
            (class, constructed, tag),
            pos + spec_identifier(class, constructed, tag).len(),
        )),
{
    let enc = spec_identifier(class, constructed, tag);
    let cb = class.spec_bits();
    let lead: int = cb + if constructed { 32int } else { 0int };
    assert(s.subrange(pos, pos + enc.len() as int)[0] == s[pos]);
    let b = s[pos];
    if tag < 31 {
        assert(b == (lead + tag) as u8);
        assert(Class::spec_of_byte(b) == class);
        assert((b / 32) % 2 == 1 <==> constructed);
        assert(b % 32 == tag);
    } else {
        assert(b == (lead + 31) as u8);
        assert(Class::spec_of_byte(b) == class);
        assert((b / 32) % 2 == 1 <==> constructed);
        assert(b % 32 == 31);
        let t128 = spec_base128(tag as nat);
        assert(enc == seq![(lead + 31) as u8] + t128);
        assert(s.subrange(pos + 1, pos + 1 + t128.len() as int) =~= t128) by {
            assert forall|i: int| 0 <= i < t128.len() implies
                s.subrange(pos + 1, pos + 1 + t128.len() as int)[i] == t128[i] by {
                assert(s.subrange(pos, pos + enc.len() as int)[i + 1] == s[pos + 1 + i]);
                assert(enc[i + 1] == t128[i]);
            }
        }
        lemma_parse_base128_round_trip(s, pos + 1, tag);
        // the first base-128 byte is never the bare continuation marker
        assert(s.subrange(pos + 1, pos + 1 + t128.len() as int)[0] == s[pos + 1]);
        if tag >= 128 {
            lemma_base128_hi_first_not_bare((tag as nat) / 128);
            assert(t128[0] == spec_base128_hi((tag as nat) / 128)[0]);
            assert(s[pos + 1] != 128);
        } else {
            assert(spec_base128_hi((tag as nat) / 128) =~= Seq::<u8>::empty());
            assert(t128[0] == (tag as nat % 128) as u8);
            assert(s[pos + 1] == tag as u8);
            assert(s[pos + 1] != 128);
        }
    }
}

/// The minimal encoding of a header with a definite length, followed by
/// anything, parses back to the same header under both profiles.
pub proof fn lemma_parse_header_round_trip(s: Seq<u8>, pos: int, h: Header)
    requires
        0 <= pos,
        h.length is Definite,
        pos + spec_header_bytes(h).len() <= s.len(),
        s.subrange(pos, pos + spec_header_bytes(h).len()) =~= spec_header_bytes(h),
    ensures
        spec_parse_header_der(s, pos)
            == Ok::<(Header, int), Error>((h, pos + spec_header_bytes(h).len())),
        spec_parse_header_ber(s, pos)
            == Ok::<(Header, int), Error>((h, pos + spec_header_bytes(h).len())),
{
    let ident = spec_identifier(h.class, h.constructed, h.tag.0);
    let lenb = spec_len_bytes(h.length);
    let n = h.length->Definite_0;
    assert(spec_header_bytes(h) == ident + lenb);
    assert(s.subrange(pos, pos + ident.len() as int) =~= ident) by {
        assert forall|i: int| 0 <= i < ident.len() implies
            s.subrange(pos, pos + ident.len() as int)[i] == ident[i] by {
            assert(s.subrange(pos, pos + spec_header_bytes(h).len() as int)[i] == s[pos + i]);
        }
    }
    lemma_parse_identifier_round_trip(s, pos, h.class, h.constructed, h.tag.0);
    let p = pos + ident.len();
    assert(s.subrange(p, p + lenb.len() as int) =~= lenb) by {
        assert forall|i: int| 0 <= i < lenb.len() implies
            s.subrange(p, p + lenb.len() as int)[i] == lenb[i] by {
            assert(s.subrange(pos, pos + spec_header_bytes(h).len() as int)[ident.len() + i]
                == s[p + i]);
            assert(spec_header_bytes(h)[ident.len() + i] == lenb[i]);
        }
    }
    crate::length::lemma_parse_length_round_trip(s, p, n);
    assert(h == (Header {
        class: h.class,
        constructed: h.constructed,
        tag: Tag(h.tag.0),
        length: Length::Definite(n),
    }));
}

/// Minimality of the header writer: a tag below 31 takes one identifier
/// byte, and a length below 128 takes one length byte.
pub proof fn lemma_header_write_minimal(h: Header)
    ensures
        h.tag.0 < 31 ==> spec_identifier(h.class, h.constructed, h.tag.0).len() == 1,
        h.length matches Length::Definite(n) && n < 128 ==> spec_len_bytes(h.length).len() == 1,
{
}

} // verus!
