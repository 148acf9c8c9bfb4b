//! The length field of a header: definite or indefinite, with its short
//! and long encodings, their parsers for the permissive and canonical
//! profiles, and the round-trip and minimality lemmas.

use vstd::prelude::*;

use crate::encoding::{
    be_len, lemma_be_bytes_first_nonzero, lemma_be_bytes_len_u64, lemma_parse_be_digits,
    parse_be, spec_be_bytes, spec_parse_be, write_be_bytes,
};
use crate::error::Error;

verus! {

/// A content length: a definite byte count, or indefinite, where the
/// content runs to an end-of-contents marker.  Indefinite lengths are
/// only legal in the permissive profile, on constructed values.
#[derive(Clone, Copy, Debug, PartialEq, Eq, Structural)]
pub enum Length {
    Definite(usize),
    Indefinite,
}

/// The encoding of a length: one byte below 128 for a short definite
/// length, `0x80` for indefinite, else a count byte followed by the
/// minimal big-endian bytes of the value.  Always minimal.
pub open spec fn spec_len_bytes(l: Length) -> Seq<u8> {
    match l {
        Length::Indefinite => seq![128u8],
        Length::Definite(n) => if n < 128 {
            seq![n as u8]
        } else {
            seq![(128 + spec_be_bytes(n as nat).len()) as u8] + spec_be_bytes(n as nat)
        },
    }
}

/// Permissive parse of a length: accepts the indefinite marker and any
/// long form, minimal or not, whose value fits a `usize`.
pub open spec fn spec_parse_length_ber(s: Seq<u8>, pos: int) -> Result<(Length, int), Error> {
    if pos < 0 || pos >= s.len() {
        Err(Error::MalformedHeader)
    } else {
        let b = s[pos];
        if b < 128 {
            Ok((Length::Definite(b as usize), pos + 1))
        } else if b == 128 {
            Ok((Length::Indefinite, pos + 1))
        } else {
            match spec_parse_be(s, pos + 1, (b - 128) as nat, 0) {
                Ok((n, p)) => Ok((Length::Definite(n), p)),
                Err(e) => Err(e),
            }
        }
    }
}

/// Canonical parse of a length: rejects the indefinite marker, a long
/// form with a leading zero byte, and a long form holding a value that
/// the short form could carry.
pub open spec fn spec_parse_length_der(s: Seq<u8>, pos: int) -> Result<(Length, int), Error> {
    if pos < 0 || pos >= s.len() {
        Err(Error::MalformedHeader)
    } else {
        let b = s[pos];
        if b < 128 {
            Ok((Length::Definite(b as usize), pos + 1))
        } else if b == 128 {
            Err(Error::NotCanonical)
        } else if pos + 1 >= s.len() {
            Err(Error::MalformedHeader)
        } else if s[pos + 1] == 0 {
            Err(Error::NotCanonical)
        } else {
            match spec_parse_be(s, pos + 1, (b - 128) as nat, 0) {
                Ok((n, p)) => if n < 128 {
                    Err(Error::NotCanonical)
                } else {
                    Ok((Length::Definite(n), p))
                },
                Err(e) => Err(e),
            }
        }
    }
}

impl Length {
    /// Fails with `NotCanonical` unless the length is definite.
    pub fn assert_definite(&self) -> (r: Result<(), Error>)
        ensures
            r == if self is Definite {
                Ok::<(), Error>(())
            } else {
                Err::<(), Error>(Error::NotCanonical)
            },
    {
        match self {
            Length::Definite(_) => Ok(()),
            Length::Indefinite => Err(Error::NotCanonical),
        }
    }

    /// Appends the minimal encoding of this length.
    pub fn write_der(&self, out: &mut Vec<u8>)
        ensures
            final(out)@ == old(out)@ + spec_len_bytes(*self),
    {
        match self {
            Length::Indefinite => {
                out.push(128);
            }
            Length::Definite(n) => {
                if *n < 128 {
                    out.push(*n as u8);
                } else {
                    let k = be_len(*n as u64);
                    out.push(128 + k as u8);
                    write_be_bytes(*n as u64, out);
                }
            }
        }
    }

    /// The minimal encoding of this length as a fresh vector.
    pub fn to_der_vec(&self) -> (r: Vec<u8>)
        ensures
            r@ == spec_len_bytes(*self),
    {
        let mut v: Vec<u8> = Vec::new();
        self.write_der(&mut v);
        v
    }
}

/// Exact-mirror executable permissive length parse.
pub fn parse_length_ber(input: &[u8], pos: usize) -> (r: Result<(Length, usize), Error>)
    ensures
        match r {
            Ok((l, p)) => spec_parse_length_ber(input@, pos as int)
                == Ok::<(Length, int), Error>((l, p as int)) && pos < p <= input@.len(),
            Err(e) => spec_parse_length_ber(input@, pos as int) == Err::<(Length, int), Error>(e),
        },
{
    if pos >= input.len() {
        return Err(Error::MalformedHeader);
    }
    let b = input[pos];
    if b < 128 {
        Ok((Length::Definite(b as usize), pos + 1))
    } else if b == 128 {
        Ok((Length::Indefinite, pos + 1))
    } else {
        match parse_be(input, pos + 1, (b - 128) as usize, 0) {
            Ok((n, p)) => Ok((Length::Definite(n), p)),
            Err(e) => Err(e),
        }
    }
}

/// Exact-mirror executable canonical length parse.
pub fn parse_length_der(input: &[u8], pos: usize) -> (r: Result<(Length, usize), Error>)
    ensures
        match r {
            Ok((l, p)) => spec_parse_length_der(input@, pos as int)
                == Ok::<(Length, int), Error>((l, p as int)) && pos < p <= input@.len()
                && l is Definite,
            Err(e) => spec_parse_length_der(input@, pos as int) == Err::<(Length, int), Error>(e),
        },
{
    if pos >= input.len() {
        return Err(Error::MalformedHeader);
    }
    let b = input[pos];
    if b < 128 {
        Ok((Length::Definite(b as usize), pos + 1))
    } else if b == 128 {
        Err(Error::NotCanonical)
    } else if pos + 1 >= input.len() {
        Err(Error::MalformedHeader)
    } else if input[pos + 1] == 0 {
        Err(Error::NotCanonical)
    } else {
        match parse_be(input, pos + 1, (b - 128) as usize, 0) {
            Ok((n, p)) => if n < 128 {
                Err(Error::NotCanonical)
            } else {
                Ok((Length::Definite(n), p))
            },
            Err(e) => Err(e),
        }
    }
}

/// The minimal encoding of a definite length, followed by anything,
/// parses back to the same length under both profiles.
pub proof fn lemma_parse_length_round_trip(s: Seq<u8>, pos: int, n: usize)
    requires
        0 <= pos,
        pos + spec_len_bytes(Length::Definite(n)).len() <= s.len(),
        s.subrange(pos, pos + spec_len_bytes(Length::Definite(n)).len())
            =~= spec_len_bytes(Length::Definite(n)),
    ensures
        spec_parse_length_der(s, pos)
            == Ok::<(Length, int), Error>((
            Length::Definite(n),
            pos + spec_len_bytes(Length::Definite(n)).len(),
        )),
        spec_parse_length_ber(s, pos)
            == Ok::<(Length, int), Error>((
            Length::Definite(n),
            pos + spec_len_bytes(Length::Definite(n)).len(),
        )),
{
    let enc = spec_len_bytes(Length::Definite(n));
    if n < 128 {
        assert(s.subrange(pos, pos + 1)[0] == s[pos]);
        assert(s[pos] == n as u8);
    } else {
        let be = spec_be_bytes(n as nat);
        let k = be.len();
        lemma_be_bytes_len_u64(n as u64);
        assert(enc == seq![(128 + k) as u8] + be);
        assert(s.subrange(pos, pos + enc.len() as int)[0] == s[pos]);
        assert(s[pos] == (128 + k) as u8);
        let b = s[pos];
        assert(b > 128);
        assert((b - 128) as nat == k);
        // the big-endian digits sit right after the count byte
        assert(s.subrange(pos + 1, pos + 1 + k as int) =~= be) by {
            assert forall|i: int| 0 <= i < k implies
                s.subrange(pos + 1, pos + 1 + k as int)[i] == be[i] by {
                assert(s.subrange(pos, pos + enc.len() as int)[i + 1] == s[pos + 1 + i]);
                assert(enc[i + 1] == be[i]);
            }
        }
        lemma_be_bytes_first_nonzero(n as nat);
        assert(s.subrange(pos + 1, pos + 1 + k as int)[0] == s[pos + 1]);
        assert(s[pos + 1] != 0);
        assert(0 * crate::encoding::pow256(k) + n as nat == n as nat);
        lemma_parse_be_digits(s, pos + 1, n as nat, 0);
    }
}

/// Minimality of the length writer: the short form is used exactly for
/// values below 128, so one byte is emitted whenever one byte suffices.
pub proof fn lemma_len_bytes_minimal(n: usize)
    ensures
        n < 128 ==> spec_len_bytes(Length::Definite(n)) =~= seq![n as u8],
        n >= 128 ==> spec_len_bytes(Length::Definite(n)).len() > 1,
        spec_len_bytes(Length::Indefinite) =~= seq![128u8],
{
}

/// The canonical length parse rejects every non-minimal form: the
/// indefinite marker, a long form with a leading zero byte, and, since
/// every accepted long form carries a value of at least 128, any long
/// form whose value the short form could carry; whatever it accepts
/// took the short form exactly for values below 128.
pub proof fn lemma_der_length_rejects_non_minimal(s: Seq<u8>, pos: int)
    ensures
        0 <= pos < s.len() && s[pos] == 128 ==> spec_parse_length_der(s, pos)
            == Err::<(Length, int), Error>(Error::NotCanonical),
        0 <= pos < s.len() && s[pos] > 128 && pos + 1 < s.len() && s[pos + 1] == 0
            ==> spec_parse_length_der(s, pos) == Err::<(Length, int), Error>(Error::NotCanonical),
        spec_parse_length_der(s, pos) matches Ok((l, p))
            ==> (l matches Length::Definite(n) && (n < 128 <==> p == pos + 1)),
{
    if 0 <= pos < s.len() {
        let b = s[pos];
        if b > 128 && pos + 1 < s.len() && s[pos + 1] != 0 {
            crate::encoding::lemma_parse_be_value_bound(s, pos + 1, (b - 128) as nat, 0);
        }
    }
}

} // verus!
