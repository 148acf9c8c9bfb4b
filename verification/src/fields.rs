//! The field-by-field structure decoder: a structure is described by an
//! ordered list of field descriptors, each optionally marked optional
//! and optionally tag-wrapped, and its content is decoded field by
//! field in declaration order, threading one cursor through the shared
//! content slice.  Lookahead for an optional field parses from the
//! same offset as the real parse and consumes nothing on the absent
//! branch.

use vstd::prelude::*;

use crate::any::{spec_parse_any_ber, spec_parse_any_der, Any};
use crate::error::Error;
use crate::header::{spec_parse_header_ber, spec_parse_header_der, Header};
use crate::tag::{Class, Tag, TAG_SEQUENCE};
use crate::tagged::Asn1TagKind;

verus! {

/// The two parsing strictness levels.
#[derive(Copy, Clone, Debug, PartialEq, Eq, Structural)]
pub enum Asn1Profile {
    Ber,
    Der,
}

/// One field of a structure: whether it may be absent, an optional
/// tag wrapping with its context-specific substitute tag number, and
/// the tag the field's own type carries.
#[derive(Copy, Clone, Debug, PartialEq, Eq)]
pub struct FieldDescriptor {
    pub optional: bool,
    pub tag: Option<(Asn1TagKind, u32)>,
    pub field_tag: Tag,
}

/// One unit parse under the selected profile.
pub open spec fn spec_parse_any_profile(profile: Asn1Profile, s: Seq<u8>, pos: int) -> Result<
    ((Header, Seq<u8>), int),
    Error,
> {
    if profile == Asn1Profile::Ber {
        spec_parse_any_ber(s, pos)
    } else {
        spec_parse_any_der(s, pos)
    }
}

/// One header parse under the selected profile, for lookahead.
pub open spec fn spec_parse_header_profile(profile: Asn1Profile, s: Seq<u8>, pos: int) -> Result<
    (Header, int),
    Error,
> {
    if profile == Asn1Profile::Ber {
        spec_parse_header_ber(s, pos)
    } else {
        spec_parse_header_der(s, pos)
    }
}

/// The unit a present field yields once its wrapping is removed: the
/// unit itself for an unwrapped field, the nested unit for an explicit
/// wrapper, and the outer unit with the field's own tag substituted
/// for an implicit wrapper.
pub open spec fn spec_unwrap_field(
    d: FieldDescriptor,
    profile: Asn1Profile,
    h: Header,
    data: Seq<u8>,
) -> Result<(Header, Seq<u8>), Error> {
    match d.tag {
        None => Ok((h, data)),
        Some((kind, n)) => if h.tag != Tag(n) {
            Err(Error::UnexpectedTag)
        } else if h.class != Class::ContextSpecific {
            Err(Error::UnexpectedClass)
        } else if kind == Asn1TagKind::Explicit {
            if !h.constructed {
                Err(Error::ConstructedExpected)
            } else {
                match spec_parse_any_profile(profile, data, 0) {
                    Err(e) => Err(e),
                    Ok((unit, _)) => Ok(unit),
                }
            }
        } else {
            Ok((
                Header { class: h.class, constructed: h.constructed, tag: d.field_tag, length: h.length },
                data,
            ))
        },
    }
}

/// The tag the lookahead expects for a field: the substitute tag where
/// the field is wrapped, else the field type's own tag.
pub open spec fn spec_expected_tag(d: FieldDescriptor) -> Tag {
    match d.tag {
        None => d.field_tag,
        Some((_, n)) => Tag(n),
    }
}

/// One field parsed at `pos`: `None` with the cursor unmoved when an
/// optional field is absent — on empty input immediately, else when
/// the peeked header's tag differs from the expected one — and the
/// unwrapped unit with the advanced cursor when present.
pub open spec fn spec_parse_field(
    s: Seq<u8>,
    pos: int,
    d: FieldDescriptor,
    profile: Asn1Profile,
) -> Result<(Option<(Header, Seq<u8>)>, int), Error> {
    if d.optional {
        if pos == s.len() {
            Ok((None, pos))
        } else {
            match spec_parse_header_profile(profile, s, pos) {
                Err(e) => Err(e),
                Ok((h, _)) => if h.tag == spec_expected_tag(d) {
                    match spec_parse_any_profile(profile, s, pos) {
                        Err(e) => Err(e),
                        Ok(((h2, data), p)) => match spec_unwrap_field(d, profile, h2, data) {
                            Err(e) => Err(e),
                            Ok(unit) => Ok((Some(unit), p)),
                        },
                    }
                } else {
                    Ok((None, pos))
                },
            }
        }
    } else {
        match spec_parse_any_profile(profile, s, pos) {
            Err(e) => Err(e),
            Ok(((h, data), p)) => match spec_unwrap_field(d, profile, h, data) {
                Err(e) => Err(e),
                Ok(unit) => Ok((Some(unit), p)),
            },
        }
    }
}

/// All fields parsed in declaration order from `pos`, the cursor
/// threaded from one field to the next.
pub open spec fn spec_parse_fields(
    s: Seq<u8>,
    pos: int,
    descs: Seq<FieldDescriptor>,
    profile: Asn1Profile,
) -> Result<(Seq<Option<(Header, Seq<u8>)>>, int), Error>
    decreases descs.len(),
{
    if descs.len() == 0 {
        Ok((Seq::empty(), pos))
    } else {
        match spec_parse_field(s, pos, descs[0], profile) {
            Err(e) => Err(e),
            Ok((unit, p)) => match spec_parse_fields(s, p, descs.skip(1), profile) {
                Err(e) => Err(e),
                Ok((rest, p2)) => Ok((seq![unit] + rest, p2)),
            },
        }
    }
}

/// The view of a parsed field: its unwrapped header and content.
pub open spec fn spec_field_view(o: Option<Any<'_>>) -> Option<(Header, Seq<u8>)> {
    match o {
        Some(a) => Some((a.header, a.data@)),
        None => None,
    }
}

/// Exact-mirror executable parse of one unit under a profile.
fn parse_any_profile<'a>(profile: Asn1Profile, input: &'a [u8], pos: usize) -> (r: Result<
    (Any<'a>, usize),
    Error,
>)
    ensures
        match r {
            Ok((any, p)) => spec_parse_any_profile(profile, input@, pos as int)
                == Ok::<((Header, Seq<u8>), int), Error>(((any.header, any.data@), p as int))
                && pos < p <= input@.len(),
            Err(e) => spec_parse_any_profile(profile, input@, pos as int)
                == Err::<((Header, Seq<u8>), int), Error>(e),
        },
{
    match profile {
        Asn1Profile::Ber => Any::from_ber(input, pos),
        Asn1Profile::Der => Any::from_der(input, pos),
    }
}

/// Exact-mirror executable parse of one field.
pub fn parse_field<'a>(
    input: &'a [u8],
    pos: usize,
    d: &FieldDescriptor,
    profile: Asn1Profile,
) -> (r: Result<(Option<Any<'a>>, usize), Error>)
    requires
        pos <= input@.len(),
    ensures
        match r {
            Ok((unit, p)) => spec_parse_field(input@, pos as int, *d, profile)
                == Ok::<(Option<(Header, Seq<u8>)>, int), Error>((
                spec_field_view(unit),
                p as int,
            )) && pos <= p <= input@.len(),
            Err(e) => spec_parse_field(input@, pos as int, *d, profile)
                == Err::<(Option<(Header, Seq<u8>)>, int), Error>(e),
        },
{
    if d.optional {
        if pos == input.len() {
            return Ok((None, pos));
        }
        let peek = match profile {
            Asn1Profile::Ber => Header::from_ber(input, pos),
            Asn1Profile::Der => Header::from_der(input, pos),
        };
        match peek {
            Err(e) => Err(e),
            Ok((h, _)) => {
                let expected = match d.tag {
                    None => d.field_tag,
                    Some((_, n)) => Tag(n),
                };
                if h.tag.0 == expected.0 {
                    match parse_present_field(input, pos, d, profile) {
                        Err(e) => Err(e),
                        Ok((unit, p)) => Ok((Some(unit), p)),
                    }
                } else {
                    Ok((None, pos))
                }
            }
        }
    } else {
        match parse_present_field(input, pos, d, profile) {
            Err(e) => Err(e),
            Ok((unit, p)) => Ok((Some(unit), p)),
        }
    }
}

/// The real parse of a field known to be present: one unit, then the
/// wrapping removed per the descriptor.
fn parse_present_field<'a>(
    input: &'a [u8],
    pos: usize,
    d: &FieldDescriptor,
    profile: Asn1Profile,
) -> (r: Result<(Any<'a>, usize), Error>)
    ensures
        match r {
            Ok((unit, p)) => (match spec_parse_any_profile(profile, input@, pos as int) {
                Err(_) => false,
                Ok(((h, data), pp)) => spec_unwrap_field(*d, profile, h, data)
                    == Ok::<(Header, Seq<u8>), Error>((unit.header, unit.data@)) && pp == p as int,
            }) && pos < p <= input@.len(),
            Err(e) => (match spec_parse_any_profile(profile, input@, pos as int) {
                Err(e2) => e == e2,
                Ok(((h, data), _)) => spec_unwrap_field(*d, profile, h, data)
                    == Err::<(Header, Seq<u8>), Error>(e),
            }),
        },
{
    match parse_any_profile(profile, input, pos) {
        Err(e) => Err(e),
        Ok((any, p)) => match d.tag {
            None => Ok((any, p)),
            Some((kind, n)) => {
                match any.assert_tag(Tag(n)) {
                    Err(e) => return Err(e),
                    Ok(_) => {}
                }
                match any.assert_class(Class::ContextSpecific) {
                    Err(e) => return Err(e),
                    Ok(_) => {}
                }
                match kind {
                    Asn1TagKind::Explicit => {
                        match any.assert_constructed() {
                            Err(e) => return Err(e),
                            Ok(_) => {}
                        }
                        match parse_any_profile(profile, any.data, 0) {
                            Err(e) => Err(e),
                            Ok((inner, _)) => Ok((inner, p)),
                        }
                    }
                    Asn1TagKind::Implicit => {
                        let h2 = Header::new(
                            any.header.class,
                            any.header.constructed,
                            d.field_tag,
                            any.header.length,
                        );
                        Ok((Any::new(h2, any.data), p))
                    }
                }
            }
        },
    }
}

/// All fields of a structure's content parsed in declaration order.
#[verifier::rlimit(60)]
pub fn parse_fields<'a>(
    input: &'a [u8],
    descs: &Vec<FieldDescriptor>,
    profile: Asn1Profile,
) -> (r: Result<(Vec<Option<Any<'a>>>, usize), Error>)
    ensures
        match r {
            Ok((units, p)) => spec_parse_fields(input@, 0, descs@, profile)
                == Ok::<(Seq<Option<(Header, Seq<u8>)>>, int), Error>((
                units@.map_values(|o: Option<Any<'a>>| spec_field_view(o)),
                p as int,
            )) && p <= input@.len(),
            Err(e) => spec_parse_fields(input@, 0, descs@, profile)
                == Err::<(Seq<Option<(Header, Seq<u8>)>>, int), Error>(e),
        },
{
    let mut units: Vec<Option<Any<'a>>> = Vec::new();
    let mut pos: usize = 0;
    let mut i: usize = 0;
    proof {
        assert(Seq::<Option<Any<'a>>>::empty().map_values(|o: Option<Any<'a>>| spec_field_view(o))
            =~= Seq::<Option<(Header, Seq<u8>)>>::empty());
        assert(descs@.skip(0) =~= descs@);
    }
    loop
        invariant
            i <= descs@.len(),
            pos <= input@.len(),
            units@.len() == i,
            spec_parse_fields(input@, 0, descs@, profile) == match spec_parse_fields(
                input@,
                pos as int,
                descs@.skip(i as int),
                profile,
            ) {
                Ok((rest, p2)) => Ok::<(Seq<Option<(Header, Seq<u8>)>>, int), Error>((
                    units@.map_values(|o: Option<Any<'a>>| spec_field_view(o)) + rest,
                    p2,
                )),
                Err(e) => Err::<(Seq<Option<(Header, Seq<u8>)>>, int), Error>(e),
            },
        decreases descs@.len() - i,
    {
        if i == descs.len() {
            proof {
                assert(descs@.skip(i as int) =~= Seq::<FieldDescriptor>::empty());
                assert(units@.map_values(|o: Option<Any<'a>>| spec_field_view(o))
                    + Seq::<Option<(Header, Seq<u8>)>>::empty()
                    =~= units@.map_values(|o: Option<Any<'a>>| spec_field_view(o)));
            }
            return Ok((units, pos));
        }
        let d = descs[i];
        proof {
            assert(descs@.skip(i as int)[0] == descs@[i as int]);
            assert(descs@.skip(i as int).skip(1) =~= descs@.skip(i as int + 1));
        }
        match parse_field(input, pos, &d, profile) {
            Err(e) => {
                return Err(e);
            }
            Ok((unit, p)) => {
                let ghost prev = units@.map_values(|o: Option<Any<'a>>| spec_field_view(o));
                let ghost rest_r = spec_parse_fields(
                    input@,
                    p as int,
                    descs@.skip(i as int + 1),
                    profile,
                );
                units.push(unit);
                pos = p;
                i = i + 1;
                proof {
                    assert(units@.map_values(|o: Option<Any<'a>>| spec_field_view(o))
                        =~= prev + seq![spec_field_view(unit)]);
                    if let Ok((rest, p2)) = rest_r {
                        assert((prev + seq![spec_field_view(unit)]) + rest
                            =~= prev + (seq![spec_field_view(unit)] + rest));
                    }
                }
            }
        }
    }
}

/// A whole structure parsed at `pos`: the outer unit must carry the
/// SEQUENCE tag, and its content is decoded field by field.
pub open spec fn spec_parse_struct(
    s: Seq<u8>,
    pos: int,
    descs: Seq<FieldDescriptor>,
    profile: Asn1Profile,
) -> Result<(Seq<Option<(Header, Seq<u8>)>>, int), Error> {
    match spec_parse_any_profile(profile, s, pos) {
        Err(e) => Err(e),
        Ok(((h, data), p)) => if h.tag != Tag(TAG_SEQUENCE) {
            Err(Error::UnexpectedTag)
        } else {
            match spec_parse_fields(data, 0, descs, profile) {
                Err(e) => Err(e),
                Ok((units, _)) => Ok((units, p)),
            }
        },
    }
}

/// Parses a whole structure: the outer SEQUENCE unit, then each field
/// in declaration order from its content.
pub fn parse_struct<'a>(
    input: &'a [u8],
    pos: usize,
    descs: &Vec<FieldDescriptor>,
    profile: Asn1Profile,
) -> (r: Result<(Vec<Option<Any<'a>>>, usize), Error>)
    ensures
        match r {
            Ok((units, p)) => spec_parse_struct(input@, pos as int, descs@, profile)
                == Ok::<(Seq<Option<(Header, Seq<u8>)>>, int), Error>((
                units@.map_values(|o: Option<Any<'a>>| spec_field_view(o)),
                p as int,
            )) && pos < p <= input@.len(),
            Err(e) => spec_parse_struct(input@, pos as int, descs@, profile)
                == Err::<(Seq<Option<(Header, Seq<u8>)>>, int), Error>(e),
        },
{
    match parse_any_profile(profile, input, pos) {
        Err(e) => Err(e),
        Ok((any, p)) => {
            match any.assert_tag(Tag(TAG_SEQUENCE)) {
                Err(e) => return Err(e),
                Ok(_) => {}
            }
            match parse_fields(any.data, descs, profile) {
                Err(e) => Err(e),
                Ok((units, _)) => Ok((units, p)),
            }
        }
    }
}

/// Optional-field lookahead is non-destructive: whenever a field comes
/// out absent, the cursor after the field equals the cursor before it,
/// as if the field had been skipped entirely; in particular on empty
/// remaining input the field is absent immediately.
pub proof fn lemma_optional_absent_non_destructive(
    s: Seq<u8>,
    pos: int,
    d: FieldDescriptor,
    profile: Asn1Profile,
)
    ensures
        spec_parse_field(s, pos, d, profile) matches Ok((unit, p))
            ==> (unit is None ==> p == pos),
        d.optional && pos == s.len() ==> spec_parse_field(s, pos, d, profile)
            == Ok::<(Option<(Header, Seq<u8>)>, int), Error>((None, pos)),
{
}

} // verus!
