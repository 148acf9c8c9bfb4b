//! Decoding, canonical-form checking, the structure decoder, and the
//! behaviour the library promises of every value.

use asn1_rs::{
    canonical_check_elements, encode_base128, encode_oid_bytes, parse_field, parse_struct, Any,
    Asn1Profile, Asn1TagKind, Boolean, Class, Error, FieldDescriptor, FromAny, FromBer, FromDer, Header,
    Integer, Length, OctetString, Sequence, SetOf, Tag, ToDer,
};

#[test]
fn canonical_check_rejects_indefinite_and_long_zero() {
    // indefinite length: rejected by the canonical header parse and by
    // the check on a materialized header
    assert_eq!(Header::from_der(&[0x02, 0x80], 0), Err(Error::NotCanonical));
    let h = Header::new(Class::Universal, false, Tag(2), Length::Indefinite);
    assert_eq!(h.canonical_check(), Err(Error::NotCanonical));
    // a long-form length encoding zero must have used the short form
    assert_eq!(Header::from_der(&[0x02, 0x81, 0x00], 0), Err(Error::NotCanonical));
    // the permissive parse accepts the same long-form zero
    let (h, p) = Header::from_ber(&[0x02, 0x81, 0x00], 0).unwrap();
    assert_eq!(h.length, Length::Definite(0));
    assert_eq!(p, 3);
}

#[test]
fn canonical_check_rejects_non_minimal_forms() {
    // long-form length for a value the short form carries
    assert_eq!(Header::from_der(&[0x04, 0x81, 0x7f], 0), Err(Error::NotCanonical));
    // long-form length with a leading zero byte
    assert_eq!(
        Header::from_der(&[0x04, 0x82, 0x00, 0x81], 0),
        Err(Error::NotCanonical)
    );
    // long-form tag starting with a bare continuation byte
    assert_eq!(
        Header::from_der(&[0x1f, 0x80, 0x7f, 0x01], 0),
        Err(Error::NotCanonical)
    );
    // long-form tag for a value below 31
    assert_eq!(Header::from_der(&[0x1f, 0x1e, 0x01], 0), Err(Error::NotCanonical));
    // all four are accepted by the permissive parse
    assert!(Header::from_ber(&[0x04, 0x81, 0x7f], 0).is_ok());
    assert!(Header::from_ber(&[0x04, 0x82, 0x00, 0x81], 0).is_ok());
    assert!(Header::from_ber(&[0x1f, 0x80, 0x7f, 0x01], 0).is_ok());
    assert!(Header::from_ber(&[0x1f, 0x1e, 0x01], 0).is_ok());
}

#[test]
fn signed_reader_strips_zeros_before_taking_the_sign() {
    // the signed reader discounts leading zero bytes, then takes the
    // top bit of the next byte as the sign: a positive number whose
    // magnitude bytes set that bit reads back negative
    assert_eq!(Integer::new(&[0x00, 0xff]).as_i32(), Ok(-1));
    assert_eq!(Integer::new(&[0x00, 0xff]).as_u32(), Ok(255));
    // values whose magnitude bytes leave the bit clear round-trip
    assert_eq!(Integer::new(&[0x7f]).as_i32(), Ok(127));
    assert_eq!(Integer::new(&[0xfc]).as_i32(), Ok(-4));
    // more than four magnitude bytes never fit
    assert_eq!(
        Integer::new(&[0x01, 0x02, 0x03, 0x04, 0x05]).as_i32(),
        Err(Error::InvalidValueEncoding)
    );
    assert_eq!(Integer::new(&[0xff]).as_u32(), Err(Error::InvalidValueEncoding));
}

#[test]
fn two_byte_integer_content_reads_back_as_two() {
    // content 0x00, 0x02 holds the value 2 under a non-minimal form
    let int = Integer::new(&[0x00, 0x02]);
    assert_eq!(int.as_u32(), Ok(2));
    assert_eq!(int.as_i32(), Ok(2));
    // re-serializing through the numeric value is minimal again
    let v = Integer::from_u32(2).to_der_vec().unwrap();
    assert_eq!(&v, &[0x02, 0x01, 0x02]);
}

#[test]
fn sequence_of_three_integers_parses_back_in_order() {
    let items: Vec<i32> = vec![2, 3, 4];
    let seq = Sequence::from_iter_to_der(&items).unwrap();
    let v = seq.to_der_vec().unwrap();
    assert_eq!(
        &v,
        &[0x30, 0x09, 0x02, 0x01, 0x02, 0x02, 0x01, 0x03, 0x02, 0x01, 0x04]
    );
    let (seq2, _) = Sequence::from_der(&v, 0).unwrap();
    let elements: Vec<Integer> = seq2.der_elements().unwrap();
    let values: Vec<i32> = elements.iter().map(|i| i.as_i32().unwrap()).collect();
    assert_eq!(values, vec![2, 3, 4]);
}

#[test]
fn set_of_distinct_elements_holds_exactly_them() {
    // a serialized set of three distinct integers
    let items: Vec<u32> = vec![7, 1, 4];
    let set = SetOf::new(items);
    let v = set.to_der_vec().unwrap();
    assert_eq!(v[0], 0x31);
    let (set2, _) = SetOf::<u32>::from_der(&v, 0).unwrap();
    assert_eq!(set2.len(), 3);
    assert!(!set2.is_empty());
    let back = set2.into_vec();
    // a hashed view of the decoded elements holds exactly the three
    // values, whatever the encounter order
    let hashed: std::collections::HashSet<u32> = back.into_iter().collect();
    assert_eq!(hashed.len(), 3);
    assert!(hashed.contains(&7) && hashed.contains(&1) && hashed.contains(&4));
    // the hashed-set decoder holds exactly the three elements too
    let (hs, p) = asn1_rs::hash_set_from_der::<u32>(&v, 0).unwrap();
    assert_eq!(p, v.len());
    assert_eq!(hs.len(), 3);
    assert!(hs.contains(&7) && hs.contains(&1) && hs.contains(&4));
    // and so does the ordered-set decoder, under either profile
    let (bs, _) = asn1_rs::btree_set_from_der::<u32>(&v, 0).unwrap();
    assert_eq!(bs.len(), 3);
    assert!(bs.contains(&7) && bs.contains(&1) && bs.contains(&4));
    let (bs2, _) = asn1_rs::btree_set_from_ber::<u32>(&v, 0).unwrap();
    assert_eq!(bs2, bs);
    // duplicates collapse per the host container
    let dup = SetOf::new(vec![5u32, 5, 5]);
    let dv = dup.to_der_vec().unwrap();
    let (hs, _) = asn1_rs::hash_set_from_ber::<u32>(&dv, 0).unwrap();
    assert_eq!(hs.len(), 1);
    // the SET unit's canonical form is checkable without decoding
    let (any, _) = Any::from_der(&v, 0).unwrap();
    assert_eq!(asn1_rs::set_check_constraints(&any), Ok(()));
}

#[test]
fn serialization_is_idempotent() {
    let s = OctetString::from_slice(&[1, 2, 3]);
    assert_eq!(s.to_der_vec().unwrap(), s.to_der_vec().unwrap());
    let items: Vec<i32> = vec![2, 3, 4];
    let seq = Sequence::from_iter_to_der(&items).unwrap();
    assert_eq!(seq.to_der_vec().unwrap(), seq.to_der_vec().unwrap());
    let h = Header::new_simple(Tag(4));
    assert_eq!(h.to_der_vec(), h.to_der_vec());
}

#[test]
fn writer_never_uses_long_form_when_short_suffices() {
    // lengths below 128 take exactly one byte
    assert_eq!(Length::Definite(0).to_der_vec(), vec![0x00]);
    assert_eq!(Length::Definite(127).to_der_vec(), vec![0x7f]);
    // the first long length takes two
    assert_eq!(Length::Definite(128).to_der_vec(), vec![0x81, 0x80]);
    // tags below 31 take one identifier byte
    let mut v = Vec::new();
    asn1_rs::write_identifier(Class::Universal, false, Tag(30), &mut v);
    assert_eq!(v, vec![0x1e]);
    // the first long tag takes two
    let mut v = Vec::new();
    asn1_rs::write_identifier(Class::Universal, false, Tag(31), &mut v);
    assert_eq!(v, vec![0x1f, 0x1f]);
}

#[test]
fn round_trip_through_canonical_parse() {
    // for values produced by the canonical parse, serialize then parse
    // yields the value again
    let bytes = [0x04, 0x03, 0x0a, 0x0b, 0x0c];
    let (s, _) = OctetString::from_der(&bytes, 0).unwrap();
    let v = s.to_der_vec().unwrap();
    assert_eq!(v.as_slice(), &bytes);
    let (s2, _) = OctetString::from_der(&v, 0).unwrap();
    assert_eq!(s, s2);
    //
    let bytes = [0x01, 0x01, 0xff];
    let (b, _) = Boolean::from_der(&bytes, 0).unwrap();
    let v = b.to_der_vec().unwrap();
    assert_eq!(v.as_slice(), &bytes);
    //
    let bytes = [0x02, 0x02, 0x12, 0x34];
    let (i, _) = Integer::from_der(&bytes, 0).unwrap();
    let v = i.to_der_vec().unwrap();
    assert_eq!(v.as_slice(), &bytes);
}

#[test]
fn error_kinds_name_the_broken_rule() {
    // a tag that differs from the expected one
    assert_eq!(Integer::from_der(&[0x01, 0x01, 0x00], 0), Err(Error::UnexpectedTag));
    // declared length exceeding the remaining input
    assert_eq!(Integer::from_der(&[0x02, 0x05, 0x00], 0), Err(Error::TruncatedInput));
    // a truncated long-form tag
    assert_eq!(Header::from_ber(&[0x1f], 0), Err(Error::MalformedHeader));
    // a primitive unit where a constructed one is required
    assert_eq!(Sequence::from_der(&[0x10, 0x00], 0), Err(Error::ConstructedExpected));
    // content no BOOLEAN can carry
    assert_eq!(
        Boolean::from_der(&[0x01, 0x02, 0x00, 0x00], 0),
        Err(Error::InvalidValueEncoding)
    );
    // a BOOLEAN content byte the canonical profile refuses
    assert_eq!(Boolean::from_der(&[0x01, 0x01, 0x8a], 0), Err(Error::NotCanonical));
    // the permissive profile accepts it
    let (b, _) = Boolean::from_ber(&[0x01, 0x01, 0x8a], 0).unwrap();
    assert_eq!(b.value, 0x8a);
}

#[test]
fn indefinite_length_content_runs_to_the_marker() {
    // a constructed unit with indefinite length: content up to the
    // end-of-contents marker, nested definite unit included
    let bytes = [0x30, 0x80, 0x02, 0x01, 0x05, 0x00, 0x00, 0xAA];
    let (any, p) = Any::from_ber(&bytes, 0).unwrap();
    assert_eq!(any.data, &[0x02, 0x01, 0x05]);
    assert_eq!(p, 7);
    // nested indefinite units are skipped to their own markers
    let bytes = [0x30, 0x80, 0x30, 0x80, 0x01, 0x01, 0xff, 0x00, 0x00, 0x00, 0x00];
    let (any, p) = Any::from_ber(&bytes, 0).unwrap();
    assert_eq!(any.data, &[0x30, 0x80, 0x01, 0x01, 0xff, 0x00, 0x00]);
    assert_eq!(p, 11);
    // the canonical profile refuses the indefinite marker
    assert_eq!(Any::from_der(&bytes, 0), Err(Error::NotCanonical));
    // an indefinite primitive unit is malformed even permissively
    assert_eq!(Any::from_ber(&[0x02, 0x80, 0x00, 0x00], 0), Err(Error::MalformedHeader));
}

#[test]
fn structural_canonical_check_walks_children() {
    // two canonical siblings, one constructed with a canonical child
    let good = [0x02, 0x01, 0x05, 0x30, 0x03, 0x01, 0x01, 0xff];
    assert_eq!(canonical_check_elements(&good), Ok(()));
    // a nested indefinite length fails the whole check
    let bad = [0x02, 0x01, 0x05, 0x30, 0x80, 0x00, 0x00];
    assert_eq!(canonical_check_elements(&bad), Err(Error::NotCanonical));
    // a nested non-minimal length fails it too
    let bad = [0x30, 0x03, 0x04, 0x81, 0x00];
    assert_eq!(canonical_check_elements(&bad), Err(Error::NotCanonical));
}

fn sample_descriptors() -> Vec<FieldDescriptor> {
    vec![
        FieldDescriptor { optional: false, tag: None, field_tag: Tag(2) },
        FieldDescriptor {
            optional: true,
            tag: Some((Asn1TagKind::Explicit, 0)),
            field_tag: Tag(2),
        },
        FieldDescriptor { optional: false, tag: None, field_tag: Tag(1) },
    ]
}

#[test]
fn struct_decoder_reads_fields_in_order() {
    // SEQUENCE { INTEGER 5, [0] EXPLICIT INTEGER 7, BOOLEAN true }
    let bytes = [
        0x30, 0x0b, 0x02, 0x01, 0x05, 0xa0, 0x03, 0x02, 0x01, 0x07, 0x01, 0x01, 0xff,
    ];
    let descs = sample_descriptors();
    let (units, p) = parse_struct(&bytes, 0, &descs, Asn1Profile::Der).unwrap();
    assert_eq!(p, bytes.len());
    assert_eq!(units.len(), 3);
    assert_eq!(units[0].unwrap().data, &[0x05]);
    assert_eq!(units[1].unwrap().data, &[0x07]);
    assert_eq!(units[2].unwrap().data, &[0xff]);
}

#[test]
fn absent_optional_field_consumes_nothing() {
    // the same structure with the optional field absent
    let bytes = [0x30, 0x06, 0x02, 0x01, 0x05, 0x01, 0x01, 0xff];
    let descs = sample_descriptors();
    let (units, _) = parse_struct(&bytes, 0, &descs, Asn1Profile::Der).unwrap();
    assert_eq!(units.len(), 3);
    assert!(units[0].is_some());
    assert!(units[1].is_none());
    assert_eq!(units[2].unwrap().data, &[0xff]);
    // the remainder after the absent field equals the position before
    // it: parsing the field directly moves the cursor nowhere
    let content = [0x01, 0x01, 0xff];
    let d = descs[1];
    let (unit, p) = parse_field(&content, 0, &d, Asn1Profile::Der).unwrap();
    assert!(unit.is_none());
    assert_eq!(p, 0);
    // and on empty remaining input the field is absent immediately
    let (unit, p) = parse_field(&[], 0, &d, Asn1Profile::Der).unwrap();
    assert!(unit.is_none());
    assert_eq!(p, 0);
}

#[test]
fn required_tagged_field_errors_are_not_absorbed() {
    // the explicit wrapper is required here, and its tag is wrong
    let descs = vec![FieldDescriptor {
        optional: false,
        tag: Some((Asn1TagKind::Explicit, 0)),
        field_tag: Tag(2),
    }];
    let bytes = [0x30, 0x05, 0xa1, 0x03, 0x02, 0x01, 0x07];
    assert_eq!(
        parse_struct(&bytes, 0, &descs, Asn1Profile::Der),
        Err(Error::UnexpectedTag)
    );
}

#[test]
fn implicit_field_substitutes_the_type_tag() {
    // [1] IMPLICIT INTEGER 2 inside a SEQUENCE
    let bytes = [0x30, 0x03, 0x81, 0x01, 0x02];
    let descs = vec![FieldDescriptor {
        optional: false,
        tag: Some((Asn1TagKind::Implicit, 1)),
        field_tag: Tag(2),
    }];
    let (units, _) = parse_struct(&bytes, 0, &descs, Asn1Profile::Der).unwrap();
    let unit = units[0].unwrap();
    assert_eq!(unit.header.tag, Tag(2));
    assert_eq!(unit.data, &[0x02]);
    let i = Integer::from_any(&unit).unwrap();
    assert_eq!(i.as_u32(), Ok(2));
}

#[test]
fn base128_and_oid_encoding() {
    assert_eq!(encode_base128(0), vec![0x00]);
    assert_eq!(encode_base128(127), vec![0x7f]);
    assert_eq!(encode_base128(128), vec![0x81, 0x00]);
    assert_eq!(encode_base128(840), vec![0x86, 0x48]);
    // 1.2.840.113549: the classic RSA arc
    let v = encode_oid_bytes(&vec![1, 2, 840, 113549]).unwrap();
    assert_eq!(v, vec![0x2a, 0x86, 0x48, 0x86, 0xf7, 0x0d]);
    // not an object identifier: first component above 2
    assert_eq!(encode_oid_bytes(&vec![3, 1]), Err(Error::InvalidValueEncoding));
    // nor a single component
    assert_eq!(encode_oid_bytes(&vec![1]), Err(Error::InvalidValueEncoding));
}

#[test]
fn truncated_and_malformed_headers() {
    assert_eq!(Header::from_ber(&[], 0), Err(Error::MalformedHeader));
    assert_eq!(Header::from_ber(&[0x02], 0), Err(Error::MalformedHeader));
    assert_eq!(Header::from_ber(&[0x02, 0x83, 0x01], 0), Err(Error::MalformedHeader));
    // a long-form tag whose continuation never terminates
    assert_eq!(Header::from_ber(&[0x1f, 0x81, 0x82], 0), Err(Error::MalformedHeader));
}

#[test]
fn from_any_is_driven_by_header_and_content() {
    let content = [0x2a];
    let any = Any::new(Header::new_simple(Tag(2)), &content);
    let i = Integer::from_any(&any).unwrap();
    assert_eq!(i.as_u32(), Ok(42));
    assert_eq!(any.assert_tag(Tag(2)), Ok(()));
    assert_eq!(any.assert_tag(Tag(4)), Err(Error::UnexpectedTag));
    assert_eq!(any.assert_class(Class::Universal), Ok(()));
    assert_eq!(any.assert_class(Class::Private), Err(Error::UnexpectedClass));
    assert_eq!(any.assert_constructed(), Err(Error::ConstructedExpected));
}
