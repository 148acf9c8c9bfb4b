//! Serialization of each type, and the decode of what was written.

use asn1_rs::{
    write_identifier, Any, BitString, Boolean, Class, FromDer, Header, Integer, Length,
    OctetString, Sequence, Tag, TaggedValue, ToDer, Utf8String,
};

#[test]
fn to_der_length() {
    // indefinite length
    let length = Length::Indefinite;
    let v = length.to_der_vec();
    assert_eq!(&v, &[0x80]);
    // definite, short form
    let length = Length::Definite(3);
    let v = length.to_der_vec();
    assert_eq!(&v, &[0x03]);
    // definite, long form
    let length = Length::Definite(250);
    let v = length.to_der_vec();
    assert_eq!(&v, &[0x81, 0xfa]);
}

#[test]
fn to_der_tag() {
    // short tag, UNIVERSAL
    let mut v = Vec::new();
    write_identifier(Class::Universal, false, Tag(0x1a), &mut v);
    assert_eq!(&v, &[0x1a]);
    // short tag, APPLICATION
    let mut v = Vec::new();
    write_identifier(Class::Application, false, Tag(0x1a), &mut v);
    assert_eq!(&v, &[0x1a | (0b01 << 6)]);
    // short tag, constructed
    let mut v = Vec::new();
    write_identifier(Class::Universal, true, Tag(0x10), &mut v);
    assert_eq!(&v, &[0x30]);
    // long tag, UNIVERSAL: minimal base-128, high digits first
    let mut v = Vec::new();
    write_identifier(Class::Universal, false, Tag(0x1a1a), &mut v);
    assert_eq!(&v, &[0b1_1111, 0xb4, 0x1a]);
}

#[test]
fn to_der_header() {
    // simple header
    let header = Header::new_simple(Tag(2));
    let v = header.to_der_vec();
    assert_eq!(&v, &[0x2, 0x0]);
    // indefinite length
    let header = Header::new(Class::Universal, false, Tag(2), Length::Indefinite);
    let v = header.to_der_vec();
    assert_eq!(&v, &[0x2, 0x80]);
}

#[test]
fn to_der_any() {
    let header = Header::new_simple(Tag(2));
    let content = [0x02];
    let any = Any::new(header, &content);
    let v = any.to_der_vec();
    assert_eq!(&v, &[0x02, 0x01, 0x02]);
}

#[test]
fn to_der_any_raw() {
    let header = Header::new(Class::Universal, false, Tag(2), Length::Definite(3));
    let content = [0x02];
    let any = Any::new(header, &content);
    // to_der_vec computes the length from the content
    let v = any.to_der_vec();
    assert_eq!(&v, &[0x02, 0x01, 0x02]);
    // to_der_vec_raw uses the header as provided
    let v = any.to_der_vec_raw();
    assert_eq!(&v, &[0x02, 0x03, 0x02]);
}

#[test]
fn to_der_bitstring() {
    let bitstring = BitString::new(6, &[0x6e, 0x5d, 0xc0]);
    let v = bitstring.to_der_vec().expect("serialization failed");
    assert_eq!(&v, &[0x03, 0x04, 0x06, 0x6e, 0x5d, 0xc0]);
    let (result, _) = BitString::from_der(&v, 0).expect("parsing failed");
    assert!(bitstring.eq(&result));
}

#[test]
fn to_der_bool() {
    let v = Boolean::new(0xff).to_der_vec().expect("serialization failed");
    assert_eq!(&v, &[0x01, 0x01, 0xff]);
    //
    let v = false.to_der_vec().expect("serialization failed");
    assert_eq!(&v, &[0x01, 0x01, 0x00]);
    //
    let v = true.to_der_vec().expect("serialization failed");
    assert_eq!(&v, &[0x01, 0x01, 0xff]);
    // raw value (not 0 or 0xff)
    let v = Boolean::new(0x8a).to_der_vec_raw();
    assert_eq!(&v, &[0x01, 0x01, 0x8a]);
}

fn encode_decode_assert_u32(t: u32, expected: &[u8]) {
    let v = t.to_der_vec().expect("serialization failed");
    assert_eq!(&v, expected);
    let (obj, _) = Integer::from_der(&v, 0).expect("decoding serialized object failed");
    let t2 = obj.as_u32().unwrap();
    assert_eq!(t, t2);
}

fn encode_decode_assert_i32(t: i32, expected: &[u8]) {
    let v = t.to_der_vec().expect("serialization failed");
    assert_eq!(&v, expected);
    let (obj, _) = Integer::from_der(&v, 0).expect("decoding serialized object failed");
    let t2 = obj.as_i32().unwrap();
    assert_eq!(t, t2);
}

#[test]
fn to_der_integer() {
    let int = Integer::new(&[0x02]);
    let v = int.to_der_vec().expect("serialization failed");
    assert_eq!(&v, &[0x02, 0x01, 0x02]);
    // from_u32
    let int = Integer::from_u32(2);
    let v = int.to_der_vec().expect("serialization failed");
    assert_eq!(&v, &[0x02, 0x01, 0x02]);
    // unsigned 32-bit value
    encode_decode_assert_u32(2, &[0x02, 0x01, 0x02]);
    // signed i32 (> 0)
    encode_decode_assert_i32(4, &[0x02, 0x01, 0x04]);
    // signed i32 (< 0)
    encode_decode_assert_i32(-4, &[0x02, 0x05, 0x00, 0xff, 0xff, 0xff, 0xfc]);
}

#[test]
fn to_der_octetstring() {
    let bytes: &[u8] = &[
        0x01, 0x02, 0x03, 0x04, 0x05, 0x06, 0x07, 0x08, 0x09, 0x0a, 0x0b, 0x0c, 0x0d, 0x0e, 0x0f,
    ];
    let s = OctetString::from_slice(bytes);
    let v = s.to_der_vec().expect("serialization failed");
    assert_eq!(&v[..2], &[0x04, 0x0f]);
    assert_eq!(&v[2..], bytes);
    let (s2, _) = OctetString::from_der(&v, 0).expect("decoding serialized object failed");
    assert!(s.eq(&s2));
}

#[test]
fn to_der_sequence() {
    let items: Vec<i32> = vec![2, 3, 4];
    let seq = Sequence::from_iter_to_der(&items).unwrap();
    let v = seq.to_der_vec().expect("serialization failed");
    assert_eq!(
        &v,
        &[0x30, 0x09, 0x02, 0x01, 0x02, 0x02, 0x01, 0x03, 0x02, 0x01, 0x04]
    );
    let (seq2, _) = Sequence::from_der(&v, 0).expect("decoding serialized object failed");
    assert_eq!(seq, seq2);
    // Vec<T> serializes as a SEQUENCE of its elements
    let v = vec![2, 3, 4].to_der_vec().expect("serialization failed");
    assert_eq!(
        &v,
        &[0x30, 0x09, 0x02, 0x01, 0x02, 0x02, 0x01, 0x03, 0x02, 0x01, 0x04]
    );
}

#[test]
fn to_der_tagged_explicit() {
    let tagged = TaggedValue::new_explicit(Class::ContextSpecific, 1, 2u32);
    let v = tagged.to_der_vec().expect("serialization failed");
    assert_eq!(&v, &[0xa1, 0x03, 0x02, 0x01, 0x02]);
    let (t2, _) = TaggedValue::<u32>::parse_der_explicit(&v, 0)
        .expect("decoding serialized object failed");
    assert!(tagged.eq(&t2));
}

#[test]
fn to_der_tagged_implicit() {
    let tagged = TaggedValue::new_implicit(Class::ContextSpecific, false, 1, 2u32);
    let v = tagged.to_der_vec().expect("serialization failed");
    assert_eq!(&v, &[0x81, 0x01, 0x02]);
    let (t2, _) = TaggedValue::<u32>::parse_der_implicit(&v, 0)
        .expect("decoding serialized object failed");
    assert!(tagged.eq(&t2));
}

#[test]
fn to_der_utf8string() {
    let s = Utf8String::from_bytes(b"abcdef".to_vec()).unwrap();
    let v = s.to_der_vec().expect("serialization failed");
    assert_eq!(&v[..2], &[0x0c, 0x06]);
    assert_eq!(&v[2..], b"abcdef");
    let (s2, _) = Utf8String::from_der(&v, 0).expect("decoding serialized object failed");
    assert!(s.eq(&s2));
}
