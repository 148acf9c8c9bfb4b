//! A tag-length-value (TLV) codec for the BER/DER binary encodings used by
//! certificate and directory protocols: headers (class, constructed flag,
//! tag, length), borrowed content units, leaf types, tagged wrappers,
//! container codecs, and a field-by-field structure decoder.

use vstd::prelude::*;

mod any;
mod bitstring;
mod boolean;
mod container;
mod encoding;
mod error;
mod fields;
mod header;
mod integer;
mod length;
mod octetstring;
mod oid;
mod sequence;
mod set_of;
mod sets;
mod tag;
mod tagged;
mod traits;
mod utf8string;

pub use any::Any;
pub use bitstring::BitString;
pub use container::{canonical_check_elements, parse_elements_ber, parse_elements_der};
pub use encoding::{encode_base128, encode_int_bytes};
pub use boolean::Boolean;
pub use error::Error;
pub use fields::{parse_field, parse_fields, parse_struct, Asn1Profile, FieldDescriptor};
pub use header::{write_identifier, Header};
pub use integer::{i32_from_content, u32_from_content, Integer};
pub use length::Length;
pub use octetstring::OctetString;
pub use oid::encode_oid_bytes;
pub use sequence::Sequence;
pub use set_of::SetOf;
pub use sets::{
    btree_set_from_ber, btree_set_from_der, hash_set_from_ber, hash_set_from_der,
    set_check_constraints,
};
pub use tag::{Class, Tag};
pub use tag::{
    TAG_BIT_STRING, TAG_BOOLEAN, TAG_INTEGER, TAG_NULL, TAG_OCTET_STRING, TAG_OID,
    TAG_SEQUENCE, TAG_SET, TAG_UTF8_STRING,
};
pub use tagged::{Asn1TagKind, TaggedValue};
pub use traits::{CheckDerConstraints, FromAny, FromBer, FromDer, Tagged, ToDer};
pub use utf8string::Utf8String;

verus! {

} // verus!
