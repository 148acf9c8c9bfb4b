//! Tag numbers and tag classes.

use vstd::prelude::*;

use crate::error::Error;

verus! {

/// Universal tag number for BOOLEAN.
pub const TAG_BOOLEAN: u32 = 1;

/// Universal tag number for INTEGER.
pub const TAG_INTEGER: u32 = 2;

/// Universal tag number for BIT STRING.
pub const TAG_BIT_STRING: u32 = 3;

/// Universal tag number for OCTET STRING.
pub const TAG_OCTET_STRING: u32 = 4;

/// Universal tag number for NULL.
pub const TAG_NULL: u32 = 5;

/// Universal tag number for OBJECT IDENTIFIER.
pub const TAG_OID: u32 = 6;

/// Universal tag number for UTF8String.
pub const TAG_UTF8_STRING: u32 = 12;

/// Universal tag number for SEQUENCE.
pub const TAG_SEQUENCE: u32 = 16;

/// Universal tag number for SET.
pub const TAG_SET: u32 = 17;

/// The class of a tag: the top two bits of the leading identifier byte.
#[derive(Clone, Copy, Debug, PartialEq, Eq, Structural)]
pub enum Class {
    Universal,
    Application,
    ContextSpecific,
    Private,
}

impl Class {
    /// The value this class contributes to the leading identifier byte.
    pub open spec fn spec_bits(self) -> u8 {
        match self {
            Class::Universal => 0,
            Class::Application => 64,
            Class::ContextSpecific => 128,
            Class::Private => 192,
        }
    }

    /// The class encoded in the top two bits of an identifier byte.
    pub open spec fn spec_of_byte(b: u8) -> Class {
        if b / 64 == 0 {
            Class::Universal
        } else if b / 64 == 1 {
            Class::Application
        } else if b / 64 == 2 {
            Class::ContextSpecific
        } else {
            Class::Private
        }
    }

    /// Executable twin of [`Class::spec_bits`].
    pub fn bits(self) -> (b: u8)
        ensures
            b == self.spec_bits(),
    {
        match self {
            Class::Universal => 0,
            Class::Application => 64,
            Class::ContextSpecific => 128,
            Class::Private => 192,
        }
    }

    /// Executable twin of [`Class::spec_of_byte`].
    pub fn of_byte(b: u8) -> (c: Class)
        ensures
            c == Class::spec_of_byte(b),
    {
        let q = b / 64;
        if q == 0 {
            Class::Universal
        } else if q == 1 {
            Class::Application
        } else if q == 2 {
            Class::ContextSpecific
        } else {
            Class::Private
        }
    }

    /// Fails with `UnexpectedClass` unless the two classes are equal.
    pub fn assert_eq(self, other: Class) -> (r: Result<(), Error>)
        ensures
            r == if self == other {
                Ok::<(), Error>(())
            } else {
                Err::<(), Error>(Error::UnexpectedClass)
            },
    {
        if self == other {
            Ok(())
        } else {
            Err(Error::UnexpectedClass)
        }
    }
}

/// A tag number, identifying a type within its class.
#[derive(Clone, Copy, Debug, PartialEq, Eq, Structural)]
pub struct Tag(pub u32);

impl Tag {
    /// Fails with `UnexpectedTag` unless the two tags are equal.
    pub fn assert_eq(self, other: Tag) -> (r: Result<(), Error>)
        ensures
            r == if self == other {
                Ok::<(), Error>(())
            } else {
                Err::<(), Error>(Error::UnexpectedTag)
            },
    {
        if self.0 == other.0 {
            Ok(())
        } else {
            Err(Error::UnexpectedTag)
        }
    }
}

} // verus!
