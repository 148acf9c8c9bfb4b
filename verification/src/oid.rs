//! The object-identifier content encoding: the first two components
//! combine into one byte, and every further component is base-128
//! encoded with continuation bits.

use vstd::prelude::*;

use crate::encoding::{spec_base128, write_base128};
use crate::error::Error;

verus! {

/// The encoded components from index `i` on: each base-128 encoded.
pub open spec fn spec_oid_tail(cs: Seq<u64>, i: int) -> Seq<u8>
    decreases cs.len() - i,
{
    if i < 0 || i >= cs.len() {
        Seq::empty()
    } else {
        spec_base128(cs[i] as nat) + spec_oid_tail(cs, i + 1)
    }
}

/// Whether a dotted component list is a well-formed object identifier:
/// at least two components, the first at most 2, the second at most 39.
pub open spec fn spec_oid_ok(cs: Seq<u64>) -> bool {
    cs.len() >= 2 && cs[0] <= 2 && cs[1] <= 39
}

/// The content bytes of an object identifier: `40 * first + second`,
/// then the base-128 encoding of each remaining component.
pub open spec fn spec_oid_bytes(cs: Seq<u64>) -> Seq<u8> {
    seq![(cs[0] * 40 + cs[1]) as u8] + spec_oid_tail(cs, 2)
}

/// Encodes a dotted component list as object-identifier content bytes;
/// fails with `InvalidValueEncoding` exactly on a component list that
/// is not a well-formed object identifier.
pub fn encode_oid_bytes(components: &Vec<u64>) -> (r: Result<Vec<u8>, Error>)
    ensures
        match r {
            Ok(v) => spec_oid_ok(components@) && v@ == spec_oid_bytes(components@),
            Err(e) => e == Error::InvalidValueEncoding && !spec_oid_ok(components@),
        },
{
    if components.len() < 2 || components[0] > 2 || components[1] > 39 {
        return Err(Error::InvalidValueEncoding);
    }
    let mut v: Vec<u8> = Vec::new();
    let first_byte = (components[0] * 40 + components[1]) as u8;
    v.push(first_byte);
    let mut i: usize = 2;
    proof {
        assert(v@ =~= seq![(components@[0] * 40 + components@[1]) as u8]
            + spec_oid_prefix(components@, 2));
    }
    while i < components.len()
        invariant
            2 <= i <= components@.len(),
            spec_oid_ok(components@),
            components@.len() >= 2,
            v@ == seq![(components@[0] * 40 + components@[1]) as u8]
                + spec_oid_prefix(components@, i as int),
        decreases components@.len() - i,
    {
        proof {
            lemma_oid_prefix_step(components@, i as int);
        }
        write_base128(components[i], &mut v);
        i = i + 1;
    }
    proof {
        lemma_oid_prefix_all(components@, 2);
        assert(Seq::<u8>::empty() + spec_oid_tail(components@, 2)
            =~= spec_oid_tail(components@, 2));
        assert(v@ =~= spec_oid_bytes(components@));
    }
    Ok(v)
}

/// The encoded components from index 2 up to `i`.
pub open spec fn spec_oid_prefix(cs: Seq<u64>, i: int) -> Seq<u8>
    decreases i,
{
    if i <= 2 {
        Seq::empty()
    } else {
        spec_oid_prefix(cs, i - 1) + spec_base128(cs[i - 1] as nat)
    }
}

/// Extending the encoded prefix by one component.
proof fn lemma_oid_prefix_step(cs: Seq<u64>, i: int)
    requires
        2 <= i < cs.len(),
    ensures
        spec_oid_prefix(cs, i + 1) == spec_oid_prefix(cs, i) + spec_base128(cs[i] as nat),
{
}

/// The full prefix equals the tail encoding.
proof fn lemma_oid_prefix_all(cs: Seq<u64>, i: int)
    requires
        2 <= i <= cs.len(),
    ensures
        spec_oid_prefix(cs, cs.len() as int) == spec_oid_prefix(cs, i) + spec_oid_tail(cs, i),
    decreases cs.len() - i,
{
    if i == cs.len() {
        assert(spec_oid_prefix(cs, i) + Seq::<u8>::empty() =~= spec_oid_prefix(cs, i));
    } else {
        lemma_oid_prefix_all(cs, i + 1);
        lemma_oid_prefix_step(cs, i);
        assert((spec_oid_prefix(cs, i) + spec_base128(cs[i] as nat)) + spec_oid_tail(cs, i + 1)
            =~= spec_oid_prefix(cs, i) + (spec_base128(cs[i] as nat) + spec_oid_tail(cs, i + 1)));
    }
}

} // verus!
