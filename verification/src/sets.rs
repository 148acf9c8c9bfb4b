//! Set-container codecs over the standard ordered and hashed sets: a
//! SET unit's elements decoded into a `BTreeSet` or a `HashSet`, with
//! duplicates collapsing per the host container, and the element-wise
//! canonical-form check.

use std::collections::{BTreeSet, HashSet};
use vstd::laws_cmp::obeys_cmp;
use vstd::prelude::*;
use vstd::std_specs::hash::{builds_valid_hashers, obeys_key_model};

use crate::error::Error;
use crate::set_of::SetOf;
use crate::tag::{Tag, TAG_SET};
use crate::traits::{FromBer, FromDer};
use crate::any::Any;

verus! {

/// Whether a hashed or ordered set holds exactly the values of a run
/// of element views: every decoded view has a witness in the set, and
/// nothing else does.
pub open spec fn spec_set_holds_exactly<T: View>(s: Set<T>, ms: Seq<T::V>) -> bool {
    forall|m: T::V| #[trigger] ms.contains(m) <==> exists|t: T| #[trigger] s.contains(t) && t@ == m
}

/// Decodes a SET unit into an ordered set under the canonical
/// profile: the elements are parsed in encounter order and inserted,
/// duplicates collapsing per the container.
pub fn btree_set_from_der<T: FromDer + Ord>(input: &[u8], pos: usize) -> (r: Result<
    (BTreeSet<T>, usize),
    Error,
>)
    requires
        pos <= input@.len(),
    ensures
        match r {
            Ok((set, p)) => (match <SetOf<T> as FromDer>::spec_from_der(input@, pos as int) {
                Ok((ms, pp)) => pp == p as int && (obeys_cmp::<T>()
                    ==> spec_set_holds_exactly::<T>(set@, ms)),
                Err(_) => false,
            }),
            Err(e) => <SetOf<T> as FromDer>::spec_from_der(input@, pos as int)
                == Err::<(Seq<T::V>, int), Error>(e),
        },
{
    let (items, p) = match SetOf::<T>::from_der(input, pos) {
        Err(e) => return Err(e),
        Ok((s, p)) => (s.into_vec(), p),
    };
    Ok((btree_collect(items), p))
}

/// Decodes a SET unit into an ordered set under the permissive
/// profile.
pub fn btree_set_from_ber<T: FromBer + Ord>(input: &[u8], pos: usize) -> (r: Result<
    (BTreeSet<T>, usize),
    Error,
>)
    requires
        pos <= input@.len(),
    ensures
        match r {
            Ok((set, p)) => (match <SetOf<T> as FromBer>::spec_from_ber(input@, pos as int) {
                Ok((ms, pp)) => pp == p as int && (obeys_cmp::<T>()
                    ==> spec_set_holds_exactly::<T>(set@, ms)),
                Err(_) => false,
            }),
            Err(e) => <SetOf<T> as FromBer>::spec_from_ber(input@, pos as int)
                == Err::<(Seq<T::V>, int), Error>(e),
        },
{
    let (items, p) = match SetOf::<T>::from_ber(input, pos) {
        Err(e) => return Err(e),
        Ok((s, p)) => (s.into_vec(), p),
    };
    Ok((btree_collect(items), p))
}

/// Decodes a SET unit into a hashed set under the canonical profile.
pub fn hash_set_from_der<T: FromDer + std::hash::Hash + Eq>(input: &[u8], pos: usize) -> (r: Result<
    (HashSet<T>, usize),
    Error,
>)
    requires
        pos <= input@.len(),
    ensures
        match r {
            Ok((set, p)) => (match <SetOf<T> as FromDer>::spec_from_der(input@, pos as int) {
                Ok((ms, pp)) => pp == p as int && (obeys_key_model::<T>()
                    && builds_valid_hashers::<std::collections::hash_map::RandomState>()
                    ==> spec_set_holds_exactly::<T>(set@, ms)),
                Err(_) => false,
            }),
            Err(e) => <SetOf<T> as FromDer>::spec_from_der(input@, pos as int)
                == Err::<(Seq<T::V>, int), Error>(e),
        },
{
    let (items, p) = match SetOf::<T>::from_der(input, pos) {
        Err(e) => return Err(e),
        Ok((s, p)) => (s.into_vec(), p),
    };
    Ok((hash_collect(items), p))
}

/// Decodes a SET unit into a hashed set under the permissive profile.
pub fn hash_set_from_ber<T: FromBer + std::hash::Hash + Eq>(input: &[u8], pos: usize) -> (r: Result<
    (HashSet<T>, usize),
    Error,
>)
    requires
        pos <= input@.len(),
    ensures
        match r {
            Ok((set, p)) => (match <SetOf<T> as FromBer>::spec_from_ber(input@, pos as int) {
                Ok((ms, pp)) => pp == p as int && (obeys_key_model::<T>()
                    && builds_valid_hashers::<std::collections::hash_map::RandomState>()
                    ==> spec_set_holds_exactly::<T>(set@, ms)),
                Err(_) => false,
            }),
            Err(e) => <SetOf<T> as FromBer>::spec_from_ber(input@, pos as int)
                == Err::<(Seq<T::V>, int), Error>(e),
        },
{
    let (items, p) = match SetOf::<T>::from_ber(input, pos) {
        Err(e) => return Err(e),
        Ok((s, p)) => (s.into_vec(), p),
    };
    Ok((hash_collect(items), p))
}

/// Collects decoded elements into an ordered set, duplicates
/// collapsing per the container.
fn btree_collect<T: View + Ord>(items: Vec<T>) -> (set: BTreeSet<T>)
    ensures
        obeys_cmp::<T>() ==> spec_set_holds_exactly::<T>(
            set@,
            items@.map_values(|t: T| t@),
        ),
{
    broadcast use vstd::std_specs::btree::group_btree_axioms;

    let ghost ms = items@.map_values(|t: T| t@);
    let mut items = items;
    let mut set: BTreeSet<T> = BTreeSet::new();
    while items.len() > 0
        invariant
            items@.map_values(|t: T| t@) == ms.take(items@.len() as int),
            ms.len() >= items@.len(),
            obeys_cmp::<T>() ==> spec_set_holds_exactly::<T>(
                set@,
                ms.skip(items@.len() as int),
            ),
        decreases items@.len(),
    {
        let ghost n = items@.len() as int;
        let ghost prev = items@;
        let t = match items.pop() {
            Some(t) => t,
            None => {
                proof {
                    assert(false);
                }
                return BTreeSet::new();
            }
        };
        proof {
            assert(t == prev.last());
            assert(prev.map_values(|t: T| t@)[n - 1] == t@);
            assert(ms.take(n)[n - 1] == ms[n - 1]);
            assert(t@ == ms[n - 1]);
            assert(items@ =~= prev.drop_last());
            assert(items@.map_values(|t: T| t@) =~= prev.map_values(|t: T| t@).drop_last());
            assert(ms.take(n).drop_last() =~= ms.take(n - 1));
            assert(items@.map_values(|t: T| t@) =~= ms.take(n - 1));
        }
        let ghost prev_set = set@;
        let ghost tg = t;
        set.insert(t);
        proof {
            if obeys_cmp::<T>() {
                lemma_skip_one(ms, n);
                assert(set@ == prev_set.insert(tg));
                assert forall|m: T::V| #[trigger] ms.skip(n - 1).contains(m) implies exists|t2: T|
                    #[trigger] set@.contains(t2) && t2@ == m by {
                    if m == ms[n - 1] {
                        assert(set@.contains(tg) && tg@ == m);
                    } else {
                        assert(ms.skip(n).contains(m));
                        let t2 = choose|t2: T| #[trigger] prev_set.contains(t2) && t2@ == m;
                        assert(set@.contains(t2) && t2@ == m);
                    }
                }
                assert forall|m: T::V| (exists|t2: T| #[trigger] set@.contains(t2) && t2@ == m)
                    implies #[trigger] ms.skip(n - 1).contains(m) by {
                    let t2 = choose|t2: T| #[trigger] set@.contains(t2) && t2@ == m;
                    if t2 == tg {
                        assert(ms.skip(n - 1)[0] == ms[n - 1]);
                        assert(ms.skip(n - 1).contains(m));
                    } else {
                        assert(prev_set.contains(t2));
                        assert(ms.skip(n).contains(m));
                        let j = choose|j: int| 0 <= j < ms.skip(n).len() && #[trigger] ms.skip(n)[j] == m;
                        assert(ms.skip(n - 1)[j + 1] == m);
                        assert(ms.skip(n - 1).contains(m));
                    }
                }
                assert(spec_set_holds_exactly::<T>(set@, ms.skip(n - 1)));
            }
        }
    }
    proof {
        assert(ms.skip(0) =~= ms);
        assert(items@.len() == 0);
        assert(ms.skip(items@.len() as int) == ms.skip(0));
        if obeys_cmp::<T>() {
            assert(spec_set_holds_exactly::<T>(set@, ms.skip(0)));
            assert(spec_set_holds_exactly::<T>(set@, ms));
        }
    }
    set
}

/// Collects decoded elements into a hashed set, duplicates collapsing
/// per the container.
fn hash_collect<T: View + std::hash::Hash + Eq>(items: Vec<T>) -> (set: HashSet<T>)
    ensures
        obeys_key_model::<T>()
            && builds_valid_hashers::<std::collections::hash_map::RandomState>()
            ==> spec_set_holds_exactly::<T>(set@, items@.map_values(|t: T| t@)),
{
    broadcast use vstd::std_specs::hash::group_hash_axioms;

    let ghost ms = items@.map_values(|t: T| t@);
    let mut items = items;
    let mut set: HashSet<T> = HashSet::new();
    while items.len() > 0
        invariant
            items@.map_values(|t: T| t@) == ms.take(items@.len() as int),
            ms.len() >= items@.len(),
            obeys_key_model::<T>()
                && builds_valid_hashers::<std::collections::hash_map::RandomState>()
                ==> spec_set_holds_exactly::<T>(set@, ms.skip(items@.len() as int)),
        decreases items@.len(),
    {
        let ghost n = items@.len() as int;
        let ghost prev = items@;
        let t = match items.pop() {
            Some(t) => t,
            None => {
                proof {
                    assert(false);
                }
                return HashSet::new();
            }
        };
        proof {
            assert(t == prev.last());
            assert(prev.map_values(|t: T| t@)[n - 1] == t@);
            assert(ms.take(n)[n - 1] == ms[n - 1]);
            assert(t@ == ms[n - 1]);
            assert(items@ =~= prev.drop_last());
            assert(items@.map_values(|t: T| t@) =~= prev.map_values(|t: T| t@).drop_last());
            assert(ms.take(n).drop_last() =~= ms.take(n - 1));
            assert(items@.map_values(|t: T| t@) =~= ms.take(n - 1));
        }
        let ghost prev_set = set@;
        let ghost tg = t;
        set.insert(t);
        proof {
            if obeys_key_model::<T>()
                && builds_valid_hashers::<std::collections::hash_map::RandomState>() {
                lemma_skip_one(ms, n);
                assert(set@ == prev_set.insert(tg));
                assert forall|m: T::V| #[trigger] ms.skip(n - 1).contains(m) implies exists|t2: T|
                    #[trigger] set@.contains(t2) && t2@ == m by {
                    if m == ms[n - 1] {
                        assert(set@.contains(tg) && tg@ == m);
                    } else {
                        assert(ms.skip(n).contains(m));
                        let t2 = choose|t2: T| #[trigger] prev_set.contains(t2) && t2@ == m;
                        assert(set@.contains(t2) && t2@ == m);
                    }
                }
                assert forall|m: T::V| (exists|t2: T| #[trigger] set@.contains(t2) && t2@ == m)
                    implies #[trigger] ms.skip(n - 1).contains(m) by {
                    let t2 = choose|t2: T| #[trigger] set@.contains(t2) && t2@ == m;
                    if t2 == tg {
                        assert(ms.skip(n - 1)[0] == ms[n - 1]);
                        assert(ms.skip(n - 1).contains(m));
                    } else {
                        assert(prev_set.contains(t2));
                        assert(ms.skip(n).contains(m));
                        let j = choose|j: int| 0 <= j < ms.skip(n).len() && #[trigger] ms.skip(n)[j] == m;
                        assert(ms.skip(n - 1)[j + 1] == m);
                        assert(ms.skip(n - 1).contains(m));
                    }
                }
                assert(spec_set_holds_exactly::<T>(set@, ms.skip(n - 1)));
            }
        }
    }
    proof {
        assert(ms.skip(0) =~= ms);
        assert(items@.len() == 0);
        assert(ms.skip(items@.len() as int) == ms.skip(0));
        if obeys_key_model::<T>()
            && builds_valid_hashers::<std::collections::hash_map::RandomState>() {
            assert(spec_set_holds_exactly::<T>(set@, ms.skip(0)));
            assert(spec_set_holds_exactly::<T>(set@, ms));
        }
    }
    set
}

/// Skipping one position fewer prepends exactly the element there.
proof fn lemma_skip_one<M>(ms: Seq<M>, n: int)
    requires
        1 <= n <= ms.len(),
    ensures
        ms.skip(n - 1) =~= seq![ms[n - 1]] + ms.skip(n),
        forall|m: M| #[trigger] ms.skip(n - 1).contains(m)
            <==> (m == ms[n - 1] || ms.skip(n).contains(m)),
{
    assert(ms.skip(n - 1) =~= seq![ms[n - 1]] + ms.skip(n));
    assert forall|m: M| #[trigger] ms.skip(n - 1).contains(m) implies (m == ms[n - 1]
        || ms.skip(n).contains(m)) by {
        let j = choose|j: int| 0 <= j < ms.skip(n - 1).len() && #[trigger] ms.skip(n - 1)[j] == m;
        if j > 0 {
            assert(ms.skip(n)[j - 1] == m);
        }
    }
    assert forall|m: M| (m == ms[n - 1] || ms.skip(n).contains(m)) implies #[trigger] ms.skip(
        n - 1,
    ).contains(m) by {
        if m == ms[n - 1] {
            assert(ms.skip(n - 1)[0] == m);
        } else {
            let j = choose|j: int| 0 <= j < ms.skip(n).len() && #[trigger] ms.skip(n)[j] == m;
            assert(ms.skip(n - 1)[j + 1] == m);
        }
    }
}

/// Checks every element of a SET unit's content for canonical form,
/// without decoding element values.
pub fn set_check_constraints(any: &Any<'_>) -> (r: Result<(), Error>)
    ensures
        r == (match crate::set_of::spec_set_content_from_any(any.header, any.data@) {
            Err(e) => Err::<(), Error>(e),
            Ok(c) => crate::container::spec_check_der_elements(c, 0, c.len() as nat),
        }),
{
    match any.assert_tag(Tag(TAG_SET)) {
        Err(e) => return Err(e),
        Ok(_) => {}
    }
    match any.assert_constructed() {
        Err(e) => return Err(e),
        Ok(_) => {}
    }
    crate::container::canonical_check_elements(any.data)
}

} // verus!
