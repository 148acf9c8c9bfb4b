//! The generic container codec: a content slice is exhausted as a
//! concatenation of sibling TLV units, each decoded through a capability
//! contract, under either profile; canonical form can be checked over
//! the same structure without decoding values; and serialization
//! concatenates element encodings in order.

use vstd::prelude::*;

use crate::any::{spec_parse_any_der, Any};
use crate::error::Error;
use crate::traits::{spec_to_der_of, FromBer, FromDer, ToDer};

verus! {

/// Element-by-element permissive parse of a whole content slice.  The
/// fuel falls by one per element; since every element takes at least one
/// byte, fuel equal to the slice length never runs out first, so the
/// two guard branches are unreachable for any parser that advances.
pub open spec fn spec_elements_from_ber<T: FromBer>(s: Seq<u8>, pos: int, fuel: nat) -> Result<
    Seq<T::V>,
    Error,
>
    decreases fuel,
{
    if pos == s.len() {
        Ok(Seq::empty())
    } else if fuel == 0 {
        Err(Error::MalformedHeader)
    } else {
        match T::spec_from_ber(s, pos) {
            Err(e) => Err(e),
            Ok((v, p)) => if !(pos < p <= s.len()) {
                Err(Error::MalformedHeader)
            } else {
                match spec_elements_from_ber::<T>(s, p, (fuel - 1) as nat) {
                    Err(e) => Err(e),
                    Ok(rest) => Ok(seq![v] + rest),
                }
            },
        }
    }
}

/// Element-by-element canonical parse of a whole content slice.
pub open spec fn spec_elements_from_der<T: FromDer>(s: Seq<u8>, pos: int, fuel: nat) -> Result<
    Seq<T::V>,
    Error,
>
    decreases fuel,
{
    if pos == s.len() {
        Ok(Seq::empty())
    } else if fuel == 0 {
        Err(Error::MalformedHeader)
    } else {
        match T::spec_from_der(s, pos) {
            Err(e) => Err(e),
            Ok((v, p)) => if !(pos < p <= s.len()) {
                Err(Error::MalformedHeader)
            } else {
                match spec_elements_from_der::<T>(s, p, (fuel - 1) as nat) {
                    Err(e) => Err(e),
                    Ok(rest) => Ok(seq![v] + rest),
                }
            },
        }
    }
}

/// Parses a whole content slice as sibling elements under the
/// permissive profile, in encounter order; the first element error
/// aborts the whole decode.
pub fn parse_elements_ber<T: FromBer>(data: &[u8]) -> (r: Result<Vec<T>, Error>)
    ensures
        match r {
            Ok(items) => spec_elements_from_ber::<T>(data@, 0, data@.len() as nat)
                == Ok::<Seq<T::V>, Error>(items@.map_values(|t: T| t@)),
            Err(e) => spec_elements_from_ber::<T>(data@, 0, data@.len() as nat)
                == Err::<Seq<T::V>, Error>(e),
        },
{
    let len = data.len();
    let mut items: Vec<T> = Vec::new();
    let mut pos: usize = 0;
    let ghost mut steps: int = 0;
    proof {
        assert(Seq::<T>::empty().map_values(|t: T| t@) =~= Seq::<T::V>::empty());
        assert forall|rest: Seq<T::V>| #[trigger] (Seq::<T::V>::empty() + rest) =~= rest by {}
    }
    loop
        invariant
            steps <= pos <= len,
            len == data@.len(),
            spec_elements_from_ber::<T>(data@, 0, data@.len() as nat)
                == match spec_elements_from_ber::<T>(data@, pos as int, (len - steps) as nat) {
                Ok(rest) => Ok::<Seq<T::V>, Error>(items@.map_values(|t: T| t@) + rest),
                Err(e) => Err::<Seq<T::V>, Error>(e),
            },
        decreases len - pos,
    {
        if pos == len {
            proof {
                assert(items@.map_values(|t: T| t@) + Seq::<T::V>::empty()
                    =~= items@.map_values(|t: T| t@));
            }
            return Ok(items);
        }
        match T::from_ber(data, pos) {
            Err(e) => {
                return Err(e);
            }
            Ok((v, p)) => {
                let ghost prev = items@.map_values(|t: T| t@);
                let ghost rest_r = spec_elements_from_ber::<T>(
                    data@,
                    p as int,
                    (len - steps - 1) as nat,
                );
                items.push(v);
                pos = p;
                proof {
                    steps = steps + 1;
                    assert(items@.map_values(|t: T| t@) =~= prev + seq![v@]);
                    if let Ok(rest) = rest_r {
                        assert((prev + seq![v@]) + rest =~= prev + (seq![v@] + rest));
                    }
                }
            }
        }
    }
}

/// Parses a whole content slice as sibling elements under the
/// canonical profile, in encounter order.
pub fn parse_elements_der<T: FromDer>(data: &[u8]) -> (r: Result<Vec<T>, Error>)
    ensures
        match r {
            Ok(items) => spec_elements_from_der::<T>(data@, 0, data@.len() as nat)
                == Ok::<Seq<T::V>, Error>(items@.map_values(|t: T| t@)),
            Err(e) => spec_elements_from_der::<T>(data@, 0, data@.len() as nat)
                == Err::<Seq<T::V>, Error>(e),
        },
{
    let len = data.len();
    let mut items: Vec<T> = Vec::new();
    let mut pos: usize = 0;
    let ghost mut steps: int = 0;
    proof {
        assert(Seq::<T>::empty().map_values(|t: T| t@) =~= Seq::<T::V>::empty());
        assert forall|rest: Seq<T::V>| #[trigger] (Seq::<T::V>::empty() + rest) =~= rest by {}
    }
    loop
        invariant
            steps <= pos <= len,
            len == data@.len(),
            spec_elements_from_der::<T>(data@, 0, data@.len() as nat)
                == match spec_elements_from_der::<T>(data@, pos as int, (len - steps) as nat) {
                Ok(rest) => Ok::<Seq<T::V>, Error>(items@.map_values(|t: T| t@) + rest),
                Err(e) => Err::<Seq<T::V>, Error>(e),
            },
        decreases len - pos,
    {
        if pos == len {
            proof {
                assert(items@.map_values(|t: T| t@) + Seq::<T::V>::empty()
                    =~= items@.map_values(|t: T| t@));
            }
            return Ok(items);
        }
        match T::from_der(data, pos) {
            Err(e) => {
                return Err(e);
            }
            Ok((v, p)) => {
                let ghost prev = items@.map_values(|t: T| t@);
                let ghost rest_r = spec_elements_from_der::<T>(
                    data@,
                    p as int,
                    (len - steps - 1) as nat,
                );
                items.push(v);
                pos = p;
                proof {
                    steps = steps + 1;
                    assert(items@.map_values(|t: T| t@) =~= prev + seq![v@]);
                    if let Ok(rest) = rest_r {
                        assert((prev + seq![v@]) + rest =~= prev + (seq![v@] + rest));
                    }
                }
            }
        }
    }
}

/// The structural canonical-form check over a content slice: each
/// sibling is materialized as a canonically parsed unit, and the
/// content of each constructed unit is checked recursively, without
/// decoding any leaf value.
pub open spec fn spec_check_der_elements(s: Seq<u8>, pos: int, fuel: nat) -> Result<(), Error>
    decreases fuel,
{
    if pos == s.len() {
        Ok(())
    } else if fuel == 0 {
        Err(Error::MalformedHeader)
    } else {
        match spec_parse_any_der(s, pos) {
            Err(e) => Err(e),
            Ok(((h, data), p)) => if !(pos < p <= s.len()) {
                Err(Error::MalformedHeader)
            } else if h.constructed {
                match spec_check_der_elements(data, 0, (fuel - 1) as nat) {
                    Err(e) => Err(e),
                    Ok(_) => spec_check_der_elements(s, p, (fuel - 1) as nat),
                }
            } else {
                spec_check_der_elements(s, p, (fuel - 1) as nat)
            },
        }
    }
}

/// Exact-mirror executable structural canonical-form check.
fn check_der_elements_from(input: &[u8], pos: usize, fuel: usize) -> (r: Result<(), Error>)
    requires
        pos <= input@.len(),
    ensures
        r == spec_check_der_elements(input@, pos as int, fuel as nat),
    decreases fuel,
{
    if pos == input.len() {
        return Ok(());
    }
    if fuel == 0 {
        return Err(Error::MalformedHeader);
    }
    match Any::from_der(input, pos) {
        Err(e) => Err(e),
        Ok((any, p)) => {
            if any.header.constructed {
                match check_der_elements_from(any.data, 0, fuel - 1) {
                    Err(e) => Err(e),
                    Ok(_) => check_der_elements_from(input, p, fuel - 1),
                }
            } else {
                check_der_elements_from(input, p, fuel - 1)
            }
        }
    }
}

/// Checks a whole content slice for canonical form: every sibling unit,
/// and recursively the children of constructed ones, must be canonically
/// encoded.  Fuel equal to the slice length suffices for any input,
/// since every unit visited consumes at least two bytes of its slice.
pub fn canonical_check_elements(data: &[u8]) -> (r: Result<(), Error>)
    ensures
        r == spec_check_der_elements(data@, 0, data@.len() as nat),
{
    check_der_elements_from(data, 0, data.len())
}

/// The concatenated serializations of a run of element views, in order.
pub open spec fn spec_concat_der<T: ToDer>(vs: Seq<T::V>) -> Seq<u8>
    decreases vs.len(),
{
    if vs.len() == 0 {
        Seq::empty()
    } else {
        spec_concat_der::<T>(vs.drop_last()) + spec_to_der_of::<T>(vs.last())
    }
}

/// Each element's serialization is no longer than the concatenation of
/// the whole run.
pub proof fn lemma_concat_der_part_le<T: ToDer>(vs: Seq<T::V>, i: int)
    requires
        0 <= i < vs.len(),
    ensures
        spec_to_der_of::<T>(vs[i]).len() <= spec_concat_der::<T>(vs).len(),
    decreases vs.len(),
{
    if i == vs.len() - 1 {
        assert(vs.last() == vs[i]);
    } else {
        lemma_concat_der_part_le::<T>(vs.drop_last(), i);
        assert(vs.drop_last()[i] == vs[i]);
    }
}

/// Appending one element extends the concatenation by its serialization.
pub proof fn lemma_concat_der_step<T: ToDer>(vs: Seq<T::V>, i: int)
    requires
        0 <= i < vs.len(),
    ensures
        spec_concat_der::<T>(vs.take(i + 1))
            == spec_concat_der::<T>(vs.take(i)) + spec_to_der_of::<T>(vs[i]),
{
    assert(vs.take(i + 1).drop_last() =~= vs.take(i));
    assert(vs.take(i + 1).last() == vs[i]);
}

/// A prefix of the run serializes to no more than the whole run.
pub proof fn lemma_concat_der_take_le<T: ToDer>(vs: Seq<T::V>, i: int)
    requires
        0 <= i <= vs.len(),
    ensures
        spec_concat_der::<T>(vs.take(i)).len() <= spec_concat_der::<T>(vs).len(),
    decreases vs.len() - i,
{
    if i == vs.len() {
        assert(vs.take(i) =~= vs);
    } else {
        lemma_concat_der_step::<T>(vs, i);
        lemma_concat_der_take_le::<T>(vs, i + 1);
    }
}

/// The concatenation taken from the front: the first element's
/// serialization, then the rest.
pub proof fn lemma_concat_der_front<T: ToDer>(vs: Seq<T::V>)
    requires
        vs.len() > 0,
    ensures
        spec_concat_der::<T>(vs) == spec_to_der_of::<T>(vs[0]) + spec_concat_der::<T>(vs.skip(1)),
    decreases vs.len(),
{
    if vs.len() == 1 {
        assert(vs.drop_last() =~= Seq::<T::V>::empty());
        assert(vs.skip(1) =~= Seq::<T::V>::empty());
        assert(spec_to_der_of::<T>(vs[0]) + Seq::<u8>::empty() =~= spec_to_der_of::<T>(vs[0]));
        assert(Seq::<u8>::empty() + spec_to_der_of::<T>(vs.last()) =~= spec_to_der_of::<T>(vs[0]));
    } else {
        lemma_concat_der_front::<T>(vs.drop_last());
        assert(vs.drop_last()[0] == vs[0]);
        assert(vs.drop_last().skip(1) =~= vs.skip(1).drop_last());
        assert(vs.skip(1).last() == vs.last());
        assert((spec_to_der_of::<T>(vs[0]) + spec_concat_der::<T>(vs.skip(1).drop_last()))
            + spec_to_der_of::<T>(vs.last())
            =~= spec_to_der_of::<T>(vs[0]) + (spec_concat_der::<T>(vs.skip(1).drop_last())
                + spec_to_der_of::<T>(vs.last())));
    }
}

/// Whether a value's serialization always parses back to it, wherever
/// it is laid down: the element-level round-trip obligation that the
/// container law lifts to whole runs.
pub open spec fn spec_elem_round_trips<T: FromDer + ToDer>(m: T::V) -> bool {
    &&& spec_to_der_of::<T>(m).len() > 0
    &&& forall|s: Seq<u8>, pos: int|
        0 <= pos && pos + spec_to_der_of::<T>(m).len() <= s.len() && s.subrange(
            pos,
            pos + spec_to_der_of::<T>(m).len(),
        ) == spec_to_der_of::<T>(m) ==> #[trigger] T::spec_from_der(s, pos)
            == Ok::<(T::V, int), Error>((m, pos + spec_to_der_of::<T>(m).len()))
}

/// Round trip for a whole run of elements: when the slice from `pos`
/// on holds exactly the concatenated serializations of `vs`, and each
/// element's serialization parses back to it, the element-by-element
/// canonical parse yields exactly `vs`.
pub proof fn lemma_elements_round_trip<T: FromDer + ToDer>(
    s: Seq<u8>,
    pos: int,
    vs: Seq<T::V>,
    fuel: nat,
)
    requires
        0 <= pos <= s.len(),
        pos + spec_concat_der::<T>(vs).len() == s.len(),
        s.subrange(pos, s.len() as int) =~= spec_concat_der::<T>(vs),
        fuel >= s.len() - pos,
        forall|i: int| 0 <= i < vs.len() ==> #[trigger] spec_elem_round_trips::<T>(vs[i]),
    ensures
        spec_elements_from_der::<T>(s, pos, fuel) == Ok::<Seq<T::V>, Error>(vs),
    decreases vs.len(),
{
    if vs.len() == 0 {
        assert(pos == s.len());
        assert(vs =~= Seq::<T::V>::empty());
    } else {
        lemma_concat_der_front::<T>(vs);
        let e0 = spec_to_der_of::<T>(vs[0]);
        let p1 = pos + e0.len();
        assert(spec_elem_round_trips::<T>(vs[0]));
        assert(s.subrange(pos, p1) =~= e0) by {
            assert forall|i: int| 0 <= i < e0.len() implies s.subrange(pos, p1)[i] == e0[i] by {
                assert(s.subrange(pos, s.len() as int)[i] == s[pos + i]);
                assert(spec_concat_der::<T>(vs)[i] == e0[i]);
            }
        }
        assert(T::spec_from_der(s, pos) == Ok::<(T::V, int), Error>((vs[0], p1)));
        assert(s.subrange(p1, s.len() as int) =~= spec_concat_der::<T>(vs.skip(1))) by {
            assert forall|i: int| 0 <= i < s.len() - p1 implies
                s.subrange(p1, s.len() as int)[i] == spec_concat_der::<T>(vs.skip(1))[i] by {
                assert(s.subrange(pos, s.len() as int)[e0.len() + i] == s[p1 + i]);
                assert(spec_concat_der::<T>(vs)[e0.len() + i]
                    == spec_concat_der::<T>(vs.skip(1))[i]);
            }
        }
        assert forall|i: int| 0 <= i < vs.skip(1).len() implies
            #[trigger] spec_elem_round_trips::<T>(vs.skip(1)[i]) by {
            assert(vs.skip(1)[i] == vs[i + 1]);
        }
        lemma_elements_round_trip::<T>(s, p1, vs.skip(1), (fuel - 1) as nat);
        assert(seq![vs[0]] + vs.skip(1) =~= vs);
    }
}

/// Appends every element's serialization in order, returning the byte
/// count; fails with `InvalidLength` exactly when the concatenation
/// cannot be measured in a `usize`.
pub fn write_der_items<T: ToDer>(items: &Vec<T>, out: &mut Vec<u8>) -> (r: Result<usize, Error>)
    ensures
        match r {
            Ok(n) => final(out)@ == old(out)@
                + spec_concat_der::<T>(items@.map_values(|t: T| t@))
                && n as nat == spec_concat_der::<T>(items@.map_values(|t: T| t@)).len(),
            Err(e) => e == Error::InvalidLength
                && spec_concat_der::<T>(items@.map_values(|t: T| t@)).len() > usize::MAX,
        },
{
    let ghost vs = items@.map_values(|t: T| t@);
    let mut total: usize = 0;
    let mut i: usize = 0;
    proof {
        assert(vs.take(0) =~= Seq::<T::V>::empty());
    }
    while i < items.len()
        invariant
            i <= items@.len(),
            vs == items@.map_values(|t: T| t@),
            vs.len() == items@.len(),
            out@ == old(out)@ + spec_concat_der::<T>(vs.take(i as int)),
            total as nat == spec_concat_der::<T>(vs.take(i as int)).len(),
        decreases items@.len() - i,
    {
        let t = &items[i];
        proof {
            assert(t@ == vs[i as int]);
            lemma_concat_der_step::<T>(vs, i as int);
            lemma_concat_der_part_le::<T>(vs, i as int);
            lemma_concat_der_take_le::<T>(vs, i as int + 1);
        }
        let n1 = match t.write_der_header(out) {
            Ok(n) => n,
            Err(e) => {
                return Err(e);
            }
        };
        let n2 = match t.write_der_content(out) {
            Ok(n) => n,
            Err(e) => {
                return Err(e);
            }
        };
        proof {
            assert(out@ =~= old(out)@ + spec_concat_der::<T>(vs.take(i as int + 1)));
        }
        let step = match n1.checked_add(n2) {
            Some(v) => v,
            None => {
                return Err(Error::InvalidLength);
            }
        };
        total = match total.checked_add(step) {
            Some(v) => v,
            None => {
                return Err(Error::InvalidLength);
            }
        };
        i = i + 1;
    }
    proof {
        assert(vs.take(items@.len() as int) =~= vs);
    }
    Ok(total)
}

/// The summed serialized length of a run of elements; fails with
/// `InvalidLength` exactly when the sum cannot be measured in a `usize`.
pub fn der_items_len<T: ToDer>(items: &Vec<T>) -> (r: Result<usize, Error>)
    ensures
        match r {
            Ok(n) => n as nat == spec_concat_der::<T>(items@.map_values(|t: T| t@)).len(),
            Err(e) => e == Error::InvalidLength
                && spec_concat_der::<T>(items@.map_values(|t: T| t@)).len() > usize::MAX,
        },
{
    let ghost vs = items@.map_values(|t: T| t@);
    let mut total: usize = 0;
    let mut i: usize = 0;
    proof {
        assert(vs.take(0) =~= Seq::<T::V>::empty());
    }
    while i < items.len()
        invariant
            i <= items@.len(),
            vs == items@.map_values(|t: T| t@),
            vs.len() == items@.len(),
            total as nat == spec_concat_der::<T>(vs.take(i as int)).len(),
        decreases items@.len() - i,
    {
        let t = &items[i];
        proof {
            assert(t@ == vs[i as int]);
            lemma_concat_der_step::<T>(vs, i as int);
            lemma_concat_der_part_le::<T>(vs, i as int);
            lemma_concat_der_take_le::<T>(vs, i as int + 1);
        }
        let n = match t.to_der_len() {
            Ok(n) => n,
            Err(e) => {
                return Err(e);
            }
        };
        total = match total.checked_add(n) {
            Some(v) => v,
            None => {
                return Err(Error::InvalidLength);
            }
        };
        i = i + 1;
    }
    proof {
        assert(vs.take(items@.len() as int) =~= vs);
    }
    Ok(total)
}

} // verus!
