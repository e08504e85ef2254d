//! The Teeworlds 0.7 game protocol: its enumerations and snapshot objects.
//!
//! A snapshot object is a fixed number of integers, each of which must lie
//! in the bounds of its field. Reading an object reads its fields in order
//! and stops at the first one that is missing or out of bounds.
pub mod enums;
pub mod snap_obj;
pub mod msg;


use vstd::prelude::*;
use crate::packer::IntUnpacker;

verus! {

/// Decoding a message or snapshot object failed.
#[derive(Clone, Copy, Debug, PartialEq, Eq, Structural)]
pub enum Error {
    ControlCharacters,
    IntOutOfRange,
    UnexpectedEnd,
    UnknownId,
}

/// `v` lies in the inclusive bounds `b`.
pub open spec fn in_bounds(b: (i32, i32), v: i32) -> bool {
    b.0 <= v && v <= b.1
}

/// `ints` has one integer per entry of `bounds`, each in its bounds.
pub open spec fn fits(bounds: Seq<(i32, i32)>, ints: Seq<i32>) -> bool {
    &&& ints.len() == bounds.len()
    &&& forall|i: int| 0 <= i < bounds.len() ==> #[trigger] in_bounds(bounds[i], ints[i])
}

/// Reading fields with `bounds` from `data` fails first at field `k`: it is
/// missing or out of bounds, and all fields before it were read.
pub open spec fn fails_at(bounds: Seq<(i32, i32)>, data: Seq<i32>, k: int) -> bool {
    &&& 0 <= k < bounds.len()
    &&& (k >= data.len() || !in_bounds(bounds[k], data[k]))
    &&& forall|j: int| 0 <= j < k ==> j < data.len() && #[trigger] in_bounds(bounds[j], data[j])
}

/// The error reading fields with `bounds` from `data` gives, if any.
pub open spec fn decode_error(bounds: Seq<(i32, i32)>, data: Seq<i32>) -> Option<Error> {
    if exists|k: int| fails_at(bounds, data, k) {
        let k = choose|k: int| fails_at(bounds, data, k);
        if k >= data.len() {
            Some(Error::UnexpectedEnd)
        } else {
            Some(Error::IntOutOfRange)
        }
    } else {
        None
    }
}

/// How many integers a failing read of fields with `bounds` from `data`
/// consumes: all of them if one is missing, else up to the one out of
/// bounds.
pub open spec fn decode_consumed(bounds: Seq<(i32, i32)>, data: Seq<i32>) -> int {
    let k = choose|k: int| fails_at(bounds, data, k);
    if k >= data.len() {
        data.len() as int
    } else {
        k + 1
    }
}

/// Reading fields with `bounds` from `before` gives `r` and leaves `after`.
pub open spec fn decoded(
    bounds: Seq<(i32, i32)>,
    before: Seq<i32>,
    after: Seq<i32>,
    r: Result<Seq<i32>, Error>,
) -> bool {
    match decode_error(bounds, before) {
        Some(e) => r == Err::<Seq<i32>, Error>(e) && after == before.subrange(
            decode_consumed(bounds, before),
            before.len() as int,
        ),
        None => {
            &&& bounds.len() <= before.len()
            &&& r == Ok::<Seq<i32>, Error>(before.subrange(0, bounds.len() as int))
            &&& after == before.subrange(bounds.len() as int, before.len() as int)
        },
    }
}

/// A read fails first at one field only.
pub proof fn lemma_fails_at_unique(bounds: Seq<(i32, i32)>, data: Seq<i32>, k: int)
    requires
        fails_at(bounds, data, k),
    ensures
        decode_error(bounds, data) == (if k >= data.len() {
            Some(Error::UnexpectedEnd)
        } else {
            Some(Error::IntOutOfRange)
        }),
        decode_consumed(bounds, data) == (if k >= data.len() {
            data.len() as int
        } else {
            k + 1
        }),
{
    let c = choose|c: int| fails_at(bounds, data, c);
    assert(fails_at(bounds, data, c));
    if c < k {
        assert(in_bounds(bounds[c], data[c]));
    }
    if k < c {
        assert(in_bounds(bounds[k], data[k]));
    }
}

/// Integers that fit the bounds, followed by anything, read without error,
/// and the read gives them back.
pub proof fn lemma_decode_fits(bounds: Seq<(i32, i32)>, ints: Seq<i32>, rest: Seq<i32>)
    requires
        fits(bounds, ints),
    ensures
        decode_error(bounds, ints + rest) is None,
        (ints + rest).subrange(0, bounds.len() as int) == ints,
        (ints + rest).subrange(bounds.len() as int, (ints + rest).len() as int) == rest,
{
    let data = ints + rest;
    assert forall|k: int| !fails_at(bounds, data, k) by {
        if 0 <= k < bounds.len() {
            assert(data[k] == ints[k]);
            assert(in_bounds(bounds[k], ints[k]));
        }
    }
    assert(data.subrange(0, bounds.len() as int) =~= ints);
    assert(data.subrange(bounds.len() as int, data.len() as int) =~= rest);
}

/// Integers that fit bounds made of two parts split into integers that fit
/// each part.
pub proof fn lemma_fits_split(b1: Seq<(i32, i32)>, b2: Seq<(i32, i32)>, ints: Seq<i32>)
    requires
        fits(b1 + b2, ints),
    ensures
        fits(b1, ints.subrange(0, b1.len() as int)),
        fits(b2, ints.subrange(b1.len() as int, ints.len() as int)),
{
    let b = b1 + b2;
    assert forall|i: int| 0 <= i < b1.len() implies #[trigger] in_bounds(
        b1[i],
        ints.subrange(0, b1.len() as int)[i],
    ) by {
        assert(b[i] == b1[i]);
        assert(in_bounds(b[i], ints[i]));
    }
    assert forall|i: int| 0 <= i < b2.len() implies #[trigger] in_bounds(
        b2[i],
        ints.subrange(b1.len() as int, ints.len() as int)[i],
    ) by {
        assert(b[b1.len() + i] == b2[i]);
        assert(in_bounds(b[b1.len() + i], ints[b1.len() + i]));
    }
}

/// Reads one integer per entry of `bounds`, each of which must lie in its
/// bounds; stops at the first one that is missing or out of bounds.
pub fn read_int_fields(p: &mut IntUnpacker, bounds: &[(i32, i32)]) -> (r: Result<Vec<i32>, Error>)
    ensures
        decoded(
            bounds@,
            old(p)@,
            final(p)@,
            match r {
                Ok(v) => Ok(v@),
                Err(e) => Err(e),
            },
        ),
        r matches Ok(v) ==> fits(bounds@, v@),
{
    let ghost data = p@;
    let mut v: Vec<i32> = Vec::new();
    let mut i: usize = 0;
    while i < bounds.len()
        invariant
            i <= bounds@.len(),
            i <= data.len(),
            data == old(p)@,
            v@ == data.subrange(0, i as int),
            p@ == data.subrange(i as int, data.len() as int),
            forall|j: int| 0 <= j < i ==> #[trigger] in_bounds(bounds@[j], data[j]),
        decreases bounds.len() - i,
    {
        let x = match p.read_int() {
            Ok(x) => x,
            Err(_) => {
                proof {
                    assert(fails_at(bounds@, data, i as int));
                    lemma_fails_at_unique(bounds@, data, i as int);
                    assert(p@ =~= data.subrange(data.len() as int, data.len() as int));
                }
                return Err(Error::UnexpectedEnd);
            },
        };
        let (lo, hi) = bounds[i];
        if !(lo <= x && x <= hi) {
            proof {
                assert(fails_at(bounds@, data, i as int));
                lemma_fails_at_unique(bounds@, data, i as int);
                assert(p@ =~= data.subrange(i + 1, data.len() as int));
            }
            return Err(Error::IntOutOfRange);
        }
        v.push(x);
        proof {
            assert(v@ =~= data.subrange(0, i + 1));
            assert(p@ =~= data.subrange(i + 1, data.len() as int));
        }
        i = i + 1;
    }
    proof {
        assert forall|k: int| !fails_at(bounds@, data, k) by {
            if 0 <= k < bounds@.len() {
                assert(in_bounds(bounds@[k], data[k]));
            }
        }
        assert forall|k: int| 0 <= k < bounds@.len() implies #[trigger] in_bounds(
            bounds@[k],
            v@[k],
        ) by {
            assert(in_bounds(bounds@[k], data[k]));
        }
    }
    Ok(v)
}

} // verus!
