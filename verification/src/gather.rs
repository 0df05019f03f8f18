//! Reassembling indexed results.
//!
//! Work farmed out to concurrent workers comes back as (index, value)
//! pairs in arrival order; the caller owes its user the values in index
//! order. This module lays the pairs out into a dense vector, the last
//! write to a slot winning, and reports failure when a slot never
//! received a value.

use vstd::prelude::*;
use vstd::pervasive::VecAdditionalExecFns;

verus! {

/// The value that slot `i` ends with after all the writes in `pairs`,
/// the newest write winning; nothing when no pair carries index `i`.
pub open spec fn last_value_for<U>(pairs: Seq<(usize, U)>, i: int) -> Option<U>
    decreases pairs.len(),
{
    if pairs.len() == 0 {
        None
    } else if pairs.last().0 == i {
        Some(pairs.last().1)
    } else {
        last_value_for(pairs.drop_last(), i)
    }
}

/// Lays the indexed results out in index order over `len` slots.
#[verifier::loop_isolation(false)]
pub fn scatter<U>(pairs: Vec<(usize, U)>, len: usize) -> (r: Option<Vec<U>>)
    requires
        forall|k: int| 0 <= k < pairs@.len() ==> (#[trigger] pairs@[k]).0 < len,
    ensures
        r is Some <==> (forall|i: int| 0 <= i < len ==> last_value_for(pairs@, i) is Some),
        r matches Some(out) ==> out@.len() == len && (forall|i: int|
            0 <= i < len ==> Some(#[trigger] out@[i]) == last_value_for(pairs@, i)),
{
    let ghost orig = pairs@;
    let total = pairs.len();
    let mut pairs = pairs;
    let mut slots: Vec<Option<U>> = Vec::new();
    let mut i: usize = 0;
    while i < len
        invariant
            i <= len,
            slots@.len() == i,
            forall|j: int| 0 <= j < i ==> slots@[j] is None,
        decreases len - i,
    {
        slots.push(None);
        i += 1;
    }
    let ghost empty_prefix = orig.subrange(0, 0);
    assert(empty_prefix.len() == 0);
    let mut k: usize = 0;
    while pairs.len() > 0
        invariant
            k <= total,
            orig.len() == total,
            pairs@.len() == orig.len() - k,
            pairs@ =~= orig.subrange(k as int, orig.len() as int),
            slots@.len() == len,
            forall|j: int| 0 <= j < orig.len() ==> (#[trigger] orig[j]).0 < len,
            forall|j: int|
                0 <= j < len ==> slots@[j] == last_value_for(orig.subrange(0, k as int), j),
        decreases pairs@.len(),
    {
        let ghost pre = orig.subrange(0, k as int);
        let ghost ext = orig.subrange(0, k as int + 1);
        assert(ext.drop_last() =~= pre);
        assert(ext.last() == orig[k as int]);
        let p = pairs.remove(0);
        assert(p == orig[k as int]);
        let idx = p.0;
        slots.set(idx, Some(p.1));
        assert forall|j: int| 0 <= j < len implies slots@[j] == last_value_for(ext, j) by {
            if j != idx {
                assert(ext.last().0 != j);
            }
        }
        k += 1;
        assert(pairs@ =~= orig.subrange(k as int, orig.len() as int));
    }
    assert(orig.subrange(k as int, orig.len() as int).len() == 0);
    assert(k == orig.len());
    assert(orig.subrange(0, k as int) =~= orig);
    let mut out: Vec<U> = Vec::new();
    let mut i: usize = 0;
    while i < len
        invariant
            i <= len,
            out@.len() == i,
            slots@.len() == len - i,
            forall|j: int| 0 <= j < i ==> Some(#[trigger] out@[j]) == last_value_for(orig, j),
            forall|j: int|
                0 <= j < len - i ==> slots@[j] == last_value_for(orig, i + j),
        decreases len - i,
    {
        let s = slots.remove(0);
        match s {
            Some(u) => {
                out.push(u);
            },
            None => {
                assert(last_value_for(orig, i as int) is None);
                proof {
                    let ii = i as int;
                    assert(0 <= ii && ii < len && !(last_value_for(orig, ii) is Some));
                    assert(!(forall|j: int| 0 <= j < len ==> last_value_for(orig, j) is Some));
                }
                return None;
            },
        }
        i += 1;
    }
    assert forall|j: int| 0 <= j < len implies last_value_for(orig, j) is Some by {
        assert(Some(out@[j]) == last_value_for(orig, j));
    }
    Some(out)
}

} // verus!
