//! Small exercises on integer vectors: shifting every element by a
//! constant and removing duplicates while keeping first occurrences.

use vstd::prelude::*;

verus! {

/// The deduplication of `s`: every element keeps its first occurrence,
/// later repetitions are dropped, order is otherwise preserved.
pub open spec fn dedup_of(s: Seq<i32>) -> Seq<i32>
    decreases s.len(),
{
    if s.len() == 0 {
        Seq::empty()
    } else {
        let prefix = dedup_of(s.drop_last());
        if s.drop_last().contains(s.last()) {
            prefix
        } else {
            prefix.push(s.last())
        }
    }
}

/// An element occurs in the deduplication exactly when it occurs in the
/// original sequence.
pub proof fn lemma_dedup_same_elements(s: Seq<i32>, x: i32)
    ensures
        dedup_of(s).contains(x) <==> s.contains(x),
    decreases s.len(),
{
    if s.len() > 0 {
        let t = s.drop_last();
        let d = dedup_of(s);
        let dp = dedup_of(t);
        lemma_dedup_same_elements(t, x);
        assert(s.contains(x) <==> t.contains(x) || x == s.last()) by {
            if s.contains(x) {
                let i = choose|i: int| 0 <= i < s.len() && s[i] == x;
                if i < s.len() - 1 {
                    assert(t[i] == x);
                }
            }
            if t.contains(x) {
                let i = choose|i: int| 0 <= i < t.len() && t[i] == x;
                assert(s[i] == x);
            }
            if x == s.last() {
                assert(s[s.len() - 1] == x);
            }
        }
        if !t.contains(s.last()) {
            assert(d == dp.push(s.last()));
            assert(d.contains(x) <==> dp.contains(x) || x == s.last()) by {
                if d.contains(x) {
                    let j = choose|j: int| 0 <= j < d.len() && d[j] == x;
                    if j < dp.len() {
                        assert(dp[j] == x);
                    }
                }
                if dp.contains(x) {
                    let j = choose|j: int| 0 <= j < dp.len() && dp[j] == x;
                    assert(d[j] == x);
                }
                if x == s.last() {
                    assert(d[dp.len() as int] == x);
                }
            }
        }
    }
}

/// Returns a copy of `v` with `n` added to every element.
pub fn add_n(v: Vec<i32>, n: i32) -> (r: Vec<i32>)
    requires
        forall|i: int| 0 <= i < v@.len() ==> i32::MIN <= #[trigger] v@[i] + n <= i32::MAX,
    ensures
        r@.len() == v@.len(),
        forall|i: int| 0 <= i < v@.len() ==> r@[i] == v@[i] + n,
{
    let mut res: Vec<i32> = Vec::new();
    let mut k: usize = 0;
    while k < v.len()
        invariant
            k <= v@.len(),
            res@.len() == k,
            forall|i: int| 0 <= i < v@.len() ==> i32::MIN <= #[trigger] v@[i] + n <= i32::MAX,
            forall|i: int| 0 <= i < k ==> res@[i] == v@[i] + n,
        decreases v@.len() - k,
    {
        res.push(v[k] + n);
        k += 1;
    }
    res
}

/// Adds `n` to every element of `v` in place.
pub fn add_n_inplace(v: &mut Vec<i32>, n: i32)
    requires
        forall|i: int| 0 <= i < old(v)@.len() ==> i32::MIN <= #[trigger] old(v)@[i] + n <= i32::MAX,
    ensures
        final(v)@.len() == old(v)@.len(),
        forall|i: int| 0 <= i < old(v)@.len() ==> final(v)@[i] == old(v)@[i] + n,
{
    let ghost orig = v@;
    let mut index: usize = 0;
    while index < v.len()
        invariant
            index <= orig.len(),
            v@.len() == orig.len(),
            forall|i: int| 0 <= i < orig.len() ==> i32::MIN <= #[trigger] orig[i] + n <= i32::MAX,
            forall|i: int| 0 <= i < index ==> v@[i] == orig[i] + n,
            forall|i: int| index <= i < orig.len() ==> v@[i] == orig[i],
        decreases orig.len() - index,
    {
        assert(v@[index as int] == orig[index as int]);
        let val = v[index];
        v[index] = val + n;
        index += 1;
    }
}

/// Does the prefix `v[0..k]` contain `x`?
fn prefix_contains(v: &Vec<i32>, k: usize, x: i32) -> (r: bool)
    requires
        k <= v@.len(),
    ensures
        r == v@.subrange(0, k as int).contains(x),
{
    let mut j: usize = 0;
    while j < k
        invariant
            j <= k <= v@.len(),
            forall|i: int| 0 <= i < j ==> v@[i] != x,
        decreases k - j,
    {
        if v[j] == x {
            assert(v@.subrange(0, k as int)[j as int] == x);
            return true;
        }
        j += 1;
    }
    assert(forall|i: int| 0 <= i < k ==> v@.subrange(0, k as int)[i] == v@[i]);
    false
}

/// Removes duplicate elements in place, keeping the first occurrence of
/// each value and the order of those occurrences.
pub fn dedup(v: &mut Vec<i32>)
    ensures
        final(v)@ == dedup_of(old(v)@),
{
    let ghost orig = v@;
    let mut write: usize = 0;
    let mut index: usize = 0;
    while index < v.len()
        invariant
            write <= index <= orig.len(),
            v@.len() == orig.len(),
            v@.subrange(0, write as int) == dedup_of(orig.subrange(0, index as int)),
            forall|i: int| index <= i < orig.len() ==> v@[i] == orig[i],
            forall|i: int| write <= i < orig.len() ==> v@[i] == orig[i],
        decreases orig.len() - index,
    {
        let ghost pre = orig.subrange(0, index as int);
        assert(orig.subrange(0, index as int + 1).drop_last() =~= pre);
        assert(orig.subrange(0, index as int + 1).last() == orig[index as int]);
        let x = v[index];
        proof {
            lemma_dedup_same_elements(pre, x);
        }
        if !prefix_contains(v, write, x) {
            assert(!pre.contains(x));
            v[write] = x;
            assert(v@.subrange(0, write as int + 1) =~= dedup_of(
                orig.subrange(0, index as int + 1),
            ));
            write += 1;
        } else {
            assert(pre.contains(x));
        }
        index += 1;
    }
    assert(orig.subrange(0, orig.len() as int) =~= orig);
    v.truncate(write);
    assert(v@ =~= dedup_of(orig));
}

} // verus!
