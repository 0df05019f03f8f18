//! Guessing-game helpers: rendering the partly guessed word and finding
//! which position a guessed letter fills next.

use vstd::prelude::*;

verus! {

/// Relies on std's String::push: appends the character to the end of
/// the string.
pub assume_specification[ String::push ](s: &mut String, ch: char)
    ensures
        final(s)@ == old(s)@.push(ch),
;

/// Renders the character vector as a string, in order.
pub fn to_string(vec: &Vec<char>) -> (r: String)
    ensures
        r@ == vec@,
{
    let mut r = String::new();
    let mut i: usize = 0;
    while i < vec.len()
        invariant
            i <= vec@.len(),
            r@ == vec@.subrange(0, i as int),
        decreases vec@.len() - i,
    {
        r.push(vec[i]);
        assert(r@ =~= vec@.subrange(0, i as int + 1));
        i += 1;
    }
    assert(vec@.subrange(0, vec@.len() as int) =~= vec@);
    r
}

/// Does the vector hold `x`?
fn contains_index(v: &Vec<usize>, x: usize) -> (r: bool)
    ensures
        r == v@.contains(x),
{
    let mut i: usize = 0;
    while i < v.len()
        invariant
            i <= v@.len(),
            forall|j: int| 0 <= j < i ==> v@[j] != x,
        decreases v@.len() - i,
    {
        if v[i] == x {
            return true;
        }
        i += 1;
    }
    false
}

/// Finds the first position of `c` in `vec` that has not been filled
/// yet, records it in `index_set`, and returns it with `true`. When every
/// position holding `c` is already filled — or `c` does not occur — the
/// set is left alone and the result is `false` with the vector's length.
pub fn index(vec: &Vec<char>, c: char, index_set: &mut Vec<usize>) -> (r: (bool, usize))
    ensures
        r.0 ==> r.1 < vec@.len() && vec@[r.1 as int] == c && !old(index_set)@.contains(r.1) && (
        forall|j: int|
            0 <= j < r.1 && vec@[j] == c ==> old(index_set)@.contains(#[trigger] (j as usize)))
            && final(index_set)@ == old(index_set)@.push(r.1),
        !r.0 ==> r.1 == vec@.len() && final(index_set)@ == old(index_set)@ && (forall|j: int|
            0 <= j < vec@.len() && vec@[j] == c ==> old(index_set)@.contains(
                #[trigger] (j as usize),
            )),
{
    let mut i: usize = 0;
    while i < vec.len()
        invariant
            i <= vec@.len(),
            index_set@ == old(index_set)@,
            forall|j: int|
                0 <= j < i && vec@[j] == c ==> index_set@.contains(#[trigger] (j as usize)),
        decreases vec@.len() - i,
    {
        if vec[i] == c {
            if contains_index(index_set, i) {
                i += 1;
                continue ;
            } else {
                index_set.push(i);
                return (true, i);
            }
        }
        i += 1;
    }
    (false, vec.len())
}

} // verus!
