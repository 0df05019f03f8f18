//! The upstream selector: randomized-start round robin with failover.
//!
//! One selection happens per client connection, never per request. The
//! selector draws a random start index into the healthy snapshot, and on
//! each connect failure advances to the next index modulo the snapshot
//! size, stopping when the cursor returns to the start: by then every
//! healthy upstream has been tried exactly once. The caller opens the
//! connections; this type owns the order of attempts and the stop rule.

use vstd::prelude::*;
use vstd::arithmetic::div_mod::{
    lemma_fundamental_div_mod_converse_mod, lemma_mod_add_multiples_vanish, lemma_small_mod,
};
use rand::Rng;
use rand::SeedableRng;

verus! {

/// Relies on rand: `StdRng::from_entropy` seeds a generator from the
/// operating system and `Rng::gen_range(0..n)` draws from that half-open
/// range. Nothing more than the range is assumed of a random draw.
#[verifier::external_body]
fn random_below(n: usize) -> (r: usize)
    requires
        n > 0,
    ensures
        r < n,
{
    rand::rngs::StdRng::from_entropy().gen_range(0..n)
}

/// The walk over a healthy snapshot of `len` upstreams: `cursor` is the
/// index to try next, `steps` counts the indices already tried.
pub struct Selector {
    /// Size of the healthy snapshot being walked; fixed and positive.
    pub len: usize,
    /// The randomly drawn first index.
    pub start: usize,
    /// The index to try next.
    pub cursor: usize,
    /// How many connection attempts have failed so far.
    pub steps: usize,
}

impl Selector {
    pub open spec fn wf(&self) -> bool {
        &&& 0 < self.len
        &&& self.start < self.len
        &&& self.cursor < self.len
        &&& self.steps <= self.len
        &&& self.cursor == (self.start + self.steps) % (self.len as int)
    }

    /// Starts a walk over a healthy snapshot of `healthy_len` upstreams
    /// at a uniformly random index.
    pub fn new(healthy_len: usize) -> (s: Self)
        requires
            healthy_len > 0,
        ensures
            s.wf(),
            s.len == healthy_len,
            s.steps == 0,
            s.cursor == s.start,
    {
        let start = random_below(healthy_len);
        proof {
            lemma_small_mod(start as nat, healthy_len as nat);
        }
        Selector { len: healthy_len, start, cursor: start, steps: 0 }
    }

    /// Records that connecting to the cursor's upstream failed and moves
    /// to the next index modulo the snapshot size. Returns whether an
    /// untried upstream remains; when it returns false the cursor has
    /// come back to the start and every index has been tried once.
    pub fn advance(&mut self) -> (more: bool)
        requires
            old(self).wf(),
            old(self).steps < old(self).len,
        ensures
            final(self).wf(),
            final(self).len == old(self).len,
            final(self).start == old(self).start,
            final(self).steps == old(self).steps + 1,
            more <==> final(self).steps < final(self).len,
    {
        let next = if self.cursor + 1 == self.len {
            0
        } else {
            self.cursor + 1
        };
        proof {
            let s = self.start as int + self.steps as int;
            let l = self.len as int;
            // s % l == cursor, and s + 1 is either a multiple of l or
            // lands on cursor + 1 within the same block.
            if self.cursor + 1 == self.len {
                if s + 1 == l {
                    lemma_small_mod(0, l as nat);
                    assert((s + 1) % l == (0 + l) % l);
                    lemma_mod_add_multiples_vanish(0, l);
                } else {
                    // With the cursor at the last index but s + 1 past l,
                    // s itself already lies in the second block.
                    if s < l {
                        lemma_small_mod(s as nat, l as nat);
                    }
                    lemma_fundamental_div_mod_converse_mod(s + 1, l, 1, s + 1 - l);
                    lemma_fundamental_div_mod_converse_mod(s, l, 1, s - l);
                }
            } else {
                if s + 1 < l {
                    lemma_small_mod((s + 1) as nat, l as nat);
                    lemma_small_mod(s as nat, l as nat);
                } else {
                    // The cursor is not at the last index, so s cannot sit
                    // just below l: it lies in the second block already.
                    if s < l {
                        lemma_small_mod(s as nat, l as nat);
                    }
                    lemma_fundamental_div_mod_converse_mod(s + 1, l, 1, s + 1 - l);
                    lemma_fundamental_div_mod_converse_mod(s, l, 1, s - l);
                }
            }
        }
        self.cursor = next;
        self.steps = self.steps + 1;
        proof {
            let l = self.len as int;
            if self.steps == self.len {
                lemma_mod_add_multiples_vanish(self.start as int, l);
                lemma_small_mod(self.start as nat, l as nat);
                assert(self.cursor == self.start);
            } else {
                if self.cursor == self.start {
                    let s = self.start as int + self.steps as int;
                    if s < l {
                        lemma_small_mod(s as nat, l as nat);
                    } else {
                        lemma_fundamental_div_mod_converse_mod(s, l, 1, s - l);
                    }
                }
            }
        }
        self.cursor != self.start
    }
}

/// Every index of the snapshot is reached by some number of advances
/// below the snapshot size: the walk gives up only after every healthy
/// upstream has been offered.
pub proof fn lemma_probe_covers(len: int, start: int, i: int)
    requires
        0 < len,
        0 <= start < len,
        0 <= i < len,
    ensures
        exists|k: int| 0 <= k < len && #[trigger] ((start + k) % len) == i,
{
    let k = if i >= start {
        i - start
    } else {
        i + len - start
    };
    if i >= start {
        lemma_small_mod((start + k) as nat, len as nat);
    } else {
        lemma_fundamental_div_mod_converse_mod(start + k, len, 1, i);
    }
    assert((start + k) % len == i);
}

/// Different numbers of advances below the snapshot size land on
/// different indices: no upstream is tried twice in one walk.
pub proof fn lemma_probe_distinct(len: int, start: int, k1: int, k2: int)
    requires
        0 < len,
        0 <= start < len,
        0 <= k1 < k2 < len,
    ensures
        (start + k1) % len != (start + k2) % len,
{
    if start + k1 < len {
        lemma_small_mod((start + k1) as nat, len as nat);
    } else {
        lemma_fundamental_div_mod_converse_mod(start + k1, len, 1, start + k1 - len);
    }
    if start + k2 < len {
        lemma_small_mod((start + k2) as nat, len as nat);
    } else {
        lemma_fundamental_div_mod_converse_mod(start + k2, len, 1, start + k2 - len);
    }
}

} // verus!
