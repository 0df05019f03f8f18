//! The fixed-window rate limiter.
//!
//! Each client address owns a counter of requests admitted since the
//! last window reset; absence of an entry means zero and no entry is
//! ever deleted. An admission check is made once per inbound request:
//! with a limit of zero everything is admitted and the table is left
//! untouched; otherwise a counter at or above the limit rejects the
//! request and a counter below it is incremented. A background task
//! zeroes every counter once per fixed interval, so a client can burst
//! up to twice the limit across a window boundary; that is the known
//! cost of fixed windows and is left as it is. The caller serializes
//! the table behind a lock; this type holds the table and the decision.

use vstd::prelude::*;
use vstd::pervasive::VecAdditionalExecFns;
use crate::strutil::str_eq;

verus! {

/// The counter recorded for `ip`, zero when absent.
pub open spec fn count_in(entries: Seq<(String, usize)>, ip: Seq<char>) -> nat
    decreases entries.len(),
{
    if entries.len() == 0 {
        0
    } else if entries.last().0@ == ip {
        entries.last().1 as nat
    } else {
        count_in(entries.drop_last(), ip)
    }
}

/// No client address appears twice in the table.
pub open spec fn keys_unique(entries: Seq<(String, usize)>) -> bool {
    forall|i: int, j: int| 0 <= i < j < entries.len() ==> entries[i].0@ != entries[j].0@
}

/// Whether one more request from a client with `count` admitted requests
/// in the current window passes the check under limit `max`.
pub open spec fn admit_allowed(max: nat, count: nat) -> bool {
    max == 0 || count < max
}

/// The client's counter after one admission check.
pub open spec fn count_after(max: nat, count: nat) -> nat {
    if max != 0 && count < max {
        count + 1
    } else {
        count
    }
}

/// The client's counter after `n` consecutive admission checks.
pub open spec fn count_after_n(max: nat, count: nat, n: nat) -> nat
    decreases n,
{
    if n == 0 {
        count
    } else {
        count_after(max, count_after_n(max, count, (n - 1) as nat))
    }
}

pub struct RateLimiter {
    /// The configured limit; zero means unlimited.
    pub max_per_minute: usize,
    /// One counter per client address seen this process lifetime.
    pub entries: Vec<(String, usize)>,
}

proof fn lemma_count_at(entries: Seq<(String, usize)>, i: int)
    requires
        keys_unique(entries),
        0 <= i < entries.len(),
    ensures
        count_in(entries, entries[i].0@) == entries[i].1,
    decreases entries.len(),
{
    if i < entries.len() - 1 {
        assert(entries.last().0@ != entries[i].0@);
        assert(entries.drop_last()[i] == entries[i]);
        lemma_count_at(entries.drop_last(), i);
    }
}

proof fn lemma_count_absent(entries: Seq<(String, usize)>, ip: Seq<char>)
    requires
        forall|i: int| 0 <= i < entries.len() ==> entries[i].0@ != ip,
    ensures
        count_in(entries, ip) == 0,
    decreases entries.len(),
{
    if entries.len() > 0 {
        assert(entries[entries.len() - 1].0@ != ip);
        lemma_count_absent(entries.drop_last(), ip);
    }
}

proof fn lemma_count_update(entries: Seq<(String, usize)>, i: int, p: (String, usize), ip: Seq<char>)
    requires
        keys_unique(entries),
        0 <= i < entries.len(),
        p.0@ == entries[i].0@,
    ensures
        count_in(entries.update(i, p), ip) == if ip == p.0@ {
            p.1 as nat
        } else {
            count_in(entries, ip)
        },
    decreases entries.len(),
{
    let u = entries.update(i, p);
    assert(u.last() == if i == entries.len() - 1 {
        p
    } else {
        entries.last()
    });
    if i == entries.len() - 1 {
        assert(u.drop_last() =~= entries.drop_last());
        if u.last().0@ != ip {
            assert(entries.last().0@ != ip || ip == p.0@);
            if ip != p.0@ {
                assert(count_in(u, ip) == count_in(entries.drop_last(), ip));
            }
        }
    } else {
        assert(u.drop_last() =~= entries.drop_last().update(i, p));
        assert(entries.drop_last()[i] == entries[i]);
        lemma_count_update(entries.drop_last(), i, p, ip);
        assert(entries.last().0@ != entries[i].0@);
    }
}

proof fn lemma_count_all_zero(entries: Seq<(String, usize)>, ip: Seq<char>)
    requires
        forall|i: int| 0 <= i < entries.len() ==> entries[i].1 == 0,
    ensures
        count_in(entries, ip) == 0,
    decreases entries.len(),
{
    if entries.len() > 0 {
        assert(entries[entries.len() - 1].1 == 0);
        lemma_count_all_zero(entries.drop_last(), ip);
    }
}

/// Finds the table position of `ip`, if any.
fn find_entry(entries: &Vec<(String, usize)>, ip: &str) -> (r: Option<usize>)
    ensures
        match r {
            Some(i) => i < entries@.len() && entries@[i as int].0@ == ip@,
            None => forall|i: int| 0 <= i < entries@.len() ==> entries@[i].0@ != ip@,
        },
{
    let mut i: usize = 0;
    while i < entries.len()
        invariant
            i <= entries@.len(),
            forall|j: int| 0 <= j < i ==> entries@[j].0@ != ip@,
        decreases entries@.len() - i,
    {
        if str_eq(entries[i].0.as_str(), ip) {
            return Some(i);
        }
        i += 1;
    }
    None
}

impl RateLimiter {
    pub open spec fn wf(&self) -> bool {
        keys_unique(self.entries@)
    }

    /// The counter currently recorded for `ip`; zero when absent.
    pub open spec fn count_of(&self, ip: Seq<char>) -> nat {
        count_in(self.entries@, ip)
    }

    pub fn new(max_per_minute: usize) -> (r: Self)
        ensures
            r.wf(),
            r.max_per_minute == max_per_minute,
            forall|ip: Seq<char>| #[trigger] r.count_of(ip) == 0,
    {
        RateLimiter { max_per_minute, entries: Vec::new() }
    }

    /// The admission check for one inbound request from `client_ip`.
    ///
    /// With a limit of zero the request is admitted and the table is not
    /// touched. Otherwise a counter already at the limit rejects the
    /// request and leaves the table as it is — the caller answers with a
    /// rate-limit error, does not contact the upstream, and keeps the
    /// client connection open — while a counter below the limit is
    /// incremented and the request admitted.
    pub fn check_admission(&mut self, client_ip: &str) -> (r: bool)
        requires
            old(self).wf(),
        ensures
            final(self).wf(),
            final(self).max_per_minute == old(self).max_per_minute,
            r == admit_allowed(old(self).max_per_minute as nat, old(self).count_of(client_ip@)),
            final(self).count_of(client_ip@) == count_after(
                old(self).max_per_minute as nat,
                old(self).count_of(client_ip@),
            ),
            forall|other: Seq<char>| other != client_ip@ ==> #[trigger] final(self).count_of(other)
                == old(self).count_of(other),
            old(self).max_per_minute == 0 ==> final(self).entries == old(self).entries,
    {
        if self.max_per_minute == 0 {
            return true;
        }
        match find_entry(&self.entries, client_ip) {
            Some(i) => {
                proof {
                    lemma_count_at(self.entries@, i as int);
                }
                let c = self.entries[i].1;
                if c >= self.max_per_minute {
                    false
                } else {
                    let k = self.entries[i].0.clone();
                    let ghost before = self.entries@;
                    let p = (k, c + 1);
                    self.entries.set(i, p);
                    proof {
                        lemma_count_update(before, i as int, p, client_ip@);
                        assert forall|other: Seq<char>| other != client_ip@ implies count_in(
                            self.entries@,
                            other,
                        ) == count_in(before, other) by {
                            lemma_count_update(before, i as int, p, other);
                        }
                        assert(keys_unique(self.entries@));
                    }
                    true
                }
            },
            None => {
                let ghost before = self.entries@;
                proof {
                    lemma_count_absent(before, client_ip@);
                }
                self.entries.push((client_ip.to_owned(), 1));
                proof {
                    assert(self.entries@.drop_last() =~= before);
                    assert(self.entries@.last().0@ == client_ip@);
                    assert forall|other: Seq<char>| other != client_ip@ implies count_in(
                        self.entries@,
                        other,
                    ) == count_in(before, other) by {
                        assert(self.entries@.last().0@ != other);
                    }
                    assert forall|i: int, j: int|
                        0 <= i < j < self.entries@.len() implies self.entries@[i].0@
                        != self.entries@[j].0@ by {
                        if j == self.entries@.len() - 1 {
                            assert(before[i].0@ != client_ip@);
                        } else {
                            assert(before[i].0@ != before[j].0@);
                        }
                    }
                }
                true
            },
        }
    }

    /// The periodic window reset: zeroes every counter, keeps every key.
    pub fn reset_all(&mut self)
        requires
            old(self).wf(),
        ensures
            final(self).wf(),
            final(self).max_per_minute == old(self).max_per_minute,
            forall|ip: Seq<char>| #[trigger] final(self).count_of(ip) == 0,
            final(self).entries@.len() == old(self).entries@.len(),
            forall|i: int| 0 <= i < old(self).entries@.len() ==> final(self).entries@[i].0@ == old(
                self,
            ).entries@[i].0@,
    {
        let ghost orig = self.entries@;
        let mut i: usize = 0;
        while i < self.entries.len()
            invariant
                i <= orig.len(),
                keys_unique(orig),
                self.max_per_minute == old(self).max_per_minute,
                self.entries@.len() == orig.len(),
                forall|j: int| 0 <= j < orig.len() ==> self.entries@[j].0@ == orig[j].0@,
                forall|j: int| 0 <= j < i ==> self.entries@[j].1 == 0,
                forall|j: int| i <= j < orig.len() ==> self.entries@[j] == orig[j],
            decreases orig.len() - i,
        {
            let k = self.entries[i].0.clone();
            self.entries.set(i, (k, 0));
            i += 1;
        }
        proof {
            assert forall|ip: Seq<char>| #[trigger] count_in(self.entries@, ip) == 0 by {
                lemma_count_all_zero(self.entries@, ip);
            }
            assert forall|i: int, j: int| 0 <= i < j < self.entries@.len() implies self
                .entries@[i]
                .0@ != self.entries@[j].0@ by {
                assert(self.entries@[i].0@ == orig[i].0@);
                assert(self.entries@[j].0@ == orig[j].0@);
                assert(orig[i].0@ != orig[j].0@);
            }
        }
    }
}

/// Fixed-window admission over one window: starting from a fresh
/// counter, each of the first `max` requests is admitted, the request
/// after them is rejected, and after the window reset zeroes the counter
/// admission resumes.
pub proof fn lemma_window_burst(max: nat)
    requires
        max > 0,
    ensures
        forall|k: nat| k < max ==> admit_allowed(max, #[trigger] count_after_n(max, 0, k)),
        count_after_n(max, 0, max) == max,
        !admit_allowed(max, count_after_n(max, 0, max)),
        admit_allowed(max, 0),
{
    assert forall|k: nat| k <= max implies #[trigger] count_after_n(max, 0, k) == k by {
        lemma_count_linear(max, k);
    }
}

proof fn lemma_count_linear(max: nat, k: nat)
    requires
        max > 0,
        k <= max,
    ensures
        count_after_n(max, 0, k) == k,
    decreases k,
{
    if k > 0 {
        lemma_count_linear(max, (k - 1) as nat);
    }
}

/// With the limit set to zero no request is ever rejected and no
/// admission check moves a counter, however many requests arrive.
pub proof fn lemma_unlimited_never_rejects(count: nat, n: nat)
    ensures
        admit_allowed(0, count),
        count_after_n(0, count, n) == count,
    decreases n,
{
    if n > 0 {
        lemma_unlimited_never_rejects(count, (n - 1) as nat);
    }
}

} // verus!
