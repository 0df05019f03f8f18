//! The upstream registry: the full configured address list, fixed at
//! startup, and the currently healthy sublist.
//!
//! The healthy list is only ever replaced wholesale, never edited in
//! place, so a reader sees either the entirely old or the entirely new
//! list. The caller keeps one registry behind a read/write lock: reads
//! copy the healthy list out, a replacement swaps it in one step.

use vstd::prelude::*;

verus! {

/// Every element of `a` occurs somewhere in `b`.
pub open spec fn seq_subset(a: Seq<Seq<char>>, b: Seq<Seq<char>>) -> bool {
    forall|i: int| 0 <= i < a.len() ==> b.contains(#[trigger] a[i])
}

pub struct UpstreamRegistry {
    /// All configured upstream addresses, in configuration order.
    pub configured: Vec<String>,
    /// The addresses currently believed reachable; may be empty.
    pub healthy: Vec<String>,
}

impl UpstreamRegistry {
    /// Every healthy address is a configured one. The healthy list may
    /// be empty (all upstreams down), never wider than the configuration.
    pub open spec fn wf(&self) -> bool {
        seq_subset(self.healthy.deep_view(), self.configured.deep_view())
    }

    /// A fresh registry starts with every configured upstream presumed
    /// healthy, until the first health-check cycle says otherwise.
    pub fn new(configured: Vec<String>) -> (r: Self)
        requires
            configured@.len() >= 1,
        ensures
            r.wf(),
            r.configured == configured,
            r.healthy.deep_view() == configured.deep_view(),
    {
        let healthy = clone_addresses(&configured);
        let r = UpstreamRegistry { configured, healthy };
        assert forall|i: int| 0 <= i < r.healthy.deep_view().len() implies r
            .configured
            .deep_view()
            .contains(#[trigger] r.healthy.deep_view()[i]) by {
            assert(r.configured.deep_view()[i] == r.healthy.deep_view()[i]);
        }
        r
    }

    /// A copy of the current healthy list, for one selector invocation.
    pub fn snapshot(&self) -> (r: Vec<String>)
        ensures
            r.deep_view() == self.healthy.deep_view(),
    {
        clone_addresses(&self.healthy)
    }

    /// Publishes a freshly recomputed healthy list, wholesale. The
    /// configured list never changes.
    pub fn replace(&mut self, new_healthy: Vec<String>)
        requires
            seq_subset(new_healthy.deep_view(), old(self).configured.deep_view()),
        ensures
            final(self).wf(),
            final(self).configured == old(self).configured,
            final(self).healthy == new_healthy,
    {
        self.healthy = new_healthy;
    }
}

/// An element-by-element copy of an address list.
fn clone_addresses(v: &Vec<String>) -> (r: Vec<String>)
    ensures
        r.deep_view() == v.deep_view(),
{
    let mut r: Vec<String> = Vec::new();
    let mut i: usize = 0;
    while i < v.len()
        invariant
            i <= v@.len(),
            r.deep_view() == v.deep_view().subrange(0, i as int),
        decreases v@.len() - i,
    {
        let ghost before = r.deep_view();
        r.push(v[i].clone());
        assert(r.deep_view() =~= before.push(v.deep_view()[i as int]));
        assert(r.deep_view() =~= v.deep_view().subrange(0, i as int + 1));
        i += 1;
    }
    assert(v.deep_view().subrange(0, v@.len() as int) =~= v.deep_view());
    r
}

} // verus!
