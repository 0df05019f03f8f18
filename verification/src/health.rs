//! Health-check recomputation.
//!
//! Every tick the checker probes each configured upstream in order and
//! rebuilds the healthy list wholesale from the probe verdicts; a fully
//! stale healthy list is preferable to a half-updated one, so the new
//! list is published in one step (see the registry). The probing itself
//! is socket work and lives outside the library; this module holds the
//! rule for what counts as a passing probe and the recomputation of the
//! healthy list from the verdicts.

use vstd::prelude::*;

verus! {

/// The healthy sublist of `cfg`: the addresses, in configured order,
/// whose probe verdict is true.
pub open spec fn healthy_of(cfg: Seq<Seq<char>>, ok: Seq<bool>) -> Seq<Seq<char>>
    recommends
        cfg.len() == ok.len(),
    decreases cfg.len(),
{
    if cfg.len() == 0 {
        Seq::empty()
    } else {
        let rest = healthy_of(cfg.drop_last(), ok.drop_last());
        if ok.last() {
            rest.push(cfg.last())
        } else {
            rest
        }
    }
}

/// A probe passes exactly when the upstream answered with status 200.
/// A connect failure, a write failure or a malformed response never get
/// this far: the caller records those verdicts as false directly.
pub fn probe_passes(status: u16) -> (r: bool)
    ensures
        r == (status == 200),
{
    status == 200
}

/// Builds the new healthy list from the configured list and one probe
/// verdict per configured upstream, keeping the configured order.
pub fn rebuild_healthy(cfg: &Vec<String>, ok: &Vec<bool>) -> (r: Vec<String>)
    requires
        cfg@.len() == ok@.len(),
    ensures
        r.deep_view() == healthy_of(cfg.deep_view(), ok@),
{
    let mut r: Vec<String> = Vec::new();
    let mut i: usize = 0;
    while i < cfg.len()
        invariant
            i <= cfg@.len(),
            cfg@.len() == ok@.len(),
            r.deep_view() == healthy_of(
                cfg.deep_view().subrange(0, i as int),
                ok@.subrange(0, i as int),
            ),
        decreases cfg@.len() - i,
    {
        let ghost cpre = cfg.deep_view().subrange(0, i as int);
        let ghost opre = ok@.subrange(0, i as int);
        let ghost cnext = cfg.deep_view().subrange(0, i as int + 1);
        let ghost onext = ok@.subrange(0, i as int + 1);
        assert(cnext.drop_last() =~= cpre);
        assert(onext.drop_last() =~= opre);
        assert(cnext.last() == cfg.deep_view()[i as int]);
        if ok[i] {
            let a = cfg[i].clone();
            let ghost before = r.deep_view();
            r.push(a);
            assert(r.deep_view() =~= before.push(cfg.deep_view()[i as int]));
        }
        i += 1;
    }
    assert(cfg.deep_view().subrange(0, cfg@.len() as int) =~= cfg.deep_view());
    assert(ok@.subrange(0, ok@.len() as int) =~= ok@);
    r
}

/// When every configured upstream passes its probe, one recomputation
/// yields the full configured list again.
pub proof fn lemma_all_pass_full_list(cfg: Seq<Seq<char>>, ok: Seq<bool>)
    requires
        cfg.len() == ok.len(),
        forall|i: int| 0 <= i < ok.len() ==> ok[i],
    ensures
        healthy_of(cfg, ok) == cfg,
    decreases cfg.len(),
{
    if cfg.len() > 0 {
        lemma_all_pass_full_list(cfg.drop_last(), ok.drop_last());
        assert(ok[ok.len() - 1]);
        assert(healthy_of(cfg, ok) =~= cfg);
    } else {
        assert(healthy_of(cfg, ok) =~= cfg);
    }
}

/// An address is in the recomputed healthy list exactly when it stands
/// at some configured position whose probe passed. In particular an
/// upstream that fails its probes is excluded by the next recomputation,
/// and included again by the first recomputation after it recovers:
/// exile is never permanent.
pub proof fn lemma_healthy_membership(cfg: Seq<Seq<char>>, ok: Seq<bool>, u: Seq<char>)
    requires
        cfg.len() == ok.len(),
    ensures
        healthy_of(cfg, ok).contains(u) <==> exists|i: int|
            0 <= i < cfg.len() && cfg[i] == u && ok[i],
    decreases cfg.len(),
{
    if cfg.len() > 0 {
        let ct = cfg.drop_last();
        let ot = ok.drop_last();
        let h = healthy_of(cfg, ok);
        let hp = healthy_of(ct, ot);
        lemma_healthy_membership(ct, ot, u);
        assert((exists|i: int| 0 <= i < cfg.len() && cfg[i] == u && ok[i]) <==> ((exists|i: int|
            0 <= i < ct.len() && ct[i] == u && ot[i]) || (cfg.last() == u && ok.last()))) by {
            if exists|i: int| 0 <= i < cfg.len() && cfg[i] == u && ok[i] {
                let i = choose|i: int| 0 <= i < cfg.len() && cfg[i] == u && ok[i];
                if i < cfg.len() - 1 {
                    assert(ct[i] == u && ot[i]);
                }
            }
            if exists|i: int| 0 <= i < ct.len() && ct[i] == u && ot[i] {
                let i = choose|i: int| 0 <= i < ct.len() && ct[i] == u && ot[i];
                assert(cfg[i] == u && ok[i]);
            }
            if cfg.last() == u && ok.last() {
                assert(cfg[cfg.len() - 1] == u && ok[ok.len() - 1]);
            }
        }
        if ok.last() {
            assert(h == hp.push(cfg.last()));
            assert(h.contains(u) <==> hp.contains(u) || cfg.last() == u) by {
                if h.contains(u) {
                    let j = choose|j: int| 0 <= j < h.len() && h[j] == u;
                    if j < hp.len() {
                        assert(hp[j] == u);
                    }
                }
                if hp.contains(u) {
                    let j = choose|j: int| 0 <= j < hp.len() && hp[j] == u;
                    assert(h[j] == u);
                }
                if cfg.last() == u {
                    assert(h[hp.len() as int] == u);
                }
            }
        }
    }
}

/// Everything in the recomputed healthy list is a configured upstream:
/// the registry invariant is re-established by every recomputation.
pub proof fn lemma_healthy_subset(cfg: Seq<Seq<char>>, ok: Seq<bool>)
    requires
        cfg.len() == ok.len(),
    ensures
        forall|i: int| 0 <= i < healthy_of(cfg, ok).len() ==> cfg.contains(
            #[trigger] healthy_of(cfg, ok)[i],
        ),
{
    assert forall|i: int| 0 <= i < healthy_of(cfg, ok).len() implies cfg.contains(
        healthy_of(cfg, ok)[i],
    ) by {
        let u = healthy_of(cfg, ok)[i];
        assert(healthy_of(cfg, ok).contains(u));
        lemma_healthy_membership(cfg, ok, u);
        let j = choose|j: int| 0 <= j < cfg.len() && cfg[j] == u && ok[j];
        assert(cfg[j] == u);
    }
}

} // verus!
