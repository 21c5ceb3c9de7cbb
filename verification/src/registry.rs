//! The peer registry: the shared table of currently-known peers, keyed by
//! network address, each entry carrying the peer's display name and the
//! instant it was last heard from. The listener inserts and refreshes
//! entries; the janitor evicts stale ones; readers get snapshot copies.

use vstd::prelude::*;
use vstd::map::*;
use crate::addr::PeerAddr;

verus! {

/// What one announcement said about a peer: where it is reachable and what it
/// calls itself. Immutable; a fresher announcement supersedes it whole.
pub struct PeerIdentity {
    pub addr: PeerAddr,
    pub name: String,
}

/// The registry's mathematical content: each known address mapped to the
/// peer's display name and the instant (milliseconds) it was last heard from.
pub type RegistryView = Map<PeerAddr, (Seq<char>, u64)>;

/// Whether an entry last heard from at `last_seen` is still live at `now`
/// under time-to-live `ttl` (all in milliseconds): it is evicted exactly when
/// its last-seen instant predates `now - ttl`.
pub open spec fn still_live(last_seen: u64, now: u64, ttl: u64) -> bool {
    last_seen + ttl >= now
}

/// `m` with every entry dropped whose last-seen instant predates `now - ttl`.
pub open spec fn evict_view(m: RegistryView, now: u64, ttl: u64) -> RegistryView {
    Map::new(
        |a: PeerAddr| m.contains_key(a) && still_live(m[a].1, now, ttl),
        |a: PeerAddr| m[a],
    )
}

/// The table of currently-known peers.
pub struct Registry {
    entries: Vec<(PeerIdentity, u64)>,
}

/// No two entries share an address.
spec fn unique_addrs(s: Seq<(PeerIdentity, u64)>) -> bool {
    forall|i: int, j: int|
        0 <= i < j < s.len() ==> s[i].0.addr != s[j].0.addr
}

/// The map described by a sequence of entries.
spec fn view_of(s: Seq<(PeerIdentity, u64)>) -> RegistryView {
    Map::new(
        |a: PeerAddr| exists|i: int| 0 <= i < s.len() && s[i].0.addr == a,
        |a: PeerAddr|
            {
                let i = choose|i: int| 0 <= i < s.len() && s[i].0.addr == a;
                (s[i].0.name@, s[i].1)
            },
    )
}

/// With unique addresses, each entry is what the map holds for its address.
proof fn lemma_view_entry(s: Seq<(PeerIdentity, u64)>, i: int)
    requires
        unique_addrs(s),
        0 <= i < s.len(),
    ensures
        view_of(s).contains_key(s[i].0.addr),
        view_of(s)[s[i].0.addr] == (s[i].0.name@, s[i].1),
{
    let a = s[i].0.addr;
    assert(view_of(s).contains_key(a));
    let j = choose|j: int| 0 <= j < s.len() && s[j].0.addr == a;
    if j != i {
        if j < i {
            assert(s[j].0.addr != s[i].0.addr);
        } else {
            assert(s[i].0.addr != s[j].0.addr);
        }
    }
}

/// Whether `e` is one of the first `n` entries of `s0` and still live there.
spec fn live_in_prefix(
    e: (PeerIdentity, u64),
    s0: Seq<(PeerIdentity, u64)>,
    n: int,
    now: u64,
    ttl: u64,
) -> bool {
    exists|k: int| 0 <= k < n && e == s0[k] && still_live(s0[k].1, now, ttl)
}

/// Whether `e` appears in `kept`.
spec fn appears(e: (PeerIdentity, u64), kept: Seq<(PeerIdentity, u64)>) -> bool {
    exists|j: int| 0 <= j < kept.len() && kept[j] == e
}

/// Every element of `kept` is one of the first `n` elements of `s0` and is
/// still live.
spec fn kept_sound(
    kept: Seq<(PeerIdentity, u64)>,
    s0: Seq<(PeerIdentity, u64)>,
    n: int,
    now: u64,
    ttl: u64,
) -> bool {
    forall|j: int| #![trigger kept[j]]
        0 <= j < kept.len() ==> live_in_prefix(kept[j], s0, n, now, ttl)
}

/// Every still-live element among the first `n` of `s0` appears in `kept`.
spec fn kept_complete(
    kept: Seq<(PeerIdentity, u64)>,
    s0: Seq<(PeerIdentity, u64)>,
    n: int,
    now: u64,
    ttl: u64,
) -> bool {
    forall|k: int| #![trigger s0[k]]
        0 <= k < n && still_live(s0[k].1, now, ttl) ==> appears(s0[k], kept)
}

/// The index in `s0` that a live prefix element came from.
proof fn sound_witness(
    e: (PeerIdentity, u64),
    s0: Seq<(PeerIdentity, u64)>,
    n: int,
    now: u64,
    ttl: u64,
) -> (k: int)
    requires
        live_in_prefix(e, s0, n, now, ttl),
    ensures
        0 <= k < n,
        e == s0[k],
        still_live(s0[k].1, now, ttl),
{
    choose|k: int| 0 <= k < n && e == s0[k] && still_live(s0[k].1, now, ttl)
}

/// The index in `kept` where `e` appears.
proof fn appears_witness(e: (PeerIdentity, u64), kept: Seq<(PeerIdentity, u64)>) -> (j: int)
    requires
        appears(e, kept),
    ensures
        0 <= j < kept.len(),
        kept[j] == e,
{
    choose|j: int| 0 <= j < kept.len() && kept[j] == e
}

/// One step of the eviction sweep preserves soundness, completeness and
/// address uniqueness of the kept entries.
proof fn lemma_evict_step(
    s0: Seq<(PeerIdentity, u64)>,
    kept0: Seq<(PeerIdentity, u64)>,
    i: int,
    now: u64,
    ttl: u64,
)
    requires
        unique_addrs(s0),
        unique_addrs(kept0),
        0 <= i < s0.len(),
        kept_sound(kept0, s0, i, now, ttl),
        kept_complete(kept0, s0, i, now, ttl),
    ensures
        !still_live(s0[i].1, now, ttl) ==> kept_sound(kept0, s0, i + 1, now, ttl)
            && kept_complete(kept0, s0, i + 1, now, ttl),
        still_live(s0[i].1, now, ttl) ==> unique_addrs(kept0.push(s0[i])) && kept_sound(
            kept0.push(s0[i]),
            s0,
            i + 1,
            now,
            ttl,
        ) && kept_complete(kept0.push(s0[i]), s0, i + 1, now, ttl),
{
    if !still_live(s0[i].1, now, ttl) {
        assert forall|j: int| #![trigger kept0[j]]
            0 <= j < kept0.len() implies live_in_prefix(kept0[j], s0, i + 1, now, ttl) by {
            let k = sound_witness(kept0[j], s0, i, now, ttl);
            assert(0 <= k < i + 1 && kept0[j] == s0[k] && still_live(s0[k].1, now, ttl));
        }
        assert forall|k: int| #![trigger s0[k]]
            0 <= k < i + 1 && still_live(s0[k].1, now, ttl) implies appears(s0[k], kept0) by {
            assert(k < i);
        }
    } else {
        let kept1 = kept0.push(s0[i]);
        assert forall|p: int, q: int| 0 <= p < q < kept1.len() implies kept1[p].0.addr
            != kept1[q].0.addr by {
            if q == kept1.len() - 1 {
                assert(kept1[p] == kept0[p]);
                let k = sound_witness(kept0[p], s0, i, now, ttl);
                assert(s0[k].0.addr != s0[i].0.addr);
            } else {
                assert(kept1[p] == kept0[p] && kept1[q] == kept0[q]);
            }
        }
        assert forall|j: int| #![trigger kept1[j]]
            0 <= j < kept1.len() implies live_in_prefix(kept1[j], s0, i + 1, now, ttl) by {
            if j < kept0.len() {
                assert(kept1[j] == kept0[j]);
                let k = sound_witness(kept0[j], s0, i, now, ttl);
                assert(0 <= k < i + 1 && kept1[j] == s0[k] && still_live(s0[k].1, now, ttl));
            } else {
                assert(kept1[j] == s0[i]);
                assert(0 <= i < i + 1 && kept1[j] == s0[i] && still_live(s0[i].1, now, ttl));
            }
        }
        assert forall|k: int| #![trigger s0[k]]
            0 <= k < i + 1 && still_live(s0[k].1, now, ttl) implies appears(s0[k], kept1) by {
            if k < i {
                let j = appears_witness(s0[k], kept0);
                assert(kept1[j] == s0[k]);
            } else {
                assert(kept1[kept1.len() - 1] == s0[k]);
            }
        }
    }
}

/// A sequence holding exactly the still-live entries of another describes
/// exactly the evicted map of the other's view.
proof fn lemma_kept_view(s0: Seq<(PeerIdentity, u64)>, s1: Seq<(PeerIdentity, u64)>, now: u64, ttl: u64)
    requires
        unique_addrs(s0),
        unique_addrs(s1),
        kept_sound(s1, s0, s0.len() as int, now, ttl),
        kept_complete(s1, s0, s0.len() as int, now, ttl),
    ensures
        view_of(s1) == evict_view(view_of(s0), now, ttl),
{
    assert_maps_equal!(view_of(s1), evict_view(view_of(s0), now, ttl), a => {
        if view_of(s1).contains_key(a) {
            let j = choose|j: int| 0 <= j < s1.len() && s1[j].0.addr == a;
            lemma_view_entry(s1, j);
            let k = sound_witness(s1[j], s0, s0.len() as int, now, ttl);
            lemma_view_entry(s0, k);
        }
        if view_of(s0).contains_key(a) {
            let k = choose|k: int| 0 <= k < s0.len() && s0[k].0.addr == a;
            lemma_view_entry(s0, k);
            if still_live(s0[k].1, now, ttl) {
                let j = appears_witness(s0[k], s1);
                lemma_view_entry(s1, j);
            } else {
                assert forall|j: int| 0 <= j < s1.len() implies s1[j].0.addr != a by {
                    let k2 = sound_witness(s1[j], s0, s0.len() as int, now, ttl);
                    if k2 != k {
                        if k2 < k {
                            assert(s0[k2].0.addr != s0[k].0.addr);
                        } else {
                            assert(s0[k].0.addr != s0[k2].0.addr);
                        }
                    }
                }
                assert(!view_of(s1).contains_key(a));
            }
        }
    });
}

impl Registry {
    /// The registry's content as a map.
    pub closed spec fn view(&self) -> RegistryView {
        view_of(self.entries@)
    }

    /// The registry's internal invariant: one entry per address.
    pub closed spec fn wf(&self) -> bool {
        unique_addrs(self.entries@)
    }

    /// An empty registry.
    pub fn new() -> (r: Registry)
        ensures
            r.wf(),
            r@ == Map::<PeerAddr, (Seq<char>, u64)>::empty(),
    {
        let r = Registry { entries: Vec::new() };
        proof {
            assert_maps_equal!(view_of(r.entries@), Map::<PeerAddr, (Seq<char>, u64)>::empty());
        }
        r
    }

    /// Insert or replace the entry for `identity.addr`, resetting its
    /// last-seen instant to `now`.
    #[verifier::loop_isolation(false)]
    pub fn upsert(&mut self, identity: PeerIdentity, now: u64)
        requires
            old(self).wf(),
        ensures
            final(self).wf(),
            final(self)@ == old(self)@.insert(identity.addr, (identity.name@, now)),
    {
        let ghost s0 = self.entries@;
        let ghost a = identity.addr;
        let ghost gident = identity;
        let mut i: usize = 0;
        while i < self.entries.len()
            invariant
                self.entries@ == s0,
                unique_addrs(s0),
                i <= s0.len(),
                forall|k: int| 0 <= k < i ==> s0[k].0.addr != a,
            decreases s0.len() - i,
        {
            if self.entries[i].0.addr == identity.addr {
                let ghost idx = i as int;
                self.entries.set(i, (identity, now));
                proof {
                    let s1 = self.entries@;
                    assert(s1 == s0.update(idx, (gident, now)));
                    assert forall|p: int, q: int| 0 <= p < q < s1.len() implies s1[p].0.addr
                        != s1[q].0.addr by {
                        assert(s0[p].0.addr != s0[q].0.addr);
                    }
                    assert_maps_equal!(view_of(s1), view_of(s0).insert(a, (gident.name@, now)), k => {
                        if k == a {
                            lemma_view_entry(s1, idx);
                        } else {
                            if view_of(s1).contains_key(k) {
                                let j = choose|j: int| 0 <= j < s1.len() && s1[j].0.addr == k;
                                lemma_view_entry(s1, j);
                                lemma_view_entry(s0, j);
                            }
                            if view_of(s0).contains_key(k) {
                                let j = choose|j: int| 0 <= j < s0.len() && s0[j].0.addr == k;
                                lemma_view_entry(s0, j);
                                lemma_view_entry(s1, j);
                            }
                        }
                    });
                }
                return ;
            }
            i += 1;
        }
        self.entries.push((identity, now));
        proof {
            let s1 = self.entries@;
            assert(s1 == s0.push((gident, now)));
            assert forall|p: int, q: int| 0 <= p < q < s1.len() implies s1[p].0.addr
                != s1[q].0.addr by {
                if q < s0.len() {
                    assert(s0[p].0.addr != s0[q].0.addr);
                }
            }
            assert_maps_equal!(view_of(s1), view_of(s0).insert(a, (gident.name@, now)), k => {
                if k == a {
                    lemma_view_entry(s1, s0.len() as int);
                } else {
                    if view_of(s1).contains_key(k) {
                        let j = choose|j: int| 0 <= j < s1.len() && s1[j].0.addr == k;
                        lemma_view_entry(s1, j);
                        lemma_view_entry(s0, j);
                    }
                    if view_of(s0).contains_key(k) {
                        let j = choose|j: int| 0 <= j < s0.len() && s0[j].0.addr == k;
                        lemma_view_entry(s0, j);
                        lemma_view_entry(s1, j);
                    }
                }
            });
        }
    }

    /// Remove every entry whose last-seen instant predates `now - ttl`.
    #[verifier::loop_isolation(false)]
    pub fn evict_older_than(&mut self, now: u64, ttl: u64)
        requires
            old(self).wf(),
        ensures
            final(self).wf(),
            final(self)@ == evict_view(old(self)@, now, ttl),
    {
        let ghost s0 = self.entries@;
        let mut kept: Vec<(PeerIdentity, u64)> = Vec::new();
        let mut i: usize = 0;
        while i < self.entries.len()
            invariant
                self.entries@ == s0,
                i <= s0.len(),
                unique_addrs(kept@),
                kept_sound(kept@, s0, i as int, now, ttl),
                kept_complete(kept@, s0, i as int, now, ttl),
            decreases s0.len() - i,
        {
            let live = ttl >= now || self.entries[i].1 >= now - ttl;
            proof {
                assert(live == still_live(s0[i as int].1, now, ttl));
                lemma_evict_step(s0, kept@, i as int, now, ttl);
            }
            let ghost kept0 = kept@;
            if live {
                let e = &self.entries[i];
                let copy = (PeerIdentity { addr: e.0.addr, name: e.0.name.clone() }, e.1);
                proof {
                    assert(copy == s0[i as int]);
                }
                kept.push(copy);
                proof {
                    assert(kept@ == kept0.push(s0[i as int]));
                }
            }
            i += 1;
        }
        proof {
            assert(i == s0.len());
            lemma_kept_view(s0, kept@, now, ttl);
        }
        self.entries = kept;
    }

    /// A copy of every currently-held identity, in no particular order:
    /// one element per known address, carrying that address's name, and
    /// nothing else.
    #[verifier::loop_isolation(false)]
    pub fn snapshot(&self) -> (r: Vec<PeerIdentity>)
        requires
            self.wf(),
        ensures
            is_snapshot(r@, self@),
    {
        let ghost s0 = self.entries@;
        let mut r: Vec<PeerIdentity> = Vec::new();
        let mut i: usize = 0;
        while i < self.entries.len()
            invariant
                self.entries@ == s0,
                unique_addrs(s0),
                i <= s0.len(),
                r@.len() == i,
                forall|j: int| #![trigger r@[j]]
                    0 <= j < i ==> r@[j].addr == s0[j].0.addr && r@[j].name@ == s0[j].0.name@,
            decreases s0.len() - i,
        {
            let e = &self.entries[i];
            r.push(PeerIdentity { addr: e.0.addr, name: e.0.name.clone() });
            i += 1;
        }
        proof {
            assert forall|i2: int| #![trigger r@[i2]] 0 <= i2 < r@.len() implies self@.contains_key(
                r@[i2].addr,
            ) && r@[i2].name@ == self@[r@[i2].addr].0 by {
                lemma_view_entry(s0, i2);
            }
            assert forall|a: PeerAddr| #![trigger self@.contains_key(a)]
                self@.contains_key(a) implies has_addr(r@, a) by {
                let k = choose|k: int| 0 <= k < s0.len() && s0[k].0.addr == a;
                assert(0 <= k < r@.len() && r@[k].addr == a);
            }
        }
        r
    }
}

/// Whether some element of `r` carries address `a`.
pub open spec fn has_addr(r: Seq<PeerIdentity>, a: PeerAddr) -> bool {
    exists|i: int| 0 <= i < r.len() && r[i].addr == a
}

/// Whether `r` is a faithful snapshot of registry content `m`: one element
/// per known address, each carrying that address's name, and nothing else.
pub open spec fn is_snapshot(r: Seq<PeerIdentity>, m: RegistryView) -> bool {
    &&& forall|i: int| #![trigger r[i]]
        0 <= i < r.len() ==> m.contains_key(r[i].addr) && r[i].name@ == m[r[i].addr].0
    &&& forall|a: PeerAddr| #![trigger m.contains_key(a)] m.contains_key(a) ==> has_addr(r, a)
    &&& forall|i: int, j: int| 0 <= i < j < r.len() ==> r[i].addr != r[j].addr
}

/// Exactness of a snapshot taken after an eviction, over any registry content
/// reachable by any sequence of upserts: it holds exactly the identities
/// whose last-seen instant did not predate `now - ttl` — no extras, no
/// omissions, each under its own name, and no address twice.
pub proof fn lemma_snapshot_after_evict(
    r: Seq<PeerIdentity>,
    m: RegistryView,
    now: u64,
    ttl: u64,
)
    requires
        is_snapshot(r, evict_view(m, now, ttl)),
    ensures
        forall|i: int| #![trigger r[i]]
            0 <= i < r.len() ==> m.contains_key(r[i].addr) && still_live(m[r[i].addr].1, now, ttl)
                && r[i].name@ == m[r[i].addr].0,
        forall|a: PeerAddr| #![trigger m.contains_key(a)]
            m.contains_key(a) && still_live(m[a].1, now, ttl) ==> has_addr(r, a),
        forall|i: int, j: int| 0 <= i < j < r.len() ==> r[i].addr != r[j].addr,
{
    let e = evict_view(m, now, ttl);
    assert forall|i: int| #![trigger r[i]] 0 <= i < r.len() implies m.contains_key(r[i].addr)
        && still_live(m[r[i].addr].1, now, ttl) && r[i].name@ == m[r[i].addr].0 by {
        assert(e.contains_key(r[i].addr));
    }
    assert forall|a: PeerAddr| #![trigger m.contains_key(a)]
        m.contains_key(a) && still_live(m[a].1, now, ttl) implies has_addr(r, a) by {
        assert(e.contains_key(a));
    }
}

/// Exactness of eviction, over any registry content reachable by any sequence
/// of upserts: after an eviction at `now` with time-to-live `ttl`, the
/// registry holds exactly the entries whose last-seen instant does not
/// predate `now - ttl` — no extras, no omissions — each unchanged.
pub proof fn lemma_evict_exact(m: RegistryView, now: u64, ttl: u64)
    ensures
        forall|a: PeerAddr| #![trigger evict_view(m, now, ttl).contains_key(a)]
            evict_view(m, now, ttl).contains_key(a) <==> (m.contains_key(a) && still_live(
                m[a].1,
                now,
                ttl,
            )),
        forall|a: PeerAddr| #![trigger evict_view(m, now, ttl)[a]]
            evict_view(m, now, ttl).contains_key(a) ==> evict_view(m, now, ttl)[a] == m[a],
{
}

/// A peer refreshed within one beacon interval is never evicted while the
/// time-to-live is at least that interval; a peer silent for longer than the
/// time-to-live is evicted on the next janitor pass.
pub proof fn lemma_refresh_outruns_eviction(m: RegistryView, a: PeerAddr, now: u64, ttl: u64, interval: u64)
    requires
        m.contains_key(a),
        interval <= ttl,
    ensures
        m[a].1 + interval >= now ==> evict_view(m, now, ttl).contains_key(a),
        m[a].1 + ttl < now ==> !evict_view(m, now, ttl).contains_key(a),
{
}

/// The engine's own cadence: a peer refreshed within one beacon interval
/// survives every janitor pass under the engine's time-to-live, and one
/// silent past the time-to-live is gone on the next pass.
pub proof fn lemma_beacon_cadence(m: RegistryView, a: PeerAddr, now: u64)
    requires
        m.contains_key(a),
    ensures
        m[a].1 + crate::BEACON_INTERVAL_MILLIS >= now ==> evict_view(
            m,
            now,
            crate::PEER_TTL_MILLIS,
        ).contains_key(a),
        m[a].1 + crate::PEER_TTL_MILLIS < now ==> !evict_view(
            m,
            now,
            crate::PEER_TTL_MILLIS,
        ).contains_key(a),
{
    lemma_refresh_outruns_eviction(m, a, now, crate::PEER_TTL_MILLIS, crate::BEACON_INTERVAL_MILLIS);
}

} // verus!
