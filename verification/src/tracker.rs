//! Feature tracker: the registry of currently tracked features. Each corner
//! fed to the tracker is matched against the registry — nearest feature
//! within the match radius wins, ties broken by the most recent timestamp —
//! and either refreshes the matched feature in place or starts a new track;
//! afterwards every feature older than the current horizon minus the
//! forgetting time is evicted, unconditionally.

use vstd::prelude::*;
use crate::event::Event;

verus! {

/// A tracked feature: the most recent corner accepted into its track, plus a
/// stable identity that survives refreshes.
#[derive(Clone, Copy, PartialEq, Eq, Structural, Debug)]
pub struct Feature {
    pub row: u32,
    pub col: u32,
    pub timestamp: u32,
    pub id: u64,
}

pub open spec fn abs_diff(a: int, b: int) -> int {
    if a >= b {
        a - b
    } else {
        b - a
    }
}

/// Chebyshev distance between a tracked feature and a corner position.
pub open spec fn dist(f: Feature, e: Event) -> int {
    let dr = abs_diff(f.row as int, e.row as int);
    let dc = abs_diff(f.col as int, e.col as int);
    if dr >= dc {
        dr
    } else {
        dc
    }
}

/// `a` is a strictly better match than `b` for the corner `e`: nearer, or
/// equally near and more recently refreshed.
pub open spec fn closer(a: Feature, b: Feature, e: Event) -> bool {
    ||| dist(a, e) < dist(b, e)
    ||| (dist(a, e) == dist(b, e) && a.timestamp > b.timestamp)
}

/// Index of the match for `e` among the first `k` registry entries: the
/// first of the best candidates within `radius`, or -1 when no entry is
/// within `radius`.
pub open spec fn best_index_upto(fs: Seq<Feature>, e: Event, radius: int, k: int) -> int
    decreases k,
{
    if k <= 0 {
        -1
    } else {
        let prev = best_index_upto(fs, e, radius, k - 1);
        if dist(fs[k - 1], e) <= radius && (prev == -1 || closer(fs[k - 1], fs[prev], e)) {
            k - 1
        } else {
            prev
        }
    }
}

/// Index of the registry entry a corner matches, or -1 when none is within
/// the match radius.
pub open spec fn best_index(fs: Seq<Feature>, e: Event, radius: int) -> int {
    best_index_upto(fs, e, radius, fs.len() as int)
}

/// Whether a feature is recent enough to survive eviction at `horizon`.
pub open spec fn live(f: Feature, horizon: u32, forgetting_time: u32) -> bool {
    f.timestamp + forgetting_time >= horizon
}

pub open spec fn live_pred(horizon: u32, forgetting_time: u32) -> spec_fn(Feature) -> bool {
    |f: Feature| live(f, horizon, forgetting_time)
}

/// The registry after the eviction pass at `horizon`: the live features, in
/// their original order.
pub open spec fn evicted(fs: Seq<Feature>, horizon: u32, forgetting_time: u32) -> Seq<Feature> {
    fs.filter(live_pred(horizon, forgetting_time))
}

/// The registry after matching corner `e`, before eviction: the matched
/// feature refreshed in place (position and timestamp replaced, identity
/// kept), or a new feature with identity `nid` appended when nothing
/// matched.
pub open spec fn matched_registry(fs: Seq<Feature>, e: Event, radius: int, nid: u64) -> Seq<
    Feature,
> {
    let b = best_index(fs, e, radius);
    if b >= 0 {
        fs.update(b, Feature { row: e.row, col: e.col, timestamp: e.timestamp, id: fs[b].id })
    } else {
        fs.push(Feature { row: e.row, col: e.col, timestamp: e.timestamp, id: nid })
    }
}

/// The parent snapshot a corner produces: the matched feature as it stood
/// before being refreshed, or nothing when a new track was started.
pub open spec fn step_parent(fs: Seq<Feature>, e: Event, radius: int) -> Option<Feature> {
    let b = best_index(fs, e, radius);
    if b >= 0 {
        Some(fs[b])
    } else {
        None
    }
}

/// The registry after one corner is fully processed: match or insert, then
/// the unconditional eviction pass.
pub open spec fn stepped_registry(
    fs: Seq<Feature>,
    nid: u64,
    e: Event,
    horizon: u32,
    radius: int,
    forgetting_time: u32,
) -> Seq<Feature> {
    evicted(matched_registry(fs, e, radius, nid), horizon, forgetting_time)
}

/// The identity counter after one corner: advanced (wrapping) exactly when a
/// new track was started.
pub open spec fn stepped_nid(fs: Seq<Feature>, nid: u64, e: Event, radius: int) -> u64 {
    if best_index(fs, e, radius) >= 0 {
        nid
    } else if nid == u64::MAX {
        0
    } else {
        (nid + 1) as u64
    }
}

proof fn lemma_best_match_upto(fs: Seq<Feature>, e: Event, radius: int, k: int)
    requires
        0 <= k <= fs.len(),
    ensures
        ({
            let b = best_index_upto(fs, e, radius, k);
            &&& -1 <= b < k
            &&& (b == -1 <==> forall|j: int| 0 <= j < k ==> #[trigger] dist(fs[j], e) > radius)
            &&& b >= 0 ==> b < k && dist(fs[b], e) <= radius
            &&& b >= 0 ==> forall|j: int|
                0 <= j < k && #[trigger] dist(fs[j], e) <= radius ==> !closer(fs[j], fs[b], e)
        }),
    decreases k,
{
    if k > 0 {
        lemma_best_match_upto(fs, e, radius, k - 1);
        let prev = best_index_upto(fs, e, radius, k - 1);
        let b = best_index_upto(fs, e, radius, k);
        let cand = fs[k - 1];
        if dist(cand, e) <= radius && (prev == -1 || closer(cand, fs[prev], e)) {
            assert(b == k - 1);
            assert forall|j: int| 0 <= j < k && #[trigger] dist(fs[j], e) <= radius implies !closer(
                fs[j],
                fs[b],
                e,
            ) by {
                if j < k - 1 {
                    if prev == -1 {
                        assert(dist(fs[j], e) > radius);
                    } else {
                        assert(!closer(fs[j], fs[prev], e));
                    }
                }
            }
        } else {
            assert(b == prev);
        }
    }
}

/// Law: nearest match with recency tie-break. When a corner matches (the
/// best index is not -1), the selected feature is within the match radius,
/// no candidate within the radius is strictly nearer, and among equally near
/// candidates none has a more recent timestamp. When no registry entry is
/// within the radius — and only then — there is no match.
pub proof fn lemma_match_nearest_with_tie_break(fs: Seq<Feature>, e: Event, radius: int)
    ensures
        ({
            let b = best_index(fs, e, radius);
            &&& -1 <= b < fs.len()
            &&& (b == -1 <==> forall|j: int| 0 <= j < fs.len() ==> #[trigger] dist(fs[j], e)
                > radius)
            &&& b >= 0 ==> b < fs.len() && dist(fs[b], e) <= radius
            &&& b >= 0 ==> forall|j: int|
                0 <= j < fs.len() && #[trigger] dist(fs[j], e) <= radius ==> dist(fs[b], e) <= dist(
                    fs[j],
                    e,
                ) && (dist(fs[j], e) == dist(fs[b], e) ==> fs[b].timestamp >= fs[j].timestamp)
        }),
{
    lemma_best_match_upto(fs, e, radius, fs.len() as int);
}

proof fn lemma_push_contains(s: Seq<Feature>, y: Feature, x: Feature)
    ensures
        s.push(y).contains(x) <==> s.contains(x) || y == x,
{
    let t = s.push(y);
    if s.contains(x) {
        let i = choose|i: int| 0 <= i < s.len() && s[i] == x;
        assert(t.contains(x)) by {
            assert(t[i] == x);
        }
    }
    if y == x {
        assert(t.contains(x)) by {
            assert(t[s.len() as int] == x);
        }
    }
    if t.contains(x) {
        let i = choose|i: int| 0 <= i < t.len() && t[i] == x;
        if i < s.len() {
            assert(s.contains(x)) by {
                assert(s[i] == x);
            }
        }
    }
}

proof fn lemma_filter_membership(s: Seq<Feature>, pred: spec_fn(Feature) -> bool, x: Feature)
    ensures
        s.filter(pred).contains(x) <==> s.contains(x) && pred(x),
    decreases s.len(),
{
    reveal(Seq::filter);
    s.lemma_filter_len(pred);
    if s.len() == 0 {
        assert(!s.contains(x));
        assert(s.filter(pred).len() == 0);
    } else {
        let sub = s.drop_last();
        let la = s.last();
        lemma_filter_membership(sub, pred, x);
        lemma_push_contains(sub, la, x);
        assert(s =~= sub.push(la));
        if pred(la) {
            assert(s.filter(pred) == sub.filter(pred).push(la));
            lemma_push_contains(sub.filter(pred), la, x);
        } else {
            assert(s.filter(pred) == sub.filter(pred));
        }
    }
}

/// Law: forgetting. A feature of the registry survives the eviction pass at
/// `horizon` exactly while `horizon - timestamp <= forgetting_time`; once
/// its age exceeds the forgetting time it is absent, and eviction never
/// invents features.
pub proof fn lemma_forgetting(fs: Seq<Feature>, horizon: u32, forgetting_time: u32, f: Feature)
    ensures
        evicted(fs, horizon, forgetting_time).contains(f) <==> fs.contains(f) && horizon
            - f.timestamp <= forgetting_time,
{
    lemma_filter_membership(fs, live_pred(horizon, forgetting_time), f);
    assert(live_pred(horizon, forgetting_time)(f) == live(f, horizon, forgetting_time));
}

/// The registry of currently tracked features, with the two tuning
/// parameters of the tracker.
pub struct FeatureTracker {
    features: Vec<Feature>,
    match_radius: u32,
    forgetting_time: u32,
    next_id: u64,
}

impl FeatureTracker {
    /// The tracked features, in insertion order.
    pub closed spec fn features(self) -> Seq<Feature> {
        self.features@
    }

    pub closed spec fn match_radius(self) -> u32 {
        self.match_radius
    }

    pub closed spec fn forgetting_time(self) -> u32 {
        self.forgetting_time
    }

    /// The identity the next newly created track will carry.
    pub closed spec fn id_counter(self) -> u64 {
        self.next_id
    }

    pub fn new(match_radius: u32, forgetting_time: u32) -> (t: FeatureTracker)
        ensures
            t.features() == Seq::<Feature>::empty(),
            t.match_radius() == match_radius,
            t.forgetting_time() == forgetting_time,
            t.id_counter() == 0,
    {
        let t = FeatureTracker { features: Vec::new(), match_radius, forgetting_time, next_id: 0 };
        proof {
            assert(t.features() =~= Seq::<Feature>::empty());
        }
        t
    }

    /// Read-only snapshot of the registry, for rendering and queries.
    pub fn tracked_features(&self) -> (v: &Vec<Feature>)
        ensures
            v@ == self.features(),
    {
        &self.features
    }

    pub fn feature_count(&self) -> (n: usize)
        ensures
            n == self.features().len(),
    {
        self.features.len()
    }

    /// Finds the registry entry the corner matches: the nearest feature
    /// within the match radius, ties broken by the most recent timestamp,
    /// remaining ties by the earliest registry position.
    fn find_best(&self, e: &Event) -> (r: Option<usize>)
        ensures
            r matches Some(i) ==> i == best_index(self.features(), *e, self.match_radius() as int)
                && i < self.features().len(),
            r is None ==> best_index(self.features(), *e, self.match_radius() as int) == -1,
    {
        let n: usize = self.features.len();
        let radius: u32 = self.match_radius;
        let mut have: bool = false;
        let mut best_i: usize = 0;
        let mut best_d: u32 = 0;
        let mut best_ts: u32 = 0;
        let mut k: usize = 0;
        while k < n
            invariant
                n == self.features().len(),
                radius == self.match_radius(),
                k <= n,
                !have ==> best_index_upto(self.features(), *e, radius as int, k as int) == -1,
                have ==> best_index_upto(self.features(), *e, radius as int, k as int)
                    == best_i as int,
                have ==> best_i < k,
                have ==> best_d == dist(self.features()[best_i as int], *e),
                have ==> best_ts == self.features()[best_i as int].timestamp,
            decreases n - k,
        {
            let f = self.features[k];
            let dr: u32 = if f.row >= e.row {
                f.row - e.row
            } else {
                e.row - f.row
            };
            let dc: u32 = if f.col >= e.col {
                f.col - e.col
            } else {
                e.col - f.col
            };
            let d: u32 = if dr >= dc {
                dr
            } else {
                dc
            };
            if d <= radius && (!have || d < best_d || (d == best_d && f.timestamp > best_ts)) {
                have = true;
                best_i = k;
                best_d = d;
                best_ts = f.timestamp;
            }
            k = k + 1;
        }
        if have {
            Some(best_i)
        } else {
            None
        }
    }

    /// The unconditional housekeeping pass: drops every feature whose age at
    /// `horizon` exceeds the forgetting time, keeping the rest in order.
    pub fn evict_stale(&mut self, horizon: u32)
        ensures
            final(self).features() == evicted(
                old(self).features(),
                horizon,
                old(self).forgetting_time(),
            ),
            final(self).match_radius() == old(self).match_radius(),
            final(self).forgetting_time() == old(self).forgetting_time(),
            final(self).id_counter() == old(self).id_counter(),
    {
        proof {
            reveal(Seq::filter);
        }
        let ghost fs0 = self.features@;
        let n: usize = self.features.len();
        let mut out: Vec<Feature> = Vec::new();
        let mut k: usize = 0;
        while k < n
            invariant
                self.features@ == fs0,
                n == fs0.len(),
                k <= n,
                out@ == evicted(fs0.take(k as int), horizon, self.forgetting_time),
            decreases n - k,
        {
            let f = self.features[k];
            let keep: bool = (f.timestamp as u64) + (self.forgetting_time as u64) >= (horizon
                as u64);
            proof {
                reveal(Seq::filter);
                let t1 = fs0.take(k as int + 1);
                assert(t1.drop_last() =~= fs0.take(k as int));
                assert(t1.last() == fs0[k as int]);
                assert(live_pred(horizon, self.forgetting_time)(f) == live(
                    f,
                    horizon,
                    self.forgetting_time,
                ));
            }
            if keep {
                out.push(f);
            }
            k = k + 1;
            proof {
                assert(out@ == evicted(fs0.take(k as int), horizon, self.forgetting_time));
            }
        }
        proof {
            assert(fs0.take(n as int) =~= fs0);
        }
        self.features = out;
    }

    /// Feeds one corner to the tracker: matches it against the registry
    /// (nearest within the match radius, ties to the most recent), refreshes
    /// the matched feature in place or starts a new track, returns the
    /// matched feature's previous snapshot as the corner's parent, and runs
    /// the eviction pass at `horizon` whatever the match outcome.
    pub fn add_and_match_feature(&mut self, e: &Event, horizon: u32) -> (parent: Option<Feature>)
        ensures
            parent == step_parent(old(self).features(), *e, old(self).match_radius() as int),
            final(self).features() == stepped_registry(
                old(self).features(),
                old(self).id_counter(),
                *e,
                horizon,
                old(self).match_radius() as int,
                old(self).forgetting_time(),
            ),
            final(self).id_counter() == stepped_nid(
                old(self).features(),
                old(self).id_counter(),
                *e,
                old(self).match_radius() as int,
            ),
            final(self).match_radius() == old(self).match_radius(),
            final(self).forgetting_time() == old(self).forgetting_time(),
    {
        let b = self.find_best(e);
        let parent: Option<Feature> = match b {
            Some(i) => {
                let old_f = self.features[i];
                self.features.set(
                    i,
                    Feature { row: e.row, col: e.col, timestamp: e.timestamp, id: old_f.id },
                );
                Some(old_f)
            },
            None => {
                let nf = Feature {
                    row: e.row,
                    col: e.col,
                    timestamp: e.timestamp,
                    id: self.next_id,
                };
                self.features.push(nf);
                self.next_id = if self.next_id == u64::MAX {
                    0
                } else {
                    self.next_id + 1
                };
                None
            },
        };
        proof {
            assert(self.features@ == matched_registry(
                old(self).features(),
                *e,
                old(self).match_radius() as int,
                old(self).id_counter(),
            ));
        }
        self.evict_stale(horizon);
        parent
    }
}

} // verus!
