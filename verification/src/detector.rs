//! Arc corner detector: a stateless test of one candidate event against the
//! frozen surface. The timestamps on a fixed-radius ring of pixels around
//! the candidate (same polarity) are classified as recent or stale relative
//! to the candidate's own timestamp; the candidate is a corner exactly when
//! the longest contiguous (cyclically, around the ring) run of recent pixels
//! falls inside a configured band: too short means no edge, too long means a
//! straight edge rather than a corner.

use vstd::prelude::*;
use crate::event::Event;
use crate::surface::Surface;
use crate::surface::SurfaceView;

verus! {

/// Parameters of the arc corner detector.
#[derive(Clone, Copy, PartialEq, Eq, Structural, Debug)]
pub struct DetectorConfig {
    /// Chebyshev radius of the neighborhood ring around a candidate pixel.
    pub radius: u32,
    /// Inclusive lower bound of the accepted arc-length band.
    pub min_arc: u32,
    /// Inclusive upper bound of the accepted arc-length band.
    pub max_arc: u32,
    /// A ring pixel counts toward an arc when it fired within this many
    /// ticks before the candidate's own timestamp.
    pub recent_window: u32,
}

impl DetectorConfig {
    /// Number of pixels on the ring: the perimeter of the square of
    /// Chebyshev radius `radius`.
    pub open spec fn ring_len(self) -> int {
        8 * self.radius
    }

    pub open spec fn valid(self) -> bool {
        &&& self.radius >= 1
        &&& 8 * self.radius <= u32::MAX
        &&& 1 <= self.min_arc
        &&& self.min_arc <= self.max_arc
        &&& self.max_arc <= 8 * self.radius
        &&& self.recent_window >= 1
    }
}

/// Row offset of the `i`-th ring pixel, walking the square ring of the given
/// radius clockwise from its top-left corner: top edge, right edge, bottom
/// edge, left edge. Successive ring pixels are neighbours, and the last is a
/// neighbour of the first.
pub open spec fn ring_dr(radius: int, i: int) -> int {
    if i < 2 * radius {
        -radius
    } else if i < 4 * radius {
        -radius + (i - 2 * radius)
    } else if i < 6 * radius {
        radius
    } else {
        radius - (i - 6 * radius)
    }
}

/// Column offset of the `i`-th ring pixel; see `ring_dr`.
pub open spec fn ring_dc(radius: int, i: int) -> int {
    if i < 2 * radius {
        -radius + i
    } else if i < 4 * radius {
        radius
    } else if i < 6 * radius {
        radius - (i - 4 * radius)
    } else {
        -radius
    }
}

/// Whether the whole ring around the candidate lies inside the surface.
/// Candidates too close to an edge are rejected, never promoted to corners.
pub open spec fn ring_in_bounds(sv: SurfaceView, e: Event, radius: int) -> bool {
    &&& radius <= e.row
    &&& e.row + radius < sv.height
    &&& radius <= e.col
    &&& e.col + radius < sv.width
}

/// Whether a cell timestamp counts as "fired recently enough" to belong to
/// the same moving edge as a candidate with timestamp `ts`: the cell was
/// observed at all (non-zero) and at most `window` ticks before `ts`.
pub open spec fn recent(cell: u32, ts: u32, window: u32) -> bool {
    cell != 0 && cell + window >= ts
}

/// The ring of recency flags around the candidate, read from the candidate's
/// own polarity plane, in clockwise ring order.
pub open spec fn ring_flags(sv: SurfaceView, e: Event, cfg: DetectorConfig) -> Seq<bool> {
    Seq::new(
        (8 * cfg.radius) as nat,
        |i: int|
            recent(
                sv.at(
                    e.polarity,
                    e.row + ring_dr(cfg.radius as int, i),
                    e.col + ring_dc(cfg.radius as int, i),
                ),
                e.timestamp,
                cfg.recent_window,
            ),
    )
}

/// Wraps an index in `[0, 2n)` onto `[0, n)`.
pub open spec fn wrap_index(n: int, x: int) -> int {
    if x < n {
        x
    } else {
        x - n
    }
}

/// Length of the run of consecutive true flags starting at position `s` of
/// the cyclic sequence `b`, counting at most `fuel` positions.
pub open spec fn run_len_from(b: Seq<bool>, s: int, fuel: nat) -> nat
    decreases fuel,
{
    if fuel == 0 {
        0
    } else if !b[s] {
        0
    } else {
        (1 + run_len_from(b, wrap_index(b.len() as int, s + 1), (fuel - 1) as nat)) as nat
    }
}

/// Length of the run of consecutive true flags starting at `s`, around the
/// cycle, capped at the length of `b` (so an all-true ring has run `b.len()`).
pub open spec fn cyclic_run_from(b: Seq<bool>, s: int) -> nat {
    run_len_from(b, s, b.len())
}

/// The longest cyclic run among those starting at positions `0 .. k`.
pub open spec fn longest_run_upto(b: Seq<bool>, k: int) -> nat
    decreases k,
{
    if k <= 0 {
        0
    } else {
        let prev = longest_run_upto(b, k - 1);
        let cur = cyclic_run_from(b, k - 1);
        if cur > prev {
            cur
        } else {
            prev
        }
    }
}

/// The maximal contiguous angular arc of the ring: the longest cyclic run of
/// true flags, over all starting positions.
pub open spec fn longest_run(b: Seq<bool>) -> nat {
    longest_run_upto(b, b.len() as int)
}

/// The detector decision: the candidate is a corner exactly when its whole
/// ring lies inside the surface and the longest arc of recently-fired ring
/// pixels falls inside the configured band.
pub open spec fn is_corner(sv: SurfaceView, e: Event, cfg: DetectorConfig) -> bool {
    &&& ring_in_bounds(sv, e, cfg.radius as int)
    &&& cfg.min_arc <= longest_run(ring_flags(sv, e, cfg)) <= cfg.max_arc
}

/// Law: the detector is deterministic. Its decision is a function of the
/// frozen surface, the candidate, and the configuration alone, so repeated
/// evaluations — in any order, or concurrently over the same frozen
/// surface — agree on every candidate.
pub proof fn lemma_detector_deterministic(
    sv1: SurfaceView,
    sv2: SurfaceView,
    e1: Event,
    e2: Event,
    cfg1: DetectorConfig,
    cfg2: DetectorConfig,
)
    requires
        sv1 == sv2,
        e1 == e2,
        cfg1 == cfg2,
    ensures
        is_corner(sv1, e1, cfg1) == is_corner(sv2, e2, cfg2),
{
}

/// A scanned prefix of `k` true flags from `s`, stopped by the cap or by a
/// false flag, pins the cyclic run length from `s` to exactly `k`.
proof fn lemma_run_len_stops(b: Seq<bool>, s: int, k: nat, fuel: nat)
    requires
        b.len() >= 1,
        0 <= s < b.len(),
        k <= fuel <= b.len(),
        forall|i: int| 0 <= i < k ==> b[#[trigger] wrap_index(b.len() as int, s + i)],
        k < fuel ==> !b[wrap_index(b.len() as int, s + k)],
    ensures
        run_len_from(b, s, fuel) == k,
    decreases k,
{
    let n = b.len() as int;
    if k == 0 {
        if fuel > 0 {
            assert(wrap_index(n, s + 0) == s);
        }
    } else {
        assert(b[wrap_index(n, s + 0)]);
        assert(b[s]);
        let s1 = wrap_index(n, s + 1);
        assert forall|i: int| 0 <= i < k - 1 implies b[#[trigger] wrap_index(n, s1 + i)] by {
            assert(wrap_index(n, s1 + i) == wrap_index(n, s + (i + 1)));
            assert(b[wrap_index(n, s + (i + 1))]);
        }
        if (k - 1) < (fuel - 1) {
            assert(wrap_index(n, s1 + (k - 1)) == wrap_index(n, s + k));
        }
        lemma_run_len_stops(b, s1, (k - 1) as nat, (fuel - 1) as nat);
    }
}

/// Computes the longest cyclic run of true flags in `b`.
fn longest_cyclic_run(b: &Vec<bool>) -> (r: u32)
    requires
        1 <= b@.len() <= u32::MAX,
    ensures
        r == longest_run(b@),
{
    let n: usize = b.len();
    let mut best: u32 = 0;
    let mut s: usize = 0;
    while s < n
        invariant
            n == b@.len(),
            n <= u32::MAX,
            s <= n,
            best == longest_run_upto(b@, s as int),
        decreases n - s,
    {
        let mut cnt: usize = 0;
        let mut j: usize = s;
        while cnt < n && b[j]
            invariant
                n == b@.len(),
                s < n,
                cnt <= n,
                j < n,
                j == wrap_index(n as int, s + cnt),
                forall|i: int| 0 <= i < cnt ==> b@[#[trigger] wrap_index(n as int, s + i)],
            decreases n - cnt,
        {
            cnt = cnt + 1;
            j = if j + 1 == n {
                0
            } else {
                j + 1
            };
        }
        proof {
            lemma_run_len_stops(b@, s as int, cnt as nat, n as nat);
        }
        let c: u32 = cnt as u32;
        if c > best {
            best = c;
        }
        s = s + 1;
    }
    best
}

/// The surface coordinates of the `i`-th ring pixel around `(row, col)`.
fn ring_coords(radius: u32, i: u32, row: u32, col: u32) -> (rc: (u32, u32))
    requires
        radius >= 1,
        8 * radius <= u32::MAX,
        i < 8 * radius,
        radius <= row,
        radius <= col,
        row + radius <= u32::MAX,
        col + radius <= u32::MAX,
    ensures
        rc.0 == row + ring_dr(radius as int, i as int),
        rc.1 == col + ring_dc(radius as int, i as int),
{
    let r2: u32 = 2 * radius;
    if i < r2 {
        (row - radius, col - radius + i)
    } else if i < 2 * r2 {
        (row - radius + (i - r2), col + radius)
    } else if i < 3 * r2 {
        (row + radius, col + radius - (i - 2 * r2))
    } else {
        (row + radius - (i - 3 * r2), col - radius)
    }
}

/// Decides whether `e` is a corner of the frozen surface: a pure function of
/// the surface contents, the candidate, and the configuration. Returns the
/// accepted candidate itself, or `None` — in particular `None` whenever the
/// candidate's ring would read outside the surface.
pub fn detect(surface: &Surface, e: &Event, cfg: &DetectorConfig) -> (r: Option<Event>)
    requires
        surface@.wf(),
        cfg.valid(),
    ensures
        r == if is_corner(surface@, *e, *cfg) {
            Some(*e)
        } else {
            None::<Event>
        },
        !ring_in_bounds(surface@, *e, cfg.radius as int) ==> r is None,
{
    let radius: u32 = cfg.radius;
    let h: u32 = surface.height();
    let w: u32 = surface.width();
    let inside: bool = (e.row as u64) >= (radius as u64) && (e.row as u64) + (radius as u64) < (
    h as u64) && (e.col as u64) >= (radius as u64) && (e.col as u64) + (radius as u64) < (w as u64);
    if !inside {
        return None;
    }
    let n: u32 = 8 * radius;
    let mut flags: Vec<bool> = Vec::new();
    let mut i: u32 = 0;
    while i < n
        invariant
            surface@.wf(),
            cfg.valid(),
            radius == cfg.radius,
            n == 8 * cfg.radius,
            radius <= e.row,
            e.row + radius < surface@.height,
            radius <= e.col,
            e.col + radius < surface@.width,
            surface@.height <= u32::MAX,
            surface@.width <= u32::MAX,
            i <= n,
            flags@.len() == i,
            forall|k: int| 0 <= k < i ==> flags@[k] == ring_flags(surface@, *e, *cfg)[k],
        decreases n - i,
    {
        let rc = ring_coords(radius, i, e.row, e.col);
        proof {
            assert(-(radius as int) <= ring_dr(radius as int, i as int) <= radius as int);
            assert(-(radius as int) <= ring_dc(radius as int, i as int) <= radius as int);
        }
        let cell: u32 = surface.read(e.polarity, rc.0, rc.1);
        let f: bool = cell != 0 && (cell as u64) + (cfg.recent_window as u64) >= (e.timestamp
            as u64);
        flags.push(f);
        i = i + 1;
    }
    proof {
        assert(flags@ =~= ring_flags(surface@, *e, *cfg));
    }
    let arc: u32 = longest_cyclic_run(&flags);
    if cfg.min_arc <= arc && arc <= cfg.max_arc {
        Some(*e)
    } else {
        None
    }
}

} // verus!
