//! Active-event surface: per-pixel "time of last event" matrices, one per
//! polarity. Each cell holds the timestamp of the most recent event of that
//! polarity at that pixel, with 0 meaning "never observed". Cells are
//! last-writer-wins summaries, not histories.

use vstd::prelude::*;
use crate::event::Event;
use crate::event::Polarity;

verus! {

/// Mathematical model of the surface: one flat row-major timestamp sequence
/// per polarity, plus the dimensions.
#[verifier::ext_equal]
pub struct SurfaceView {
    pub rise: Seq<u32>,
    pub fall: Seq<u32>,
    pub height: int,
    pub width: int,
}

impl SurfaceView {
    pub open spec fn wf(self) -> bool {
        &&& self.height >= 1
        &&& self.width >= 1
        &&& self.rise.len() == self.height * self.width
        &&& self.fall.len() == self.height * self.width
    }

    pub open spec fn in_bounds(self, row: int, col: int) -> bool {
        0 <= row < self.height && 0 <= col < self.width
    }

    pub open spec fn plane(self, p: Polarity) -> Seq<u32> {
        match p {
            Polarity::Rise => self.rise,
            Polarity::Fall => self.fall,
        }
    }

    /// Timestamp of the most recent event of polarity `p` at `(row, col)`;
    /// 0 means the cell was never written.
    pub open spec fn at(self, p: Polarity, row: int, col: int) -> u32 {
        self.plane(p)[row * self.width + col]
    }

    /// The view after one event: the event's cell on its polarity's plane is
    /// overwritten with the event's timestamp; an out-of-bounds event is
    /// dropped without touching any cell.
    pub open spec fn updated(self, e: Event) -> SurfaceView {
        if self.in_bounds(e.row as int, e.col as int) {
            let idx = (e.row as int) * self.width + (e.col as int);
            match e.polarity {
                Polarity::Rise => SurfaceView {
                    rise: self.rise.update(idx, e.timestamp),
                    fall: self.fall,
                    height: self.height,
                    width: self.width,
                },
                Polarity::Fall => SurfaceView {
                    rise: self.rise,
                    fall: self.fall.update(idx, e.timestamp),
                    height: self.height,
                    width: self.width,
                },
            }
        } else {
            self
        }
    }

    /// The view after a chunk of events, applied in order.
    pub open spec fn after_events(self, es: Seq<Event>) -> SurfaceView
        decreases es.len(),
    {
        if es.len() == 0 {
            self
        } else {
            self.after_events(es.drop_last()).updated(es.last())
        }
    }
}

/// True when event `e` writes the cell `(p, row, col)` of a surface with
/// dimensions `height x width`.
pub open spec fn hits(e: Event, p: Polarity, row: int, col: int, height: int, width: int) -> bool {
    &&& e.polarity == p
    &&& e.row == row
    &&& e.col == col
    &&& 0 <= row < height
    &&& 0 <= col < width
}

/// Index of the last event in `es` that writes `(p, row, col)`, or -1 if
/// no event does.
pub open spec fn last_hit_index(es: Seq<Event>, p: Polarity, row: int, col: int, height: int, width: int) -> int
    decreases es.len(),
{
    if es.len() == 0 {
        -1
    } else if hits(es.last(), p, row, col, height, width) {
        es.len() - 1
    } else {
        last_hit_index(es.drop_last(), p, row, col, height, width)
    }
}

proof fn lemma_row_major_index_in_range(height: int, width: int, row: int, col: int)
    requires
        0 <= row < height,
        0 <= col < width,
    ensures
        0 <= row * width + col < height * width,
{
    assert(0 <= row * width + col < height * width) by (nonlinear_arith)
        requires
            0 <= row < height,
            0 <= col < width,
    ;
}

proof fn lemma_row_major_index_injective(width: int, r1: int, c1: int, r2: int, c2: int)
    requires
        width >= 1,
        0 <= c1 < width,
        0 <= c2 < width,
        !(r1 == r2 && c1 == c2),
    ensures
        r1 * width + c1 != r2 * width + c2,
{
    assert(r1 * width + c1 != r2 * width + c2) by (nonlinear_arith)
        requires
            width >= 1,
            0 <= c1 < width,
            0 <= c2 < width,
            !(r1 == r2 && c1 == c2),
    ;
}

pub proof fn lemma_updated_wf(sv: SurfaceView, e: Event)
    requires
        sv.wf(),
    ensures
        sv.updated(e).wf(),
        sv.updated(e).height == sv.height,
        sv.updated(e).width == sv.width,
{
    if sv.in_bounds(e.row as int, e.col as int) {
        lemma_row_major_index_in_range(sv.height, sv.width, e.row as int, e.col as int);
    }
}

pub proof fn lemma_after_events_wf(sv: SurfaceView, es: Seq<Event>)
    requires
        sv.wf(),
    ensures
        sv.after_events(es).wf(),
        sv.after_events(es).height == sv.height,
        sv.after_events(es).width == sv.width,
    decreases es.len(),
{
    if es.len() > 0 {
        lemma_after_events_wf(sv, es.drop_last());
        lemma_updated_wf(sv.after_events(es.drop_last()), es.last());
    }
}

/// A single update leaves every cell other than the event's own untouched,
/// and writes the event's timestamp to its own cell.
proof fn lemma_updated_cell(sv: SurfaceView, e: Event, p: Polarity, row: int, col: int)
    requires
        sv.wf(),
        sv.in_bounds(row, col),
    ensures
        hits(e, p, row, col, sv.height, sv.width) ==> sv.updated(e).at(p, row, col) == e.timestamp,
        !hits(e, p, row, col, sv.height, sv.width) ==> sv.updated(e).at(p, row, col) == sv.at(p, row, col),
{
    lemma_row_major_index_in_range(sv.height, sv.width, row, col);
    if sv.in_bounds(e.row as int, e.col as int) {
        lemma_row_major_index_in_range(sv.height, sv.width, e.row as int, e.col as int);
        if !(e.row == row && e.col == col) {
            lemma_row_major_index_injective(sv.width, e.row as int, e.col as int, row, col);
        }
    }
}

/// Law: the surface is last-writer-wins per cell. After applying a chunk in
/// order, a cell holds the timestamp of the last event in the chunk that
/// wrote it, and a cell written by no event of the chunk is unchanged —
/// earlier writes to the same cell never survive.
pub proof fn lemma_last_writer_wins(sv: SurfaceView, es: Seq<Event>, p: Polarity, row: int, col: int)
    requires
        sv.wf(),
        sv.in_bounds(row, col),
    ensures
        ({
            let last = last_hit_index(es, p, row, col, sv.height, sv.width);
            &&& last >= 0 ==> {
                &&& 0 <= last < es.len()
                &&& hits(es[last], p, row, col, sv.height, sv.width)
                &&& forall|j: int| last < j < es.len() ==> !hits(es[j], p, row, col, sv.height, sv.width)
                &&& sv.after_events(es).at(p, row, col) == es[last].timestamp
            }
            &&& last < 0 ==> {
                &&& forall|j: int| 0 <= j < es.len() ==> !hits(es[j], p, row, col, sv.height, sv.width)
                &&& sv.after_events(es).at(p, row, col) == sv.at(p, row, col)
            }
        }),
    decreases es.len(),
{
    if es.len() > 0 {
        lemma_last_writer_wins(sv, es.drop_last(), p, row, col);
        lemma_after_events_wf(sv, es.drop_last());
        lemma_updated_cell(sv.after_events(es.drop_last()), es.last(), p, row, col);
        assert(forall|j: int| 0 <= j < es.len() - 1 ==> es[j] == es.drop_last()[j]);
    }
}

/// Law: replaying an already-applied chunk's surface updates a second time
/// changes nothing — the surface after the replay is the surface after the
/// first application, cell for cell.
pub proof fn lemma_replay_idempotent(sv: SurfaceView, es: Seq<Event>)
    requires
        sv.wf(),
    ensures
        sv.after_events(es).after_events(es) == sv.after_events(es),
{
    let a1 = sv.after_events(es);
    let a2 = a1.after_events(es);
    lemma_after_events_wf(sv, es);
    lemma_after_events_wf(a1, es);
    let h = sv.height;
    let w = sv.width;
    assert forall|p: Polarity, row: int, col: int| sv.in_bounds(row, col) implies #[trigger] a2.at(
        p,
        row,
        col,
    ) == a1.at(p, row, col) by {
        lemma_last_writer_wins(sv, es, p, row, col);
        lemma_last_writer_wins(a1, es, p, row, col);
    }
    assert forall|k: int| 0 <= k < h * w implies a2.rise[k] == a1.rise[k] && a2.fall[k]
        == a1.fall[k] by {
        let row = k / w;
        let col = k % w;
        assert(0 <= row < h && 0 <= col < w && row * w + col == k) by (nonlinear_arith)
            requires
                w >= 1,
                h >= 1,
                0 <= k < h * w,
                row == k / w,
                col == k % w,
        ;
        assert(a2.at(Polarity::Rise, row, col) == a1.at(Polarity::Rise, row, col));
        assert(a2.at(Polarity::Fall, row, col) == a1.at(Polarity::Fall, row, col));
    }
    assert(a2 =~= a1);
}

/// The active-event surface: for every pixel and polarity, the timestamp of
/// the most recent event seen there, stored row-major.
pub struct Surface {
    rise: Vec<u32>,
    fall: Vec<u32>,
    height: u32,
    width: u32,
}

impl View for Surface {
    type V = SurfaceView;

    closed spec fn view(&self) -> SurfaceView {
        SurfaceView {
            rise: self.rise@,
            fall: self.fall@,
            height: self.height as int,
            width: self.width as int,
        }
    }
}

fn zeros(n: usize) -> (v: Vec<u32>)
    ensures
        v@.len() == n,
        forall|i: int| 0 <= i < n ==> v@[i] == 0,
{
    let mut v: Vec<u32> = Vec::new();
    let mut k: usize = 0;
    while k < n
        invariant
            k <= n,
            v@.len() == k,
            forall|i: int| 0 <= i < k ==> v@[i] == 0,
        decreases n - k,
    {
        v.push(0);
        k = k + 1;
    }
    v
}

impl Surface {
    /// A fresh surface with every cell of both planes at the
    /// "never observed" sentinel 0.
    pub fn new(height: u32, width: u32) -> (s: Surface)
        requires
            height >= 1,
            width >= 1,
            height * width <= usize::MAX,
        ensures
            s@.wf(),
            s@.height == height,
            s@.width == width,
            forall|p: Polarity, row: int, col: int|
                s@.in_bounds(row, col) ==> #[trigger] s@.at(p, row, col) == 0,
    {
        let n: usize = (height as usize) * (width as usize);
        let s = Surface { rise: zeros(n), fall: zeros(n), height, width };
        proof {
            assert forall|p: Polarity, row: int, col: int| s@.in_bounds(row, col) implies #[trigger] s@.at(
                p,
                row,
                col,
            ) == 0 by {
                lemma_row_major_index_in_range(height as int, width as int, row, col);
            }
        }
        s
    }

    pub fn height(&self) -> (h: u32)
        ensures
            h == self@.height,
    {
        self.height
    }

    pub fn width(&self) -> (w: u32)
        ensures
            w == self@.width,
    {
        self.width
    }

    /// Writes the event's timestamp into its polarity's plane at the event's
    /// pixel; an out-of-bounds event is rejected untouched and reported by
    /// the return value.
    pub fn update(&mut self, e: &Event) -> (applied: bool)
        requires
            old(self)@.wf(),
        ensures
            final(self)@ == old(self)@.updated(*e),
            final(self)@.wf(),
            applied == old(self)@.in_bounds(e.row as int, e.col as int),
    {
        proof {
            lemma_updated_wf(old(self)@, *e);
        }
        if (e.row as u64) < (self.height as u64) && (e.col as u64) < (self.width as u64) {
            let n: usize = self.rise.len();
            proof {
                lemma_row_major_index_in_range(
                    self.height as int,
                    self.width as int,
                    e.row as int,
                    e.col as int,
                );
                assert((e.row as int) * (self.width as int) + (e.col as int) < n);
            }
            let idx: usize = (e.row as usize) * (self.width as usize) + (e.col as usize);
            match e.polarity {
                Polarity::Rise => {
                    self.rise.set(idx, e.timestamp);
                },
                Polarity::Fall => {
                    self.fall.set(idx, e.timestamp);
                },
            }
            proof {
                assert(self@ =~= old(self)@.updated(*e));
            }
            true
        } else {
            false
        }
    }

    /// Last-seen timestamp of polarity `p` at `(row, col)`, or 0 if never
    /// seen. Callers address cells inside the surface only.
    pub fn read(&self, p: Polarity, row: u32, col: u32) -> (t: u32)
        requires
            self@.wf(),
            self@.in_bounds(row as int, col as int),
        ensures
            t == self@.at(p, row as int, col as int),
    {
        let n: usize = self.rise.len();
        proof {
            lemma_row_major_index_in_range(
                self.height as int,
                self.width as int,
                row as int,
                col as int,
            );
            assert((row as int) * (self.width as int) + (col as int) < n);
        }
        let idx: usize = (row as usize) * (self.width as usize) + (col as usize);
        match p {
            Polarity::Rise => self.rise[idx],
            Polarity::Fall => self.fall[idx],
        }
    }
}

} // verus!
