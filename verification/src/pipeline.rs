//! Chunk pipeline: per chunk of events it (1) applies every event to the
//! active-event surface, sequentially and to completion, (2) evaluates the
//! arc corner detector for every event against the then-frozen surface —
//! the detector is pure, so this phase could run in any order or
//! concurrently without changing the result — (3) collects the accepted
//! corners in the chunk's original event order, and (4) feeds them strictly
//! sequentially to the feature tracker, producing one match record per
//! corner. It also derives the chunk's rendering/query horizon and keeps
//! the processed/dropped event counts.

use vstd::prelude::*;
use crate::event::Event;
use crate::surface::Surface;
use crate::surface::SurfaceView;
use crate::surface::lemma_after_events_wf;
use crate::detector::DetectorConfig;
use crate::detector::detect;
use crate::detector::is_corner;
use crate::tracker::Feature;
use crate::tracker::FeatureTracker;
use crate::tracker::step_parent;
use crate::tracker::stepped_nid;
use crate::tracker::stepped_registry;

verus! {

/// The full configuration of a pipeline, fixed at construction.
#[derive(Clone, Copy, PartialEq, Eq, Structural, Debug)]
pub struct PipelineConfig {
    /// Surface height in pixels.
    pub height: u32,
    /// Surface width in pixels.
    pub width: u32,
    /// Chebyshev radius of the detector's neighborhood ring.
    pub radius: u32,
    /// Inclusive lower bound of the accepted arc-length band.
    pub min_arc: u32,
    /// Inclusive upper bound of the accepted arc-length band.
    pub max_arc: u32,
    /// Recency window of the detector, in ticks.
    pub recent_window: u32,
    /// Maximum pixel distance for a corner to refresh an existing feature.
    pub match_radius: u32,
    /// Maximum age, in ticks, before an untouched feature is evicted.
    pub forgetting_time: u32,
    /// Width, in ticks, of the rendering/query horizon window.
    pub window_size: u32,
    /// Stop after this many events have been seen; 0 means no limit.
    pub max_events: usize,
}

/// Why a configuration was rejected at construction.
#[derive(Clone, Copy, PartialEq, Eq, Structural, Debug)]
pub enum ConfigError {
    /// The surface height or width is zero.
    ZeroDimension,
    /// The surface would not fit in memory addressable by `usize`.
    SurfaceTooLarge,
    /// The ring radius is zero, or the ring length is not representable.
    InvalidRadius,
    /// The arc band is empty, zero-based, or wider than the ring.
    InvalidArcBand,
    /// The detector's recency window is zero.
    ZeroRecentWindow,
    /// The tracker's match radius is zero.
    ZeroMatchRadius,
    /// The tracker's forgetting time is zero.
    ZeroForgettingTime,
    /// The horizon window is zero.
    ZeroWindowSize,
}

impl PipelineConfig {
    /// The detector parameters contained in this configuration.
    pub open spec fn detector(self) -> DetectorConfig {
        DetectorConfig {
            radius: self.radius,
            min_arc: self.min_arc,
            max_arc: self.max_arc,
            recent_window: self.recent_window,
        }
    }

    pub open spec fn valid(self) -> bool {
        &&& self.height >= 1
        &&& self.width >= 1
        &&& self.height * self.width <= usize::MAX
        &&& self.detector().valid()
        &&& self.match_radius >= 1
        &&& self.forgetting_time >= 1
        &&& self.window_size >= 1
    }

    /// The first reason this configuration is rejected, checked in a fixed
    /// order, or `None` when it is valid.
    pub open spec fn first_error(self) -> Option<ConfigError> {
        if self.height == 0 || self.width == 0 {
            Some(ConfigError::ZeroDimension)
        } else if self.height * self.width > usize::MAX {
            Some(ConfigError::SurfaceTooLarge)
        } else if self.radius == 0 || 8 * self.radius > u32::MAX {
            Some(ConfigError::InvalidRadius)
        } else if self.min_arc == 0 || self.min_arc > self.max_arc || self.max_arc > 8
            * self.radius {
            Some(ConfigError::InvalidArcBand)
        } else if self.recent_window == 0 {
            Some(ConfigError::ZeroRecentWindow)
        } else if self.match_radius == 0 {
            Some(ConfigError::ZeroMatchRadius)
        } else if self.forgetting_time == 0 {
            Some(ConfigError::ZeroForgettingTime)
        } else if self.window_size == 0 {
            Some(ConfigError::ZeroWindowSize)
        } else {
            None
        }
    }
}

/// One match record per accepted corner: the corner itself and, when it
/// continued an existing track, the snapshot of the feature it refreshed as
/// that feature stood before the refresh.
#[derive(Clone, Copy, PartialEq, Eq, Debug)]
pub struct TrackMatch {
    pub corner: Event,
    pub parent: Option<Feature>,
}

/// The tracker's abstract state: the registry and the identity counter.
#[verifier::ext_equal]
pub struct TrackState {
    pub features: Seq<Feature>,
    pub next_id: u64,
}

/// The tracker state after one corner is fed to it.
pub open spec fn track_step(
    st: TrackState,
    e: Event,
    horizon: u32,
    radius: int,
    forgetting_time: u32,
) -> TrackState {
    TrackState {
        features: stepped_registry(st.features, st.next_id, e, horizon, radius, forgetting_time),
        next_id: stepped_nid(st.features, st.next_id, e, radius),
    }
}

/// The tracker state after a sequence of corners is fed to it in order.
pub open spec fn track_run(
    st: TrackState,
    corners: Seq<Event>,
    horizon: u32,
    radius: int,
    forgetting_time: u32,
) -> TrackState
    decreases corners.len(),
{
    if corners.len() == 0 {
        st
    } else {
        track_step(
            track_run(st, corners.drop_last(), horizon, radius, forgetting_time),
            corners.last(),
            horizon,
            radius,
            forgetting_time,
        )
    }
}

/// The match record one corner produces against a tracker state.
pub open spec fn match_of(st: TrackState, e: Event, radius: int) -> TrackMatch {
    TrackMatch { corner: e, parent: step_parent(st.features, e, radius) }
}

/// The match records a sequence of corners produces, fed in order: each
/// corner is matched against the cumulative state left by its predecessors.
pub open spec fn track_run_matches(
    st: TrackState,
    corners: Seq<Event>,
    horizon: u32,
    radius: int,
    forgetting_time: u32,
) -> Seq<TrackMatch>
    decreases corners.len(),
{
    if corners.len() == 0 {
        Seq::<TrackMatch>::empty()
    } else {
        track_run_matches(st, corners.drop_last(), horizon, radius, forgetting_time).push(
            match_of(
                track_run(st, corners.drop_last(), horizon, radius, forgetting_time),
                corners.last(),
                radius,
            ),
        )
    }
}

/// Law: matching records corners faithfully — the match sequence has one
/// record per corner, in the corners' order, each carrying its corner. The
/// "detect only" view of a chunk's outcome is therefore recoverable from the
/// matches.
pub proof fn lemma_matches_carry_corners(
    st: TrackState,
    corners: Seq<Event>,
    horizon: u32,
    radius: int,
    forgetting_time: u32,
)
    ensures
        track_run_matches(st, corners, horizon, radius, forgetting_time).len() == corners.len(),
        forall|i: int|
            0 <= i < corners.len() ==> #[trigger] track_run_matches(
                st,
                corners,
                horizon,
                radius,
                forgetting_time,
            )[i].corner == corners[i],
    decreases corners.len(),
{
    if corners.len() > 0 {
        lemma_matches_carry_corners(st, corners.drop_last(), horizon, radius, forgetting_time);
    }
}

/// The corner predicate of a frozen surface, as seen by the detector.
pub open spec fn corner_pred(sv: SurfaceView, cfg: DetectorConfig) -> spec_fn(Event) -> bool {
    |e: Event| is_corner(sv, e, cfg)
}

/// The corners a chunk yields against a frozen surface: the events accepted
/// by the detector, in the chunk's original order. Pointwise acceptance is a
/// pure function of the surface and each event alone, so any evaluation
/// order — including a concurrent one — yields this same sequence once
/// gathered back into chunk order.
pub open spec fn corners_of(sv: SurfaceView, es: Seq<Event>, cfg: DetectorConfig) -> Seq<Event> {
    es.filter(corner_pred(sv, cfg))
}

/// The rendering/query horizon of a chunk whose first event carries
/// `first_ts`: `max(first_ts, window) - window`.
pub open spec fn horizon_spec(first_ts: u32, window: u32) -> u32 {
    if first_ts >= window {
        (first_ts - window) as u32
    } else {
        0
    }
}

/// Whether the event lies outside a `height x width` surface.
pub open spec fn oob(e: Event, height: int, width: int) -> bool {
    !(e.row < height && e.col < width)
}

/// How many events of the chunk lie outside the surface (these are dropped
/// from surface update and detection, counted, and never abort the chunk).
pub open spec fn count_oob(height: int, width: int, es: Seq<Event>) -> int
    decreases es.len(),
{
    if es.len() == 0 {
        0
    } else {
        count_oob(height, width, es.drop_last()) + if oob(es.last(), height, width) {
            1int
        } else {
            0int
        }
    }
}

proof fn lemma_count_oob_nonneg(height: int, width: int, es: Seq<Event>)
    ensures
        0 <= count_oob(height, width, es) <= es.len(),
    decreases es.len(),
{
    if es.len() > 0 {
        lemma_count_oob_nonneg(height, width, es.drop_last());
    }
}

/// Saturating addition on the `usize` range.
pub open spec fn sat_add_usize(a: int, b: int) -> int {
    if a + b <= usize::MAX {
        a + b
    } else {
        usize::MAX as int
    }
}

/// Computes the rendering/query horizon for a chunk whose first event
/// carries timestamp `first_ts`.
pub fn chunk_horizon(first_ts: u32, window_size: u32) -> (h: u32)
    ensures
        h == horizon_spec(first_ts, window_size),
{
    let m: u32 = if first_ts >= window_size {
        first_ts
    } else {
        window_size
    };
    m - window_size
}

/// The chunk pipeline: exclusive owner of the surface and the tracker for
/// its lifetime.
pub struct Pipeline {
    surface: Surface,
    tracker: FeatureTracker,
    config: PipelineConfig,
    events_seen: usize,
    dropped_events: usize,
    last_horizon: u32,
}

impl Pipeline {
    pub closed spec fn config(self) -> PipelineConfig {
        self.config
    }

    pub closed spec fn surface_view(self) -> SurfaceView {
        self.surface@
    }

    /// The tracked features, in registry order.
    pub closed spec fn features(self) -> Seq<Feature> {
        self.tracker.features()
    }

    pub closed spec fn id_counter(self) -> u64 {
        self.tracker.id_counter()
    }

    /// Events seen so far, saturating at the `usize` limit.
    pub closed spec fn events_seen(self) -> usize {
        self.events_seen
    }

    /// Out-of-bounds events dropped so far, saturating at the `usize` limit.
    pub closed spec fn dropped_events(self) -> usize {
        self.dropped_events
    }

    /// The horizon of the most recent non-empty chunk, 0 before any.
    pub closed spec fn last_horizon(self) -> u32 {
        self.last_horizon
    }

    pub closed spec fn wf(self) -> bool {
        &&& self.config.valid()
        &&& self.surface@.wf()
        &&& self.surface@.height == self.config.height
        &&& self.surface@.width == self.config.width
        &&& self.tracker.match_radius() == self.config.match_radius
        &&& self.tracker.forgetting_time() == self.config.forgetting_time
    }

    /// Builds a pipeline from a configuration, rejecting an invalid one with
    /// the first failing check; never silently defaults. A fresh pipeline
    /// has an all-zero surface, an empty registry, and zeroed counters.
    pub fn new(config: PipelineConfig) -> (r: Result<Pipeline, ConfigError>)
        ensures
            r is Ok <==> config.valid(),
            r matches Err(e) ==> config.first_error() == Some(e),
            r matches Ok(p) ==> p.wf() && p.config() == config,
            r matches Ok(p) ==> p.features() == Seq::<Feature>::empty() && p.id_counter() == 0,
            r matches Ok(p) ==> p.events_seen() == 0 && p.dropped_events() == 0
                && p.last_horizon() == 0,
            r matches Ok(p) ==> forall|pol: crate::event::Polarity, row: int, col: int|
                p.surface_view().in_bounds(row, col) ==> #[trigger] p.surface_view().at(
                    pol,
                    row,
                    col,
                ) == 0,
    {
        if config.height == 0 || config.width == 0 {
            return Err(ConfigError::ZeroDimension);
        }
        proof {
            assert((config.height as int) * (config.width as int) < u64::MAX) by (nonlinear_arith)
                requires
                    config.height <= u32::MAX,
                    config.width <= u32::MAX,
            ;
        }
        if (config.height as u64) * (config.width as u64) > (usize::MAX as u64) {
            return Err(ConfigError::SurfaceTooLarge);
        }
        if config.radius == 0 || (config.radius as u64) * 8 > (u32::MAX as u64) {
            return Err(ConfigError::InvalidRadius);
        }
        if config.min_arc == 0 || config.min_arc > config.max_arc || (config.max_arc as u64) > 8
            * (config.radius as u64) {
            return Err(ConfigError::InvalidArcBand);
        }
        if config.recent_window == 0 {
            return Err(ConfigError::ZeroRecentWindow);
        }
        if config.match_radius == 0 {
            return Err(ConfigError::ZeroMatchRadius);
        }
        if config.forgetting_time == 0 {
            return Err(ConfigError::ZeroForgettingTime);
        }
        if config.window_size == 0 {
            return Err(ConfigError::ZeroWindowSize);
        }
        let surface = Surface::new(config.height, config.width);
        let tracker = FeatureTracker::new(config.match_radius, config.forgetting_time);
        Ok(
            Pipeline {
                surface,
                tracker,
                config,
                events_seen: 0,
                dropped_events: 0,
                last_horizon: 0,
            },
        )
    }

    /// Processes one chunk: applies every event to the surface in order and
    /// to completion, detects corners against the frozen surface, then feeds
    /// the corners strictly sequentially, in chunk order, to the tracker,
    /// returning one match record per corner. Out-of-bounds events are
    /// dropped from update and detection and counted, never faulted. A
    /// non-empty chunk also refreshes the exposed horizon from its first
    /// event's timestamp.
    /// Applies the whole chunk to the surface, sequentially and to
    /// completion — the synchronization barrier before any detection read —
    /// updates the event counters, and derives a non-empty chunk's horizon
    /// from its first event's timestamp.
    fn apply_chunk(&mut self, events: &Vec<Event>)
        requires
            old(self).wf(),
        ensures
            final(self).wf(),
            final(self).config() == old(self).config(),
            final(self).features() == old(self).features(),
            final(self).id_counter() == old(self).id_counter(),
            final(self).surface_view() == old(self).surface_view().after_events(events@),
            final(self).last_horizon() == if events@.len() == 0 {
                old(self).last_horizon()
            } else {
                horizon_spec(events@[0].timestamp, old(self).config().window_size)
            },
            final(self).events_seen() == sat_add_usize(
                old(self).events_seen() as int,
                events@.len() as int,
            ),
            final(self).dropped_events() == sat_add_usize(
                old(self).dropped_events() as int,
                count_oob(
                    old(self).config().height as int,
                    old(self).config().width as int,
                    events@,
                ),
            ),
    {
        let ghost sv0 = self.surface@;
        let ghost cfg0 = self.config;
        let n: usize = events.len();
        let mut i: usize = 0;
        while i < n
            invariant
                old(self).wf(),
                n == events@.len(),
                i <= n,
                sv0 == old(self).surface_view(),
                cfg0 == old(self).config(),
                self.config == cfg0,
                self.tracker == old(self).tracker,
                self.events_seen == old(self).events_seen(),
                self.last_horizon == old(self).last_horizon(),
                self.surface@ == sv0.after_events(events@.take(i as int)),
                self.dropped_events as int == sat_add_usize(
                    old(self).dropped_events() as int,
                    count_oob(cfg0.height as int, cfg0.width as int, events@.take(i as int)),
                ),
            decreases n - i,
        {
            proof {
                lemma_after_events_wf(sv0, events@.take(i as int));
                lemma_count_oob_nonneg(
                    cfg0.height as int,
                    cfg0.width as int,
                    events@.take(i as int),
                );
                assert(events@.take(i as int + 1).drop_last() =~= events@.take(i as int));
            }
            let e = events[i];
            let applied = self.surface.update(&e);
            if !applied {
                if self.dropped_events < usize::MAX {
                    self.dropped_events = self.dropped_events + 1;
                }
            }
            i = i + 1;
        }
        proof {
            assert(events@.take(n as int) =~= events@);
            lemma_after_events_wf(sv0, events@);
        }
        if usize::MAX - n < self.events_seen {
            self.events_seen = usize::MAX;
        } else {
            self.events_seen = self.events_seen + n;
        }
        if n > 0 {
            self.last_horizon = chunk_horizon(events[0].timestamp, self.config.window_size);
        }
    }

    /// Evaluates the detector for every event of the chunk against the
    /// frozen surface. The pipeline is taken read-only: nothing can mutate
    /// the surface during this phase, which is what licenses evaluating the
    /// candidates in any order — or concurrently — with no coordination.
    /// The accepted corners are gathered in the chunk's original event
    /// order.
    fn corners_for(&self, events: &Vec<Event>) -> (corners: Vec<Event>)
        requires
            self.wf(),
        ensures
            corners@ == corners_of(self.surface_view(), events@, self.config().detector()),
    {
        let ghost sv1 = self.surface@;
        let n: usize = events.len();
        let dcfg = DetectorConfig {
            radius: self.config.radius,
            min_arc: self.config.min_arc,
            max_arc: self.config.max_arc,
            recent_window: self.config.recent_window,
        };
        let mut corners: Vec<Event> = Vec::new();
        proof {
            reveal(Seq::filter);
            assert(events@.take(0) =~= Seq::<Event>::empty());
        }
        let mut k: usize = 0;
        while k < n
            invariant
                self.wf(),
                n == events@.len(),
                k <= n,
                sv1 == self.surface_view(),
                dcfg == self.config().detector(),
                corners@ == corners_of(sv1, events@.take(k as int), dcfg),
            decreases n - k,
        {
            let e = events[k];
            let r = detect(&self.surface, &e, &dcfg);
            proof {
                reveal(Seq::filter);
                assert(events@.take(k as int + 1).drop_last() =~= events@.take(k as int));
                assert(corner_pred(sv1, dcfg)(e) == is_corner(sv1, e, dcfg));
            }
            match r {
                Some(c) => {
                    corners.push(c);
                },
                None => {},
            }
            k = k + 1;
        }
        proof {
            assert(events@.take(n as int) =~= events@);
        }
        corners
    }

    /// Detect-only processing of one chunk: applies the chunk to the
    /// surface, then returns the corners accepted against the frozen
    /// surface, in the chunk's original event order, without feeding the
    /// tracker. Out-of-bounds events are dropped and counted, never faulted.
    pub fn detect_chunk(&mut self, events: &Vec<Event>) -> (corners: Vec<Event>)
        requires
            old(self).wf(),
        ensures
            final(self).wf(),
            final(self).config() == old(self).config(),
            final(self).features() == old(self).features(),
            final(self).id_counter() == old(self).id_counter(),
            final(self).surface_view() == old(self).surface_view().after_events(events@),
            final(self).last_horizon() == if events@.len() == 0 {
                old(self).last_horizon()
            } else {
                horizon_spec(events@[0].timestamp, old(self).config().window_size)
            },
            final(self).events_seen() == sat_add_usize(
                old(self).events_seen() as int,
                events@.len() as int,
            ),
            final(self).dropped_events() == sat_add_usize(
                old(self).dropped_events() as int,
                count_oob(
                    old(self).config().height as int,
                    old(self).config().width as int,
                    events@,
                ),
            ),
            corners@ == corners_of(
                old(self).surface_view().after_events(events@),
                events@,
                old(self).config().detector(),
            ),
    {
        self.apply_chunk(events);
        self.corners_for(events)
    }

    /// Processes one chunk in full: applies every event to the surface in
    /// order and to completion, detects corners against the frozen surface,
    /// then feeds the corners strictly sequentially, in chunk order, to the
    /// tracker, returning one match record per corner. Out-of-bounds events
    /// are dropped from update and detection and counted, never faulted. A
    /// non-empty chunk also refreshes the exposed horizon from its first
    /// event's timestamp.
    pub fn process_chunk(&mut self, events: &Vec<Event>) -> (matches: Vec<TrackMatch>)
        requires
            old(self).wf(),
        ensures
            final(self).wf(),
            final(self).config() == old(self).config(),
            final(self).surface_view() == old(self).surface_view().after_events(events@),
            final(self).last_horizon() == if events@.len() == 0 {
                old(self).last_horizon()
            } else {
                horizon_spec(events@[0].timestamp, old(self).config().window_size)
            },
            final(self).events_seen() == sat_add_usize(
                old(self).events_seen() as int,
                events@.len() as int,
            ),
            final(self).dropped_events() == sat_add_usize(
                old(self).dropped_events() as int,
                count_oob(
                    old(self).config().height as int,
                    old(self).config().width as int,
                    events@,
                ),
            ),
            ({
                let sv1 = old(self).surface_view().after_events(events@);
                let cfg = old(self).config();
                let corners = corners_of(sv1, events@, cfg.detector());
                let h = if events@.len() == 0 {
                    old(self).last_horizon()
                } else {
                    horizon_spec(events@[0].timestamp, cfg.window_size)
                };
                let st0 = TrackState {
                    features: old(self).features(),
                    next_id: old(self).id_counter(),
                };
                let st1 = track_run(st0, corners, h, cfg.match_radius as int, cfg.forgetting_time);
                &&& matches@ == track_run_matches(
                    st0,
                    corners,
                    h,
                    cfg.match_radius as int,
                    cfg.forgetting_time,
                )
                &&& final(self).features() == st1.features
                &&& final(self).id_counter() == st1.next_id
            }),
    {
        let corners = self.detect_chunk(events);
        let h: u32 = self.last_horizon;
        let ghost st0 = TrackState {
            features: old(self).features(),
            next_id: old(self).id_counter(),
        };
        let ghost radius = old(self).config().match_radius as int;
        let ghost ft = old(self).config().forgetting_time;
        let m: usize = corners.len();
        let mut result: Vec<TrackMatch> = Vec::new();
        let mut j: usize = 0;
        while j < m
            invariant
                old(self).wf(),
                self.wf(),
                m == corners@.len(),
                j <= m,
                self.config == old(self).config(),
                radius == old(self).config().match_radius as int,
                ft == old(self).config().forgetting_time,
                st0 == (TrackState {
                    features: old(self).features(),
                    next_id: old(self).id_counter(),
                }),
                self.surface@ == old(self).surface_view().after_events(events@),
                self.events_seen == sat_add_usize(
                    old(self).events_seen() as int,
                    events@.len() as int,
                ),
                self.dropped_events as int == sat_add_usize(
                    old(self).dropped_events() as int,
                    count_oob(
                        old(self).config().height as int,
                        old(self).config().width as int,
                        events@,
                    ),
                ),
                self.last_horizon == h,
                h == if events@.len() == 0 {
                    old(self).last_horizon()
                } else {
                    horizon_spec(events@[0].timestamp, old(self).config().window_size)
                },
                corners@ == corners_of(
                    old(self).surface_view().after_events(events@),
                    events@,
                    old(self).config().detector(),
                ),
                self.tracker.features() == track_run(
                    st0,
                    corners@.take(j as int),
                    h,
                    radius,
                    ft,
                ).features,
                self.tracker.id_counter() == track_run(
                    st0,
                    corners@.take(j as int),
                    h,
                    radius,
                    ft,
                ).next_id,
                result@ == track_run_matches(st0, corners@.take(j as int), h, radius, ft),
            decreases m - j,
        {
            proof {
                assert(corners@.take(j as int + 1).drop_last() =~= corners@.take(j as int));
            }
            let c = corners[j];
            let parent = self.tracker.add_and_match_feature(&c, h);
            result.push(TrackMatch { corner: c, parent });
            j = j + 1;
        }
        proof {
            assert(corners@.take(m as int) =~= corners@);
        }
        result
    }

    /// Whether the externally supplied event-count limit has been exceeded;
    /// checked by the driver between chunks, never mid-chunk. A limit of 0
    /// means no limit.
    pub fn limit_reached(&self) -> (r: bool)
        ensures
            r == (self.config().max_events > 0 && self.events_seen() > self.config().max_events),
    {
        self.config.max_events > 0 && self.events_seen > self.config.max_events
    }

    /// Read-only access to the surface, for rendering.
    pub fn surface_ref(&self) -> (s: &Surface)
        requires
            self.wf(),
        ensures
            s@ == self.surface_view(),
            s@.wf(),
            s@.height == self.config().height,
            s@.width == self.config().width,
    {
        &self.surface
    }

    /// Read-only snapshot of the currently tracked features.
    pub fn tracked_features(&self) -> (v: &Vec<Feature>)
        ensures
            v@ == self.features(),
    {
        self.tracker.tracked_features()
    }

    /// The horizon computed for the most recent non-empty chunk.
    pub fn horizon(&self) -> (h: u32)
        ensures
            h == self.last_horizon(),
    {
        self.last_horizon
    }

    pub fn events_seen_count(&self) -> (c: usize)
        ensures
            c == self.events_seen(),
    {
        self.events_seen
    }

    pub fn dropped_event_count(&self) -> (c: usize)
        ensures
            c == self.dropped_events(),
    {
        self.dropped_events
    }
}

} // verus!
