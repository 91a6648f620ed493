use blink_cam::detector::detect;
use blink_cam::detector::DetectorConfig;
use blink_cam::event::Event;
use blink_cam::event::Polarity;
use blink_cam::surface::Surface;

fn ev_d(row: u32, col: u32, timestamp: u32) -> Event {
    Event { row, col, timestamp, polarity: Polarity::Rise }
}

fn cfg_d() -> DetectorConfig {
    DetectorConfig { radius: 1, min_arc: 2, max_arc: 6, recent_window: 50 }
}

/// Scenario: one event at (5,5,t=100), then three more forming a partial arc
/// around it at t=101..103; with the band [2,6] the candidate is a corner.
#[test]
fn detector_accepts_partial_arc() {
    let mut s = Surface::new(10, 10);
    let candidate = ev_d(5, 5, 100);
    s.update(&candidate);
    s.update(&ev_d(4, 4, 101));
    s.update(&ev_d(4, 5, 102));
    s.update(&ev_d(4, 6, 103));
    let r = detect(&s, &candidate, &cfg_d());
    assert_eq!(r, Some(candidate));
}

#[test]
fn detector_rejects_quiet_neighborhood() {
    let mut s = Surface::new(10, 10);
    let candidate = ev_d(5, 5, 100);
    s.update(&candidate);
    // a single recent neighbour: arc of length 1 is below min_arc = 2
    s.update(&ev_d(4, 5, 101));
    assert_eq!(detect(&s, &candidate, &cfg_d()), None);
}

#[test]
fn detector_rejects_straight_edge() {
    let mut s = Surface::new(10, 10);
    let candidate = ev_d(5, 5, 100);
    s.update(&candidate);
    // 7 of the 8 ring pixels fired recently: arc of length 7 exceeds max_arc
    s.update(&ev_d(4, 4, 101));
    s.update(&ev_d(4, 5, 101));
    s.update(&ev_d(4, 6, 102));
    s.update(&ev_d(5, 6, 102));
    s.update(&ev_d(6, 6, 103));
    s.update(&ev_d(6, 5, 103));
    s.update(&ev_d(6, 4, 103));
    assert_eq!(detect(&s, &candidate, &cfg_d()), None);
}

#[test]
fn detector_rejects_stale_arc() {
    let mut s = Surface::new(10, 10);
    let candidate = ev_d(5, 5, 1000);
    s.update(&candidate);
    // three neighbours, but all fired far outside the recency window
    s.update(&ev_d(4, 4, 10));
    s.update(&ev_d(4, 5, 11));
    s.update(&ev_d(4, 6, 12));
    assert_eq!(detect(&s, &candidate, &cfg_d()), None);
}

#[test]
fn detector_arc_wraps_around_ring_seam() {
    let mut s = Surface::new(10, 10);
    let candidate = ev_d(5, 5, 100);
    s.update(&candidate);
    // three ring pixels contiguous only across the ring's wrap-around point:
    // (5,4) and (4,4) and (4,5) are the last and first ring positions
    s.update(&ev_d(5, 4, 101));
    s.update(&ev_d(4, 4, 102));
    s.update(&ev_d(4, 5, 103));
    assert_eq!(detect(&s, &candidate, &cfg_d()), Some(candidate));
}

#[test]
fn detector_ignores_other_polarity() {
    let mut s = Surface::new(10, 10);
    let candidate = ev_d(5, 5, 100);
    s.update(&candidate);
    // recent neighbours, but on the FALL plane while the candidate is RISE
    s.update(&Event { row: 4, col: 4, timestamp: 101, polarity: Polarity::Fall });
    s.update(&Event { row: 4, col: 5, timestamp: 102, polarity: Polarity::Fall });
    s.update(&Event { row: 4, col: 6, timestamp: 103, polarity: Polarity::Fall });
    assert_eq!(detect(&s, &candidate, &cfg_d()), None);
}

/// Every pixel whose ring would read outside the surface is rejected, for
/// every edge and corner band of the surface.
#[test]
fn detector_rejects_every_boundary_pixel() {
    let mut s = Surface::new(10, 10);
    // saturate the surface so that any interior candidate would be accepted
    // if boundary handling did not reject it first
    for r in 0..10 {
        for c in 0..10 {
            s.update(&ev_d(r, c, 100));
        }
    }
    let cfg = DetectorConfig { radius: 1, min_arc: 2, max_arc: 8, recent_window: 50 };
    for r in 0..10 {
        for c in 0..10 {
            let on_border = r == 0 || r == 9 || c == 0 || c == 9;
            let got = detect(&s, &ev_d(r, c, 101), &cfg);
            if on_border {
                assert_eq!(got, None);
            } else {
                assert!(got.is_some());
            }
        }
    }
}

#[test]
fn detector_is_deterministic() {
    let mut s = Surface::new(10, 10);
    let candidate = ev_d(5, 5, 100);
    s.update(&candidate);
    s.update(&ev_d(4, 4, 101));
    s.update(&ev_d(4, 5, 102));
    s.update(&ev_d(4, 6, 103));
    let first = detect(&s, &candidate, &cfg_d());
    let second = detect(&s, &candidate, &cfg_d());
    assert_eq!(first, second);
}

#[test]
fn detector_never_seen_cells_are_not_recent() {
    let mut s = Surface::new(10, 10);
    // a candidate with a tiny timestamp: untouched cells hold the sentinel 0
    // and must not count as recent even though 0 + window >= timestamp
    let candidate = ev_d(5, 5, 3);
    s.update(&candidate);
    assert_eq!(detect(&s, &candidate, &cfg_d()), None);
}
