use blink_cam::event::Event;
use blink_cam::event::Polarity;
use blink_cam::surface::Surface;

fn ev_s(row: u32, col: u32, timestamp: u32, polarity: Polarity) -> Event {
    Event { row, col, timestamp, polarity }
}

#[test]
fn surface_starts_all_zero() {
    let s = Surface::new(3, 4);
    for r in 0..3 {
        for c in 0..4 {
            assert_eq!(s.read(Polarity::Rise, r, c), 0);
            assert_eq!(s.read(Polarity::Fall, r, c), 0);
        }
    }
}

#[test]
fn surface_last_writer_wins() {
    let mut s = Surface::new(4, 4);
    assert!(s.update(&ev_s(1, 1, 5, Polarity::Rise)));
    assert!(s.update(&ev_s(1, 1, 9, Polarity::Rise)));
    assert!(s.update(&ev_s(1, 1, 7, Polarity::Rise)));
    // the last event's timestamp survives, not the largest
    assert_eq!(s.read(Polarity::Rise, 1, 1), 7);
    // the other polarity's plane is untouched
    assert_eq!(s.read(Polarity::Fall, 1, 1), 0);
    // other cells are untouched
    assert_eq!(s.read(Polarity::Rise, 1, 2), 0);
    assert_eq!(s.read(Polarity::Rise, 2, 1), 0);
}

#[test]
fn surface_polarities_are_independent() {
    let mut s = Surface::new(4, 4);
    assert!(s.update(&ev_s(2, 3, 11, Polarity::Rise)));
    assert!(s.update(&ev_s(2, 3, 22, Polarity::Fall)));
    assert_eq!(s.read(Polarity::Rise, 2, 3), 11);
    assert_eq!(s.read(Polarity::Fall, 2, 3), 22);
}

#[test]
fn surface_rejects_out_of_bounds() {
    let mut s = Surface::new(4, 4);
    assert!(!s.update(&ev_s(4, 0, 5, Polarity::Rise)));
    assert!(!s.update(&ev_s(0, 4, 5, Polarity::Rise)));
    assert!(!s.update(&ev_s(100, 100, 5, Polarity::Fall)));
    for r in 0..4 {
        for c in 0..4 {
            assert_eq!(s.read(Polarity::Rise, r, c), 0);
            assert_eq!(s.read(Polarity::Fall, r, c), 0);
        }
    }
}

#[test]
fn surface_replay_is_idempotent() {
    let chunk = vec![
        ev_s(0, 0, 3, Polarity::Rise),
        ev_s(1, 2, 4, Polarity::Fall),
        ev_s(0, 0, 6, Polarity::Rise),
        ev_s(3, 3, 9, Polarity::Rise),
    ];
    let mut once = Surface::new(4, 4);
    let mut twice = Surface::new(4, 4);
    for e in &chunk {
        once.update(e);
        twice.update(e);
    }
    for e in &chunk {
        twice.update(e);
    }
    for r in 0..4 {
        for c in 0..4 {
            assert_eq!(
                once.read(Polarity::Rise, r, c),
                twice.read(Polarity::Rise, r, c)
            );
            assert_eq!(
                once.read(Polarity::Fall, r, c),
                twice.read(Polarity::Fall, r, c)
            );
        }
    }
}

#[test]
fn surface_reports_dimensions() {
    let s = Surface::new(7, 9);
    assert_eq!(s.height(), 7);
    assert_eq!(s.width(), 9);
}
