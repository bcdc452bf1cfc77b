use memo_pill::windowing::{cursor_inside, position_visible};

#[test]
fn cursor_hits_are_right_and_bottom_exclusive() {
    let rects = [(0, 0, 100, 50), (200, 0, 300, 50)];
    assert!(cursor_inside(&rects, Some((0, 0))));
    assert!(cursor_inside(&rects, Some((250, 49))));
    assert!(!cursor_inside(&rects, Some((100, 10))));
    assert!(!cursor_inside(&rects, Some((150, 10))));
    assert!(!cursor_inside(&rects, Some((50, 50))));
    assert!(!cursor_inside(&[], Some((1, 1))));
    // Without a cursor position the window stays interactive.
    assert!(cursor_inside(&rects, None));
}

#[test]
fn saved_positions_must_stay_reachable() {
    let monitors = [(0, 0, 1920, 1080), (1920, 0, 1280, 1024)];
    assert!(position_visible(100, 100, 400, 300, &monitors));
    assert!(position_visible(2500, 500, 400, 300, &monitors));
    // Only 30 px left on screen at the right edge of the second monitor.
    assert!(!position_visible(3170, 100, 400, 300, &monitors));
    assert!(!position_visible(-370, 100, 400, 300, &monitors[..1]));
    assert!(!position_visible(100, 5000, 400, 300, &monitors));
    assert!(!position_visible(100, 100, 400, 300, &[]));
}
