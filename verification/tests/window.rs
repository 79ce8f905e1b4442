use rust_mai::sliding_window::SlidingWindow;

#[test]
fn build_starts_with_both_cursors_at_front() {
    let mut w = SlidingWindow::build(vec![10i64, 20, 30]);
    assert_eq!(w.as_slice(), None);
    w.end_move_while(|v: &i64| *v <= 20);
    assert_eq!(w.as_slice(), Some((0, 2)));
}

#[test]
fn degenerate_window_exposes_no_slice() {
    let mut w = SlidingWindow::build(vec![1i64, 2, 3]);
    // fewer than two entries in the window counts as empty
    w.end_move_while(|v: &i64| *v < 2);
    assert_eq!(w.as_slice(), None);
}

#[test]
fn end_move_while_stops_at_first_refusal() {
    let mut w = SlidingWindow::build(vec![1i64, 2, 9, 3]);
    w.end_move_while(|v: &i64| *v < 5);
    assert_eq!(w.as_slice(), Some((0, 2)));
    // idempotent no-op when the predicate refuses at once
    w.end_move_while(|v: &i64| *v < 5);
    assert_eq!(w.as_slice(), Some((0, 2)));
}

#[test]
fn start_move_while_keeps_lookahead_slot() {
    let mut w = SlidingWindow::build(vec![1i64, 1, 1, 1]);
    w.end_move_while(|_v: &i64| true);
    // all entries accepted, yet start never reaches past end - 1
    w.start_move_while(|_v: &i64| true);
    assert_eq!(w.as_slice(), None);
    assert!(w.is_end());
}

#[test]
fn start_move_while_stops_on_live_entry() {
    let mut w = SlidingWindow::build(vec![true, true, false, true, true]);
    w.end_move_while(|_v: &bool| true);
    w.start_move_while(|v: &bool| *v);
    assert_eq!(w.as_slice(), Some((2, 5)));
}

#[test]
fn cursors_only_move_forward() {
    let mut w = SlidingWindow::build(vec![5i64, 6, 7, 8]);
    w.end_move_while(|v: &i64| *v < 7);
    assert_eq!(w.as_slice(), Some((0, 2)));
    // a predicate refusing everything moves nothing backward
    w.end_move_while(|_v: &i64| false);
    w.start_move_while(|_v: &i64| false);
    assert_eq!(w.as_slice(), Some((0, 2)));
}

#[test]
fn push_after_new_grows_backing_sequence() {
    let mut w = SlidingWindow::new();
    w.push(1i64);
    w.push(2);
    w.push(3);
    // new() grants the look-ahead slot: end starts at 1
    assert_eq!(w.as_slice(), None);
    w.end_move_while(|_v: &i64| true);
    assert_eq!(w.as_slice(), Some((0, 3)));
}

#[test]
fn exhaustion_is_reached_and_kept() {
    let mut w = SlidingWindow::build(vec![0i64, 1]);
    assert!(!w.is_end());
    w.end_move_while(|_v: &i64| true);
    w.start_move_while(|_v: &i64| true);
    assert!(w.is_end());
    // no later pass un-exhausts the window
    w.end_move_while(|_v: &i64| true);
    w.start_move_while(|_v: &i64| false);
    assert!(w.is_end());
}

#[test]
fn get_and_set_touch_single_entries() {
    let mut w = SlidingWindow::build(vec![10i64, 20, 30]);
    assert_eq!(*w.get(1), 20);
    w.set(1, 25);
    assert_eq!(*w.get(1), 25);
    assert_eq!(*w.get(0), 10);
    assert_eq!(*w.get(2), 30);
}

#[test]
fn default_window_matches_new() {
    let d: SlidingWindow<i64> = SlidingWindow::default();
    let n: SlidingWindow<i64> = SlidingWindow::new();
    let mut d = d;
    let mut n = n;
    assert_eq!(d.as_slice(), n.as_slice());
}
