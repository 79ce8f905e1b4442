use rust_mai::types::{WidgetForDisplay, WkrType};
use rust_mai::widget_for_display_queue::WidgetForDisplayHeap;

fn entry(id: usize, at: i64) -> WidgetForDisplay {
    WidgetForDisplay {
        id,
        time_stamp_general: at,
        time_stamp_display: at + 1,
        time_hit: at + 2,
        place: WkrType::Wkr1,
        deleted: false,
    }
}

#[test]
fn pop_yields_non_decreasing_times_whatever_the_push_order() {
    let mut h = WidgetForDisplayHeap::new();
    for (id, at) in [(0usize, 900i64), (1, 100), (2, 500), (3, 100), (4, 1200), (5, 0)] {
        h.push(entry(id, at));
    }
    let mut last = i64::MIN;
    let mut count = 0;
    while let Some(w) = h.pop() {
        assert!(w.time_stamp_general >= last);
        last = w.time_stamp_general;
        count += 1;
    }
    assert_eq!(count, 6);
}

#[test]
fn equal_times_drain_by_id() {
    let mut h = WidgetForDisplayHeap::new();
    h.push(entry(2, 100));
    h.push(entry(0, 100));
    h.push(entry(1, 100));
    assert_eq!(h.pop().unwrap().id, 0);
    assert_eq!(h.pop().unwrap().id, 1);
    assert_eq!(h.pop().unwrap().id, 2);
    assert!(h.pop().is_none());
}

#[test]
fn peek_shows_the_minimum_without_removing_it() {
    let mut h = WidgetForDisplayHeap::new();
    assert!(h.peek().is_none());
    h.push(entry(0, 300));
    h.push(entry(1, 200));
    assert_eq!(h.peek().unwrap().id, 1);
    assert_eq!(h.peek().unwrap().id, 1);
    assert_eq!(h.pop().unwrap().id, 1);
    assert_eq!(h.peek().unwrap().id, 0);
}

#[test]
fn is_empty_follows_the_content() {
    let mut h = WidgetForDisplayHeap::default();
    assert!(h.is_empty());
    h.push(entry(0, 10));
    assert!(!h.is_empty());
    h.pop();
    assert!(h.is_empty());
}
