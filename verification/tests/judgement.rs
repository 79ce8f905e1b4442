use rust_mai::add;
use rust_mai::types::{Event, EventType, Judgement, JudgementResult, RtV, Widget, WkrType};

fn target_at(ideal: i64) -> Widget {
    Widget { id: 7, time_stamp: ideal, wkr_ppty: WkrType::Wkr1 }
}

fn input_at(at: i64) -> Event {
    Event { time_stamp: at, event_ppty: EventType::D }
}

fn grade_of(r: JudgementResult) -> Judgement {
    match r {
        JudgementResult::Graded(rtv) => {
            assert!(!rtv.is_blank);
            assert_eq!(rtv.id, 7);
            rtv.judgement
        },
        JudgementResult::Missed => panic!("expected a graded outcome"),
    }
}

#[test]
fn it_works() {
    let result = add(2, 2);
    assert_eq!(result, 4);
}

#[test]
fn judge_center_is_critical_perfect() {
    let t = target_at(1_000_000);
    // calibration shifts the target 20 ms later
    let r = t.judge(&input_at(1_000_020));
    assert_eq!(grade_of(r), Judgement::CriticalPerfect);
}

#[test]
fn judge_boundaries_inclusive_in_tighter_interval() {
    let t = target_at(0);
    // adjusted delta = timestamp - 20
    assert_eq!(grade_of(t.judge(&input_at(20 - 1))), Judgement::CriticalPerfect);
    assert_eq!(grade_of(t.judge(&input_at(20 + 1))), Judgement::CriticalPerfect);
    assert_eq!(grade_of(t.judge(&input_at(20 - 2))), Judgement::Perfect);
    assert_eq!(grade_of(t.judge(&input_at(20 + 2))), Judgement::Perfect);
    assert_eq!(grade_of(t.judge(&input_at(20 - 5))), Judgement::Perfect);
    assert_eq!(grade_of(t.judge(&input_at(20 + 5))), Judgement::Perfect);
    assert_eq!(grade_of(t.judge(&input_at(20 - 6))), Judgement::Good);
    assert_eq!(grade_of(t.judge(&input_at(20 + 6))), Judgement::Good);
    assert_eq!(grade_of(t.judge(&input_at(20 - 20))), Judgement::Good);
    assert_eq!(grade_of(t.judge(&input_at(20 + 20))), Judgement::Good);
}

#[test]
fn judge_outside_all_intervals_is_missed() {
    let t = target_at(0);
    assert_eq!(t.judge(&input_at(20 + 21)), JudgementResult::Missed);
    assert_eq!(t.judge(&input_at(20 - 21)), JudgementResult::Missed);
    assert_eq!(t.judge(&input_at(500)), JudgementResult::Missed);
}

#[test]
fn judge_is_symmetric_around_calibrated_center() {
    let t = target_at(10_000);
    for d in [0i64, 1, 3, 5, 12, 20, 30] {
        let early = t.judge(&input_at(10_000 + 20 - d));
        let late = t.judge(&input_at(10_000 + 20 + d));
        assert_eq!(early, late);
    }
}

#[test]
fn blank_and_missed_stay_distinct() {
    let blank = RtV { is_blank: true, id: 0, judgement: Judgement::Good };
    assert!(blank.is_blank);
    let t = target_at(0);
    let missed = t.judge(&input_at(1_000));
    assert_eq!(missed, JudgementResult::Missed);
    assert_ne!(JudgementResult::Graded(blank), missed);
}
