use vstd::prelude::*;

verus! {

/// Milliseconds by which the judgement engine shifts a target's ideal time
/// before classifying an input's delta, compensating systematic input latency.
pub const JUDGE_CALIBRATION_MS: i64 = 20;

/// The kinds of event that travel over the bus: one per input lane,
/// the synchronization tick addressed to everybody, and the kind reserved
/// for the bookkeeping worker alone.
#[derive(Debug, Hash, Clone, Copy, PartialEq, Eq, Structural)]
pub enum EventType {
    OnlyWkr0,
    D,
    F,
    J,
    K,
    All,
}

/// The fixed set of workers: the bookkeeping worker plus one per lane.
#[derive(Debug, Hash, Clone, Copy, PartialEq, Eq, Structural)]
pub enum WkrType {
    Wkr0,
    Wkr1,
    Wkr2,
    Wkr3,
    Wkr4,
}

/// Grades a judged input can earn, best first.
#[derive(Debug, Hash, Clone, Copy, PartialEq, Eq, Structural)]
pub enum Judgement {
    CriticalPerfect,
    Perfect,
    Good,
}

/// Feedback value for the render surface: either a placeholder
/// (`is_blank` set, nothing happened this tick) or a graded hit on
/// the target named by `id`.
#[derive(Debug, Hash, Clone, Copy, PartialEq, Eq, Structural)]
pub struct RtV {
    pub is_blank: bool,
    pub id: usize,
    pub judgement: Judgement,
}

/// Outcome of matching one input against one target: a graded value,
/// or the distinguished "input arrived but matched no interval" case.
/// Kept apart from the blank placeholder, which is an `RtV` with
/// `is_blank` set.
#[derive(Debug, Clone, Copy, PartialEq, Eq, Structural)]
pub enum JudgementResult {
    Graded(RtV),
    Missed,
}

/// A timestamped occurrence on the shared bus. Instants are milliseconds
/// on one fixed linear clock (the wall clock, counted from its epoch).
#[derive(Debug, Clone, Copy, PartialEq, Eq, Structural)]
pub struct Event {
    pub time_stamp: i64,
    pub event_ppty: EventType,
}

impl Event {
    pub fn get_event_property(&self) -> (r: EventType)
        ensures
            r == self.event_ppty,
    {
        self.event_ppty
    }

    pub fn time_stamp(&self) -> (r: i64)
        ensures
            r == self.time_stamp,
    {
        self.time_stamp
    }
}

/// A scheduled hit opportunity: the target of the judgement engine.
/// `time_stamp` is the ideal instant an input should arrive at.
#[derive(Debug, Clone, Copy, PartialEq, Eq, Structural)]
pub struct Widget {
    pub id: usize,
    pub time_stamp: i64,
    pub wkr_ppty: WkrType,
}

/// What `judge` returns for ideal time `ideal` and input instant `at`:
/// the shifted delta is matched against three nested closed intervals,
/// tightest first; outside all three the input is missed.
pub open spec fn judge_spec(ideal: int, at: int, id: usize) -> JudgementResult {
    let adjusted = at - ideal - JUDGE_CALIBRATION_MS;
    if -1 <= adjusted <= 1 {
        JudgementResult::Graded(RtV { is_blank: false, id, judgement: Judgement::CriticalPerfect })
    } else if -5 <= adjusted <= 5 {
        JudgementResult::Graded(RtV { is_blank: false, id, judgement: Judgement::Perfect })
    } else if -20 <= adjusted <= 20 {
        JudgementResult::Graded(RtV { is_blank: false, id, judgement: Judgement::Good })
    } else {
        JudgementResult::Missed
    }
}

impl Widget {
    pub fn time_stamp(&self) -> (r: i64)
        ensures
            r == self.time_stamp,
    {
        self.time_stamp
    }

    pub fn get_worker_property(&self) -> (r: WkrType)
        ensures
            r == self.wkr_ppty,
    {
        self.wkr_ppty
    }

    /// The judgement engine: pure, total over every delta the machine
    /// can represent, no side effect.
    pub fn judge(&self, event: &Event) -> (r: JudgementResult)
        requires
            i64::MIN <= event.time_stamp - self.time_stamp <= i64::MAX,
            i64::MIN <= event.time_stamp - self.time_stamp - JUDGE_CALIBRATION_MS,
        ensures
            r == judge_spec(self.time_stamp as int, event.time_stamp as int, self.id),
    {
        let delta: i64 = event.time_stamp - self.time_stamp;
        let adjusted: i64 = delta - JUDGE_CALIBRATION_MS;
        if -1 <= adjusted && adjusted <= 1 {
            JudgementResult::Graded(
                RtV { is_blank: false, id: self.id, judgement: Judgement::CriticalPerfect },
            )
        } else if -5 <= adjusted && adjusted <= 5 {
            JudgementResult::Graded(
                RtV { is_blank: false, id: self.id, judgement: Judgement::Perfect },
            )
        } else if -20 <= adjusted && adjusted <= 20 {
            JudgementResult::Graded(
                RtV { is_blank: false, id: self.id, judgement: Judgement::Good },
            )
        } else {
            JudgementResult::Missed
        }
    }
}

/// The renderable projection of one target, carrying the three derived
/// instants and the retirement flag the consumer loop sets once the
/// entry is judged or expired.
#[derive(Debug, Clone, Copy, PartialEq, Eq, Structural)]
pub struct WidgetForDisplay {
    pub id: usize,
    pub time_stamp_general: i64,
    pub time_stamp_display: i64,
    pub time_hit: i64,
    pub place: WkrType,
    pub deleted: bool,
}

} // verus!
