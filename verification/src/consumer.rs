use crate::sliding_window::SlidingWindow;
use crate::types::{
    judge_spec, Event, EventType, JudgementResult, Widget, WidgetForDisplay, WkrType,
    JUDGE_CALIBRATION_MS,
};
use vstd::prelude::*;

verus! {

/// Milliseconds of look-ahead: an entry is admitted into the window
/// once its earliest relevant time is less than this far in the future.
pub const LOOKAHEAD_MS: i64 = 5000;

/// The lane a bus event belongs to, if it is a lane input.
pub open spec fn lane_of_event(e: EventType) -> Option<WkrType> {
    match e {
        EventType::D => Option::Some(WkrType::Wkr1),
        EventType::F => Option::Some(WkrType::Wkr2),
        EventType::J => Option::Some(WkrType::Wkr3),
        EventType::K => Option::Some(WkrType::Wkr4),
        _ => Option::None,
    }
}

/// Where the start cursor stops after the retire pass: it walks over
/// retired entries, never past the slot before `e`.
pub open spec fn retire_stop(s: Seq<WidgetForDisplay>, a: int, e: int) -> int
    decreases e - a,
{
    if a + 1 < e && a < s.len() && s[a].deleted {
        retire_stop(s, a + 1, e)
    } else {
        a
    }
}

/// Where the end cursor stops after the extend pass at instant `now`.
pub open spec fn extend_stop(s: Seq<WidgetForDisplay>, e: int, now: int) -> int
    decreases s.len() - e,
{
    if 0 <= e && e < s.len() && s[e].time_stamp_general - LOOKAHEAD_MS < now {
        extend_stop(s, e + 1, now)
    } else {
        e
    }
}

/// The first index in `[a, b)` holding a live entry of the given lane.
pub open spec fn first_match(s: Seq<WidgetForDisplay>, a: int, b: int, lane: WkrType) -> Option<
    int,
>
    decreases b - a,
{
    if a >= b || a >= s.len() {
        Option::None
    } else if s[a].place == lane && !s[a].deleted {
        Option::Some(a)
    } else {
        first_match(s, a + 1, b, lane)
    }
}

/// The entry with its retirement flag raised.
pub open spec fn retire_entry(e: WidgetForDisplay) -> WidgetForDisplay {
    WidgetForDisplay { deleted: true, ..e }
}

/// Entry ids index the catalog, and the target of an entry sits on the
/// entry's own lane.
pub open spec fn catalog_consistent(s: Seq<WidgetForDisplay>, ws: Seq<Widget>) -> bool {
    forall|i: int|
        #![trigger s[i]]
        0 <= i < s.len() ==> s[i].id < ws.len() && ws[s[i].id as int].id == s[i].id && ws[s[i].id
            as int].wkr_ppty == s[i].place
}

/// Machine-limit bound on the window: the look-ahead subtraction stays
/// inside `i64`.
pub open spec fn window_times_ok(s: Seq<WidgetForDisplay>) -> bool {
    forall|i: int|
        #![trigger s[i]]
        0 <= i < s.len() ==> s[i].time_stamp_general >= i64::MIN + LOOKAHEAD_MS
}

/// Machine-limit bound on judging at instant `at`: every delta and its
/// calibrated shift stays inside `i64`.
pub open spec fn judge_deltas_ok(ws: Seq<Widget>, at: int) -> bool {
    forall|i: int|
        #![trigger ws[i]]
        0 <= i < ws.len() ==> i64::MIN <= at - ws[i].time_stamp && at - ws[i].time_stamp
            <= i64::MAX && i64::MIN <= at - ws[i].time_stamp - JUDGE_CALIBRATION_MS
}

/// A pass that visited only retired entries and halted on the stop
/// condition ends exactly where `retire_stop` says.
proof fn lemma_retire_stop_eq(s: Seq<WidgetForDisplay>, a: int, e: int, b: int)
    requires
        a <= b,
        forall|i: int| #![trigger s[i]] a <= i < b ==> i + 1 < e && i < s.len() && s[i].deleted,
        !(b + 1 < e && b < s.len() && s[b].deleted),
    ensures
        retire_stop(s, a, e) == b,
    decreases b - a,
{
    if a < b {
        assert(s[a].deleted);
        lemma_retire_stop_eq(s, a + 1, e, b);
    }
}

/// A pass that visited only due entries and halted on the stop
/// condition ends exactly where `extend_stop` says.
proof fn lemma_extend_stop_eq(s: Seq<WidgetForDisplay>, e: int, now: int, b: int)
    requires
        0 <= e <= b,
        forall|i: int|
            #![trigger s[i]]
            e <= i < b ==> i < s.len() && s[i].time_stamp_general - LOOKAHEAD_MS < now,
        !(b < s.len() && s[b].time_stamp_general - LOOKAHEAD_MS < now),
    ensures
        extend_stop(s, e, now) == b,
    decreases b - e,
{
    if e < b {
        assert(s[e].time_stamp_general - LOOKAHEAD_MS < now);
        lemma_extend_stop_eq(s, e + 1, now, b);
    }
}

/// An entry whose earliest relevant time lies at least the look-ahead
/// span after `now` is never admitted: the extend pass stops at or
/// before it, so it cannot enter the active slice of this tick.
pub proof fn lemma_lookahead_bound(s: Seq<WidgetForDisplay>, e: int, now: int, j: int)
    requires
        0 <= e <= j < s.len(),
        s[j].time_stamp_general - LOOKAHEAD_MS >= now,
    ensures
        extend_stop(s, e, now) <= j,
    decreases j - e,
{
    if e < j && s[e].time_stamp_general - LOOKAHEAD_MS < now {
        lemma_lookahead_bound(s, e + 1, now, j);
    }
}

/// What the tick hands back to the render surface.
#[derive(Debug, Clone, Copy, PartialEq, Eq, Structural)]
pub enum TickOutcome {
    SessionEnd,
    Judged(JudgementResult),
    Idle,
}

/// One iteration of the consumer loop at instant `now`, for the event
/// just drained from the bus: retire the entries already judged or
/// expired, extend the window by the look-ahead rule, stop the session
/// once the window is exhausted, and judge a lane input against the
/// first live entry of its lane in the active slice, retiring that
/// entry. Everything else leaves the window as the passes left it and
/// yields nothing.
pub fn consumer_tick(
    window: &mut SlidingWindow<WidgetForDisplay>,
    widgets: &Vec<Widget>,
    now: i64,
    event: &Event,
) -> (r: TickOutcome)
    requires
        old(window).wf(),
        old(window).entries().len() >= 1,
        catalog_consistent(old(window).entries(), widgets@),
        window_times_ok(old(window).entries()),
        judge_deltas_ok(widgets@, event.time_stamp as int),
    ensures
        final(window).wf(),
        final(window).entries().len() == old(window).entries().len(),
        final(window).start_ix() == retire_stop(
            old(window).entries(),
            old(window).start_ix(),
            old(window).end_ix(),
        ),
        final(window).end_ix() == extend_stop(
            old(window).entries(),
            old(window).end_ix(),
            now as int,
        ),
        ({
            let s = old(window).entries();
            let start1 = retire_stop(s, old(window).start_ix(), old(window).end_ix());
            let end1 = extend_stop(s, old(window).end_ix(), now as int);
            if start1 + 1 >= s.len() {
                r == TickOutcome::SessionEnd && final(window).entries() == s
            } else {
                match lane_of_event(event.event_ppty) {
                    Option::None => r == TickOutcome::Idle && final(window).entries() == s,
                    Option::Some(lane) => {
                        if end1 > start1 + 1 {
                            match first_match(s, start1, end1, lane) {
                                Option::Some(j) => r == TickOutcome::Judged(
                                    judge_spec(
                                        widgets@[s[j].id as int].time_stamp as int,
                                        event.time_stamp as int,
                                        s[j].id,
                                    ),
                                ) && final(window).entries() == s.update(j, retire_entry(s[j])),
                                Option::None => r == TickOutcome::Idle && final(window).entries()
                                    == s,
                            }
                        } else {
                            r == TickOutcome::Idle && final(window).entries() == s
                        }
                    },
                }
            }
        }),
{
    let ghost s = old(window).entries();
    let ghost start0 = old(window).start_ix();
    let ghost end0 = old(window).end_ix();

    let retired = |e: &WidgetForDisplay| -> (b: bool)
        ensures
            b == e.deleted,
        { e.deleted };
    proof {
        assert forall|i: int| 0 <= i < s.len() implies call_requires(retired, (&s[i],)) by {}
    }
    window.start_move_while(retired);
    proof {
        assert forall|i: int| #![trigger s[i]] start0 <= i < window.start_ix() implies i + 1 < end0
            && i < s.len() && s[i].deleted by {
            assert(call_ensures(retired, (&s[i],), true));
        }
        lemma_retire_stop_eq(s, start0, end0, window.start_ix());
    }

    let due = |e: &WidgetForDisplay| -> (b: bool)
        requires
            e.time_stamp_general >= i64::MIN + LOOKAHEAD_MS,
        ensures
            b == (e.time_stamp_general - LOOKAHEAD_MS < now),
        { e.time_stamp_general - LOOKAHEAD_MS < now };
    proof {
        assert forall|i: int| 0 <= i < s.len() implies call_requires(due, (&s[i],)) by {
            assert(s[i].time_stamp_general >= i64::MIN + LOOKAHEAD_MS);
        }
    }
    window.end_move_while(due);
    proof {
        assert forall|i: int| #![trigger s[i]] end0 <= i < window.end_ix() implies i < s.len()
            && s[i].time_stamp_general - LOOKAHEAD_MS < now by {
            assert(call_ensures(due, (&s[i],), true));
        }
        lemma_extend_stop_eq(s, end0, now as int, window.end_ix());
    }

    if window.is_end() {
        return TickOutcome::SessionEnd;
    }

    let lane = match event.get_event_property() {
        EventType::D => WkrType::Wkr1,
        EventType::F => WkrType::Wkr2,
        EventType::J => WkrType::Wkr3,
        EventType::K => WkrType::Wkr4,
        _ => {
            return TickOutcome::Idle;
        },
    };

    let range = match window.as_slice() {
        Option::Some(r) => r,
        Option::None => {
            return TickOutcome::Idle;
        },
    };
    let (a, b) = range;
    let mut j = a;
    loop
        invariant
            s == old(window).entries(),
            a as int == retire_stop(s, old(window).start_ix(), old(window).end_ix()),
            b as int == extend_stop(s, old(window).end_ix(), now as int),
            a + 1 < b,
            a as int + 1 < s.len(),
            lane_of_event(event.event_ppty) == Option::Some(lane),
            a <= j <= b,
            window.wf(),
            window.entries() == s,
            window.start_ix() == a as int,
            window.end_ix() == b as int,
            b <= s.len(),
            catalog_consistent(s, widgets@),
            judge_deltas_ok(widgets@, event.time_stamp as int),
            first_match(s, a as int, b as int, lane) == first_match(s, j as int, b as int, lane),
        ensures
            j == b,
            first_match(s, a as int, b as int, lane) is None,
        decreases b - j,
    {
        if !(j < b) {
            proof {
                assert(first_match(s, j as int, b as int, lane) is None);
            }
            break ;
        }
        let entry = *window.get(j);
        proof {
            assert(entry == s[j as int]);
        }
        if entry.place == lane && !entry.deleted {
            proof {
                assert(first_match(s, j as int, b as int, lane) == Option::Some(j as int));
                assert(s[j as int].id < widgets@.len());
            }
            let target = &widgets[entry.id];
            let res = target.judge(event);
            let mut retired_entry = entry;
            retired_entry.deleted = true;
            proof {
                assert(retired_entry == retire_entry(s[j as int]));
            }
            window.set(j, retired_entry);
            return TickOutcome::Judged(res);
        }
        proof {
            assert(!(s[j as int].place == lane && !s[j as int].deleted));
            assert(first_match(s, j as int, b as int, lane) == first_match(
                s,
                j + 1,
                b as int,
                lane,
            ));
        }
        j += 1;
    }
        TickOutcome::Idle
}

} // verus!
