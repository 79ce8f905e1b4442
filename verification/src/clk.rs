use crate::types::{Event, EventType, Judgement, RtV};
use vstd::prelude::*;

verus! {

/// Clock ticks per synchronization event: the cycle counter wraps
/// modulo this fraction and owes the bus one sync event on the wrap.
pub const EVENT_FRAC: u8 = 10;

/// What one clock tick emits: a synchronization event for the shared
/// bus, or a blank placeholder for the feedback channel.
#[derive(Debug, Clone, Copy, PartialEq, Eq, Structural)]
pub enum TickEmission {
    Sync(Event),
    Blank(RtV),
}

/// One tick of the clock driver: the cycle counter advances modulo
/// `EVENT_FRAC`; on the wrap to zero the tick emits a synchronization
/// event addressed to everybody and stamped `now`, on every other tick
/// a blank placeholder meaning "nothing happened this frame".
pub fn clk_tick(cnt: u8, now: i64) -> (r: (u8, TickEmission))
    requires
        cnt < EVENT_FRAC,
    ensures
        r.0 == ((cnt + 1) as int) % (EVENT_FRAC as int),
        r.0 == 0 ==> r.1 == TickEmission::Sync(Event { time_stamp: now, event_ppty: EventType::All }),
        r.0 != 0 ==> r.1 == TickEmission::Blank(
            RtV { is_blank: true, id: 0, judgement: Judgement::Good },
        ),
{
    let next = (cnt + 1) % EVENT_FRAC;
    if next == 0 {
        (next, TickEmission::Sync(Event { time_stamp: now, event_ppty: EventType::All }))
    } else {
        (next, TickEmission::Blank(RtV { is_blank: true, id: 0, judgement: Judgement::Good }))
    }
}

} // verus!
