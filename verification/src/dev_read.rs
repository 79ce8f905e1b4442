use crate::types::{Event, EventType};
use vstd::prelude::*;

verus! {

/// A raw key transition read from a physical input device.
#[derive(Debug, Clone, Copy, PartialEq, Eq, Structural)]
pub enum KeyEvent {
    Pressed(u16),
    Released(u16),
}

/// The static lookup from device key codes to lanes: the codes of the
/// D, F, J and K keys; every other code is dropped.
pub open spec fn lane_of_code(code: u16) -> Option<EventType> {
    if code == 32 {
        Option::Some(EventType::D)
    } else if code == 33 {
        Option::Some(EventType::F)
    } else if code == 36 {
        Option::Some(EventType::J)
    } else if code == 37 {
        Option::Some(EventType::K)
    } else {
        Option::None
    }
}

/// Maps one raw key transition to the bus event it produces, if any:
/// only press transitions of recognized codes become lane events,
/// stamped with their arrival instant `now`.
pub fn key_event_to_bus_event(key_evnt: KeyEvent, now: i64) -> (r: Option<Event>)
    ensures
        match key_evnt {
            KeyEvent::Pressed(code) => match lane_of_code(code) {
                Option::Some(lane) => r == Option::Some(
                    Event { time_stamp: now, event_ppty: lane },
                ),
                Option::None => r is None,
            },
            KeyEvent::Released(_) => r is None,
        },
{
    match key_evnt {
        KeyEvent::Pressed(code) => {
            if code == 32 {
                Option::Some(Event { time_stamp: now, event_ppty: EventType::D })
            } else if code == 33 {
                Option::Some(Event { time_stamp: now, event_ppty: EventType::F })
            } else if code == 36 {
                Option::Some(Event { time_stamp: now, event_ppty: EventType::J })
            } else if code == 37 {
                Option::Some(Event { time_stamp: now, event_ppty: EventType::K })
            } else {
                Option::None
            }
        },
        KeyEvent::Released(_) => Option::None,
    }
}

} // verus!
