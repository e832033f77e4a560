//! Note events delivered to the engine per column.
use vstd::prelude::*;

verus! {

#[derive(Clone, Copy, Debug, PartialEq, Eq, Structural)]
pub enum EventType {
    NoteOn { pitch: i32 },
    NoteOff { pitch: i32 },
    Empty,
}

/// An event placed at a tick position of a sequence.
#[derive(Clone, Copy, Debug, PartialEq, Eq, Structural)]
pub struct Event {
    pub pos: i32,
    pub kind: EventType,
}

impl Event {
    pub fn new(pos: i32, kind: EventType) -> (r: Event)
        ensures
            r.pos == pos,
            r.kind == kind,
    {
        Event { pos, kind }
    }
}

} // verus!
