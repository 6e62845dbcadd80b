//! The temporal dispatcher: a single-pass producer that schedules an ordered
//! event sequence in wall-clock time, following the tempo changes it meets.
use vstd::prelude::*;
use crate::model::{Event, EventBody};

verus! {

/// The tempo before any tempo event: 120 beats per minute.
pub const DEFAULT_MICROS_PER_QUARTER: u32 = 500_000;

/// One scheduled event.
///
/// `time` and `dtime` count units of `1 / (ticks_per_quarter * 1_000_000)`
/// seconds, where `ticks_per_quarter` is the resolution of the events.
#[derive(Clone, Copy, Debug)]
pub struct DispatchedEvent {
    /// The tempo after this event, in microseconds per quarter note.
    pub micros_per_quarter: u32,
    /// Time elapsed from the start of the stream to this event.
    pub time: u128,
    /// Time elapsed since the previous event (or the start of the stream).
    pub dtime: u128,
    /// The event, with a zero-velocity note-on turned into a note-off.
    pub event: Event,
}

/// Events that a dispatcher can schedule: one resolution, which is not zero,
/// and ticks that never go backwards.
pub open spec fn is_ordered_stream(evs: Seq<Event>) -> bool {
    &&& forall|i: int| 0 <= i < evs.len() ==> #[trigger] evs[i].ticks_per_quarter > 0
    &&& forall|i: int| 0 <= i < evs.len() ==>
        #[trigger] evs[i].ticks_per_quarter == evs[0].ticks_per_quarter
    &&& forall|i: int, j: int| 0 <= i <= j < evs.len() ==> evs[i].tick <= evs[j].tick
}

/// The tempo in force after the first `n` events.
pub open spec fn tempo_after(evs: Seq<Event>, n: nat) -> u32
    decreases n,
{
    if n == 0 {
        DEFAULT_MICROS_PER_QUARTER
    } else {
        match evs[n - 1].body {
            EventBody::Tempo { micros_per_quarter } => micros_per_quarter,
            _ => tempo_after(evs, (n - 1) as nat),
        }
    }
}

/// The tick of the event before event `k` (0 before the first).
pub open spec fn tick_before(evs: Seq<Event>, k: nat) -> int {
    if k == 0 {
        0
    } else {
        evs[k - 1].tick as int
    }
}

/// The time between event `k` and the one before it: the ticks between them at
/// the tempo that was in force.
pub open spec fn dtime_at(evs: Seq<Event>, k: nat) -> int {
    (evs[k as int].tick - tick_before(evs, k)) * tempo_after(evs, k) as int
}

/// The time from the start of the stream to event `n - 1`.
pub open spec fn time_after(evs: Seq<Event>, n: nat) -> int
    decreases n,
{
    if n == 0 {
        0
    } else {
        time_after(evs, (n - 1) as nat) + dtime_at(evs, (n - 1) as nat)
    }
}

/// A note-on of velocity zero is a note release.
pub open spec fn released(b: EventBody) -> EventBody {
    match b {
        EventBody::NoteOn { notenum, raw_velocity } => if raw_velocity == 0 {
            EventBody::NoteOff { notenum, raw_velocity }
        } else {
            b
        },
        _ => b,
    }
}

/// `d` is what the dispatcher emits for event `k` of `evs`.
pub open spec fn dispatched_as(d: DispatchedEvent, evs: Seq<Event>, k: nat) -> bool {
    &&& d.micros_per_quarter == tempo_after(evs, k + 1)
    &&& d.time as int == time_after(evs, k + 1)
    &&& d.dtime as int == dtime_at(evs, k)
    &&& d.event == (Event { body: released(evs[k as int].body), ..evs[k as int] })
}

/// Whether a dispatcher can schedule `events`.
pub fn is_ordered(events: &Vec<Event>) -> (r: bool)
    ensures
        r == is_ordered_stream(events@),
{
    let n = events.len();
    if n == 0 {
        return true;
    }
    let tpq = events[0].ticks_per_quarter;
    let mut k: usize = 0;
    while k < n
        invariant
            n == events@.len(),
            n > 0,
            tpq == events@[0].ticks_per_quarter,
            k <= n,
            forall|i: int| 0 <= i < k ==> #[trigger] events@[i].ticks_per_quarter > 0,
            forall|i: int| 0 <= i < k ==> #[trigger] events@[i].ticks_per_quarter == tpq,
            forall|i: int, j: int| 0 <= i <= j < k ==> events@[i].tick <= events@[j].tick,
        decreases n - k,
    {
        let e = events[k];
        if e.ticks_per_quarter == 0 || e.ticks_per_quarter != tpq {
            return false;
        }
        if k > 0 && e.tick < events[k - 1].tick {
            return false;
        }
        k = k + 1;
    }
    true
}

/// Schedules a sequence of events one at a time. It keeps the tempo in force,
/// the elapsed time and the tick of the last event, and nothing else.
pub struct Dispatcher {
    events: Vec<Event>,
    i: usize,
    micros_per_quarter: u32,
    time: u128,
    last_tick: u64,
}

impl Dispatcher {
    /// The events being scheduled.
    pub closed spec fn events(&self) -> Seq<Event> {
        self.events@
    }

    /// How many events have been emitted.
    pub closed spec fn position(&self) -> nat {
        self.i as nat
    }

    pub closed spec fn wf(&self) -> bool {
        &&& is_ordered_stream(self.events@)
        &&& self.i <= self.events@.len()
        &&& self.micros_per_quarter == tempo_after(self.events@, self.i as nat)
        &&& self.time as int == time_after(self.events@, self.i as nat)
        &&& self.last_tick as int == tick_before(self.events@, self.i as nat)
        &&& self.time as int <= self.last_tick as int * u32::MAX as int
    }

    /// A dispatcher at the start of `events`, at 120 beats per minute.
    pub fn new(events: Vec<Event>) -> (r: Self)
        requires
            is_ordered_stream(events@),
        ensures
            r.wf(),
            r.events() == events@,
            r.position() == 0,
    {
        Dispatcher {
            events,
            i: 0,
            micros_per_quarter: DEFAULT_MICROS_PER_QUARTER,
            time: 0,
            last_tick: 0,
        }
    }

    /// The next scheduled event, or `None` once every event has been emitted.
    pub fn next(&mut self) -> (r: Option<DispatchedEvent>)
        requires
            old(self).wf(),
        ensures
            final(self).wf(),
            final(self).events() == old(self).events(),
            old(self).position() < old(self).events().len() ==> {
                &&& final(self).position() == old(self).position() + 1
                &&& r matches Some(d) && dispatched_as(d, old(self).events(), old(self).position())
            },
            old(self).position() >= old(self).events().len() ==> {
                &&& final(self).position() == old(self).position()
                &&& r is None
            },
    {
        if self.events.len() <= self.i {
            return None;
        }
        let ghost evs = self.events@;
        let k = self.i;
        let event = self.events[k];
        proof {
            if k > 0 {
                assert(evs[k - 1].tick <= evs[k as int].tick);
            }
        }
        let dticks: u64 = event.tick - self.last_tick;
        let tempo = self.micros_per_quarter;
        proof {
            let m = u32::MAX as int;
            assert(dticks as int * tempo as int <= dticks as int * m) by (nonlinear_arith)
                requires
                    tempo <= m,
                    dticks >= 0,
            ;
            assert(self.last_tick as int * m + dticks as int * m == event.tick as int * m)
                by (nonlinear_arith)
                requires
                    self.last_tick as int + dticks as int == event.tick as int,
            ;
            assert(event.tick as int * m <= u64::MAX as int * m) by (nonlinear_arith)
                requires
                    event.tick <= u64::MAX,
                    m >= 0,
            ;
        }
        let dtime: u128 = dticks as u128 * tempo as u128;
        self.time = self.time + dtime;
        let body = match event.body {
            EventBody::Tempo { micros_per_quarter } => {
                self.micros_per_quarter = micros_per_quarter;
                event.body
            },
            EventBody::NoteOn { notenum, raw_velocity } => if raw_velocity == 0 {
                EventBody::NoteOff { notenum, raw_velocity }
            } else {
                event.body
            },
            _ => event.body,
        };
        self.last_tick = event.tick;
        self.i = k + 1;
        Some(
            DispatchedEvent {
                micros_per_quarter: self.micros_per_quarter,
                time: self.time,
                dtime,
                event: Event { body, ..event },
            },
        )
    }
}

/// A note-on of velocity zero is emitted as a note-off of the same key and
/// velocity; every other event is emitted unchanged.
pub proof fn lemma_zero_velocity_released(d: DispatchedEvent, evs: Seq<Event>, k: nat)
    requires
        k < evs.len(),
        dispatched_as(d, evs, k),
    ensures
        forall|n: u8|
            evs[k as int].body == (EventBody::NoteOn { notenum: n, raw_velocity: 0 })
                ==> d.event.body == (EventBody::NoteOff { notenum: n, raw_velocity: 0 }),
        !(evs[k as int].body matches EventBody::NoteOn { raw_velocity, .. } && raw_velocity == 0)
            ==> d.event == evs[k as int],
{
}

} // verus!
