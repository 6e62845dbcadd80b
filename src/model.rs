//! The semantic events that the merge produces and the dispatcher schedules.
use vstd::prelude::*;

verus! {

/// What a semantic event says. Normalized values are kept as their raw bytes;
/// a level is `raw / 127` (`unit_ratio`), a pan `max((raw - 64) / 63, -1)`,
/// a bend `raw_bend / 8192 * range` semitones.
#[derive(Clone, Copy, Debug, PartialEq, Eq, Structural)]
pub enum EventBody {
    NoteOn { notenum: u8, raw_velocity: u8 },
    NoteOff { notenum: u8, raw_velocity: u8 },
    Modulation { raw_modulation: u8 },
    Volume { raw_volume: u8 },
    Pan { raw_pan: u8 },
    Expression { raw_expression: u8 },
    /// `raw_bend` lies in `-8192..=8191`; `range` is the channel's pitch-bend
    /// range in semitones when the message was translated.
    PitchBend { raw_bend: i16, range: u8 },
    ProgramChange { program: u8 },
    /// The new tempo as microseconds per quarter note (the file's own unit);
    /// beats per minute are `60_000_000 / micros_per_quarter`.
    Tempo { micros_per_quarter: u32 },
}

/// One semantic event. Its beat is `tick / ticks_per_quarter`.
#[derive(Clone, Copy, Debug, PartialEq, Eq, Structural)]
pub struct Event {
    pub track: u8,
    /// Absolute position in ticks from the start of the piece.
    pub tick: u64,
    /// The file's resolution: ticks per quarter note.
    pub ticks_per_quarter: u16,
    pub channel: u8,
    pub body: EventBody,
}

/// A velocity, volume, modulation or expression byte as the ratio
/// `(numerator, denominator)` of the value in `[0, 1]`: `raw / 127`.
pub open spec fn unit_ratio(raw: u8) -> (int, int) {
    (raw as int, 127)
}

/// `x / d` rounded to the nearest integer, halves upward.
pub open spec fn round_ratio(x: int, d: int) -> int
    recommends
        d > 0,
{
    (2 * x + d) / (2 * d)
}

/// A byte normalized to `raw / 127` comes back exactly when scaled by 127 and
/// rounded.
pub proof fn lemma_unit_round_trip(raw: u8)
    requires
        raw <= 127,
    ensures
        round_ratio(unit_ratio(raw).0 * 127, unit_ratio(raw).1) == raw as int,
{
    let x = raw as int;
    assert((2 * (x * 127) + 127) == (2 * x + 1) * 127) by (nonlinear_arith);
    assert(((2 * x + 1) * 127) / 254int == x) by (nonlinear_arith)
        requires
            0 <= x <= 127,
    {
        assert((2 * x + 1) * 127 == x * 254 + 127);
    }
}

} // verus!
