//! The decoder's output in plain values: the file's timing and, per track,
//! messages with their tick deltas.
use vstd::prelude::*;

verus! {

/// The timing field of the file header.
#[derive(Clone, Copy, Debug, PartialEq, Eq, Structural)]
pub enum Timing {
    /// Ticks per quarter note.
    Metrical(u16),
    /// Ticks per second by frames and subframes, which this library does not
    /// support.
    Timecode,
}

/// A decoded track message, reduced to what the translation reads.
#[derive(Clone, Copy, Debug, PartialEq, Eq, Structural)]
pub enum RawMessage {
    NoteOff { channel: u8, key: u8, vel: u8 },
    NoteOn { channel: u8, key: u8, vel: u8 },
    Aftertouch { channel: u8 },
    Controller { channel: u8, controller: u8, value: u8 },
    ProgramChange { channel: u8, program: u8 },
    ChannelAftertouch { channel: u8 },
    PitchBend { channel: u8, bend: i16 },
    Tempo { micros_per_quarter: u32 },
    /// System exclusive, escape and meta messages other than tempo.
    Other,
}

/// A message with the ticks since the previous message of its track.
#[derive(Clone, Copy, Debug, PartialEq, Eq, Structural)]
pub struct RawEvent {
    pub delta: u32,
    pub message: RawMessage,
}

/// The channel of a channel message.
pub open spec fn message_channel(m: RawMessage) -> Option<u8> {
    match m {
        RawMessage::NoteOff { channel, .. } => Some(channel),
        RawMessage::NoteOn { channel, .. } => Some(channel),
        RawMessage::Aftertouch { channel } => Some(channel),
        RawMessage::Controller { channel, .. } => Some(channel),
        RawMessage::ProgramChange { channel, .. } => Some(channel),
        RawMessage::ChannelAftertouch { channel } => Some(channel),
        RawMessage::PitchBend { channel, .. } => Some(channel),
        _ => None,
    }
}

/// A channel message names one of the sixteen channels.
pub open spec fn channel_in_range(m: RawMessage) -> bool {
    match message_channel(m) {
        Some(c) => c < 16,
        None => true,
    }
}

/// The ranges that a decoded message keeps to: 4-bit channels, 7-bit data
/// bytes and a 14-bit signed bend.
pub open spec fn message_in_range(m: RawMessage) -> bool {
    match m {
        RawMessage::NoteOff { channel, key, vel } => channel < 16 && key < 128 && vel < 128,
        RawMessage::NoteOn { channel, key, vel } => channel < 16 && key < 128 && vel < 128,
        RawMessage::Aftertouch { channel } => channel < 16,
        RawMessage::Controller { channel, controller, value } => channel < 16 && controller
            < 128 && value < 128,
        RawMessage::ProgramChange { channel, program } => channel < 16 && program < 128,
        RawMessage::ChannelAftertouch { channel } => channel < 16,
        RawMessage::PitchBend { channel, bend } => channel < 16 && -8192 <= bend < 8192,
        RawMessage::Tempo { micros_per_quarter } => micros_per_quarter < 0x100_0000,
        RawMessage::Other => true,
    }
}


/// Why a file could not be turned into events.
#[derive(Clone, Copy, Debug, PartialEq, Eq, Structural)]
pub enum ParseError {
    /// The bytes could not be decoded, or the header declares zero ticks per
    /// quarter note.
    MalformedFile,
    /// The header declares timecode-based timing.
    UnsupportedTimingFormat,
}

} // verus!
