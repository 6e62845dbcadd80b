//! Reading a Standard MIDI File: the bytes are decoded by `midly`, its values
//! are carried over into plain values, and the rest is verified logic.
use vstd::prelude::*;
use midly::{MetaMessage, MidiMessage, Smf, TrackEventKind};
use crate::merge::{abs_tick, is_merge_order, lemma_abs_tick_mono, track_fits, tracks_view};
use crate::model::Event;
use crate::raw::{message_in_range, ParseError, RawEvent, RawMessage, Timing};
use crate::translate::{translate, translated, tracks_valid};

verus! {

#[verifier::external_type_specification]
#[verifier::external_body]
pub struct ExSmf<'a>(Smf<'a>);

/// What `midly::Smf::parse` makes of a byte string, carried over into plain
/// values: `None` where it fails, else the header's timing and each track's
/// messages with their tick deltas, in file order.
pub uninterp spec fn decoded_file(data: Seq<u8>) -> Option<(Timing, Seq<Seq<RawEvent>>)>;

/// The decoded tracks of a file that decodes.
pub open spec fn decoded_tracks(data: Seq<u8>) -> Seq<Seq<RawEvent>> {
    decoded_file(data)->Some_0.1
}

/// A message of the decoded file at track `t`, position `i`.
pub open spec fn decoded_message(data: Seq<u8>, t: usize, i: usize) -> RawMessage {
    decoded_tracks(data)[t as int][i as int].message
}

/// A decoded file together with the bytes it was decoded from. Only
/// `MidiFile::open` makes one.
pub struct MidiFile<'a> {
    data: &'a [u8],
    smf: Smf<'a>,
}

impl<'a> MidiFile<'a> {
    /// The bytes the file was decoded from.
    pub closed spec fn data(&self) -> Seq<u8> {
        self.data@
    }

    /// `t`, `i` name a message of the file.
    pub open spec fn has_message(&self, t: usize, i: usize) -> bool {
        &&& decoded_file(self.data()) is Some
        &&& t < decoded_tracks(self.data()).len()
        &&& i < decoded_tracks(self.data())[t as int].len()
    }

    /// Relies on `midly::Smf::parse`, which decodes the header and every
    /// track, or fails.
    #[verifier::external_body]
    fn open(data: &'a [u8]) -> (r: Option<MidiFile<'a>>)
        ensures
            r is None <==> decoded_file(data@) is None,
            r matches Some(f) ==> f.data() == data@,
    {
        match Smf::parse(data) {
            Ok(smf) => Some(MidiFile { data, smf }),
            Err(_) => None,
        }
    }

    /// Relies on the `timing` field of `midly::Header`, whose ticks per
    /// quarter note are a 15-bit number.
    #[verifier::external_body]
    fn timing(&self) -> (r: Timing)
        requires
            decoded_file(self.data()) is Some,
        ensures
            r == decoded_file(self.data())->Some_0.0,
            r matches Timing::Metrical(tpq) ==> tpq < 0x8000,
    {
        match self.smf.header.timing {
            midly::Timing::Metrical(tpq) => Timing::Metrical(tpq.as_int()),
            midly::Timing::Timecode(_, _) => Timing::Timecode,
        }
    }

    /// Relies on the `tracks` field of `midly::Smf`.
    #[verifier::external_body]
    fn track_count(&self) -> (r: usize)
        requires
            decoded_file(self.data()) is Some,
        ensures
            r == decoded_tracks(self.data()).len(),
    {
        self.smf.tracks.len()
    }

    /// Relies on the `tracks` field of `midly::Smf`.
    #[verifier::external_body]
    fn track_len(&self, t: usize) -> (r: usize)
        requires
            decoded_file(self.data()) is Some,
            t < decoded_tracks(self.data()).len(),
        ensures
            r == decoded_tracks(self.data())[t as int].len(),
    {
        self.smf.tracks[t].len()
    }

    /// Relies on the `delta` field of `midly::TrackEvent`, a 28-bit tick
    /// count.
    #[verifier::external_body]
    fn delta_at(&self, t: usize, i: usize) -> (r: u32)
        requires
            self.has_message(t, i),
        ensures
            r == decoded_tracks(self.data())[t as int][i as int].delta,
            r < 0x1000_0000,
    {
        self.smf.tracks[t][i].delta.as_int()
    }

    /// Relies on `midly::TrackEventKind::Midi` with the note and controller
    /// variants of `midly::MidiMessage`: a 4-bit channel and 7-bit data.
    #[verifier::external_body]
    fn note_or_controller_at(&self, t: usize, i: usize) -> (r: Option<RawMessage>)
        requires
            self.has_message(t, i),
        ensures
            r matches Some(m) ==> m == decoded_message(self.data(), t, i) && message_in_range(m),
            r is None ==> !(decoded_message(self.data(), t, i) is NoteOff || decoded_message(
                self.data(),
                t,
                i,
            ) is NoteOn || decoded_message(self.data(), t, i) is Aftertouch
                || decoded_message(self.data(), t, i) is Controller),
    {
        let (c, m) = match self.smf.tracks[t][i].kind {
            TrackEventKind::Midi { channel, message } => (channel.as_int(), message),
            _ => return None,
        };
        match m {
            MidiMessage::NoteOff { key, vel } => Some(RawMessage::NoteOff { channel: c, key: key.as_int(), vel: vel.as_int() }),
            MidiMessage::NoteOn { key, vel } => Some(RawMessage::NoteOn { channel: c, key: key.as_int(), vel: vel.as_int() }),
            MidiMessage::Aftertouch { .. } => Some(RawMessage::Aftertouch { channel: c }),
            MidiMessage::Controller { controller, value } => Some(RawMessage::Controller { channel: c, controller: controller.as_int(), value: value.as_int() }),
            _ => None,
        }
    }

    /// Relies on the remaining variants of `midly::MidiMessage` (7-bit data,
    /// a bend that `midly::PitchBend::as_int` gives in `-0x2000..=0x1FFF`) and
    /// on `midly::MetaMessage::Tempo`, a 24-bit count of microseconds.
    #[verifier::external_body]
    fn program_bend_or_tempo_at(&self, t: usize, i: usize) -> (r: Option<RawMessage>)
        requires
            self.has_message(t, i),
        ensures
            r matches Some(m) ==> m == decoded_message(self.data(), t, i) && message_in_range(m),
            r is None ==> !(decoded_message(self.data(), t, i) is ProgramChange
                || decoded_message(self.data(), t, i) is ChannelAftertouch || decoded_message(
                self.data(),
                t,
                i,
            ) is PitchBend || decoded_message(self.data(), t, i) is Tempo),
    {
        match self.smf.tracks[t][i].kind {
            TrackEventKind::Midi { channel, message } => match message {
                MidiMessage::ProgramChange { program } => Some(RawMessage::ProgramChange { channel: channel.as_int(), program: program.as_int() }),
                MidiMessage::ChannelAftertouch { .. } => Some(RawMessage::ChannelAftertouch { channel: channel.as_int() }),
                MidiMessage::PitchBend { bend } => Some(RawMessage::PitchBend { channel: channel.as_int(), bend: bend.as_int() }),
                _ => None,
            },
            TrackEventKind::Meta(MetaMessage::Tempo(x)) => Some(RawMessage::Tempo { micros_per_quarter: x.as_int() }),
            _ => None,
        }
    }

    /// The message at track `t`, position `i`.
    fn message_at(&self, t: usize, i: usize) -> (r: RawEvent)
        requires
            self.has_message(t, i),
        ensures
            r == decoded_tracks(self.data())[t as int][i as int],
            message_in_range(r.message),
    {
        let delta = self.delta_at(t, i);
        let message = match self.note_or_controller_at(t, i) {
            Some(m) => m,
            None => match self.program_bend_or_tempo_at(t, i) {
                Some(m) => m,
                None => RawMessage::Other,
            },
        };
        RawEvent { delta, message }
    }
}

/// Whether the absolute ticks of a track fit in 64 bits.
pub fn ticks_fit(track: &Vec<RawEvent>) -> (r: bool)
    ensures
        r == track_fits(track@),
{
    let mut tick: u64 = 0;
    let mut i: usize = 0;
    while i < track.len()
        invariant
            i <= track@.len(),
            tick as int == abs_tick(track@, i - 1),
        decreases track@.len() - i,
    {
        let delta = track[i].delta as u64;
        if tick > u64::MAX - delta {
            proof {
                lemma_abs_tick_mono(track@, i as int, track@.len() - 1);
            }
            return false;
        }
        tick = tick + delta;
        i = i + 1;
    }
    true
}

/// The decoded file's tracks are not all within 64-bit absolute ticks.
pub open spec fn some_track_overflows(tracks: Seq<Seq<RawEvent>>) -> bool {
    exists|t: int| 0 <= t < tracks.len() && !track_fits(#[trigger] tracks[t])
}

/// Decodes a Standard MIDI File and translates it into semantic events.
///
/// Fails with `MalformedFile` where the bytes cannot be decoded (or declare
/// zero ticks per quarter note, or ticks beyond 64 bits), and with
/// `UnsupportedTimingFormat` on timecode timing, before any event is
/// translated. Otherwise the events are those of the decoded tracks in merge
/// order.
pub fn parse(data: &[u8]) -> (r: Result<Vec<Event>, ParseError>)
    ensures
        match decoded_file(data@) {
            None => r == Err::<Vec<Event>, ParseError>(ParseError::MalformedFile),
            Some((Timing::Timecode, _)) => r == Err::<Vec<Event>, ParseError>(
                ParseError::UnsupportedTimingFormat,
            ),
            Some((Timing::Metrical(tpq), tracks)) => if tpq == 0 || some_track_overflows(tracks) {
                r == Err::<Vec<Event>, ParseError>(ParseError::MalformedFile)
            } else {
                r matches Ok(evs) && exists|m: Seq<(usize, usize)>|
                    is_merge_order(tracks, m) && evs@ == translated(tracks, tpq, m)
            },
        },
{
    let file = match MidiFile::open(data) {
        Some(f) => f,
        None => {
            return Err(ParseError::MalformedFile);
        },
    };
    let ghost dtracks = decoded_tracks(data@);
    let timing = file.timing();
    if let Timing::Timecode = timing {
        return Err(ParseError::UnsupportedTimingFormat);
    }
    assert(decoded_file(data@) == Some((timing, dtracks)));
    let n = file.track_count();
    let mut tracks: Vec<Vec<RawEvent>> = Vec::new();
    let mut t: usize = 0;
    while t < n
        invariant
            file.data() == data@,
            decoded_file(data@) is Some,
            dtracks == decoded_tracks(data@),
            decoded_file(data@) == Some((timing, dtracks)),
            timing is Metrical,
            n == dtracks.len(),
            t <= n,
            tracks_view(tracks@) == dtracks.take(t as int),
            tracks_valid(tracks_view(tracks@)),
        decreases n - t,
    {
        let len = file.track_len(t);
        let mut track: Vec<RawEvent> = Vec::new();
        let mut i: usize = 0;
        while i < len
            invariant
                file.data() == data@,
                decoded_file(data@) is Some,
                dtracks == decoded_tracks(data@),
                decoded_file(data@) == Some((timing, dtracks)),
                timing is Metrical,
                t < dtracks.len(),
                len == dtracks[t as int].len(),
                i <= len,
                track@ == dtracks[t as int].take(i as int),
                forall|j: int| 0 <= j < i ==> message_in_range(#[trigger] track@[j].message),
            decreases len - i,
        {
            track.push(file.message_at(t, i));
            proof {
                assert(track@ =~= dtracks[t as int].take(i + 1));
            }
            i = i + 1;
        }
        assert(track@ =~= dtracks[t as int]);
        if !ticks_fit(&track) {
            proof {
                assert(!track_fits(dtracks[t as int]));
                assert(some_track_overflows(dtracks));
            }
            return Err(ParseError::MalformedFile);
        }
        let ghost before = tracks_view(tracks@);
        tracks.push(track);
        proof {
            assert(tracks_view(tracks@) =~= before.push(track@));
            assert(tracks_view(tracks@) =~= dtracks.take(t + 1));
        }
        t = t + 1;
    }
    proof {
        assert(tracks_view(tracks@) =~= dtracks);
        assert(!some_track_overflows(dtracks));
    }
    translate(timing, &tracks)
}

} // verus!
