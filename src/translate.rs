//! Translation of the merged messages into semantic events, with the
//! per-channel state of the registered-parameter (RPN) negotiation that sets
//! the pitch-bend range.
//!
//! A pitch bend is scaled by the range that its channel has negotiated when
//! the bend is translated (two semitones until then), not by a fixed factor
//! of two as some players do.
use vstd::prelude::*;
use crate::dispatcher::is_ordered_stream;
use crate::merge::{
    abs_tick, entry_before, entry_tick, is_merge_order, lemma_abs_tick_mono, lemma_merge_order_empty,
    merge_order,
    track_fits, tracks_view,
};
use crate::model::{lemma_unit_round_trip, round_ratio, unit_ratio, Event, EventBody};
use crate::raw::{channel_in_range, ParseError, RawEvent, RawMessage, Timing};

verus! {

/// The controller state of one MIDI channel.
#[derive(Clone, Copy, Debug, PartialEq, Eq, Structural)]
pub struct ChannelState {
    /// Pitch-bend range in semitones.
    pub pitchbend_range: u8,
    /// The selected registered parameter, low and high byte.
    pub rpn_lsb: u8,
    pub rpn_msb: u8,
}

/// A channel before any controller message: a range of two semitones and the
/// null parameter (127, 127) selected.
pub open spec fn initial_channel() -> ChannelState {
    ChannelState { pitchbend_range: 2, rpn_lsb: 127, rpn_msb: 127 }
}

/// The sixteen channels before any message.
pub open spec fn initial_channels() -> Seq<ChannelState> {
    Seq::new(16, |i: int| initial_channel())
}

/// The state of a channel after a controller change. Controllers 100 and 101
/// select the parameter; controller 6 sets the pitch-bend range only while
/// parameter (0, 0) is selected; no other controller changes the state.
pub open spec fn after_controller(st: ChannelState, controller: u8, value: u8) -> ChannelState {
    if controller == 100 {
        ChannelState { rpn_lsb: value, ..st }
    } else if controller == 101 {
        ChannelState { rpn_msb: value, ..st }
    } else if controller == 6 && st.rpn_lsb == 0 && st.rpn_msb == 0 {
        ChannelState { pitchbend_range: value, ..st }
    } else {
        st
    }
}

/// The event body that a controller change emits, if any.
pub open spec fn controller_body(controller: u8, value: u8) -> Option<EventBody> {
    if controller == 1 {
        Some(EventBody::Modulation { raw_modulation: value })
    } else if controller == 7 {
        Some(EventBody::Volume { raw_volume: value })
    } else if controller == 10 {
        Some(EventBody::Pan { raw_pan: value })
    } else if controller == 11 {
        Some(EventBody::Expression { raw_expression: value })
    } else {
        None
    }
}

/// The event for message `e` on `channel` with `body`.
pub open spec fn event_at(
    tracks: Seq<Seq<RawEvent>>,
    tpq: u16,
    e: (usize, usize),
    channel: u8,
    body: EventBody,
) -> Event {
    Event {
        track: (e.0 % 256) as u8,
        tick: entry_tick(tracks, e) as u64,
        ticks_per_quarter: tpq,
        channel,
        body,
    }
}

/// Translating message `e` under channel states `chs`: the new states and the
/// event emitted, if any.
pub open spec fn step(
    chs: Seq<ChannelState>,
    tracks: Seq<Seq<RawEvent>>,
    tpq: u16,
    e: (usize, usize),
) -> (Seq<ChannelState>, Option<Event>) {
    match tracks[e.0 as int][e.1 as int].message {
        RawMessage::NoteOff { channel, key, vel } => (
            chs,
            Some(
                event_at(
                    tracks,
                    tpq,
                    e,
                    channel,
                    EventBody::NoteOff { notenum: key, raw_velocity: vel },
                ),
            ),
        ),
        RawMessage::NoteOn { channel, key, vel } => (
            chs,
            Some(
                event_at(
                    tracks,
                    tpq,
                    e,
                    channel,
                    EventBody::NoteOn { notenum: key, raw_velocity: vel },
                ),
            ),
        ),
        RawMessage::Controller { channel, controller, value } => (
            chs.update(channel as int, after_controller(chs[channel as int], controller, value)),
            match controller_body(controller, value) {
                Some(body) => Some(event_at(tracks, tpq, e, channel, body)),
                None => None,
            },
        ),
        RawMessage::ProgramChange { channel, program } => (
            chs,
            Some(event_at(tracks, tpq, e, channel, EventBody::ProgramChange { program })),
        ),
        RawMessage::PitchBend { channel, bend } => (
            chs,
            Some(
                event_at(
                    tracks,
                    tpq,
                    e,
                    channel,
                    EventBody::PitchBend {
                        raw_bend: bend,
                        range: chs[channel as int].pitchbend_range,
                    },
                ),
            ),
        ),
        RawMessage::Tempo { micros_per_quarter } => (
            chs,
            Some(event_at(tracks, tpq, e, 0, EventBody::Tempo { micros_per_quarter })),
        ),
        _ => (chs, None),
    }
}

/// The channel states and events after translating the first `n` messages of
/// the merge order `m`.
pub open spec fn translate_prefix(
    tracks: Seq<Seq<RawEvent>>,
    tpq: u16,
    m: Seq<(usize, usize)>,
    n: nat,
) -> (Seq<ChannelState>, Seq<Event>)
    decreases n,
{
    if n == 0 || n > m.len() {
        (initial_channels(), Seq::empty())
    } else {
        let (chs, evs) = translate_prefix(tracks, tpq, m, (n - 1) as nat);
        let (chs2, emitted) = step(chs, tracks, tpq, m[n - 1]);
        (
            chs2,
            match emitted {
                Some(ev) => evs.push(ev),
                None => evs,
            },
        )
    }
}

/// The events of all messages of `tracks` taken in merge order `m`.
pub open spec fn translated(tracks: Seq<Seq<RawEvent>>, tpq: u16, m: Seq<(usize, usize)>) -> Seq<
    Event,
> {
    translate_prefix(tracks, tpq, m, m.len()).1
}

/// Tracks that can be translated: channel messages name one of the sixteen
/// channels, and absolute ticks fit in 64 bits.
pub open spec fn tracks_valid(tracks: Seq<Seq<RawEvent>>) -> bool {
    &&& forall|t: int| 0 <= t < tracks.len() ==> track_fits(#[trigger] tracks[t])
    &&& forall|t: int, i: int|
        0 <= t < tracks.len() && 0 <= i < tracks[t].len() ==> channel_in_range(
            #[trigger] tracks[t][i].message,
        )
}

/// The absolute ticks of a track.
fn absolute_ticks(track: &Vec<RawEvent>) -> (r: Vec<u64>)
    requires
        track_fits(track@),
    ensures
        r@.len() == track@.len(),
        forall|i: int| 0 <= i < r@.len() ==> r@[i] == abs_tick(track@, i),
{
    let mut r: Vec<u64> = Vec::new();
    let mut tick: u64 = 0;
    let mut i: usize = 0;
    while i < track.len()
        invariant
            track_fits(track@),
            i <= track@.len(),
            r@.len() == i,
            tick as int == abs_tick(track@, i - 1),
            forall|j: int| 0 <= j < i ==> r@[j] == abs_tick(track@, j),
        decreases track@.len() - i,
    {
        proof {
            lemma_abs_tick_mono(track@, i as int, track@.len() - 1);
        }
        tick = tick + track[i].delta as u64;
        r.push(tick);
        i = i + 1;
    }
    r
}

/// Translates message `e`, updating the channel states.
fn translate_message(
    chs: &mut Vec<ChannelState>,
    tracks: &Vec<Vec<RawEvent>>,
    tpq: u16,
    e: (usize, usize),
    tick: u64,
) -> (r: Option<Event>)
    requires
        old(chs)@.len() == 16,
        tracks_valid(tracks_view(tracks@)),
        e.0 < tracks@.len(),
        e.1 < tracks@[e.0 as int]@.len(),
        tick as int == entry_tick(tracks_view(tracks@), e),
    ensures
        final(chs)@.len() == 16,
        (final(chs)@, r) == step(old(chs)@, tracks_view(tracks@), tpq, e),
{
    let ghost tv = tracks_view(tracks@);
    assert(tv[e.0 as int] == tracks@[e.0 as int]@);
    assert(channel_in_range(tv[e.0 as int][e.1 as int].message));
    let track = (e.0 % 256) as u8;
    match tracks[e.0][e.1].message {
        RawMessage::NoteOff { channel, key, vel } => Some(
            Event {
                track,
                tick,
                ticks_per_quarter: tpq,
                channel,
                body: EventBody::NoteOff { notenum: key, raw_velocity: vel },
            },
        ),
        RawMessage::NoteOn { channel, key, vel } => Some(
            Event {
                track,
                tick,
                ticks_per_quarter: tpq,
                channel,
                body: EventBody::NoteOn { notenum: key, raw_velocity: vel },
            },
        ),
        RawMessage::Controller { channel, controller, value } => {
            let st = chs[channel as usize];
            if controller == 100 {
                chs.set(channel as usize, ChannelState { rpn_lsb: value, ..st });
            } else if controller == 101 {
                chs.set(channel as usize, ChannelState { rpn_msb: value, ..st });
            } else if controller == 6 && st.rpn_lsb == 0 && st.rpn_msb == 0 {
                chs.set(channel as usize, ChannelState { pitchbend_range: value, ..st });
            }
            proof {
                assert(chs@ =~= old(chs)@.update(
                    channel as int,
                    after_controller(st, controller, value),
                ));
            }
            let body = if controller == 1 {
                EventBody::Modulation { raw_modulation: value }
            } else if controller == 7 {
                EventBody::Volume { raw_volume: value }
            } else if controller == 10 {
                EventBody::Pan { raw_pan: value }
            } else if controller == 11 {
                EventBody::Expression { raw_expression: value }
            } else {
                return None;
            };
            Some(Event { track, tick, ticks_per_quarter: tpq, channel, body })
        },
        RawMessage::ProgramChange { channel, program } => Some(
            Event {
                track,
                tick,
                ticks_per_quarter: tpq,
                channel,
                body: EventBody::ProgramChange { program },
            },
        ),
        RawMessage::PitchBend { channel, bend } => {
            let range = chs[channel as usize].pitchbend_range;
            Some(
                Event {
                    track,
                    tick,
                    ticks_per_quarter: tpq,
                    channel,
                    body: EventBody::PitchBend { raw_bend: bend, range },
                },
            )
        },
        RawMessage::Tempo { micros_per_quarter } => Some(
            Event {
                track,
                tick,
                ticks_per_quarter: tpq,
                channel: 0,
                body: EventBody::Tempo { micros_per_quarter },
            },
        ),
        _ => None,
    }
}

/// Merges the tracks and translates their messages into semantic events.
///
/// Fails with `UnsupportedTimingFormat` on timecode timing and with
/// `MalformedFile` on zero ticks per quarter note; otherwise the events are
/// those of the merge order, in that order, and their ticks never go
/// backwards.
pub fn translate(timing: Timing, tracks: &Vec<Vec<RawEvent>>) -> (r: Result<Vec<Event>, ParseError>)
    requires
        tracks_valid(tracks_view(tracks@)),
    ensures
        match timing {
            Timing::Timecode => r == Err::<Vec<Event>, ParseError>(
                ParseError::UnsupportedTimingFormat,
            ),
            Timing::Metrical(tpq) => if tpq == 0 {
                r == Err::<Vec<Event>, ParseError>(ParseError::MalformedFile)
            } else {
                r matches Ok(evs) && is_ordered_stream(evs@) && exists|m: Seq<(usize, usize)>|
                    is_merge_order(tracks_view(tracks@), m) && evs@ == translated(
                        tracks_view(tracks@),
                        tpq,
                        m,
                    )
            },
        },
{
    let tpq = match timing {
        Timing::Timecode => {
            return Err(ParseError::UnsupportedTimingFormat);
        },
        Timing::Metrical(tpq) => tpq,
    };
    if tpq == 0 {
        return Err(ParseError::MalformedFile);
    }
    let ghost tv = tracks_view(tracks@);
    assert forall|t: int| 0 <= t < tracks@.len() implies track_fits(#[trigger] tracks@[t]@) by {
        assert(tv[t] == tracks@[t]@);
    }
    let m = merge_order(tracks);
    let mut ticks: Vec<Vec<u64>> = Vec::new();
    let mut t: usize = 0;
    while t < tracks.len()
        invariant
            tv == tracks_view(tracks@),
            forall|u: int| 0 <= u < tracks@.len() ==> track_fits(#[trigger] tracks@[u]@),
            t <= tracks@.len(),
            ticks@.len() == t,
            forall|u: int| 0 <= u < t ==> (#[trigger] ticks@[u])@.len() == tracks@[u]@.len(),
            forall|u: int, i: int|
                0 <= u < t && 0 <= i < tracks@[u]@.len() ==> ticks@[u]@[i] == abs_tick(
                    tracks@[u]@,
                    i,
                ),
        decreases tracks@.len() - t,
    {
        let tt = absolute_ticks(&tracks[t]);
        ticks.push(tt);
        t = t + 1;
    }
    let mut chs: Vec<ChannelState> = Vec::new();
    let mut c: usize = 0;
    while c < 16
        invariant
            c <= 16,
            chs@.len() == c,
            forall|i: int| 0 <= i < c ==> chs@[i] == initial_channel(),
        decreases 16 - c,
    {
        chs.push(ChannelState { pitchbend_range: 2, rpn_lsb: 127, rpn_msb: 127 });
        c = c + 1;
    }
    assert(chs@ =~= initial_channels());
    let mut evs: Vec<Event> = Vec::new();
    let mut k: usize = 0;
    while k < m.len()
        invariant
            tv == tracks_view(tracks@),
            tracks_valid(tv),
            is_merge_order(tv, m@),
            tpq > 0,
            ticks@.len() == tracks@.len(),
            forall|u: int| 0 <= u < tracks@.len() ==> (#[trigger] ticks@[u])@.len() == tracks@[u]@.len(),
            forall|u: int, i: int|
                0 <= u < tracks@.len() && 0 <= i < tracks@[u]@.len() ==> ticks@[u]@[i] == abs_tick(
                    tracks@[u]@,
                    i,
                ),
            k <= m@.len(),
            chs@.len() == 16,
            (chs@, evs@) == translate_prefix(tv, tpq, m@, k as nat),
            forall|j: int| 0 <= j < evs@.len() ==> (#[trigger] evs@[j]).ticks_per_quarter == tpq,
            forall|i: int, j: int| 0 <= i <= j < evs@.len() ==> evs@[i].tick <= evs@[j].tick,
            k > 0 ==> forall|j: int|
                0 <= j < evs@.len() ==> (#[trigger] evs@[j]).tick <= entry_tick(tv, m@[k - 1]),
        decreases m@.len() - k,
    {
        let e = m[k];
        proof {
            assert(m@.contains(e));
            assert(tv[e.0 as int] == tracks@[e.0 as int]@);
            if k > 0 {
                assert(entry_before(tv, m@[k - 1], m@[k as int]));
            }
        }
        let tick = ticks[e.0][e.1];
        let emitted = translate_message(&mut chs, tracks, tpq, e, tick);
        match emitted {
            Some(ev) => {
                evs.push(ev);
            },
            None => {},
        }
        k = k + 1;
    }
    Ok(evs)
}

/// Tracks without messages (or no tracks at all) translate to no events.
pub proof fn lemma_empty_input(tracks: Seq<Seq<RawEvent>>, tpq: u16, m: Seq<(usize, usize)>)
    requires
        forall|t: int| 0 <= t < tracks.len() ==> (#[trigger] tracks[t]).len() == 0,
        is_merge_order(tracks, m),
    ensures
        translated(tracks, tpq, m) == Seq::<Event>::empty(),
{
    lemma_merge_order_empty(tracks, m);
}

/// Selecting parameter (0, 0) with controllers 101 and 100 and then sending
/// data entry `n` sets the pitch-bend range to `n`; data entry while another
/// parameter is selected leaves the state as it was.
pub proof fn lemma_rpn_gating(st: ChannelState, n: u8)
    ensures
        after_controller(
            after_controller(after_controller(st, 101, 0), 100, 0),
            6,
            n,
        ).pitchbend_range == n,
        !(st.rpn_lsb == 0 && st.rpn_msb == 0) ==> after_controller(st, 6, n) == st,
{
}

/// Message `e` is a data entry on channel `c` while parameter (0, 0) is
/// selected there: the one message that sets the channel's pitch-bend range.
pub open spec fn sets_range(
    chs: Seq<ChannelState>,
    tracks: Seq<Seq<RawEvent>>,
    e: (usize, usize),
    c: u8,
) -> bool {
    tracks[e.0 as int][e.1 as int].message matches RawMessage::Controller {
        channel,
        controller,
        ..
    } && channel == c && controller == 6 && chs[c as int].rpn_lsb == 0 && chs[c as int].rpn_msb
        == 0
}

/// `msg` is a pitch bend on channel `c`.
pub open spec fn bend_on(msg: RawMessage, c: u8) -> bool {
    msg is PitchBend && msg->PitchBend_channel == c
}

/// While no message of the merge order sets the range of channel `c`, that
/// range stays at two semitones, and every pitch bend on `c` is translated
/// with it.
pub proof fn lemma_range_kept(
    tracks: Seq<Seq<RawEvent>>,
    tpq: u16,
    m: Seq<(usize, usize)>,
    n: nat,
    c: u8,
)
    requires
        c < 16,
        tracks_valid(tracks),
        is_merge_order(tracks, m),
        n <= m.len(),
        forall|k: nat| k < n ==> !sets_range(#[trigger] translate_prefix(tracks, tpq, m, k).0, tracks, m[k as int], c),
    ensures
        forall|k: nat| k <= n ==> (#[trigger] translate_prefix(tracks, tpq, m, k).0).len() == 16
            && translate_prefix(tracks, tpq, m, k).0[c as int].pitchbend_range == 2,
        forall|k: nat|
            k < n && bend_on(tracks[m[k as int].0 as int][m[k as int].1 as int].message, c) ==> (
            #[trigger] step(translate_prefix(tracks, tpq, m, k).0, tracks, tpq, m[k as int]).1)
                == Some(
                event_at(
                    tracks,
                    tpq,
                    m[k as int],
                    c,
                    EventBody::PitchBend {
                        raw_bend: tracks[m[k as int].0 as int][m[k as int].1 as int].message->PitchBend_bend,
                        range: 2,
                    },
                ),
            ),
    decreases n,
{
    if n > 0 {
        lemma_range_kept(tracks, tpq, m, (n - 1) as nat, c);
        let chs = translate_prefix(tracks, tpq, m, (n - 1) as nat).0;
        let e = m[n - 1];
        assert(m.contains(e));
        assert(channel_in_range(tracks[e.0 as int][e.1 as int].message));
        assert(!sets_range(chs, tracks, e, c));
        assert(translate_prefix(tracks, tpq, m, n).0 == step(chs, tracks, tpq, e).0);
    }
}

/// A volume controller on channel `c` with byte `v` is translated into a
/// volume event on `c` that keeps `v`, and `v / 127` scaled back by 127 and
/// rounded is `v` again.
pub proof fn lemma_volume_event(
    chs: Seq<ChannelState>,
    tracks: Seq<Seq<RawEvent>>,
    tpq: u16,
    e: (usize, usize),
    c: u8,
    v: u8,
)
    requires
        tracks[e.0 as int][e.1 as int].message == (RawMessage::Controller {
            channel: c,
            controller: 7,
            value: v,
        }),
        v <= 127,
    ensures
        step(chs, tracks, tpq, e).1 == Some(
            event_at(tracks, tpq, e, c, EventBody::Volume { raw_volume: v }),
        ),
        round_ratio(unit_ratio(v).0 * 127, unit_ratio(v).1) == v as int,
{
    lemma_unit_round_trip(v);
}

} // verus!
