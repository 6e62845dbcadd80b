use ezmid::{
    is_ordered, parse, translate, DispatchedEvent, Dispatcher, Event, EventBody, ParseError, RawEvent,
    RawMessage, Timing,
};

fn ev(delta: u32, message: RawMessage) -> RawEvent {
    RawEvent { delta, message }
}

fn cc(channel: u8, controller: u8, value: u8) -> RawMessage {
    RawMessage::Controller { channel, controller, value }
}

fn note_on(channel: u8, key: u8, vel: u8) -> RawMessage {
    RawMessage::NoteOn { channel, key, vel }
}

fn dispatch_all(events: Vec<Event>) -> Vec<DispatchedEvent> {
    let mut d = Dispatcher::new(events);
    let mut out = Vec::new();
    while let Some(e) = d.next() {
        out.push(e);
    }
    out
}

fn seconds(d: &DispatchedEvent, time: u128) -> f64 {
    time as f64 / (d.event.ticks_per_quarter as f64 * 1_000_000.0)
}

#[test]
fn monotonic_beats() {
    let tracks = vec![
        vec![ev(0, note_on(0, 60, 100)), ev(100, note_on(0, 62, 100)), ev(5, note_on(0, 64, 1))],
        vec![ev(50, note_on(1, 40, 90)), ev(10, note_on(1, 41, 90)), ev(200, note_on(1, 42, 9))],
        vec![ev(0, RawMessage::Tempo { micros_per_quarter: 400_000 }), ev(101, cc(2, 7, 3))],
    ];
    let events = translate(Timing::Metrical(96), &tracks).unwrap();
    assert_eq!(events.len(), 8);
    for w in events.windows(2) {
        assert!(w[0].tick <= w[1].tick);
    }
    let ticks: Vec<u64> = events.iter().map(|e| e.tick).collect();
    assert_eq!(ticks, vec![0, 0, 50, 60, 100, 101, 105, 260]);
}

#[test]
fn rpn_gating_sets_bend_range() {
    let tracks = vec![vec![
        ev(0, cc(3, 101, 0)),
        ev(0, cc(3, 100, 0)),
        ev(0, cc(3, 6, 12)),
        ev(10, RawMessage::PitchBend { channel: 3, bend: 4096 }),
    ]];
    let events = translate(Timing::Metrical(480), &tracks).unwrap();
    assert_eq!(events.len(), 1);
    assert_eq!(events[0].channel, 3);
    assert_eq!(events[0].body, EventBody::PitchBend { raw_bend: 4096, range: 12 });
    let semitones = 4096.0 / 8192.0 * 12.0;
    assert!((semitones - 6.0f64).abs() < 1e-9);
}

#[test]
fn data_entry_without_rpn_keeps_default_range() {
    let tracks = vec![vec![
        ev(0, cc(0, 6, 12)),
        ev(0, RawMessage::PitchBend { channel: 0, bend: -8192 }),
        ev(0, cc(1, 101, 0)),
        ev(0, cc(1, 100, 1)),
        ev(0, cc(1, 6, 24)),
        ev(0, RawMessage::PitchBend { channel: 1, bend: 100 }),
    ]];
    let events = translate(Timing::Metrical(480), &tracks).unwrap();
    assert_eq!(events.len(), 2);
    assert_eq!(events[0].body, EventBody::PitchBend { raw_bend: -8192, range: 2 });
    assert_eq!(events[1].body, EventBody::PitchBend { raw_bend: 100, range: 2 });
}

#[test]
fn bend_range_applies_only_after_it_is_set() {
    let tracks = vec![
        vec![ev(0, RawMessage::PitchBend { channel: 5, bend: 8191 })],
        vec![ev(1, cc(5, 101, 0)), ev(0, cc(5, 100, 0)), ev(0, cc(5, 6, 7))],
        vec![ev(2, RawMessage::PitchBend { channel: 5, bend: 8191 })],
    ];
    let events = translate(Timing::Metrical(480), &tracks).unwrap();
    assert_eq!(events[0].body, EventBody::PitchBend { raw_bend: 8191, range: 2 });
    assert_eq!(events[1].body, EventBody::PitchBend { raw_bend: 8191, range: 7 });
}

#[test]
fn tempo_integration() {
    let tpq: u16 = 480;
    let mk = |beat: u64, body: EventBody| Event {
        track: 0,
        tick: beat * tpq as u64,
        ticks_per_quarter: tpq,
        channel: 0,
        body,
    };
    let events = vec![
        mk(0, EventBody::Tempo { micros_per_quarter: 500_000 }),
        mk(4, EventBody::Tempo { micros_per_quarter: 1_000_000 }),
        mk(6, EventBody::NoteOn { notenum: 60, raw_velocity: 100 }),
    ];
    let out = dispatch_all(events);
    assert_eq!(out.len(), 3);
    assert_eq!(out[0].micros_per_quarter, 500_000);
    assert_eq!(out[1].micros_per_quarter, 1_000_000);
    assert_eq!(out[2].micros_per_quarter, 1_000_000);
    assert!((seconds(&out[1], out[1].time) - 2.0).abs() < 1e-6);
    assert!((seconds(&out[2], out[2].time) - 4.0).abs() < 1e-6);
    assert!((seconds(&out[2], out[2].dtime) - 2.0).abs() < 1e-6);
    assert_eq!(out[2].time, 4 * 480 * 1_000_000);
}

#[test]
fn default_tempo_is_120_bpm() {
    let events = vec![Event {
        track: 0,
        tick: 960,
        ticks_per_quarter: 480,
        channel: 9,
        body: EventBody::ProgramChange { program: 5 },
    }];
    let out = dispatch_all(events);
    assert_eq!(out[0].micros_per_quarter, 500_000);
    assert!((seconds(&out[0], out[0].time) - 1.0).abs() < 1e-9);
    assert_eq!(out[0].dtime, out[0].time);
}

#[test]
fn zero_velocity_rewrite() {
    let events = vec![
        Event {
            track: 0,
            tick: 0,
            ticks_per_quarter: 96,
            channel: 2,
            body: EventBody::NoteOn { notenum: 64, raw_velocity: 0 },
        },
        Event {
            track: 0,
            tick: 1,
            ticks_per_quarter: 96,
            channel: 2,
            body: EventBody::NoteOn { notenum: 65, raw_velocity: 1 },
        },
    ];
    let out = dispatch_all(events);
    assert_eq!(out[0].event.body, EventBody::NoteOff { notenum: 64, raw_velocity: 0 });
    assert_eq!(out[0].event.channel, 2);
    assert_eq!(out[1].event.body, EventBody::NoteOn { notenum: 65, raw_velocity: 1 });
}

#[test]
fn stable_merge_tie_break() {
    let tracks = vec![
        vec![ev(0, note_on(0, 10, 1)), ev(0, note_on(0, 11, 1))],
        vec![ev(0, note_on(1, 20, 1))],
    ];
    let events = translate(Timing::Metrical(480), &tracks).unwrap();
    let keys: Vec<(u8, EventBody)> = events.iter().map(|e| (e.track, e.body)).collect();
    assert_eq!(
        keys,
        vec![
            (0, EventBody::NoteOn { notenum: 10, raw_velocity: 1 }),
            (0, EventBody::NoteOn { notenum: 11, raw_velocity: 1 }),
            (1, EventBody::NoteOn { notenum: 20, raw_velocity: 1 }),
        ]
    );
}

#[test]
fn volume_round_trip() {
    for v in 0u8..=127 {
        let tracks = vec![vec![ev(0, cc(0, 7, v))]];
        let events = translate(Timing::Metrical(1), &tracks).unwrap();
        assert_eq!(events[0].body, EventBody::Volume { raw_volume: v });
        let volume = v as f64 / 127.0;
        assert_eq!((volume * 127.0).round() as u8, v);
    }
}

#[test]
fn controllers_map_to_events() {
    let tracks = vec![vec![
        ev(0, cc(4, 1, 64)),
        ev(0, cc(4, 10, 0)),
        ev(0, cc(4, 11, 127)),
        ev(0, cc(4, 64, 127)),
        ev(0, RawMessage::ProgramChange { channel: 4, program: 33 }),
        ev(0, RawMessage::Aftertouch { channel: 4 }),
        ev(0, RawMessage::ChannelAftertouch { channel: 4 }),
        ev(0, RawMessage::Other),
        ev(3, RawMessage::NoteOff { channel: 4, key: 70, vel: 64 }),
        ev(0, RawMessage::Tempo { micros_per_quarter: 600_000 }),
    ]];
    let events = translate(Timing::Metrical(24), &tracks).unwrap();
    let bodies: Vec<EventBody> = events.iter().map(|e| e.body).collect();
    assert_eq!(
        bodies,
        vec![
            EventBody::Modulation { raw_modulation: 64 },
            EventBody::Pan { raw_pan: 0 },
            EventBody::Expression { raw_expression: 127 },
            EventBody::ProgramChange { program: 33 },
            EventBody::NoteOff { notenum: 70, raw_velocity: 64 },
            EventBody::Tempo { micros_per_quarter: 600_000 },
        ]
    );
    assert_eq!(events[5].channel, 0);
    assert_eq!(events[5].tick, 3);
    let pan = ((0.0f64 - 64.0) / 63.0).max(-1.0);
    assert_eq!(pan, -1.0);
}

#[test]
fn empty_input() {
    let none: Vec<Vec<RawEvent>> = Vec::new();
    let events = translate(Timing::Metrical(480), &none).unwrap();
    assert!(events.is_empty());
    let empty_tracks: Vec<Vec<RawEvent>> = vec![Vec::new(), Vec::new()];
    let events = translate(Timing::Metrical(480), &empty_tracks).unwrap();
    assert!(events.is_empty());
    assert!(dispatch_all(events).is_empty());
}

#[test]
fn timecode_fails() {
    let tracks = vec![vec![ev(0, note_on(0, 60, 100))]];
    assert_eq!(translate(Timing::Timecode, &tracks), Err(ParseError::UnsupportedTimingFormat));
}

#[test]
fn zero_ticks_per_quarter_is_malformed() {
    let tracks = vec![vec![ev(0, note_on(0, 60, 100))]];
    assert_eq!(translate(Timing::Metrical(0), &tracks), Err(ParseError::MalformedFile));
}

fn smf(division: [u8; 2], tracks: &[&[u8]]) -> Vec<u8> {
    let mut data = b"MThd".to_vec();
    data.extend_from_slice(&[0, 0, 0, 6, 0, 1, 0, tracks.len() as u8, division[0], division[1]]);
    for t in tracks {
        data.extend_from_slice(b"MTrk");
        data.extend_from_slice(&(t.len() as u32).to_be_bytes());
        data.extend_from_slice(t);
    }
    data
}

#[test]
fn parse_decodes_and_merges_tracks() {
    let conductor: &[u8] = &[0x00, 0xFF, 0x51, 0x03, 0x0F, 0x42, 0x40, 0x00, 0xFF, 0x2F, 0x00];
    let notes: &[u8] = &[
        0x00, 0x91, 0x3C, 0x40, // note on, channel 1
        0x60, 0x91, 0x3C, 0x00, // note on, velocity 0, 96 ticks later
        0x00, 0xE1, 0x00, 0x60, // pitch bend
        0x00, 0xFF, 0x2F, 0x00,
    ];
    let data = smf([0x00, 0x60], &[conductor, notes]);
    let events = parse(&data).unwrap();
    assert_eq!(events.len(), 4);
    assert_eq!(events[0].body, EventBody::Tempo { micros_per_quarter: 1_000_000 });
    assert_eq!(events[0].track, 0);
    assert_eq!(events[1].body, EventBody::NoteOn { notenum: 60, raw_velocity: 64 });
    assert_eq!(events[1].track, 1);
    assert_eq!(events[1].channel, 1);
    assert_eq!(events[1].ticks_per_quarter, 96);
    assert_eq!(events[2].tick, 96);
    assert_eq!(events[3].body, EventBody::PitchBend { raw_bend: 0x3000 - 0x2000, range: 2 });
    let out = dispatch_all(events);
    assert_eq!(out[2].event.body, EventBody::NoteOff { notenum: 60, raw_velocity: 0 });
    assert!((seconds(&out[2], out[2].time) - 1.0).abs() < 1e-9);
}

#[test]
fn parse_rejects_timecode() {
    let data = smf([0xE7, 0x28], &[&[0x00, 0x90, 0x3C, 0x40, 0x00, 0xFF, 0x2F, 0x00]]);
    assert_eq!(parse(&data), Err(ParseError::UnsupportedTimingFormat));
}

#[test]
fn parse_rejects_garbage() {
    assert_eq!(parse(b"not a midi file"), Err(ParseError::MalformedFile));
}

#[test]
fn parse_empty_file() {
    let data = smf([0x01, 0xE0], &[]);
    assert_eq!(parse(&data), Ok(Vec::new()));
}


#[test]
fn ordered_stream_check() {
    let mk = |tick: u64, tpq: u16| Event {
        track: 0,
        tick,
        ticks_per_quarter: tpq,
        channel: 0,
        body: EventBody::ProgramChange { program: 0 },
    };
    assert!(is_ordered(&vec![]));
    assert!(is_ordered(&vec![mk(0, 96), mk(0, 96), mk(5, 96)]));
    assert!(!is_ordered(&vec![mk(5, 96), mk(4, 96)]));
    assert!(!is_ordered(&vec![mk(0, 96), mk(1, 48)]));
    assert!(!is_ordered(&vec![mk(0, 0)]));
}

#[test]
fn parse_maps_every_message_kind() {
    let track: &[u8] = &[
        0x00, 0xB2, 0x07, 0x50, // volume 80, channel 2
        0x00, 0xA2, 0x3C, 0x10, // key aftertouch: dropped
        0x00, 0xD2, 0x20, // channel aftertouch: dropped
        0x00, 0xC2, 0x05, // program change 5
        0x00, 0xF0, 0x01, 0xF7, // system exclusive: dropped
        0x00, 0xFF, 0x01, 0x01, 0x41, // text meta: dropped
        0x01, 0x82, 0x3C, 0x20, // note off
        0x00, 0xFF, 0x2F, 0x00,
    ];
    let data = smf([0x00, 0x30], &[track]);
    let events = parse(&data).unwrap();
    let bodies: Vec<(u8, u64, EventBody)> = events.iter().map(|e| (e.channel, e.tick, e.body)).collect();
    assert_eq!(
        bodies,
        vec![
            (2, 0, EventBody::Volume { raw_volume: 80 }),
            (2, 0, EventBody::ProgramChange { program: 5 }),
            (2, 1, EventBody::NoteOff { notenum: 60, raw_velocity: 32 }),
        ]
    );
}
