use solfege::midi::{NoteKind, SendNote};
use solfege::parse::parse_mesure;
use solfege::partition::{Clef, ClefKind, Figure, Note, Partition, Value};
use solfege::player::{
    get_note, send_figure, ConstructionError, PlaybackCursor, Player, CHANNEL, FIRST_DELAY,
    VELOCITY,
};

const SECOND: u64 = 1_000_000_000;

fn clef(text: &str, base_do: u8) -> Clef {
    Clef { mesure: (4, 4), kind: ClefKind::Sol, figures: parse_mesure(text).unwrap(), base_do }
}

fn player(bpm: u16, voices: &[(&str, u8)]) -> Player {
    let clefs = voices.iter().map(|(text, base_do)| clef(text, *base_do)).collect();
    Player::new(Partition { clefs, bpm }).unwrap()
}

fn start(key: u8) -> SendNote {
    SendNote { key, channel: 0, velocity: 120, kind: NoteKind::Play }
}

fn stop(key: u8) -> SendNote {
    SendNote { key, channel: 0, velocity: 120, kind: NoteKind::Stop }
}

#[test]
fn beats_of_each_value() {
    assert_eq!(Value::Carre.eighths(), 64);
    assert_eq!(Value::Ronde.eighths(), 32);
    assert_eq!(Value::Blanche.eighths(), 16);
    assert_eq!(Value::Noire.eighths(), 8);
    assert_eq!(Value::Croche.eighths(), 4);
    assert_eq!(Value::DoubleCroche.eighths(), 2);
    assert_eq!(Value::TripleCroche.eighths(), 1);
}

#[test]
fn intervals_follow_the_tempo() {
    assert_eq!(Value::Noire.interval(120), 500_000_000);
    assert_eq!(Value::Carre.interval(120), 4_000_000_000);
    assert_eq!(Value::Noire.interval(60), 1_000_000_000);
    assert_eq!(Value::TripleCroche.interval(60), 125_000_000);
    assert_eq!(Value::Croche.interval(113), 265_486_725);
    assert_eq!(Value::Carre.interval(1), 480_000_000_000);
    assert_eq!(Value::TripleCroche.interval(u16::MAX), 114_442);
}

#[test]
fn figure_value_is_its_duration() {
    let n = Note { note: 3, dot: true };
    assert_eq!(Figure::Note(Value::Noire, n).value(), Value::Noire);
    assert_eq!(Figure::Chord(Value::Croche, vec![n, n]).value(), Value::Croche);
    assert_eq!(Figure::Silence(Value::Carre).value(), Value::Carre);
}

#[test]
fn key_is_base_plus_offset() {
    let c = clef("n-Do", 60);
    assert_eq!(get_note(&c, &Note { note: 4, dot: false }, NoteKind::Play), start(64));
    assert_eq!(get_note(&c, &Note { note: -12, dot: true }, NoteKind::Stop), stop(48));
    assert_eq!(CHANNEL, 0);
    assert_eq!(VELOCITY, 120);
}

#[test]
fn key_saturates_at_both_ends() {
    let low = clef("n-Do", 5);
    let high = clef("n-Do", 250);
    assert_eq!(get_note(&low, &Note { note: -10, dot: false }, NoteKind::Play).key, 0);
    assert_eq!(get_note(&low, &Note { note: -5, dot: false }, NoteKind::Play).key, 0);
    assert_eq!(get_note(&low, &Note { note: -128, dot: false }, NoteKind::Play).key, 0);
    assert_eq!(get_note(&high, &Note { note: 5, dot: false }, NoteKind::Play).key, 255);
    assert_eq!(get_note(&high, &Note { note: 10, dot: false }, NoteKind::Play).key, 255);
    assert_eq!(get_note(&high, &Note { note: 127, dot: false }, NoteKind::Play).key, 255);
    assert_eq!(get_note(&high, &Note { note: 4, dot: false }, NoteKind::Play).key, 254);
}

#[test]
fn send_figure_appends_one_event_per_pitch() {
    let c = clef("n-Do", 60);
    let mut out = vec![stop(1)];
    send_figure(&c, &Figure::Silence(Value::Noire), NoteKind::Play, &mut out);
    assert_eq!(out, vec![stop(1)]);
    send_figure(&c, &Figure::Note(Value::Noire, Note { note: 2, dot: false }), NoteKind::Play, &mut out);
    assert_eq!(out, vec![stop(1), start(62)]);
    let chord = Figure::Chord(
        Value::Noire,
        vec![Note { note: 7, dot: false }, Note { note: 4, dot: false }],
    );
    send_figure(&c, &chord, NoteKind::Stop, &mut out);
    assert_eq!(out, vec![stop(1), start(62), stop(67), stop(64)]);
}

#[test]
fn two_quarters_at_sixty_alternate() {
    let mut p = player(60, &[("n-Do n-Mi", 60)]);
    assert_eq!(p.advance(SECOND), vec![start(60)]);
    assert_eq!(p.advance(SECOND), vec![stop(60), start(64)]);
    assert_eq!(p.advance(SECOND), vec![stop(64), start(60)]);
    assert_eq!(p.advance(SECOND), vec![stop(60), start(64)]);
}

#[test]
fn single_silence_never_emits() {
    let mut p = player(60, &[("n-X", 60)]);
    for step in [0, 1, SECOND, SECOND / 2, 10 * SECOND, u64::MAX, 0, 999_999_999] {
        for _ in 0..50 {
            assert_eq!(p.advance(step), vec![]);
        }
    }
}

#[test]
fn no_time_no_event() {
    let mut p = player(60, &[("n-Do n-Mi", 60)]);
    let before = p.cursor(0);
    for _ in 0..100 {
        assert_eq!(p.advance(0), vec![]);
    }
    assert_eq!(p.cursor(0), before);
    assert_eq!(p.advance(SECOND), vec![start(60)]);
    let before = p.cursor(0);
    for _ in 0..100 {
        assert_eq!(p.advance(0), vec![]);
    }
    assert_eq!(p.cursor(0), before);
}

#[test]
fn long_step_moves_by_one_figure() {
    let mut p = player(60, &[("n-Do n-Mi n-Sol", 60)]);
    assert_eq!(p.advance(1000 * SECOND), vec![start(60)]);
    assert_eq!(
        p.cursor(0),
        Some(PlaybackCursor { position: 1, remaining: SECOND, started: true })
    );
    assert_eq!(p.advance(u64::MAX), vec![stop(60), start(64)]);
    assert_eq!(
        p.cursor(0),
        Some(PlaybackCursor { position: 2, remaining: SECOND, started: true })
    );
}

#[test]
fn first_countdown_is_a_tenth_of_a_second() {
    assert_eq!(FIRST_DELAY, 100_000_000);
    let mut p = player(60, &[("n-Do", 60)]);
    assert_eq!(
        p.cursor(0),
        Some(PlaybackCursor { position: 0, remaining: FIRST_DELAY, started: false })
    );
    assert_eq!(p.advance(99_999_999), vec![]);
    assert_eq!(p.cursor(0), Some(PlaybackCursor { position: 0, remaining: 1, started: false }));
    assert_eq!(p.advance(1), vec![start(60)]);
}

#[test]
fn countdown_straddles_calls() {
    let mut p = player(120, &[("n-Do n-Re", 60)]);
    assert_eq!(p.advance(FIRST_DELAY), vec![start(60)]);
    assert_eq!(p.advance(200_000_000), vec![]);
    assert_eq!(p.advance(200_000_000), vec![]);
    assert_eq!(p.advance(99_999_999), vec![]);
    assert_eq!(p.advance(1), vec![stop(60), start(62)]);
}

#[test]
fn overshoot_is_dropped() {
    let mut p = player(60, &[("n-Do n-Re", 60)]);
    assert_eq!(p.advance(FIRST_DELAY + 900_000_000), vec![start(60)]);
    assert_eq!(p.advance(999_999_999), vec![]);
    assert_eq!(p.advance(1), vec![stop(60), start(62)]);
}

#[test]
fn one_figure_voice_loops_on_itself() {
    let mut p = player(60, &[("n-Do", 60)]);
    assert_eq!(p.advance(SECOND), vec![start(60)]);
    assert_eq!(p.advance(SECOND), vec![stop(60), start(60)]);
    assert_eq!(p.advance(SECOND), vec![stop(60), start(60)]);
}

#[test]
fn chord_starts_and_stops_every_pitch_in_order() {
    let mut p = player(60, &[("n-(Mi_Sol_Do+) c-X n-Re", 60)]);
    assert_eq!(p.advance(SECOND), vec![start(64), start(67), start(72)]);
    assert_eq!(p.advance(SECOND), vec![stop(64), stop(67), stop(72)]);
    assert_eq!(p.advance(SECOND / 2), vec![start(62)]);
    assert_eq!(p.advance(SECOND), vec![stop(62), start(64), start(67), start(72)]);
}

#[test]
fn voices_are_independent_and_in_order() {
    let mut p = player(60, &[("b-Do b-Re", 60), ("n-Mi n-Fa", 36)]);
    assert_eq!(p.voices(), 2);
    assert_eq!(p.advance(SECOND), vec![start(60), start(40)]);
    assert_eq!(p.advance(SECOND), vec![stop(40), start(41)]);
    assert_eq!(p.advance(SECOND), vec![stop(60), start(62), stop(41), start(40)]);
    assert_eq!(p.cursor(0), Some(PlaybackCursor { position: 0, remaining: 2 * SECOND, started: true }));
    assert_eq!(p.cursor(1), Some(PlaybackCursor { position: 1, remaining: SECOND, started: true }));
    assert_eq!(p.cursor(2), None);
}

#[test]
fn every_start_is_stopped_before_the_next() {
    let mut p = player(113, &[("c-(Mi_Sol) cc-X c-LaB n-(Do_Fa_La) r-X cc-Si-", 60)]);
    let mut sounding: Vec<u8> = Vec::new();
    for _ in 0..200 {
        let events = p.advance(300_000_000);
        let stops = events.iter().take_while(|e| e.kind == NoteKind::Stop).count();
        assert!(events[stops..].iter().all(|e| e.kind == NoteKind::Play));
        if !events.is_empty() {
            let stopped: Vec<u8> = events[..stops].iter().map(|e| e.key).collect();
            assert_eq!(stopped, sounding);
            sounding = events[stops..].iter().map(|e| e.key).collect();
        }
    }
}

#[test]
fn tick_of_one_voice() {
    let c = clef("n-Do n-Mi", 60);
    let mut out = Vec::new();
    let cursor = PlaybackCursor { position: 1, remaining: 10, started: true };
    let next = c.tick(60, cursor, 9, &mut out);
    assert_eq!(next, PlaybackCursor { position: 1, remaining: 1, started: true });
    assert_eq!(out, vec![]);
    let next = c.tick(60, next, 1, &mut out);
    assert_eq!(next, PlaybackCursor { position: 0, remaining: SECOND, started: true });
    assert_eq!(out, vec![stop(60), start(64)]);
}

#[test]
fn zero_tempo_is_refused() {
    let p = Partition { clefs: vec![clef("n-Do", 60)], bpm: 0 };
    assert_eq!(p.check(), Err(ConstructionError::ZeroTempo));
    assert_eq!(Player::new(p).err(), Some(ConstructionError::ZeroTempo));
}

#[test]
fn empty_voice_is_refused() {
    let empty = || Clef { mesure: (4, 4), kind: ClefKind::Fa, figures: vec![], base_do: 36 };
    let p = Partition { clefs: vec![clef("n-Do", 60), empty(), empty()], bpm: 90 };
    assert_eq!(p.check(), Err(ConstructionError::EmptyVoice(1)));
    assert_eq!(Player::new(p).err(), Some(ConstructionError::EmptyVoice(1)));
    let p = Partition { clefs: vec![empty()], bpm: 0 };
    assert_eq!(Player::new(p).err(), Some(ConstructionError::ZeroTempo));
}

#[test]
fn partition_without_voices_plays_nothing() {
    let mut p = Player::new(Partition { clefs: vec![], bpm: 60 }).unwrap();
    assert_eq!(p.voices(), 0);
    assert_eq!(p.advance(SECOND), vec![]);
}

#[test]
fn player_keeps_its_partition() {
    let p = player(77, &[("n-Do", 60)]);
    assert_eq!(p.score(), &Partition { clefs: vec![clef("n-Do", 60)], bpm: 77 });
}
