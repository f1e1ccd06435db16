use solfege::midi::{NoteKind, RecNote, SendNote, NOTE_OFF_MSG, NOTE_ON_MSG};
use solfege::parse::parse_mesure;
use solfege::partition::{ClefKind, Figure, Note, Value};
use solfege::pieces::{
    ghost_fight, voice, your_best_friend, GHOST_FIGHT_FA, GHOST_FIGHT_SOL, YOUR_BEST_FRIEND_SOL,
};
use solfege::player::Player;

#[test]
fn note_on_and_off_messages() {
    assert_eq!(NOTE_ON_MSG, 0x90);
    assert_eq!(NOTE_OFF_MSG, 0x80);
    let on = SendNote { key: 60, channel: 0, velocity: 120, kind: NoteKind::Play };
    assert_eq!(on.message(), [0x90, 60, 120]);
    let off = SendNote { key: 61, channel: 3, velocity: 1, kind: NoteKind::Stop };
    assert_eq!(off.message(), [0x83, 61, 1]);
    let last = SendNote { key: 127, channel: 15, velocity: 127, kind: NoteKind::Play };
    assert_eq!(last.message(), [0x9F, 127, 127]);
}

#[test]
fn note_messages_are_read() {
    assert_eq!(
        RecNote::from_message(&[0x90, 60, 100]),
        Some(RecNote { channel: 0, octave: 5, key: 0, velocity: 100, kind: NoteKind::Play })
    );
    assert_eq!(
        RecNote::from_message(&[0x8A, 47, 64]),
        Some(RecNote { channel: 10, octave: 3, key: 11, velocity: 64, kind: NoteKind::Stop })
    );
    assert_eq!(
        RecNote::from_message(&[0x9F, 61, 0]),
        Some(RecNote { channel: 15, octave: 5, key: 1, velocity: 0, kind: NoteKind::Stop })
    );
    assert_eq!(
        RecNote::from_message(&[0x80, 0, 0]),
        Some(RecNote { channel: 0, octave: 0, key: 0, velocity: 0, kind: NoteKind::Stop })
    );
}

#[test]
fn other_messages_are_skipped() {
    assert_eq!(RecNote::from_message(&[0xB0, 7, 100]), None);
    assert_eq!(RecNote::from_message(&[0x7F, 60, 100]), None);
    assert_eq!(RecNote::from_message(&[0xA0, 60, 100]), None);
    assert_eq!(RecNote::from_message(&[0x90, 60]), None);
    assert_eq!(RecNote::from_message(&[0x90, 60, 100, 0]), None);
    assert_eq!(RecNote::from_message(&[]), None);
}

#[test]
fn every_status_byte() {
    for status in 0u8..=255 {
        for velocity in [0u8, 1, 127] {
            let read = RecNote::from_message(&[status, 100, velocity]);
            let expected = match (status, velocity) {
                (0x80..=0x8F, _) | (0x90..=0x9F, 0) => Some(NoteKind::Stop),
                (0x90..=0x9F, _) => Some(NoteKind::Play),
                _ => None,
            };
            assert_eq!(read.map(|n| n.kind), expected);
            if let Some(n) = read {
                assert_eq!(n.channel, status & 0xf);
                assert_eq!((n.octave, n.key, n.velocity), (8, 4, velocity));
            }
        }
    }
}

#[test]
fn echo_passes_the_event_through() {
    let rec = RecNote { channel: 2, octave: 5, key: 7, velocity: 99, kind: NoteKind::Stop };
    assert_eq!(
        rec.echo(),
        SendNote { key: 7, channel: 2, velocity: 99, kind: NoteKind::Stop }
    );
}

#[test]
fn read_then_echo_then_written() {
    let rec = RecNote::from_message(&[0x95, 7, 80]).unwrap();
    assert_eq!(rec.echo().message(), [0x95, 7, 80]);
}

#[test]
fn your_best_friend_is_a_voice_of_eight() {
    let p = your_best_friend().unwrap();
    assert_eq!(p.bpm, 125);
    assert_eq!(p.clefs.len(), 1);
    assert_eq!(p.clefs[0].mesure, (4, 4));
    assert_eq!(p.clefs[0].kind, ClefKind::Sol);
    assert_eq!(p.clefs[0].base_do, 60);
    let la = Figure::Note(Value::Croche, Note { note: 8, dot: false });
    let high = Figure::Note(Value::Croche, Note { note: 12, dot: false });
    let mi = Figure::Note(Value::Croche, Note { note: 3, dot: false });
    let rest = Figure::Silence(Value::Croche);
    assert_eq!(
        p.clefs[0].figures,
        vec![la, rest.clone(), high.clone(), rest.clone(), mi, rest.clone(), high, rest]
    );
    assert_eq!(Ok(p.clefs[0].figures.clone()), parse_mesure(YOUR_BEST_FRIEND_SOL));
}

#[test]
fn ghost_fight_has_two_voices() {
    let p = ghost_fight().unwrap();
    assert_eq!(p.bpm, 113);
    assert_eq!(p.clefs.len(), 2);
    assert_eq!((p.clefs[0].kind, p.clefs[0].base_do, p.clefs[0].mesure), (ClefKind::Sol, 60, (4, 4)));
    assert_eq!((p.clefs[1].kind, p.clefs[1].base_do, p.clefs[1].mesure), (ClefKind::Fa, 36, (4, 4)));
    assert_eq!(p.clefs[0].figures.len(), 51);
    assert_eq!(p.clefs[1].figures.len(), 22);
    assert_eq!(Ok(p.clefs[0].figures.clone()), parse_mesure(GHOST_FIGHT_SOL));
    assert_eq!(Ok(p.clefs[1].figures.clone()), parse_mesure(GHOST_FIGHT_FA));
    let n = |note: i8| Note { note, dot: false };
    assert_eq!(p.clefs[0].figures[0], Figure::Chord(Value::Croche, vec![n(4), n(7)]));
    assert_eq!(p.clefs[0].figures[6], Figure::Chord(Value::DoubleCroche, vec![n(10), n(14)]));
    assert_eq!(p.clefs[0].figures[50], Figure::Silence(Value::Ronde));
    assert_eq!(p.clefs[1].figures[10], Figure::Note(Value::Croche, n(-2)));
    assert_eq!(p.clefs[1].figures[21], Figure::Note(Value::Croche, n(2)));
}

#[test]
fn ghost_fight_can_be_played() {
    let mut player = Player::new(ghost_fight().unwrap()).unwrap();
    let events = player.advance(100_000_000);
    let keys: Vec<(u8, NoteKind)> = events.iter().map(|e| (e.key, e.kind)).collect();
    assert_eq!(keys, vec![(64, NoteKind::Play), (67, NoteKind::Play)]);
}

#[test]
fn voice_is_in_four_four() {
    let clef = voice("n-Do n-Re", ClefKind::Ut, 48).unwrap();
    assert_eq!(clef.mesure, (4, 4));
    assert_eq!(clef.kind, ClefKind::Ut);
    assert_eq!(clef.base_do, 48);
    assert_eq!(clef.figures.len(), 2);
    assert!(voice("n-Do n", ClefKind::Ut, 48).is_err());
}
