//! Note events, and the three-byte MIDI messages that carry them.

use vstd::prelude::*;

verus! {

/// Whether a note begins or ends.
#[derive(Clone, Copy, PartialEq, Eq, Structural, Debug)]
pub enum NoteKind {
    Play,
    Stop,
}

/// Status byte of a note-on message on channel 0.
pub const NOTE_ON_MSG: u8 = 0x90;

/// Status byte of a note-off message on channel 0.
pub const NOTE_OFF_MSG: u8 = 0x80;

/// A note event on its way to an instrument.
#[derive(Clone, Copy, PartialEq, Eq, Structural, Debug)]
pub struct SendNote {
    pub key: u8,
    /// available range: 0..=15
    pub channel: u8,
    /// available range: 1..=127
    pub velocity: u8,
    pub kind: NoteKind,
}

/// A note event that came from an instrument.
#[derive(Clone, Copy, PartialEq, Eq, Structural, Debug)]
pub struct RecNote {
    /// available range: 0..=15
    pub channel: u8,
    pub octave: u8,
    /// available range: 0..=11
    pub key: u8,
    /// available range: 1..=127
    pub velocity: u8,
    pub kind: NoteKind,
}

/// The low four bits of a status byte: its channel.
pub open spec fn spec_channel(status: u8) -> u8 {
    (status % 16) as u8
}

/// What a message of three bytes says, if it is a note message: a status of
/// `0x80..=0x8F` ends a note, one of `0x90..=0x9F` begins it, or ends it where
/// the velocity is zero.
pub open spec fn spec_decode(data: Seq<u8>) -> Option<RecNote> {
    if data.len() != 3 {
        None
    } else if 0x80 <= data[0] <= 0x8F || (0x90 <= data[0] <= 0x9F && data[2] == 0) {
        Some(
            RecNote {
                channel: spec_channel(data[0]),
                octave: data[1] / 12,
                key: data[1] % 12,
                velocity: data[2],
                kind: NoteKind::Stop,
            },
        )
    } else if 0x90 <= data[0] <= 0x9F {
        Some(
            RecNote {
                channel: spec_channel(data[0]),
                octave: data[1] / 12,
                key: data[1] % 12,
                velocity: data[2],
                kind: NoteKind::Play,
            },
        )
    } else {
        None
    }
}

impl SendNote {
    /// The channel and the velocity lie in the ranges that MIDI gives them.
    pub open spec fn wf(self) -> bool {
        &&& self.channel <= 15
        &&& 1 <= self.velocity <= 127
    }

    /// The three bytes of the event's MIDI message.
    pub open spec fn spec_message(self) -> Seq<u8> {
        let status = match self.kind {
            NoteKind::Play => NOTE_ON_MSG + self.channel,
            NoteKind::Stop => NOTE_OFF_MSG + self.channel,
        };
        seq![status as u8, self.key, self.velocity]
    }

    /// The three bytes of the event's MIDI message: status and channel, key,
    /// velocity.
    pub fn message(&self) -> (bytes: [u8; 3])
        requires
            self.channel <= 15,
        ensures
            bytes@ == self.spec_message(),
    {
        let msg: u8 = match self.kind {
            NoteKind::Play => NOTE_ON_MSG,
            NoteKind::Stop => NOTE_OFF_MSG,
        };
        let bytes: [u8; 3] = [msg + self.channel, self.key, self.velocity];
        assert(bytes@ =~= self.spec_message());
        bytes
    }
}

impl RecNote {
    /// Reads a MIDI message. Anything but a note-on or note-off message of
    /// three bytes gives `None`.
    pub fn from_message(data: &[u8]) -> (note: Option<RecNote>)
        ensures
            note == spec_decode(data@),
            note matches Some(n) ==> n.channel <= 15 && n.key <= 11,
    {
        if data.len() != 3 {
            return None;
        }
        let status: u8 = data[0];
        let key: u8 = data[1];
        let velocity: u8 = data[2];
        let kind = if (0x80 <= status && status <= 0x8F) || (0x90 <= status && status <= 0x9F
            && velocity == 0) {
            NoteKind::Stop
        } else if 0x90 <= status && status <= 0x9F {
            NoteKind::Play
        } else {
            return None;
        };
        let channel: u8 = status & 0xf;
        assert(status & 0xf == status % 16) by (bit_vector);
        Some(RecNote { channel, octave: key / 12, key: key % 12, velocity, kind })
    }

    /// The event that echoes this one: same channel, key, velocity and kind.
    pub fn echo(&self) -> (note: SendNote)
        ensures
            note == (SendNote {
                key: self.key,
                channel: self.channel,
                velocity: self.velocity,
                kind: self.kind,
            }),
    {
        SendNote { kind: self.kind, key: self.key, channel: self.channel, velocity: self.velocity }
    }
}

} // verus!
