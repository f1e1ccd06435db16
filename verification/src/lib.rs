//! Solfège notation: a small textual score language, the timed playback of
//! its voices, and the MIDI note messages that a player emits.

pub mod midi;
pub mod parse;
pub mod partition;
pub mod pieces;
pub mod player;
