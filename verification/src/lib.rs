//! Core of a small terminal music player: a directory scanner that picks out
//! the playable files, and a playback session state machine that interprets
//! one command per input line and decides which action the surrounding
//! program must perform on the audio sink.

pub mod command;
pub mod scanner;
pub mod session;
