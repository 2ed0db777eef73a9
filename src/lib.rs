//! A single-sample instrument: a PCM16 WAV decoder and the note-trigger rules
//! that turn a note index into a playback request.

pub mod engine;
pub mod wav;
