use crate::wav::{buffer_matches, parse_layout, parse_wav_pcm16, DecodeError, SampleBuffer};
use vstd::prelude::*;

verus! {

/// Highest note index; larger indices play this note.
pub const MAX_NOTE: usize = 16;

/// Semitone offset of each note index `0 ..= MAX_NOTE` from the recorded pitch.
pub open spec fn tuning(i: usize) -> i32 {
    match i {
        0 => 0,
        1 => 2,
        2 => 4,
        3 => 5,
        4 => 7,
        5 => 9,
        6 => 11,
        7 => 12,
        8 => 14,
        9 => 16,
        10 => 17,
        11 => 19,
        12 => 21,
        13 => 23,
        14 => 24,
        15 => 26,
        _ => 28,
    }
}

/// The note index clamped to the table: indices past the end saturate.
pub open spec fn clamp_note(note_index: usize) -> usize {
    if note_index > MAX_NOTE {
        MAX_NOTE
    } else {
        note_index
    }
}

/// Semitone offset that a note index plays at.
pub open spec fn semitones_for(note_index: usize) -> i32 {
    tuning(clamp_note(note_index))
}

/// Looks up the semitone offset of a note index, saturating past the last note.
pub fn semitone_offset(note_index: usize) -> (r: i32)
    ensures
        r == semitones_for(note_index),
{
    let table: [i32; 17] = [0, 2, 4, 5, 7, 9, 11, 12, 14, 16, 17, 19, 21, 23, 24, 26, 28];
    assert(table@ =~= Seq::new(17, |i: int| tuning(i as usize)));
    let i: usize = if note_index > MAX_NOTE {
        MAX_NOTE
    } else {
        note_index
    };
    table[i]
}

/// Every note index past the last plays the last note.
pub proof fn lemma_note_saturates(note_index: usize)
    requires
        note_index > MAX_NOTE,
    ensures
        semitones_for(note_index) == semitones_for(MAX_NOTE),
        semitones_for(note_index) == 28,
{
}

/// Why a note could not be triggered.
#[derive(Debug, Clone, Copy, PartialEq, Eq, Structural)]
pub enum EngineError {
    /// No sample has been loaded yet.
    NotInitialized,
}

/// One playback of the loaded sample. The playback rate is `2^(semitones / 12)`
/// times the recorded rate.
#[derive(Debug, Clone, Copy, PartialEq, Eq, Structural)]
pub struct VoiceRequest {
    pub semitones: i32,
}

/// The instrument's state: uninitialized until a sample is loaded, then ready for good.
pub struct Engine {
    sample: Option<SampleBuffer>,
}

impl Engine {
    /// The loaded sample, if any.
    pub closed spec fn loaded(&self) -> Option<SampleBuffer> {
        self.sample
    }

    pub open spec fn ready(&self) -> bool {
        self.loaded() is Some
    }

    pub open spec fn inv(&self) -> bool {
        self.ready() ==> self.loaded()->Some_0.wf()
    }

    /// An engine with no sample loaded.
    pub fn new() -> (r: Engine)
        ensures
            !r.ready(),
            r.inv(),
    {
        Engine { sample: None }
    }

    pub fn is_ready(&self) -> (r: bool)
        ensures
            r == self.ready(),
    {
        self.sample.is_some()
    }

    /// The loaded sample, once ready.
    pub fn sample(&self) -> (r: Option<&SampleBuffer>)
        ensures
            r is Some == self.ready(),
            r is Some ==> *r->Some_0 == self.loaded()->Some_0,
    {
        match &self.sample {
            Some(s) => Some(s),
            None => None,
        }
    }

    /// Decodes `bytes` and keeps the result, once: on a ready engine this does
    /// nothing and succeeds. A decode error leaves the engine uninitialized.
    pub fn load_sample(&mut self, bytes: &[u8]) -> (r: Result<(), DecodeError>)
        requires
            old(self).inv(),
        ensures
            final(self).inv(),
            old(self).ready() ==> r is Ok && final(self).loaded() == old(self).loaded(),
            !old(self).ready() ==> match parse_layout(bytes@) {
                Ok((f, d)) => r is Ok && final(self).ready() && buffer_matches(
                    final(self).loaded()->Some_0,
                    bytes@,
                    f,
                    d,
                ),
                Err(e) => r == Err::<(), DecodeError>(e) && !final(self).ready(),
            },
    {
        if self.sample.is_some() {
            return Ok(());
        }
        match parse_wav_pcm16(bytes) {
            Ok(buf) => {
                self.sample = Some(buf);
                Ok(())
            },
            Err(e) => Err(e),
        }
    }

    /// The playback that note `note_index` asks for: its semitone offset from the
    /// tuning table, the index clamped to the last note. Fails before a sample is loaded.
    pub fn trigger(&self, note_index: usize) -> (r: Result<VoiceRequest, EngineError>)
        ensures
            !self.ready() ==> r == Err::<VoiceRequest, EngineError>(EngineError::NotInitialized),
            self.ready() ==> r == Ok::<VoiceRequest, EngineError>(
                VoiceRequest { semitones: semitones_for(note_index) },
            ),
    {
        if self.sample.is_none() {
            return Err(EngineError::NotInitialized);
        }
        Ok(VoiceRequest { semitones: semitone_offset(note_index) })
    }
}

} // verus!
