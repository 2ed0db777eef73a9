use c4_sampler::engine::{semitone_offset, Engine, EngineError, VoiceRequest};
use c4_sampler::wav::DecodeError;

fn small_wav() -> Vec<u8> {
    let mut v = b"RIFF".to_vec();
    v.extend_from_slice(&44u32.to_le_bytes());
    v.extend_from_slice(b"WAVE");
    v.extend_from_slice(b"fmt ");
    v.extend_from_slice(&16u32.to_le_bytes());
    for x in [1u16, 1] {
        v.extend_from_slice(&x.to_le_bytes());
    }
    v.extend_from_slice(&44100u32.to_le_bytes());
    v.extend_from_slice(&88200u32.to_le_bytes());
    for x in [2u16, 16] {
        v.extend_from_slice(&x.to_le_bytes());
    }
    v.extend_from_slice(b"data");
    v.extend_from_slice(&8u32.to_le_bytes());
    for s in [1i16, -1, 2, -2] {
        v.extend_from_slice(&s.to_le_bytes());
    }
    v
}

#[test]
fn trigger_before_load_fails() {
    let e = Engine::new();
    assert!(!e.is_ready());
    assert!(e.sample().is_none());
    for i in [0usize, 12, 16, 99] {
        assert_eq!(e.trigger(i), Err(EngineError::NotInitialized));
    }
}

#[test]
fn trigger_on_ready_engine() {
    let mut e = Engine::new();
    assert_eq!(e.load_sample(&small_wav()), Ok(()));
    assert!(e.is_ready());
    assert_eq!(e.trigger(12), Ok(VoiceRequest { semitones: 21 }));
    assert_eq!(e.trigger(14), Ok(VoiceRequest { semitones: 24 }));
    let ratio = 2f32.powf(e.trigger(14).unwrap().semitones as f32 / 12.0);
    assert_eq!(ratio, 4.0);
    assert_eq!(e.trigger(0), Ok(VoiceRequest { semitones: 0 }));
}

#[test]
fn note_index_saturates() {
    let mut e = Engine::new();
    e.load_sample(&small_wav()).unwrap();
    assert_eq!(e.trigger(16), Ok(VoiceRequest { semitones: 28 }));
    assert_eq!(e.trigger(17), Ok(VoiceRequest { semitones: 28 }));
    assert_eq!(e.trigger(usize::MAX), Ok(VoiceRequest { semitones: 28 }));
}

#[test]
fn tuning_table_values() {
    let expected = [0, 2, 4, 5, 7, 9, 11, 12, 14, 16, 17, 19, 21, 23, 24, 26, 28];
    for (i, s) in expected.iter().enumerate() {
        assert_eq!(semitone_offset(i), *s);
    }
    assert_eq!(semitone_offset(1000), 28);
}

#[test]
fn failed_load_leaves_engine_uninitialized() {
    let mut e = Engine::new();
    assert_eq!(e.load_sample(&[0u8; 10]), Err(DecodeError::TooSmall));
    assert!(!e.is_ready());
    assert_eq!(e.trigger(3), Err(EngineError::NotInitialized));
}

#[test]
fn second_load_is_a_no_op() {
    let mut e = Engine::new();
    e.load_sample(&small_wav()).unwrap();
    assert_eq!(e.load_sample(&[0u8; 3]), Ok(()));
    let buf = e.sample().unwrap();
    assert_eq!(buf.frame_count, 4);
    assert_eq!(buf.channels, vec![vec![1, -1, 2, -2]]);
}
