use euclids_square::synth::{dma_handler, DmaState, Synth, SynthVoice, BUFFER_LEN, UNITY_VOLUME};

const SILENT_WORD: u32 = (2047 << 16) + 2047;

fn word(code: u32) -> u32 {
    (code << 16) + code
}

#[test]
fn new_voice_is_silent_at_unity() {
    let v = SynthVoice::new(2);
    assert_eq!(v.sound, 2);
    assert_eq!(v.volume, UNITY_VOLUME);
    assert_eq!(v.cursor, 0);
    assert!(!v.playing);
}

#[test]
fn gate_retriggers_a_playing_voice() {
    let mut synth = Synth { voices: [SynthVoice::new(0), SynthVoice::new(1)] };
    synth.voices[0].playing = true;
    synth.voices[0].cursor = 17;
    synth.voices[1].playing = true;
    synth.voices[1].cursor = 5;
    synth.apply_gates([true, false]);
    assert_eq!(synth.voices[0].cursor, 0);
    assert!(synth.voices[0].playing);
    assert_eq!(synth.voices[1].cursor, 5);
    assert!(synth.voices[1].playing);
}

#[test]
fn silence_fills_mid_scale() {
    let bank: [&[u8]; 1] = [&[255, 255]];
    let mut synth = Synth { voices: [SynthVoice::new(0)] };
    let mut buffer = [0u32; BUFFER_LEN];
    let state = dma_handler(DmaState::Ht, &mut buffer, &mut synth, &bank);
    assert_eq!(state, DmaState::Ht);
    assert!(buffer[..BUFFER_LEN / 2].iter().all(|&w| w == SILENT_WORD));
    assert!(buffer[BUFFER_LEN / 2..].iter().all(|&w| w == 0));
}

#[test]
fn triggered_voice_plays_its_sound_once() {
    let bank: [&[u8]; 2] = [&[255, 0, 128], &[64]];
    let mut synth = Synth { voices: [SynthVoice::new(0), SynthVoice::new(1)] };
    synth.apply_gates([true, false]);
    let mut buffer = [0u32; BUFFER_LEN];
    dma_handler(DmaState::Tc, &mut buffer, &mut synth, &bank);
    let mid = BUFFER_LEN / 2;
    assert!(buffer[..mid].iter().all(|&w| w == 0));
    // 255 -> (255 / 128 - 1 + 1) * 2047.5 = 4079.06
    assert_eq!(buffer[mid], word(4079));
    assert_eq!(buffer[mid + 1], word(0));
    assert_eq!(buffer[mid + 2], SILENT_WORD);
    assert_eq!(buffer[mid + 3], SILENT_WORD);
    assert!(!synth.voices[0].playing);
}

#[test]
fn mix_is_clipped() {
    let bank: [&[u8]; 1] = [&[255, 0]];
    let mut synth = Synth { voices: [SynthVoice::new(0), SynthVoice::new(0), SynthVoice::new(0)] };
    synth.apply_gates([true, true, true]);
    let mut buffer = [0u32; BUFFER_LEN];
    dma_handler(DmaState::Ht, &mut buffer, &mut synth, &bank);
    assert_eq!(buffer[0], word(4095));
    assert_eq!(buffer[1], word(0));
}

#[test]
fn half_volume_halves_the_signal() {
    let bank: [&[u8]; 1] = [&[0]];
    let mut synth = Synth { voices: [SynthVoice::new(0)] };
    synth.voices[0].volume = UNITY_VOLUME / 2;
    synth.apply_gates([true]);
    let mut buffer = [0u32; BUFFER_LEN];
    dma_handler(DmaState::Ht, &mut buffer, &mut synth, &bank);
    // -0.5 -> 0.5 * 2047.5 = 1023.75
    assert_eq!(buffer[0], word(1023));
}

#[test]
fn other_events_leave_buffer_alone() {
    let bank: [&[u8]; 1] = [&[255]];
    let mut synth = Synth { voices: [SynthVoice::new(0)] };
    synth.apply_gates([true]);
    let mut buffer = [7u32; BUFFER_LEN];
    assert_eq!(dma_handler(DmaState::Error, &mut buffer, &mut synth, &bank), DmaState::Error);
    assert_eq!(dma_handler(DmaState::Unknown, &mut buffer, &mut synth, &bank), DmaState::Unknown);
    assert!(buffer.iter().all(|&w| w == 7));
    assert_eq!(synth.voices[0].cursor, 0);
}
