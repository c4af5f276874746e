use euclids_square::sequencer::Sequencer;

fn layer(s: &Sequencer<3, 16>, i: usize) -> Vec<u8> {
    s.pattern(i).to_vec()
}

#[test]
fn default_sequencer_is_empty() {
    let s: Sequencer<3, 16> = Default::default();
    for i in 0..3 {
        assert!(layer(&s, i).is_empty());
        assert_eq!(s.playhead(i), 0);
    }
}

#[test]
fn set_sequence_rotates_right() {
    let mut s: Sequencer<3, 16> = Default::default();
    s.set_sequence(0, 8, 5, 0);
    assert_eq!(layer(&s, 0), vec![1, 0, 1, 1, 0, 1, 1, 0]);
    s.set_sequence(0, 8, 5, 1);
    assert_eq!(layer(&s, 0), vec![0, 1, 0, 1, 1, 0, 1, 1]);
    s.set_sequence(0, 8, 5, -1);
    assert_eq!(layer(&s, 0), vec![0, 1, 1, 0, 1, 1, 0, 1]);
}

#[test]
fn shift_is_taken_modulo_length() {
    for shift in -20isize..20 {
        let mut a: Sequencer<3, 16> = Default::default();
        let mut b: Sequencer<3, 16> = Default::default();
        a.set_sequence(1, 7, 3, shift);
        b.set_sequence(1, 7, 3, shift + 7);
        assert_eq!(layer(&a, 1), layer(&b, 1));
    }
}

#[test]
fn step_emits_gates_and_wraps() {
    let mut s: Sequencer<3, 16> = Default::default();
    s.set_sequence(0, 4, 2, 0);
    s.set_sequence(1, 3, 1, 0);
    s.set_sequence(2, 2, 0, 0);
    let mut seen = Vec::new();
    for _ in 0..12 {
        let (gates, _) = s.step();
        seen.push(gates);
    }
    for (k, g) in seen.iter().enumerate() {
        assert_eq!(g[0], k % 2 == 0);
        assert_eq!(g[1], k % 3 == 0);
        assert!(!g[2]);
    }
    assert_eq!(s.playhead(0), 0);
    assert_eq!(s.playhead(1), 0);
}

#[test]
fn gate_sequence_repeats_after_length_steps() {
    let mut s: Sequencer<3, 16> = Default::default();
    s.set_sequence(0, 16, 5, 3);
    s.set_sequence(1, 7, 3, 0);
    s.set_sequence(2, 5, 2, 1);
    let gates: Vec<[bool; 3]> = (0..40).map(|_| s.step().0).collect();
    for k in 0..20 {
        assert_eq!(gates[k][0], gates[k + 16][0]);
        assert_eq!(gates[k][1], gates[k + 7][1]);
        assert_eq!(gates[k][2], gates[k + 5][2]);
    }
}

#[test]
fn step_frame_lights_playhead_hits_brightly() {
    let mut s: Sequencer<3, 16> = Default::default();
    s.set_sequence(0, 16, 1, 0);
    s.set_sequence(1, 16, 0, 0);
    s.set_sequence(2, 4, 1, 1);
    let (gates, frame) = s.step();
    assert_eq!(gates, [true, false, false]);
    assert_eq!(frame[0], 0xFF);
    assert_eq!(frame[1], 0x40 << 16);
    assert_eq!(frame[2], 0);
    let (gates, frame) = s.step();
    assert_eq!(gates, [false, false, true]);
    assert_eq!(frame[0], 0x40);
    assert_eq!(frame[1], 0xFF << 16);
}

#[test]
fn reset_steps_restarts_every_layer() {
    let mut s: Sequencer<3, 16> = Default::default();
    s.set_sequence(0, 16, 4, 0);
    s.set_sequence(1, 5, 2, 0);
    s.set_sequence(2, 3, 3, 0);
    s.step();
    s.step();
    assert_eq!(s.playhead(0), 2);
    s.reset_steps();
    for i in 0..3 {
        assert_eq!(s.playhead(i), 0);
    }
}

use euclids_square::control::apply_event;
use euclids_square::ui::{LayerState, OutputEvent};

#[test]
fn layer_update_event_rebuilds_layer() {
    let mut s: Sequencer<3, 16> = Default::default();
    s.set_sequence(0, 4, 1, 0);
    let l = LayerState { sound: 2, volume: 8, length: 8, hits: 5, shift: 1 };
    assert_eq!(apply_event(&mut s, OutputEvent::LayerUpdate(2, l)), None);
    assert_eq!(layer(&s, 2), vec![0, 1, 0, 1, 1, 0, 1, 1]);
    assert_eq!(layer(&s, 0), vec![1, 0, 0, 0]);
}

#[test]
fn transport_event_restarts_playheads() {
    let mut s: Sequencer<3, 16> = Default::default();
    s.set_sequence(0, 4, 1, 0);
    s.set_sequence(1, 4, 2, 0);
    s.set_sequence(2, 4, 3, 0);
    s.step();
    assert_eq!(apply_event(&mut s, OutputEvent::IsPlaying(false)), Some(false));
    assert_eq!(s.playhead(0), 0);
    assert_eq!(apply_event(&mut s, OutputEvent::TempoUpdate(9)), None);
    assert_eq!(layer(&s, 2), vec![1, 1, 1, 0]);
}
