use euclids_square::debounce::Edge;
use euclids_square::inputs::{InputLevels, Inputs, RotDirection, RotEnc, Switch};

#[test]
fn switch_needs_four_agreeing_samples() {
    let mut s = Switch::default();
    for _ in 0..3 {
        let e = s.update(true);
        assert_eq!(e.edge, None);
        assert!(!e.is_high);
        assert!(e.is_low);
    }
    let e = s.update(true);
    assert_eq!(e.edge, Some(Edge::Rising));
    assert!(e.is_high);
    let e = s.update(true);
    assert_eq!(e.edge, None);
    assert!(e.is_high);
}

#[test]
fn short_glitch_does_not_flip_switch() {
    let mut s = Switch::default();
    for _ in 0..4 {
        s.update(true);
    }
    for _ in 0..3 {
        assert_eq!(s.update(false).edge, None);
    }
    assert_eq!(s.update(true).edge, None);
    for _ in 0..3 {
        assert_eq!(s.update(false).edge, None);
    }
    assert_eq!(s.update(false).edge, Some(Edge::Falling));
    assert!(s.update(false).is_low);
}

#[test]
fn one_opposite_sample_keeps_stable_level() {
    let mut s = Switch::default();
    for _ in 0..4 {
        s.update(true);
    }
    let e = s.update(false);
    assert_eq!(e.edge, None);
    assert!(e.is_high);
    assert!(!e.is_low);
    let mut s = Switch::default();
    let e = s.update(true);
    assert_eq!(e.edge, None);
    assert!(e.is_low);
    assert!(!e.is_high);
}

#[test]
fn encoder_uses_stable_level_of_b() {
    let mut r = RotEnc::default();
    // Phase B has a single high sample: its stable level is still low.
    assert_eq!(r.update(true, true), None);
    assert_eq!(r.update(true, false), Some(RotDirection::Cw));
    let mut r = RotEnc::default();
    r.update(false, true);
    r.update(false, true);
    // Phase B is stably high; one low sample does not change that.
    assert_eq!(r.update(true, false), None);
    assert_eq!(r.update(true, true), Some(RotDirection::Ccw));
}

#[test]
fn released_switch_reports_low() {
    let mut s = Switch::default();
    let e = s.update(false);
    assert_eq!(e.edge, None);
    assert!(e.is_low);
}

#[test]
fn isize_from_direction() {
    assert_eq!(isize::from(RotDirection::Cw), 1);
    assert_eq!(isize::from(RotDirection::Ccw), -1);
}

#[test]
fn encoder_clockwise_when_b_low() {
    let mut r = RotEnc::default();
    assert_eq!(r.update(true, false), None);
    assert_eq!(r.update(true, false), Some(RotDirection::Cw));
    assert_eq!(r.update(true, false), None);
}

#[test]
fn encoder_counter_clockwise_when_b_high() {
    let mut r = RotEnc::default();
    assert_eq!(r.update(false, true), None);
    assert_eq!(r.update(false, true), None);
    assert_eq!(r.update(true, true), None);
    assert_eq!(r.update(true, true), Some(RotDirection::Ccw));
}

#[test]
fn encoder_ignores_falling_phase_a() {
    let mut r = RotEnc::default();
    r.update(true, false);
    r.update(true, false);
    assert_eq!(r.update(false, false), None);
    assert_eq!(r.update(false, false), None);
}

fn idle() -> InputLevels {
    InputLevels {
        switch_a: false,
        switch_b: false,
        switch_c: false,
        switch_d: false,
        rot_a: (false, false),
        rot_b: (false, false),
        rot_c: (false, false),
        rot_d: (false, false),
    }
}

#[test]
fn inputs_route_each_line() {
    let mut inputs = Inputs::default();
    let mut levels = idle();
    levels.switch_b = true;
    levels.rot_c = (true, false);
    let first = inputs.update(levels);
    assert_eq!(first.switch_b.edge, None);
    assert!(!first.switch_b.is_high);
    assert!(first.switch_b.is_low);
    assert!(first.switch_a.is_low);
    assert_eq!(first.rot_c, None);
    let second = inputs.update(levels);
    assert_eq!(second.rot_c, Some(RotDirection::Cw));
    assert_eq!(second.rot_a, None);
    inputs.update(levels);
    let fourth = inputs.update(levels);
    assert_eq!(fourth.switch_b.edge, Some(Edge::Rising));
    assert!(fourth.switch_b.is_high);
    assert_eq!(fourth.switch_c.edge, None);
}
