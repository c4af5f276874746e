use euclids_square::debounce::Edge;
use euclids_square::inputs::{InputEvent, RotDirection, SwitchEvent};
use euclids_square::ui::{clamp, LayerState, OutputEvent, UiState, ViewState};

fn quiet_switch() -> SwitchEvent {
    SwitchEvent { edge: None, is_high: false, is_low: true }
}

fn pressed_switch() -> SwitchEvent {
    SwitchEvent { edge: Some(Edge::Rising), is_high: true, is_low: false }
}

fn nothing() -> InputEvent {
    InputEvent {
        switch_a: quiet_switch(),
        switch_b: quiet_switch(),
        switch_c: quiet_switch(),
        switch_d: quiet_switch(),
        rot_a: None,
        rot_b: None,
        rot_c: None,
        rot_d: None,
    }
}

#[test]
fn clamp_limits() {
    assert_eq!(clamp(5, 1, 16), 5);
    assert_eq!(clamp(0, 1, 16), 1);
    assert_eq!(clamp(17, 1, 16), 16);
    assert_eq!(clamp(-3, -3, -3), -3);
}

#[test]
fn default_state() {
    let ui: UiState<3> = Default::default();
    assert!(ui.is_playing);
    assert_eq!(ui.tempo, 8);
    assert_eq!(ui.active_layer, 0);
    assert_eq!(ui.view, ViewState::Player);
    assert_eq!(ui.layers[0], LayerState { sound: 0, volume: 8, length: 16, hits: 1, shift: 0 });
    assert_eq!(ui.layers[2], LayerState { sound: 2, volume: 8, length: 16, hits: 0, shift: 0 });
}

#[test]
fn play_pause_toggles_and_emits_one_event() {
    let mut ui: UiState<3> = Default::default();
    let mut input = nothing();
    input.switch_b = pressed_switch();
    let events = ui.update(input);
    assert!(!ui.is_playing);
    assert_eq!(events.len(), 1);
    assert_eq!(events[0], OutputEvent::IsPlaying(false));
    let events = ui.update(input);
    assert!(ui.is_playing);
    assert_eq!(events.len(), 1);
    assert_eq!(events[0], OutputEvent::IsPlaying(true));
    let events = ui.update(nothing());
    assert!(ui.is_playing);
    assert!(events.is_empty());
}

#[test]
fn play_pause_with_pattern_edit_still_one_transport_event() {
    let mut ui: UiState<3> = Default::default();
    let mut input = nothing();
    input.switch_b = pressed_switch();
    input.rot_d = Some(RotDirection::Cw);
    let events = ui.update(input);
    let transport = events.iter().filter(|e| matches!(e, OutputEvent::IsPlaying(_))).count();
    assert_eq!(transport, 1);
    assert_eq!(events[0], OutputEvent::IsPlaying(false));
    assert_eq!(events.len(), 2);
}

#[test]
fn tempo_is_clamped_and_reports_transport() {
    let mut ui: UiState<3> = Default::default();
    let mut input = nothing();
    input.rot_b = Some(RotDirection::Cw);
    for _ in 0..20 {
        let events = ui.update(input);
        assert_eq!(events.len(), 1);
        assert_eq!(events[0], OutputEvent::IsPlaying(true));
    }
    assert_eq!(ui.tempo, 16);
    assert_eq!(ui.view, ViewState::Tempo);
    input.rot_b = Some(RotDirection::Ccw);
    for _ in 0..20 {
        ui.update(input);
    }
    assert_eq!(ui.tempo, 1);
}

#[test]
fn layer_switch_wraps_around() {
    let mut ui: UiState<3> = Default::default();
    let mut input = nothing();
    input.switch_c = pressed_switch();
    ui.update(input);
    assert_eq!(ui.active_layer, 1);
    assert_eq!(ui.view, ViewState::Sequencer);
    ui.update(input);
    ui.update(input);
    assert_eq!(ui.active_layer, 0);
}

#[test]
fn pattern_edits_clamp_length_and_hits() {
    let mut ui: UiState<3> = Default::default();
    let mut input = nothing();
    input.rot_d = Some(RotDirection::Cw);
    let events = ui.update(input);
    assert_eq!(ui.layers[0].hits, 2);
    assert_eq!(events.len(), 1);
    assert_eq!(events[0], OutputEvent::LayerUpdate(0, ui.layers[0]));

    let mut shrink = nothing();
    shrink.rot_c = Some(RotDirection::Ccw);
    for _ in 0..20 {
        ui.update(shrink);
    }
    assert_eq!(ui.layers[0].length, 1);
    assert_eq!(ui.layers[0].hits, 1);

    let mut fewer = nothing();
    fewer.rot_d = Some(RotDirection::Ccw);
    ui.update(fewer);
    ui.update(fewer);
    assert_eq!(ui.layers[0].hits, 0);

    let mut shift = nothing();
    shift.rot_a = Some(RotDirection::Ccw);
    for _ in 0..40 {
        ui.update(shift);
    }
    assert_eq!(ui.layers[0].shift, -40);
    assert_eq!(ui.layers[1], LayerState { sound: 1, volume: 8, length: 16, hits: 0, shift: 0 });
}

#[test]
fn idle_timeout_returns_to_player() {
    let mut ui: UiState<3> = Default::default();
    let mut input = nothing();
    input.switch_c = pressed_switch();
    ui.update(input);
    assert_eq!(ui.view, ViewState::Sequencer);
    for _ in 0..3000 {
        ui.update(nothing());
    }
    assert_eq!(ui.view, ViewState::Sequencer);
    assert_eq!(ui.time_since_last_action, 3000);
    ui.update(nothing());
    assert_eq!(ui.view, ViewState::Player);
    assert_eq!(ui.time_since_last_action, 0);
}
