use euclids_square::leds::{led_duties, mux_slots};
use euclids_square::sequencer::Sequencer;
use euclids_square::ui::{UiState, ViewState};
use euclids_square::view::{layer_color, render};

#[test]
fn layer_colors_cycle_through_channels() {
    assert_eq!(layer_color(0, 0xFF), 0x0000FF);
    assert_eq!(layer_color(1, 0x40), 0x004000);
    assert_eq!(layer_color(2, 0x10), 0x100000);
    assert_eq!(layer_color(3, 0xFF), 0x0000FF);
}

fn sequencer() -> Sequencer<3, 16> {
    let mut s: Sequencer<3, 16> = Default::default();
    s.set_sequence(0, 4, 2, 0);
    s.set_sequence(1, 8, 1, 1);
    s.set_sequence(2, 16, 0, 0);
    s
}

#[test]
fn player_view_marks_hits_and_playheads() {
    let s = sequencer();
    let ui: UiState<3> = Default::default();
    let frame = render(&ui, &s);
    assert_eq!(frame[0], 0x0000FF);
    assert_eq!(frame[1], 0x004000);
    assert_eq!(frame[2], 0x000040);
    assert_eq!(frame[3], 0);
    assert_eq!(frame[4], 0);
}

#[test]
fn sequencer_view_shows_active_layer_only() {
    let s = sequencer();
    let mut ui: UiState<3> = Default::default();
    ui.view = ViewState::Sequencer;
    ui.active_layer = 1;
    let frame = render(&ui, &s);
    assert_eq!(frame[0], 0x001000);
    assert_eq!(frame[1], 0x00FF00);
    assert_eq!(frame[7], 0x001000);
    assert_eq!(frame[8], 0);
    assert_eq!(frame[15], 0);
}

#[test]
fn multiplex_slot_pairs() {
    let pairs: Vec<(usize, usize)> = (0..8).map(mux_slots).collect();
    assert_eq!(
        pairs,
        vec![(0, 7), (1, 6), (2, 5), (3, 4), (15, 8), (14, 9), (13, 10), (12, 11)]
    );
}

#[test]
fn duties_split_channels() {
    let mut data = [0u32; 16];
    data[15] = 0x80_40_FF;
    data[8] = 0x01_02_03;
    let (first, second) = led_duties(&data, 4);
    assert_eq!(first, (0x80, 0x20, 0x7F));
    assert_eq!(second, (0x01, 0x01, 0x01));
}

#[test]
fn sequencer_view_of_empty_layer_is_dark() {
    let s: Sequencer<3, 16> = Default::default();
    let mut ui: UiState<3> = Default::default();
    ui.view = ViewState::Sequencer;
    assert_eq!(render(&ui, &s), [0u32; 16]);
}
