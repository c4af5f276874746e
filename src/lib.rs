//! Control and signal core of a Euclidean rhythm box: pattern generation,
//! step sequencing, sample playback and mixing, input debouncing, the user
//! interface state machine and LED frame rendering.

pub mod arrays;
pub mod pattern;
pub mod rhythm;
pub mod euclidean;
pub mod debounce;
pub mod inputs;
pub mod ui;
pub mod view;
pub mod leds;
pub mod sequencer;
pub mod synth;
pub mod control;
