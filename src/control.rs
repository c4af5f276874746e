//! Applying the interface's output events to the sequencer.

use crate::sequencer::{stored_pattern, Sequencer};
use crate::inputs::InputEvent;
use crate::ui::{edited_layer, layer_ok, LayerState, OutputEvent, UiState, MAX_SETTING};
use vstd::prelude::*;

verus! {

/// The sequencer accepts these layer parameters for layer `layer`.
pub open spec fn layer_update_ok(layer: usize, l: LayerState, num_layers: usize, max_len: usize) -> bool {
    layer < num_layers && 1 <= l.length <= max_len && l.hits <= l.length
}

/// Applies one output event: a layer update rebuilds that layer's pattern,
/// a transport change restarts every playhead and asks for the step timer
/// to run (`Some(true)`) or stop (`Some(false)`); a tempo change does
/// nothing yet.
pub fn apply_event<const NUM_LAYERS: usize, const MAX_SEQLEN: usize>(
    sequencer: &mut Sequencer<NUM_LAYERS, MAX_SEQLEN>,
    event: OutputEvent,
) -> (r: Option<bool>)
    requires
        old(sequencer).wf(),
        event matches OutputEvent::LayerUpdate(layer, l) ==> layer_update_ok(
            layer,
            l,
            NUM_LAYERS,
            MAX_SEQLEN,
        ),
    ensures
        final(sequencer).wf(),
        match event {
            OutputEvent::LayerUpdate(layer, l) => {
                &&& r is None
                &&& final(sequencer).patterns() == old(sequencer).patterns().update(
                    layer as int,
                    stored_pattern(l.length as nat, l.hits as nat, l.shift as int),
                )
                &&& final(sequencer).playheads() == old(sequencer).playheads().update(layer as int, 0)
            },
            OutputEvent::IsPlaying(playing) => {
                &&& r == Some(playing)
                &&& final(sequencer).patterns() == old(sequencer).patterns()
                &&& final(sequencer).playheads() == Seq::new(NUM_LAYERS as nat, |i: int| 0usize)
            },
            OutputEvent::TempoUpdate(_) => {
                &&& r is None
                &&& *final(sequencer) == *old(sequencer)
            },
        },
{
    match event {
        OutputEvent::LayerUpdate(layer, l) => {
            sequencer.set_sequence(layer, l.length, l.hits, l.shift);
            None
        },
        OutputEvent::IsPlaying(playing) => {
            sequencer.reset_steps();
            Some(playing)
        },
        OutputEvent::TempoUpdate(_) => None,
    }
}

/// Every layer update the interface emits from a well-formed state is one
/// that a sequencer of `MAX_SETTING` steps accepts.
pub proof fn lemma_ui_layer_updates_accepted<const NUM_LAYERS: usize>(
    ui: UiState<NUM_LAYERS>,
    input: InputEvent,
    k: int,
)
    requires
        ui.wf(),
        0 <= k < ui.events_for(input).len(),
    ensures
        ui.events_for(input)[k] matches OutputEvent::LayerUpdate(layer, l) ==> layer_update_ok(
            layer,
            l,
            NUM_LAYERS,
            MAX_SETTING,
        ),
{
    let a = ui.next_active(input);
    assert(a < NUM_LAYERS);
    assert(layer_ok(ui.layers[a as int]));
    let edited = edited_layer(ui.layers[a as int], input);
    assert(layer_ok(edited));
    assert(ui.next_layers(input).len() == NUM_LAYERS);
    if ui.events_for(input)[k] is LayerUpdate {
        assert(ui.next_layers(input)[a as int] == edited || ui.next_layers(input)[a as int]
            == ui.layers[a as int]);
    }
}

} // verus!
