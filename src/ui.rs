//! The user interface state machine: decoded control events in, parameter
//! edits and transport changes out.

use crate::debounce::Edge;
use crate::arrays::array_from_fn;
use crate::inputs::{direction_step, InputEvent, RotEvent, SwitchEvent};
use arrayvec::ArrayVec;
use vstd::prelude::*;

verus! {

/// Most output events one update can emit.
pub const EVENT_CAPACITY: usize = 3;

/// Polls without any user action after which the interface returns to the
/// player view.
pub const IDLE_TIMEOUT: usize = 3000;

/// Largest pattern length the interface offers, and the tempo range's top.
pub const MAX_SETTING: usize = 16;

/// What the interface shows.
#[derive(Debug, Clone, Copy, PartialEq, Eq, Structural)]
pub enum ViewState {
    Player,
    Sequencer,
    Sound,
    Tempo,
    Volume,
}

/// The parameters of one layer, as the interface edits them.
#[derive(Debug, Clone, Copy, PartialEq, Eq, Structural)]
pub struct LayerState {
    pub sound: usize,
    pub volume: usize,
    pub length: usize,
    pub hits: usize,
    pub shift: isize,
}

/// A change the interface asks the rest of the system to apply.
#[derive(Debug, Clone, Copy, PartialEq, Eq, Structural)]
pub enum OutputEvent {
    /// New parameters for a layer.
    LayerUpdate(usize, LayerState),
    /// The transport is now playing (true) or paused (false).
    IsPlaying(bool),
    /// A new tempo.
    TempoUpdate(usize),
}

/// The events queued by one update, in order.
pub uninterp spec fn queued_events(q: ArrayVec<OutputEvent, EVENT_CAPACITY>) -> Seq<OutputEvent>;

/// Relies on `ArrayVec::new`: the new vector holds nothing.
#[verifier::external_body]
fn events_new() -> (q: ArrayVec<OutputEvent, EVENT_CAPACITY>)
    ensures
        queued_events(q) == Seq::<OutputEvent>::empty(),
{
    ArrayVec::new()
}

/// Relies on `ArrayVec::push`: the event is appended at the end (it panics
/// only when the vector is full).
#[verifier::external_body]
fn events_push(q: &mut ArrayVec<OutputEvent, EVENT_CAPACITY>, e: OutputEvent)
    requires
        queued_events(*old(q)).len() < EVENT_CAPACITY,
    ensures
        queued_events(*final(q)) == queued_events(*old(q)).push(e),
{
    q.push(e)
}

/// `v` limited to `[lo, hi]`.
pub open spec fn clamp_spec(v: int, lo: int, hi: int) -> int {
    if v < lo {
        lo
    } else if v > hi {
        hi
    } else {
        v
    }
}

/// `v` limited to `[min, max]`.
pub fn clamp(v: isize, min: isize, max: isize) -> (r: isize)
    requires
        min <= max,
    ensures
        r == clamp_spec(v as int, min as int, max as int),
{
    min.max(v.min(max))
}

/// The switch reported a debounced rising edge.
pub open spec fn pressed(e: SwitchEvent) -> bool {
    e.edge == Some(Edge::Rising)
}

/// The signed step of an encoder event (0 when it did not move).
pub open spec fn event_step(e: RotEvent) -> int {
    match e {
        Some(d) => direction_step(d),
        None => 0,
    }
}

/// Any of the three pattern encoders (shift, length, hits) moved.
pub open spec fn edits_pattern(input: InputEvent) -> bool {
    input.rot_a is Some || input.rot_c is Some || input.rot_d is Some
}

/// A layer's parameters after the pattern encoders of `input`: the shift
/// moves freely, the length stays in `[1, 16]` and pulls the hits down with
/// it, and the hits stay in `[0, length]`.
pub open spec fn edited_layer(l: LayerState, input: InputEvent) -> LayerState {
    let shift = l.shift + event_step(input.rot_a);
    let length = if input.rot_c is Some {
        clamp_spec(l.length + event_step(input.rot_c), 1, MAX_SETTING as int)
    } else {
        l.length as int
    };
    let capped = if l.hits < length {
        l.hits as int
    } else {
        length
    };
    let hits = if input.rot_d is Some {
        clamp_spec(capped + event_step(input.rot_d), 0, length)
    } else {
        capped
    };
    LayerState { shift: shift as isize, length: length as usize, hits: hits as usize, ..l }
}

/// The parameters a new interface gives layer `i`: its own sound, a
/// sixteen-step pattern, one hit on the first layer and none elsewhere.
pub open spec fn initial_layer(i: int) -> LayerState {
    LayerState {
        sound: i as usize,
        volume: 8,
        length: MAX_SETTING,
        hits: if i == 0 { 1 } else { 0 },
        shift: 0,
    }
}

/// The parameters a new interface gives layer `i`.
fn layer_defaults(i: usize) -> (l: LayerState)
    ensures
        l == initial_layer(i as int),
{
    LayerState {
        sound: i,
        volume: 8,
        length: MAX_SETTING,
        hits: if i == 0 {
            1
        } else {
            0
        },
        shift: 0,
    }
}

/// Parameters that an edit keeps valid: a length in `[1, 16]` and at most
/// that many hits.
pub open spec fn layer_ok(l: LayerState) -> bool {
    1 <= l.length <= MAX_SETTING && l.hits <= l.length
}

/// Applies the pattern encoders of `input` to a layer's parameters.
fn edit_layer(l: LayerState, input: &InputEvent) -> (r: LayerState)
    requires
        layer_ok(l),
        isize::MIN < l.shift < isize::MAX,
    ensures
        r == edited_layer(l, *input),
        layer_ok(r),
{
    let mut layer = l;
    // Shift
    if let Some(dir) = input.rot_a {
        layer.shift = layer.shift + isize::from(dir);
    }
    // Length
    if let Some(dir) = input.rot_c {
        let len = layer.length as isize + isize::from(dir);
        layer.length = clamp(len, 1, MAX_SETTING as isize) as usize;
        layer.hits = layer.hits.min(layer.length);
    }
    // Hits
    if let Some(dir) = input.rot_d {
        let hits = layer.hits as isize + isize::from(dir);
        layer.hits = clamp(hits, 0, layer.length as isize) as usize;
    }
    layer
}

/// The state of the interface.
#[derive(Debug, Clone)]
pub struct UiState<const NUM_LAYERS: usize> {
    pub is_playing: bool,
    pub tempo: usize,
    pub active_layer: usize,
    pub time_since_last_action: usize,
    pub layers: [LayerState; NUM_LAYERS],
    pub view: ViewState,
}

impl<const NUM_LAYERS: usize> UiState<NUM_LAYERS> {
    /// The invariant every update keeps.
    pub open spec fn wf(&self) -> bool {
        &&& self.active_layer < NUM_LAYERS
        &&& self.time_since_last_action <= IDLE_TIMEOUT
        &&& 1 <= self.tempo <= MAX_SETTING
        &&& forall|i: int| 0 <= i < NUM_LAYERS ==> layer_ok(#[trigger] self.layers[i])
    }

    /// The layer selected after `input`: the layer switch steps to the next
    /// layer, wrapping around.
    pub open spec fn next_active(&self, input: InputEvent) -> usize {
        if pressed(input.switch_c) {
            ((self.active_layer + 1) % (NUM_LAYERS as int)) as usize
        } else {
            self.active_layer
        }
    }

    /// The transport state after `input`: the play/pause switch toggles it.
    pub open spec fn next_playing(&self, input: InputEvent) -> bool {
        if pressed(input.switch_b) {
            !self.is_playing
        } else {
            self.is_playing
        }
    }

    /// The tempo after `input`: the tempo encoder moves it by one within
    /// `[1, 16]`.
    pub open spec fn next_tempo(&self, input: InputEvent) -> usize {
        if input.rot_b is Some {
            clamp_spec(self.tempo + event_step(input.rot_b), 1, MAX_SETTING as int) as usize
        } else {
            self.tempo
        }
    }

    /// The layers after `input`: the pattern encoders edit the selected
    /// layer.
    pub open spec fn next_layers(&self, input: InputEvent) -> Seq<LayerState> {
        if edits_pattern(input) {
            self.layers@.update(
                self.next_active(input) as int,
                edited_layer(self.layers[self.next_active(input) as int], input),
            )
        } else {
            self.layers@
        }
    }

    /// Some control was used on this poll.
    pub open spec fn acted(&self, input: InputEvent) -> bool {
        pressed(input.switch_c) || input.rot_b is Some || edits_pattern(input)
    }

    /// The idle counter after `input`: reset by any action, and by the
    /// return to the player view once it passes the timeout.
    pub open spec fn next_idle(&self, input: InputEvent) -> usize {
        if self.acted(input) || self.time_since_last_action + 1 > IDLE_TIMEOUT {
            0
        } else {
            (self.time_since_last_action + 1) as usize
        }
    }

    /// The view after `input`: the last control used picks it, and a long
    /// idle time returns to the player.
    pub open spec fn next_view(&self, input: InputEvent) -> ViewState {
        if edits_pattern(input) {
            ViewState::Sequencer
        } else if input.rot_b is Some {
            ViewState::Tempo
        } else if pressed(input.switch_c) {
            ViewState::Sequencer
        } else if self.time_since_last_action + 1 > IDLE_TIMEOUT {
            ViewState::Player
        } else {
            self.view
        }
    }

    /// The events emitted for `input`, in order: the transport state after a
    /// play/pause press, the transport state again after a tempo change (the
    /// tempo itself is not reported), and the selected layer's parameters
    /// after a pattern edit.
    pub open spec fn events_for(&self, input: InputEvent) -> Seq<OutputEvent> {
        let playing = seq![OutputEvent::IsPlaying(self.next_playing(input))];
        let layer = seq![
            OutputEvent::LayerUpdate(
                self.next_active(input),
                self.next_layers(input)[self.next_active(input) as int],
            ),
        ];
        (if pressed(input.switch_b) {
            playing
        } else {
            Seq::empty()
        }) + (if input.rot_b is Some {
            playing
        } else {
            Seq::empty()
        }) + (if edits_pattern(input) {
            layer
        } else {
            Seq::empty()
        })
    }

    /// Handles one poll's decoded input and returns the events it causes.
    pub fn update(&mut self, input: InputEvent) -> (r: ArrayVec<OutputEvent, EVENT_CAPACITY>)
        requires
            old(self).wf(),
            forall|i: int|
                0 <= i < NUM_LAYERS ==> isize::MIN < #[trigger] old(self).layers[i].shift
                    < isize::MAX,
        ensures
            final(self).wf(),
            final(self).active_layer == old(self).next_active(input),
            final(self).is_playing == old(self).next_playing(input),
            final(self).tempo == old(self).next_tempo(input),
            final(self).layers@ == old(self).next_layers(input),
            final(self).view == old(self).next_view(input),
            final(self).time_since_last_action == old(self).next_idle(input),
            queued_events(r) == old(self).events_for(input),
            final(self).is_playing == (old(self).is_playing != pressed(input.switch_b)),
            input.rot_b is None ==> playing_events(queued_events(r)) == if pressed(input.switch_b) {
                1nat
            } else {
                0nat
            },
    {
        proof {
            if input.rot_b is None {
                lemma_play_pause_single_event(*old(self), input);
            }
        }
        let mut output_events = events_new();
        self.time_since_last_action += 1;

        // Switch layer
        if matches!(input.switch_c.edge, Some(Edge::Rising)) {
            self.active_layer = (self.active_layer + 1) % NUM_LAYERS;
            self.view = ViewState::Sequencer;
            self.time_since_last_action = 0;
        }

        // Play / pause
        if matches!(input.switch_b.edge, Some(Edge::Rising)) {
            self.is_playing = !self.is_playing;
            events_push(&mut output_events, OutputEvent::IsPlaying(self.is_playing));
        }

        // Tempo
        if let Some(dir) = input.rot_b {
            self.tempo = clamp(self.tempo as isize + isize::from(dir), 1, MAX_SETTING as isize) as usize;
            self.view = ViewState::Tempo;
            self.time_since_last_action = 0;
            events_push(&mut output_events, OutputEvent::IsPlaying(self.is_playing));
        }

        // Pattern edits of the selected layer
        if input.rot_a.is_some() || input.rot_c.is_some() || input.rot_d.is_some() {
            let layer = edit_layer(self.layers[self.active_layer], &input);
            self.layers[self.active_layer] = layer;
            self.view = ViewState::Sequencer;
            self.time_since_last_action = 0;
            events_push(&mut output_events, OutputEvent::LayerUpdate(self.active_layer, layer));
        }

        // Back to the player after a long idle time
        if self.time_since_last_action > IDLE_TIMEOUT {
            self.view = ViewState::Player;
            self.time_since_last_action = 0;
        }

        output_events
    }
}

/// Number of transport (`IsPlaying`) events in `events`.
pub open spec fn playing_events(events: Seq<OutputEvent>) -> nat
    decreases events.len(),
{
    if events.len() == 0 {
        0
    } else {
        playing_events(events.drop_last()) + if events.last() is IsPlaying {
            1nat
        } else {
            0nat
        }
    }
}

/// Play/pause: on a poll where the tempo encoder is not turned, a rising
/// edge of the play/pause switch toggles the transport and emits exactly one
/// transport event, first in the queue and carrying the new state; without
/// that edge the transport keeps its state and no transport event is
/// emitted.
pub proof fn lemma_play_pause_single_event<const NUM_LAYERS: usize>(
    ui: UiState<NUM_LAYERS>,
    input: InputEvent,
)
    requires
        input.rot_b is None,
    ensures
        pressed(input.switch_b) ==> {
            &&& ui.next_playing(input) == !ui.is_playing
            &&& playing_events(ui.events_for(input)) == 1
            &&& ui.events_for(input)[0] == OutputEvent::IsPlaying(!ui.is_playing)
        },
        !pressed(input.switch_b) ==> {
            &&& ui.next_playing(input) == ui.is_playing
            &&& playing_events(ui.events_for(input)) == 0
        },
{
    reveal_with_fuel(playing_events, 3);
    let ev = ui.events_for(input);
    let layer = seq![
        OutputEvent::LayerUpdate(
            ui.next_active(input),
            ui.next_layers(input)[ui.next_active(input) as int],
        ),
    ];
    let tail = if edits_pattern(input) {
        layer
    } else {
        Seq::empty()
    };
    if pressed(input.switch_b) {
        let head = seq![OutputEvent::IsPlaying(ui.next_playing(input))];
        assert(ev =~= head + tail);
        if edits_pattern(input) {
            assert(ev.drop_last() =~= head);
            assert(head.drop_last() =~= Seq::<OutputEvent>::empty());
        } else {
            assert(ev.drop_last() =~= Seq::<OutputEvent>::empty());
        }
    } else {
        assert(ev =~= tail);
        if edits_pattern(input) {
            assert(ev.drop_last() =~= Seq::<OutputEvent>::empty());
        }
    }
}

impl<const NUM_LAYERS: usize> Default for UiState<NUM_LAYERS> {
    /// Playing at tempo 8, first layer selected, player view.
    fn default() -> (s: Self)
        ensures
            s.is_playing,
            s.tempo == 8,
            s.active_layer == 0,
            s.time_since_last_action == 0,
            forall|i: int| 0 <= i < NUM_LAYERS ==> #[trigger] s.layers[i] == initial_layer(i),
            s.view == ViewState::Player,
    {
        Self {
            is_playing: true,
            tempo: 8,
            active_layer: 0,
            time_since_last_action: 0,
            layers: array_from_fn(|i: usize| -> (l: LayerState)
                ensures
                    l == initial_layer(i as int),
                { layer_defaults(i) }),
            view: ViewState::Player,
        }
    }
}

} // verus!
