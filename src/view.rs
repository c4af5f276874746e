//! LED frames: the colour of each layer, and the pure rendering of the
//! sequencer's state for the current view.

use crate::sequencer::Sequencer;
use crate::ui::{UiState, ViewState};
use vstd::prelude::*;

verus! {

/// Number of LED slots in a frame.
pub const LED_SLOTS: usize = 16;

/// One packed colour word per LED slot: one byte per colour channel.
pub type LedData = [u32; 16];

/// Brightness of a hit marker.
pub const DIM: u8 = 0x40;

/// Brightness of the playhead on a hit, and of hits in the sequencer view.
pub const BRIGHT: u8 = 0xFF;

/// Brightness of rests in the sequencer view.
pub const FAINT: u8 = 0x10;

/// Layer `i`'s colour at brightness `val`: layers take the three colour
/// channels in turn.
pub open spec fn layer_color_spec(i: int, val: u8) -> u32 {
    ((val as u32) << (((i % 3) * 8) as u32)) as u32
}

/// Layer `i`'s colour at brightness `val`.
pub fn layer_color(i: usize, val: u8) -> (r: u32)
    ensures
        r == layer_color_spec(i as int, val),
{
    (val as u32) << (((i % 3) * 8) as u32)
}

/// Slot `t` with a marker of brightness `val` for every layer below `k`
/// that has a hit at step `t`.
pub open spec fn hit_marks(patterns: Seq<Seq<u8>>, k: nat, t: int, val: u8) -> u32
    decreases k,
{
    if k == 0 {
        0
    } else {
        hit_marks(patterns, (k - 1) as nat, t, val) | if t < patterns[k - 1].len() && patterns[k
            - 1][t] == 1 {
            layer_color_spec(k - 1, val)
        } else {
            0
        }
    }
}

/// Slot `t` with a bright marker for every layer below `k` whose playhead
/// stands on a hit at step `t`.
pub open spec fn playhead_marks(patterns: Seq<Seq<u8>>, playheads: Seq<usize>, k: nat, t: int) -> u32
    decreases k,
{
    if k == 0 {
        0
    } else {
        playhead_marks(patterns, playheads, (k - 1) as nat, t) | if playheads[k - 1] == t
            && patterns[k - 1][t] == 1 {
            layer_color_spec(k - 1, BRIGHT)
        } else {
            0
        }
    }
}

/// The player view of slot `t`: dim markers on every layer's hits, bright
/// ones where a playhead stands on a hit.
pub open spec fn player_slot(patterns: Seq<Seq<u8>>, playheads: Seq<usize>, t: int) -> u32 {
    hit_marks(patterns, patterns.len(), t, DIM) | playhead_marks(patterns, playheads, patterns.len(), t)
}

/// The sequencer view of slot `t` for layer `i` with pattern `p`: bright on
/// hits, faint on rests, dark past the end of the pattern.
pub open spec fn sequencer_slot(i: int, p: Seq<u8>, t: int) -> u32 {
    if t < p.len() {
        if p[t] == 1 {
            layer_color_spec(i, BRIGHT)
        } else {
            layer_color_spec(i, FAINT)
        }
    } else {
        0
    }
}


/// Lights `led` brightly wherever a layer's playhead stands on a hit.
fn overlay_playheads<const NUM_LAYERS: usize, const MAX_SEQLEN: usize>(
    led: LedData,
    sequencer: &Sequencer<NUM_LAYERS, MAX_SEQLEN>,
) -> (r: LedData)
    requires
        sequencer.wf(),
        sequencer.ready(),
    ensures
        forall|t: int| 0 <= t < LED_SLOTS ==> #[trigger] r[t] == led[t] | playhead_marks(
            sequencer.patterns(),
            sequencer.playheads(),
            NUM_LAYERS as nat,
            t,
        ),
{
    let ghost pats = sequencer.patterns();
    let ghost heads = sequencer.playheads();
    let mut led_data = led;
    proof {
        assert forall|t: int| 0 <= t < LED_SLOTS implies #[trigger] led_data[t] == led[t]
            | playhead_marks(pats, heads, 0, t) by {
            let b = led[t];
            assert(b | 0 == b) by (bit_vector);
        }
    }
    let mut i: usize = 0;
    while i < NUM_LAYERS
        invariant
            i <= NUM_LAYERS,
            sequencer.wf(),
            sequencer.ready(),
            pats == sequencer.patterns(),
            heads == sequencer.playheads(),
            forall|t: int|
                0 <= t < LED_SLOTS ==> #[trigger] led_data[t] == led[t] | playhead_marks(
                    pats,
                    heads,
                    i as nat,
                    t,
                ),
        decreases NUM_LAYERS - i,
    {
        let seq = sequencer.pattern(i);
        let step = sequencer.playhead(i);
        assert(pats[i as int].len() > 0);
        if seq[step] == 1 {
            let color = layer_color(i, BRIGHT);
            let old_val = led_data[step];
            led_data[step] = old_val | color;
            proof {
                let b = led[step as int];
                let m = playhead_marks(pats, heads, i as nat, step as int);
                assert((b | m) | color == b | (m | color)) by (bit_vector);
                assert(playhead_marks(pats, heads, (i + 1) as nat, step as int) == m | color);
                assert forall|t: int| 0 <= t < LED_SLOTS implies #[trigger] led_data[t] == led[t]
                    | playhead_marks(pats, heads, (i + 1) as nat, t) by {
                    if t != step {
                        let x = playhead_marks(pats, heads, i as nat, t);
                        assert(x | 0 == x) by (bit_vector);
                        assert(playhead_marks(pats, heads, (i + 1) as nat, t) == x);
                    }
                }
            }
        } else {
            proof {
                assert forall|t: int| 0 <= t < LED_SLOTS implies #[trigger] led_data[t] == led[t]
                    | playhead_marks(pats, heads, (i + 1) as nat, t) by {
                    let x = playhead_marks(pats, heads, i as nat, t);
                    assert(x | 0 == x) by (bit_vector);
                    assert(playhead_marks(pats, heads, (i + 1) as nat, t) == x);
                }
            }
        }
        i += 1;
    }
    led_data
}

/// The player view: dim markers on every layer's hits, bright ones where a
/// playhead stands on a hit.
fn render_player<const NUM_LAYERS: usize, const MAX_SEQLEN: usize>(
    sequencer: &Sequencer<NUM_LAYERS, MAX_SEQLEN>,
) -> (r: LedData)
    requires
        sequencer.wf(),
        sequencer.ready(),
    ensures
        forall|t: int| 0 <= t < LED_SLOTS ==> #[trigger] r[t] == player_slot(
            sequencer.patterns(),
            sequencer.playheads(),
            t,
        ),
{
    let led_data = sequencer.hit_frame();
    overlay_playheads(led_data, sequencer)
}

/// The sequencer view of one layer: bright hits and faint rests, in that
/// layer's colour.
fn render_sequencer<const NUM_LAYERS: usize, const MAX_SEQLEN: usize>(
    active_layer: usize,
    sequencer: &Sequencer<NUM_LAYERS, MAX_SEQLEN>,
) -> (r: LedData)
    requires
        sequencer.wf(),
        active_layer < NUM_LAYERS,
    ensures
        forall|t: int| 0 <= t < LED_SLOTS ==> #[trigger] r[t] == sequencer_slot(
            active_layer as int,
            sequencer.patterns()[active_layer as int],
            t,
        ),
{
    let mut led_data: LedData = [0u32; 16];
    let seq = sequencer.pattern(active_layer);
    assert(seq@.len() <= LED_SLOTS);
    let mut t: usize = 0;
    while t < seq.len()
        invariant
            t <= seq@.len() <= LED_SLOTS,
            forall|u: int|
                0 <= u < LED_SLOTS ==> #[trigger] led_data[u] == if u < t {
                    sequencer_slot(active_layer as int, seq@, u)
                } else {
                    0
                },
        decreases seq@.len() - t,
    {
        let color = if seq[t] == 1 {
            layer_color(active_layer, BRIGHT)
        } else {
            layer_color(active_layer, FAINT)
        };
        let old_val = led_data[t];
        led_data[t] = old_val | color;
        proof {
            assert(0 | color == color) by (bit_vector);
        }
        t += 1;
    }
    led_data
}

/// The frame for the current view: the active layer alone in the sequencer
/// view, every layer with its playhead otherwise.
pub fn render<const NUM_LAYERS: usize, const MAX_SEQLEN: usize>(
    ui: &UiState<NUM_LAYERS>,
    sequencer: &Sequencer<NUM_LAYERS, MAX_SEQLEN>,
) -> (r: LedData)
    requires
        sequencer.wf(),
        ui.view != ViewState::Sequencer ==> sequencer.ready(),
        ui.active_layer < NUM_LAYERS,
    ensures
        forall|t: int|
            0 <= t < LED_SLOTS ==> #[trigger] r[t] == if ui.view == ViewState::Sequencer {
                sequencer_slot(ui.active_layer as int, sequencer.patterns()[ui.active_layer as int], t)
            } else {
                player_slot(sequencer.patterns(), sequencer.playheads(), t)
            },
{
    match ui.view {
        ViewState::Sequencer => render_sequencer(ui.active_layer, sequencer),
        _ => render_player(sequencer),
    }
}

} // verus!
