//! The multi-layer step sequencer: one Euclidean pattern and one playhead
//! per layer.

use crate::euclidean::euclidean_rhythm;
use crate::pattern::{append, empty_pattern, pattern_new, pattern_slice, pattern_steps, Pattern};
use crate::rhythm::{euclidean_pattern, lemma_rotate_left_counts, rotate_left, rotate_right};
use crate::arrays::array_from_fn;
use crate::view::{hit_marks, layer_color, playhead_marks, LedData, BRIGHT, DIM, LED_SLOTS};
use vstd::arithmetic::div_mod::{
    lemma_mod_self_0,lemma_mod_add_multiples_vanish, lemma_add_mod_noop_right, lemma_small_mod};
use vstd::array::array_fill_for_copy_types;
use vstd::prelude::*;
use vstd::slice::slice_subrange;

verus! {

/// The pattern `set_sequence(_, len, hits, shift)` stores: the Euclidean
/// pattern rotated right by `shift` modulo `len`.
pub open spec fn stored_pattern(len: nat, hits: nat, shift: int) -> Seq<u8> {
    rotate_right(euclidean_pattern(hits, len), (shift % (len as int)) as nat)
}

/// Where a playhead that starts at `h` stands after `k` steps through a
/// pattern of `len` steps.
pub open spec fn playhead_after(h: nat, len: nat, k: nat) -> nat
    decreases k,
{
    if k == 0 {
        h
    } else {
        (playhead_after(h, len, (k - 1) as nat) + 1) % len
    }
}

/// Rotation period: a shift of `shift` and a shift of `shift + len` store
/// the same pattern.
pub proof fn lemma_shift_period(len: nat, hits: nat, shift: int)
    requires
        len >= 1,
    ensures
        stored_pattern(len, hits, shift) == stored_pattern(len, hits, shift + len),
{
    lemma_mod_add_multiples_vanish(shift, len as int);
    assert(shift + len == len + shift);
}

proof fn lemma_playhead_after(h: nat, len: nat, k: nat)
    requires
        h < len,
    ensures
        playhead_after(h, len, k) == ((h + k) as int) % (len as int),
    decreases k,
{
    if k == 0 {
        lemma_small_mod(h, len);
    } else {
        lemma_playhead_after(h, len, (k - 1) as nat);
        lemma_add_mod_noop_right(1, (h + k - 1) as int, len as int);
    }
}

/// Sequencer periodicity: a layer's playhead stands on the same step again
/// `len` steps later, so its gate sequence repeats with period `len`.
pub proof fn lemma_gates_repeat(pattern: Seq<u8>, h: nat, k: nat)
    requires
        h < pattern.len(),
    ensures
        playhead_after(h, pattern.len(), k + pattern.len()) == playhead_after(h, pattern.len(), k),
        pattern[playhead_after(h, pattern.len(), k + pattern.len()) as int] == pattern[playhead_after(
            h,
            pattern.len(),
            k,
        ) as int],
{
    let len = pattern.len();
    lemma_playhead_after(h, len, k);
    lemma_playhead_after(h, len, k + len);
    lemma_mod_add_multiples_vanish((h + k) as int, len as int);
    assert(h + (k + len) == len + (h + k));
}

/// Along a chain of `step` calls, layer `j`'s pattern stays and its
/// playhead stands where `t` steps from the first one lead.
proof fn lemma_step_chain_position<const NUM_SEQS: usize, const MAX_SEQLEN: usize>(
    states: Seq<Sequencer<NUM_SEQS, MAX_SEQLEN>>,
    gates: Seq<Seq<bool>>,
    j: int,
    t: int,
)
    requires
        states.len() == gates.len() + 1,
        forall|u: int| 0 <= u < gates.len() ==> #[trigger] states[u].steps_to(states[u + 1], gates[u]),
        0 <= j < NUM_SEQS,
        0 <= t <= gates.len(),
    ensures
        states[t].patterns() == states[0].patterns(),
        states[t].playheads()[j] == playhead_after(
            states[0].playheads()[j] as nat,
            states[0].patterns()[j].len(),
            t as nat,
        ),
    decreases t,
{
    if t > 0 {
        lemma_step_chain_position(states, gates, j, t - 1);
        let prev = states[t - 1];
        assert(prev.steps_to(states[t - 1 + 1], gates[t - 1]));
        assert(t - 1 + 1 == t);
        // Instantiates the step relation at layer `j`.
        let gate = gates[t - 1][j];
        assert(states[t].playheads()[j] == (prev.playheads()[j] + 1) % (prev.patterns()[j].len() as int));
        assert(playhead_after(states[0].playheads()[j] as nat, states[0].patterns()[j].len(), t as nat)
            == (playhead_after(
            states[0].playheads()[j] as nat,
            states[0].patterns()[j].len(),
            (t - 1) as nat,
        ) + 1) % states[0].patterns()[j].len());
    }
}

/// Sequencer periodicity, over any chain of `step` calls with nothing in
/// between: `states[t + 1]` and `gates[t]` are what the `t`-th call gives
/// from `states[t]`. Layer `j`'s gates then repeat with period `len`, the
/// length of its pattern, and its playhead is back where it was after `len`
/// calls.
pub proof fn lemma_step_chain_repeats<const NUM_SEQS: usize, const MAX_SEQLEN: usize>(
    states: Seq<Sequencer<NUM_SEQS, MAX_SEQLEN>>,
    gates: Seq<Seq<bool>>,
    j: int,
    k: int,
)
    requires
        states.len() == gates.len() + 1,
        forall|u: int| 0 <= u < gates.len() ==> #[trigger] states[u].steps_to(states[u + 1], gates[u]),
        0 <= j < NUM_SEQS,
        states[0].playheads()[j] < states[0].patterns()[j].len(),
        0 <= k,
        k + states[0].patterns()[j].len() < gates.len(),
    ensures
        gates[k + states[0].patterns()[j].len()][j] == gates[k][j],
        states[k + states[0].patterns()[j].len()].playheads()[j] == states[k].playheads()[j],
{
    let len = states[0].patterns()[j].len();
    let h = states[0].playheads()[j] as nat;
    lemma_step_chain_position(states, gates, j, k);
    lemma_step_chain_position(states, gates, j, k + len);
    lemma_gates_repeat(states[0].patterns()[j], h, k as nat);
    assert(states[k].steps_to(states[k + 1], gates[k]));
    assert(states[k + len].steps_to(states[k + len + 1], gates[k + len]));
}

/// `p` rotated right by `r` steps.
fn rotated_right(p: &Pattern, r: usize) -> (q: Pattern)
    requires
        r <= pattern_steps(*p).len(),
    ensures
        pattern_steps(q) == rotate_right(pattern_steps(*p), r as nat),
{
    let s = pattern_slice(p);
    let n = s.len();
    let mut q = pattern_new();
    append(&mut q, slice_subrange(s, n - r, n));
    append(&mut q, slice_subrange(s, 0, n - r));
    proof {
        assert(pattern_steps(q) =~= rotate_left(s@, (n - r) as nat));
    }
    q
}

/// The step sequencer: `NUM_SEQS` layers of at most `MAX_SEQLEN` steps.
#[derive(Debug)]
pub struct Sequencer<const NUM_SEQS: usize, const MAX_SEQLEN: usize> {
    sequences: [Pattern; NUM_SEQS],
    steps: [usize; NUM_SEQS],
    base_led_data: LedData,
}

/// The steps of each pattern in `sequences`.
pub open spec fn patterns_of<const N: usize>(sequences: [Pattern; N]) -> Seq<Seq<u8>> {
    Seq::new(N as nat, |i: int| pattern_steps(sequences[i]))
}

impl<const NUM_SEQS: usize, const MAX_SEQLEN: usize> Sequencer<NUM_SEQS, MAX_SEQLEN> {
    /// The pattern of each layer.
    pub closed spec fn patterns(&self) -> Seq<Seq<u8>> {
        patterns_of(self.sequences)
    }

    /// The playhead of each layer.
    pub closed spec fn playheads(&self) -> Seq<usize> {
        self.steps@
    }

    /// The cached frame of dim markers on every layer's hits.
    pub closed spec fn base_frame(&self) -> Seq<u32> {
        self.base_led_data@
    }

    /// Every layer fits the LED grid, every playhead is inside its pattern
    /// (or at 0 on an empty one), and the cached frame matches the patterns.
    pub open spec fn wf(&self) -> bool {
        &&& MAX_SEQLEN <= LED_SLOTS
        &&& self.patterns().len() == NUM_SEQS
        &&& self.playheads().len() == NUM_SEQS
        &&& self.base_frame().len() == LED_SLOTS
        &&& forall|i: int|
            0 <= i < NUM_SEQS ==> {
                &&& #[trigger] self.patterns()[i].len() <= MAX_SEQLEN
                &&& (self.playheads()[i] < self.patterns()[i].len() || (self.patterns()[i].len() == 0
                    && self.playheads()[i] == 0))
            }
        &&& forall|t: int|
            0 <= t < LED_SLOTS ==> #[trigger] self.base_frame()[t] == hit_marks(
                self.patterns(),
                NUM_SEQS as nat,
                t,
                DIM,
            )
    }

    /// `next` and `gates` are what one `step` call gives from this state:
    /// the patterns stay, each layer's gate is set when its playhead stands
    /// on a hit, and each playhead advances by one, wrapping around.
    pub open spec fn steps_to(&self, next: Self, gates: Seq<bool>) -> bool {
        &&& next.patterns() == self.patterns()
        &&& gates.len() == NUM_SEQS
        &&& forall|i: int|
            0 <= i < NUM_SEQS ==> {
                &&& #[trigger] gates[i] == (self.patterns()[i][self.playheads()[i] as int] == 1)
                &&& next.playheads()[i] == (self.playheads()[i] + 1) % (self.patterns()[i].len() as int)
            }
    }

    /// Every layer has a pattern of at least one step.
    pub open spec fn ready(&self) -> bool {
        forall|i: int| 0 <= i < NUM_SEQS ==> #[trigger] self.patterns()[i].len() > 0
    }

    /// The pattern of layer `i`.
    pub fn pattern(&self, i: usize) -> (r: &[u8])
        requires
            i < NUM_SEQS,
        ensures
            r@ == self.patterns()[i as int],
    {
        pattern_slice(&self.sequences[i])
    }

    /// The playhead of layer `i`.
    pub fn playhead(&self, i: usize) -> (r: usize)
        requires
            i < NUM_SEQS,
        ensures
            r == self.playheads()[i as int],
    {
        self.steps[i]
    }

    /// A fresh frame with a dim marker on every hit of every layer.
    pub(crate) fn hit_frame(&self) -> (r: LedData)
        requires
            self.wf(),
        ensures
            forall|t: int| 0 <= t < LED_SLOTS ==> #[trigger] r[t] == hit_marks(
                self.patterns(),
                NUM_SEQS as nat,
                t,
                DIM,
            ),
    {
        assert forall|i: int| 0 <= i < NUM_SEQS implies #[trigger] pattern_steps(self.sequences[i]).len()
            <= LED_SLOTS by {
            assert(self.patterns()[i].len() <= MAX_SEQLEN);
        }
        Self::build_base_led_data(&self.sequences)
    }

    /// Replaces layer `i` with the Euclidean pattern of `hits` hits over
    /// `len` steps, rotated right by `shift` modulo `len`; its playhead
    /// restarts at 0 and the cached frame is rebuilt.
    pub fn set_sequence(&mut self, i: usize, len: usize, hits: usize, shift: isize)
        requires
            old(self).wf(),
            i < NUM_SEQS,
            1 <= len <= MAX_SEQLEN,
            hits <= len,
        ensures
            final(self).wf(),
            final(self).patterns() == old(self).patterns().update(
                i as int,
                stored_pattern(len as nat, hits as nat, shift as int),
            ),
            final(self).playheads() == old(self).playheads().update(i as int, 0),
    {
        let r = match shift.checked_rem_euclid(len as isize) {
            Some(r) => r as usize,
            None => 0,
        };
        let base = euclidean_rhythm(hits, len);
        let rotated = rotated_right(&base, r);
        proof {
            lemma_rotate_left_counts(euclidean_pattern(hits as nat, len as nat), (len - r) as nat);
        }
        self.sequences[i] = rotated;
        self.steps[i] = 0;
        assert forall|j: int| 0 <= j < NUM_SEQS implies #[trigger] pattern_steps(self.sequences[j]).len()
            <= LED_SLOTS by {
            if j != i {
                assert(old(self).patterns()[j].len() <= MAX_SEQLEN);
            }
        }
        self.base_led_data = Self::build_base_led_data(&self.sequences);
        proof {
            assert(self.patterns() =~= old(self).patterns().update(
                i as int,
                stored_pattern(len as nat, hits as nat, shift as int),
            ));
            assert(self.playheads() =~= old(self).playheads().update(i as int, 0));
        }
    }

    /// The frame with a dim marker on every hit of every layer.
    fn build_base_led_data(sequences: &[Pattern; NUM_SEQS]) -> (r: LedData)
        requires
            forall|i: int| 0 <= i < NUM_SEQS ==> #[trigger] pattern_steps(sequences[i]).len() <= LED_SLOTS,
        ensures
            forall|t: int| 0 <= t < LED_SLOTS ==> #[trigger] r[t] == hit_marks(
                patterns_of(*sequences),
                NUM_SEQS as nat,
                t,
                DIM,
            ),
    {
        let ghost pats = patterns_of(*sequences);
        let mut led_data: LedData = [0u32; 16];
        let mut i: usize = 0;
        while i < NUM_SEQS
            invariant
                i <= NUM_SEQS,
                pats == patterns_of(*sequences),
                forall|j: int| 0 <= j < NUM_SEQS ==> #[trigger] pattern_steps(sequences[j]).len() <= LED_SLOTS,
                forall|t: int| 0 <= t < LED_SLOTS ==> #[trigger] led_data[t] == hit_marks(pats, i as nat, t, DIM),
            decreases NUM_SEQS - i,
        {
            let seq = pattern_slice(&sequences[i]);
            let color = layer_color(i, DIM);
            assert(seq@ == pats[i as int]);
            let mut t: usize = 0;
            while t < seq.len()
                invariant
                    t <= seq@.len() <= LED_SLOTS,
                    i < NUM_SEQS,
                    seq@ == pats[i as int],
                    pats.len() == NUM_SEQS,
                    color == crate::view::layer_color_spec(i as int, DIM),
                    forall|u: int|
                        0 <= u < LED_SLOTS ==> #[trigger] led_data[u] == if u < t {
                            hit_marks(pats, (i + 1) as nat, u, DIM)
                        } else {
                            hit_marks(pats, i as nat, u, DIM)
                        },
                decreases seq@.len() - t,
            {
                let old_val = led_data[t];
                if seq[t] == 1 {
                    led_data[t] = old_val | color;
                } else {
                    proof {
                        assert(old_val | 0 == old_val) by (bit_vector);
                    }
                }
                t += 1;
            }
            proof {
                assert forall|u: int| t <= u < LED_SLOTS implies #[trigger] hit_marks(pats, (i + 1) as nat, u, DIM)
                    == hit_marks(pats, i as nat, u, DIM) by {
                    let x = hit_marks(pats, i as nat, u, DIM);
                    assert(x | 0 == x) by (bit_vector);
                }
            }
            i += 1;
        }
        led_data
    }

    /// Plays one step: each layer emits a gate when its playhead stands on a
    /// hit, which also lights that slot brightly on top of the cached frame;
    /// then every playhead advances, wrapping at the end of its pattern.
    pub fn step(&mut self) -> (r: ([bool; NUM_SEQS], LedData))
        requires
            old(self).wf(),
            old(self).ready(),
        ensures
            final(self).wf(),
            final(self).ready(),
            final(self).patterns() == old(self).patterns(),
            old(self).steps_to(*final(self), r.0@),
            forall|i: int|
                0 <= i < NUM_SEQS ==> #[trigger] r.0[i] == (old(self).patterns()[i][old(
                    self,
                ).playheads()[i] as int] == 1),
            forall|i: int|
                0 <= i < NUM_SEQS ==> #[trigger] final(self).playheads()[i] == (old(self).playheads()[i]
                    + 1) % (old(self).patterns()[i].len() as int),
            forall|t: int|
                0 <= t < LED_SLOTS ==> #[trigger] r.1[t] == old(self).base_frame()[t] | playhead_marks(
                    old(self).patterns(),
                    old(self).playheads(),
                    NUM_SEQS as nat,
                    t,
                ),
    {
        let ghost pats = self.patterns();
        let ghost heads = self.playheads();
        let mut gates: [bool; NUM_SEQS] = array_fill_for_copy_types(false);
        let mut led_data = self.base_led_data;
        proof {
            assert forall|t: int| 0 <= t < LED_SLOTS implies #[trigger] led_data[t] == old(
                self,
            ).base_frame()[t] | playhead_marks(pats, heads, 0, t) by {
                let b = led_data[t];
                assert(b | 0 == b) by (bit_vector);
            }
        }
        let mut i: usize = 0;
        while i < NUM_SEQS
            invariant
                i <= NUM_SEQS,
                pats == old(self).patterns(),
                heads == old(self).playheads(),
                self.patterns() == pats,
                self.base_frame() == old(self).base_frame(),
                old(self).wf(),
                old(self).ready(),
                forall|j: int|
                    0 <= j < NUM_SEQS ==> #[trigger] self.playheads()[j] == if j < i {
                        ((heads[j] + 1) % (pats[j].len() as int)) as usize
                    } else {
                        heads[j]
                    },
                forall|j: int| 0 <= j < i ==> #[trigger] gates[j] == (pats[j][heads[j] as int] == 1),
                forall|t: int|
                    0 <= t < LED_SLOTS ==> #[trigger] led_data[t] == old(self).base_frame()[t]
                        | playhead_marks(pats, heads, i as nat, t),
            decreases NUM_SEQS - i,
        {
            let seq = pattern_slice(&self.sequences[i]);
            let step = self.steps[i];
            assert(seq@ == pats[i as int]);
            assert(old(self).patterns()[i as int].len() > 0);
            assert(old(self).playheads()[i as int] < old(self).patterns()[i as int].len());
            assert(self.playheads()[i as int] == heads[i as int]);
            assert(step == heads[i as int]);
            let hit = seq[step] == 1;
            gates[i] = hit;
            if hit {
                let color = layer_color(i, BRIGHT);
                let old_val = led_data[step];
                led_data[step] = old_val | color;
                proof {
                    let b = old(self).base_frame()[step as int];
                    let m = playhead_marks(pats, heads, i as nat, step as int);
                    assert((b | m) | color == b | (m | color)) by (bit_vector);
                    assert(playhead_marks(pats, heads, (i + 1) as nat, step as int) == m | color);
                    assert forall|t: int| 0 <= t < LED_SLOTS && t != step implies #[trigger] playhead_marks(
                        pats,
                        heads,
                        (i + 1) as nat,
                        t,
                    ) == playhead_marks(pats, heads, i as nat, t) by {
                        let x = playhead_marks(pats, heads, i as nat, t);
                        assert(x | 0 == x) by (bit_vector);
                    }
                    assert forall|t: int| 0 <= t < LED_SLOTS implies #[trigger] led_data[t] == old(
                        self,
                    ).base_frame()[t] | playhead_marks(pats, heads, (i + 1) as nat, t) by {
                        if t != step {
                            assert(playhead_marks(pats, heads, (i + 1) as nat, t) == playhead_marks(
                                pats,
                                heads,
                                i as nat,
                                t,
                            ));
                        }
                    }
                }
            } else {
                proof {
                    assert forall|t: int| 0 <= t < LED_SLOTS implies #[trigger] playhead_marks(
                        pats,
                        heads,
                        (i + 1) as nat,
                        t,
                    ) == playhead_marks(pats, heads, i as nat, t) by {
                        let x = playhead_marks(pats, heads, i as nat, t);
                        assert(x | 0 == x) by (bit_vector);
                    }
                    assert forall|t: int| 0 <= t < LED_SLOTS implies #[trigger] led_data[t] == old(
                        self,
                    ).base_frame()[t] | playhead_marks(pats, heads, (i + 1) as nat, t) by {
                        assert(playhead_marks(pats, heads, (i + 1) as nat, t) == playhead_marks(
                            pats,
                            heads,
                            i as nat,
                            t,
                        ));
                    }
                }
            }
            let next = step + 1;
            let ghost before = self.playheads();
            let wrapped = if next >= seq.len() {
                0
            } else {
                next
            };
            self.steps[i] = wrapped;
            proof {
                assert(self.playheads() == before.update(i as int, wrapped));
                if next >= seq@.len() {
                    lemma_mod_self_0(seq@.len() as int);
                } else {
                    lemma_small_mod(next as nat, seq@.len());
                }
            }
            i += 1;
        }
        (gates, led_data)
    }

    /// Moves every playhead back to the start of its pattern.
    pub fn reset_steps(&mut self)
        requires
            old(self).wf(),
        ensures
            final(self).wf(),
            final(self).patterns() == old(self).patterns(),
            final(self).playheads() == Seq::new(NUM_SEQS as nat, |i: int| 0usize),
    {
        self.steps = array_fill_for_copy_types(0);
        proof {
            assert(self.playheads() =~= Seq::new(NUM_SEQS as nat, |i: int| 0usize));
        }
    }
}

impl<const NUM_SEQS: usize, const MAX_SEQLEN: usize> Default for Sequencer<NUM_SEQS, MAX_SEQLEN> {
    /// Empty patterns on every layer, all playheads at 0.
    fn default() -> (s: Self)
        ensures
            MAX_SEQLEN <= LED_SLOTS ==> s.wf(),
            forall|i: int| 0 <= i < NUM_SEQS ==> #[trigger] s.patterns()[i] == Seq::<u8>::empty(),
            forall|i: int| 0 <= i < NUM_SEQS ==> #[trigger] s.playheads()[i] == 0,
    {
        let seqs = array_from_fn(|_i: usize| -> (p: Pattern)
            ensures
                pattern_steps(p).len() == 0,
            { empty_pattern() });
        let base_led_data = Self::build_base_led_data(&seqs);
        let s = Self { sequences: seqs, steps: array_fill_for_copy_types(0), base_led_data };
        proof {
            assert(s.patterns().len() == NUM_SEQS);
        }
        s
    }
}

} // verus!
