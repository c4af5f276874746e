//! Shift-register debouncers: the model of one update, and the trusted
//! bridge to the `debouncr` crate that performs it.

use debouncr::{debounce_stateful_2, debounce_stateful_4, DebouncerStateful, Repeat2, Repeat4};
use vstd::arithmetic::div_mod::{lemma_mod_bound, lemma_mod_breakdown, lemma_mod_mod};
use vstd::prelude::*;

verus! {

/// A debounced level change.
#[derive(Debug, Clone, Copy, PartialEq, Eq, Structural)]
pub enum Edge {
    Rising,
    Falling,
}

/// Window mask of a debouncer that needs four agreeing samples.
pub const SWITCH_MASK: u8 = 0b1111;

/// Window mask of a debouncer that needs two agreeing samples.
pub const PHASE_MASK: u8 = 0b11;

/// The sample window after shifting in `pressed`: the newest sample is the
/// lowest bit, and only as many samples as `mask` has bits are kept.
pub open spec fn shifted_window(mask: u8, window: u8, pressed: bool) -> u8 {
    ((2 * window + if pressed { 1int } else { 0int }) % (mask + 1)) as u8
}

/// The edge reported by an update: the window becomes full (all samples
/// high) while the latched level is low, or empty while it is high. A
/// sample that leaves a full or empty window as it was reports nothing.
pub open spec fn debounced_edge(mask: u8, window: u8, high: bool, pressed: bool) -> Option<Edge> {
    if (window == mask && pressed) || (window == 0 && !pressed) {
        None
    } else if shifted_window(mask, window, pressed) == mask && !high {
        Some(Edge::Rising)
    } else if shifted_window(mask, window, pressed) == 0 && high {
        Some(Edge::Falling)
    } else {
        None
    }
}

/// The latched level after an update: the direction of the reported edge,
/// if any.
pub open spec fn latched_after(mask: u8, window: u8, high: bool, pressed: bool) -> bool {
    match debounced_edge(mask, window, high, pressed) {
        Some(Edge::Rising) => true,
        Some(Edge::Falling) => false,
        None => high,
    }
}

/// The stateful debouncer of the `debouncr` crate: a window of recent
/// samples and the last edge reported, seen only through the names and
/// functions below.
#[verifier::external_type_specification]
#[verifier::external_body]
#[verifier::reject_recursive_types(S)]
#[verifier::reject_recursive_types(M)]
pub struct ExDebouncerStateful<S, M>(DebouncerStateful<S, M>);

/// The `debouncr` marker for a four-sample window.
#[verifier::external_type_specification]
#[verifier::external_body]
pub struct ExRepeat4(Repeat4);

/// The `debouncr` marker for a two-sample window.
#[verifier::external_type_specification]
#[verifier::external_body]
pub struct ExRepeat2(Repeat2);

/// The samples held by a four-sample debouncer, newest in the lowest bit.
pub uninterp spec fn switch_window(d: DebouncerStateful<u8, Repeat4>) -> u8;

/// Whether the last edge a four-sample debouncer reported was rising.
pub uninterp spec fn switch_latched(d: DebouncerStateful<u8, Repeat4>) -> bool;

/// The samples held by a two-sample debouncer, newest in the lowest bit.
pub uninterp spec fn phase_window(d: DebouncerStateful<u8, Repeat2>) -> u8;

/// Whether the last edge a two-sample debouncer reported was rising.
pub uninterp spec fn phase_latched(d: DebouncerStateful<u8, Repeat2>) -> bool;

/// Relies on `debouncr::debounce_stateful_4`: the window is filled with the
/// initial level, and the latched edge matches it.
#[verifier::external_body]
pub(crate) fn new_switch_debouncer(initial: bool) -> (d: DebouncerStateful<u8, Repeat4>)
    ensures
        switch_window(d) == if initial { SWITCH_MASK } else { 0 },
        switch_latched(d) == initial,
{
    debounce_stateful_4(initial)
}

/// Relies on `DebouncerStateful::<u8, Repeat4>::update`: the sample is
/// shifted into the window, and an edge is reported only when the window
/// turns full or empty against the latched level.
#[verifier::external_body]
pub(crate) fn switch_debouncer_update(d: &mut DebouncerStateful<u8, Repeat4>, pressed: bool) -> (r:
    Option<Edge>)
    ensures
        r == debounced_edge(SWITCH_MASK, switch_window(*old(d)), switch_latched(*old(d)), pressed),
        switch_window(*final(d)) == shifted_window(SWITCH_MASK, switch_window(*old(d)), pressed),
        switch_latched(*final(d)) == latched_after(
            SWITCH_MASK,
            switch_window(*old(d)),
            switch_latched(*old(d)),
            pressed,
        ),
{
    match d.update(pressed) {
        Some(debouncr::Edge::Rising) => Some(Edge::Rising),
        Some(debouncr::Edge::Falling) => Some(Edge::Falling),
        None => None,
    }
}

/// Relies on `debouncr::debounce_stateful_2`: the window is filled with the
/// initial level, and the latched edge matches it.
#[verifier::external_body]
pub(crate) fn new_phase_debouncer(initial: bool) -> (d: DebouncerStateful<u8, Repeat2>)
    ensures
        phase_window(d) == if initial { PHASE_MASK } else { 0 },
        phase_latched(d) == initial,
{
    debounce_stateful_2(initial)
}

/// Relies on `DebouncerStateful::<u8, Repeat2>::update`: the sample is
/// shifted into the window, and an edge is reported only when the window
/// turns full or empty against the latched level.
#[verifier::external_body]
pub(crate) fn phase_debouncer_update(d: &mut DebouncerStateful<u8, Repeat2>, pressed: bool) -> (r:
    Option<Edge>)
    ensures
        r == debounced_edge(PHASE_MASK, phase_window(*old(d)), phase_latched(*old(d)), pressed),
        phase_window(*final(d)) == shifted_window(PHASE_MASK, phase_window(*old(d)), pressed),
        phase_latched(*final(d)) == latched_after(
            PHASE_MASK,
            phase_window(*old(d)),
            phase_latched(*old(d)),
            pressed,
        ),
{
    match d.update(pressed) {
        Some(debouncr::Edge::Rising) => Some(Edge::Rising),
        Some(debouncr::Edge::Falling) => Some(Edge::Falling),
        None => None,
    }
}

/// Number of agreeing samples a debouncer with window mask `mask` needs.
pub open spec fn window_depth(mask: u8) -> nat {
    if mask == SWITCH_MASK {
        4
    } else {
        2
    }
}

/// The window after feeding `samples`, oldest first.
pub open spec fn window_after_run(mask: u8, window: u8, samples: Seq<bool>) -> u8
    decreases samples.len(),
{
    if samples.len() == 0 {
        window
    } else {
        shifted_window(mask, window_after_run(mask, window, samples.drop_last()), samples.last())
    }
}

/// The latched level after feeding `samples`, oldest first.
pub open spec fn latched_after_run(mask: u8, window: u8, high: bool, samples: Seq<bool>) -> bool
    decreases samples.len(),
{
    if samples.len() == 0 {
        high
    } else {
        latched_after(
            mask,
            window_after_run(mask, window, samples.drop_last()),
            latched_after_run(mask, window, high, samples.drop_last()),
            samples.last(),
        )
    }
}

/// The edge reported on the last of `samples` (which is not empty).
pub open spec fn edge_on_last(mask: u8, window: u8, high: bool, samples: Seq<bool>) -> Option<Edge> {
    debounced_edge(
        mask,
        window_after_run(mask, window, samples.drop_last()),
        latched_after_run(mask, window, high, samples.drop_last()),
        samples.last(),
    )
}

/// A debouncer has settled: its window agrees with its latched level.
pub open spec fn settled(mask: u8, window: u8, high: bool) -> bool {
    (window == 0 && !high) || (window == mask && high)
}

spec fn two_to(k: nat) -> nat
    decreases k,
{
    if k == 0 {
        1
    } else {
        2 * two_to((k - 1) as nat)
    }
}

proof fn lemma_short_run_bounds(mask: u8, window: u8, high: bool, s: Seq<bool>)
    requires
        mask == SWITCH_MASK || mask == PHASE_MASK,
        settled(mask, window, high),
        s.len() < window_depth(mask),
    ensures
        !high ==> window_after_run(mask, window, s) < two_to(s.len()),
        high ==> window_after_run(mask, window, s) + two_to(s.len()) >= mask + 1,
        window_after_run(mask, window, s) <= mask,
        latched_after_run(mask, window, high, s) == high,
        s.len() > 0 ==> edge_on_last(mask, window, high, s) is None,
    decreases s.len(),
{
    reveal_with_fuel(two_to, 4);
    if s.len() > 0 {
        let p = s.drop_last();
        lemma_short_run_bounds(mask, window, high, p);
        let w = window_after_run(mask, window, p);
        let x = 2 * w + if s.last() { 1int } else { 0int };
        assert(two_to(s.len()) == 2 * two_to(p.len()));
        assert(two_to(s.len()) <= (mask + 1) / 2);
        if !high {
            assert(x < mask + 1);
            assert(shifted_window(mask, w, s.last()) == x);
        } else {
            assert(x >= mask + 1);
            assert(shifted_window(mask, w, s.last()) == x - (mask + 1));
        }
    }
}

/// Debouncing: from a settled state, fewer samples than the window holds,
/// whatever their levels, never report an edge and never change the
/// latched level.
pub proof fn lemma_short_run_keeps_level(mask: u8, window: u8, high: bool, samples: Seq<bool>)
    requires
        mask == SWITCH_MASK || mask == PHASE_MASK,
        settled(mask, window, high),
        samples.len() < window_depth(mask),
    ensures
        forall|k: int|
            0 <= k <= samples.len() ==> latched_after_run(
                mask,
                window,
                high,
                #[trigger] samples.subrange(0, k),
            ) == high,
        forall|k: int|
            1 <= k <= samples.len() ==> edge_on_last(mask, window, high, #[trigger] samples.subrange(0, k))
                is None,
{
    assert forall|k: int| 0 <= k <= samples.len() implies latched_after_run(
        mask,
        window,
        high,
        #[trigger] samples.subrange(0, k),
    ) == high && (k >= 1 ==> edge_on_last(mask, window, high, samples.subrange(0, k)) is None) by {
        lemma_short_run_bounds(mask, window, high, samples.subrange(0, k));
    }
}


proof fn lemma_two_to_add(a: nat, b: nat)
    ensures
        two_to(a + b) == two_to(a) * two_to(b),
        two_to(a) > 0,
    decreases a,
{
    if a == 0 {
        assert(two_to(0) == 1);
        assert(a + b == b);
    } else {
        lemma_two_to_add((a - 1) as nat, b);
        assert(two_to(a) == 2 * two_to((a - 1) as nat));
        assert(two_to(a + b) == 2 * two_to((a - 1 + b) as nat));
        assert(2 * (two_to((a - 1) as nat) * two_to(b)) == (2 * two_to((a - 1) as nat)) * two_to(b))
            by (nonlinear_arith);
    }
}

/// The low `j` bits of the window after one more sample: the newest sample
/// in bit 0, above it the low `j - 1` bits of the window before.
proof fn lemma_low_bits_step(mask: u8, w: int, b: int, j: nat)
    requires
        mask == SWITCH_MASK || mask == PHASE_MASK,
        1 <= j <= window_depth(mask),
        0 <= w,
        b == 0 || b == 1,
    ensures
        ((2 * w + b) % (mask + 1)) % (two_to(j) as int) == 2 * (w % (two_to((j - 1) as nat) as int))
            + b,
        w % (two_to((j - 1) as nat) as int) < two_to((j - 1) as nat),
{
    reveal_with_fuel(two_to, 5);
    let x = 2 * w + b;
    let m = two_to(j) as int;
    let m2 = two_to((j - 1) as nat) as int;
    let depth = window_depth(mask);
    lemma_two_to_add(j, (depth - j) as nat);
    lemma_two_to_add((j - 1) as nat, 0);
    assert(mask + 1 == two_to(depth));
    lemma_mod_mod(x, m, two_to((depth - j) as nat) as int);
    assert(m == 2 * m2);
    lemma_mod_breakdown(x, 2, m2);
    assert(x / 2 == w);
    assert(x % 2 == b);
    lemma_mod_bound(w, m2);
}

/// When the low `j` bits of the window are all set, the last `j` samples
/// were all high; when they are all clear, all low.
proof fn lemma_low_bits_are_samples(mask: u8, window: u8, s: Seq<bool>, j: nat)
    requires
        mask == SWITCH_MASK || mask == PHASE_MASK,
        1 <= j <= window_depth(mask),
        j <= s.len(),
    ensures
        (window_after_run(mask, window, s) as int) % (two_to(j) as int) == two_to(j) - 1 ==> forall|
            i: int,
        |
            s.len() - j <= i < s.len() ==> #[trigger] s[i],
        (window_after_run(mask, window, s) as int) % (two_to(j) as int) == 0 ==> forall|i: int|
            s.len() - j <= i < s.len() ==> !#[trigger] s[i],
    decreases j,
{
    reveal_with_fuel(two_to, 5);
    let p = s.drop_last();
    let w = window_after_run(mask, window, p) as int;
    let b = if s.last() {
        1int
    } else {
        0int
    };
    assert(window_after_run(mask, window, s) == (2 * w + b) % (mask + 1));
    lemma_low_bits_step(mask, w, b, j);
    lemma_two_to_add((j - 1) as nat, 0);
    if j > 1 {
        lemma_low_bits_are_samples(mask, window, p, (j - 1) as nat);
    }
    assert forall|i: int| s.len() - j <= i < s.len() - 1 implies #[trigger] s[i] == p[i] by {}
}

/// Debouncing, for any sample history from a settled state: an edge is
/// reported only when the last `window_depth(mask)` samples, the current one
/// included, all agree with it, and the latched level changes only with an
/// edge. A run of fewer agreeing samples therefore never reports an edge nor
/// flips the latched level.
pub proof fn lemma_edge_needs_full_run(mask: u8, window: u8, high: bool, samples: Seq<bool>)
    requires
        mask == SWITCH_MASK || mask == PHASE_MASK,
        settled(mask, window, high),
        samples.len() >= 1,
    ensures
        edge_on_last(mask, window, high, samples) == Some(Edge::Rising) ==> {
            &&& samples.len() >= window_depth(mask)
            &&& forall|i: int|
                samples.len() - window_depth(mask) <= i < samples.len() ==> #[trigger] samples[i]
        },
        edge_on_last(mask, window, high, samples) == Some(Edge::Falling) ==> {
            &&& samples.len() >= window_depth(mask)
            &&& forall|i: int|
                samples.len() - window_depth(mask) <= i < samples.len() ==> !#[trigger] samples[i]
        },
        latched_after_run(mask, window, high, samples) != latched_after_run(
            mask,
            window,
            high,
            samples.drop_last(),
        ) ==> edge_on_last(mask, window, high, samples) is Some,
{
    reveal_with_fuel(two_to, 5);
    let n = window_depth(mask);
    if samples.len() < n {
        lemma_short_run_bounds(mask, window, high, samples);
    } else {
        let w = window_after_run(mask, window, samples);
        assert(w == shifted_window(
            mask,
            window_after_run(mask, window, samples.drop_last()),
            samples.last(),
        ));
        if edge_on_last(mask, window, high, samples) == Some(Edge::Rising) {
            assert(w == mask);
            lemma_low_bits_are_samples(mask, window, samples, n);
        }
        if edge_on_last(mask, window, high, samples) == Some(Edge::Falling) {
            assert(w == 0);
            lemma_low_bits_are_samples(mask, window, samples, n);
        }
    }
}

} // verus!
