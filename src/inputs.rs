//! Decoding of the push switches and rotary encoders from raw pin levels.

use crate::debounce::{
    debounced_edge, latched_after, new_phase_debouncer, new_switch_debouncer, phase_debouncer_update,
    phase_latched, phase_window, shifted_window, switch_debouncer_update, switch_latched, switch_window,
    Edge, PHASE_MASK, SWITCH_MASK,
};
use debouncr::{DebouncerStateful, Repeat2, Repeat4};
use vstd::prelude::*;

verus! {

/// Direction of one detent of a rotary encoder.
#[derive(Debug, Clone, Copy, PartialEq, Eq, Structural)]
pub enum RotDirection {
    /// Clockwise.
    Cw,
    /// Counter-clockwise.
    Ccw,
}

/// What an encoder reported on one poll: a direction, or nothing.
pub type RotEvent = Option<RotDirection>;

/// The signed step of a direction: +1 clockwise, -1 counter-clockwise.
pub open spec fn direction_step(d: RotDirection) -> int {
    match d {
        RotDirection::Cw => 1,
        RotDirection::Ccw => -1,
    }
}

impl From<RotDirection> for isize {
    fn from(event: RotDirection) -> (r: isize)
        ensures
            r == direction_step(event),
    {
        match event {
            RotDirection::Cw => 1,
            RotDirection::Ccw => -1,
        }
    }
}

impl vstd::std_specs::convert::FromSpecImpl<RotDirection> for isize {
    open spec fn obeys_from_spec() -> bool {
        true
    }

    open spec fn from_spec(v: RotDirection) -> isize {
        direction_step(v) as isize
    }
}

/// What a switch reported on one poll.
#[derive(Debug, Clone, Copy, PartialEq, Eq, Structural)]
pub struct SwitchEvent {
    /// The debounced edge, on the poll where the stable level changed.
    pub edge: Option<Edge>,
    /// All samples in the window are high.
    pub is_high: bool,
    /// All samples in the window are low.
    pub is_low: bool,
}

/// Everything the controls reported on one poll.
#[derive(Debug, Clone, Copy, PartialEq, Eq, Structural)]
pub struct InputEvent {
    pub switch_a: SwitchEvent,
    pub switch_b: SwitchEvent,
    pub switch_c: SwitchEvent,
    pub switch_d: SwitchEvent,
    pub rot_a: RotEvent,
    pub rot_b: RotEvent,
    pub rot_c: RotEvent,
    pub rot_d: RotEvent,
}

/// The raw levels read from the input lines on one poll (true = active).
/// An encoder gives the levels of its two phase lines, A then B.
#[derive(Debug, Clone, Copy)]
pub struct InputLevels {
    pub switch_a: bool,
    pub switch_b: bool,
    pub switch_c: bool,
    pub switch_d: bool,
    pub rot_a: (bool, bool),
    pub rot_b: (bool, bool),
    pub rot_c: (bool, bool),
    pub rot_d: (bool, bool),
}

/// The stable level after a poll that reported `edge`: the direction of the
/// edge, if any, and otherwise the level before.
fn level_after(level: bool, edge: Option<Edge>) -> (r: bool)
    ensures
        r == match edge {
            Some(Edge::Rising) => true,
            Some(Edge::Falling) => false,
            None => level,
        },
{
    match edge {
        Some(Edge::Rising) => true,
        Some(Edge::Falling) => false,
        None => level,
    }
}

/// A push switch, debounced over four samples.
pub struct Switch {
    debouncer: DebouncerStateful<u8, Repeat4>,
    /// The stable level, kept equal to the direction of the last edge.
    level: bool,
}

impl Switch {
    #[verifier::type_invariant]
    spec fn level_follows_edges(&self) -> bool {
        self.level == switch_latched(self.debouncer)
    }

    /// The last four samples, newest in the lowest bit.
    pub closed spec fn window(&self) -> u8 {
        switch_window(self.debouncer)
    }

    /// The stable level: it turns high once four samples in a row are high,
    /// low once four in a row are low, and otherwise stays as it was.
    pub closed spec fn latched(&self) -> bool {
        switch_latched(self.debouncer)
    }

    /// What `update(input)` reports from this state: the edge on the poll
    /// where the stable level changes, and the stable level after the poll.
    pub open spec fn event_for(&self, input: bool) -> SwitchEvent {
        SwitchEvent {
            edge: debounced_edge(SWITCH_MASK, self.window(), self.latched(), input),
            is_high: latched_after(SWITCH_MASK, self.window(), self.latched(), input),
            is_low: !latched_after(SWITCH_MASK, self.window(), self.latched(), input),
        }
    }

    /// This state is the one `update(input)` leaves `prev` in.
    pub open spec fn follows(&self, prev: Switch, input: bool) -> bool {
        &&& self.window() == shifted_window(SWITCH_MASK, prev.window(), input)
        &&& self.latched() == latched_after(SWITCH_MASK, prev.window(), prev.latched(), input)
    }

    /// Takes one raw sample and reports the debounced state.
    pub fn update(&mut self, input: bool) -> (e: SwitchEvent)
        ensures
            e == old(self).event_for(input),
            final(self).follows(*old(self), input),
            e.is_high == final(self).latched(),
            e.is_low == !final(self).latched(),
    {
        let mut current = Switch::default();
        core::mem::swap(self, &mut current);
        proof {
            use_type_invariant(&current);
        }
        let Switch { mut debouncer, level } = current;
        let edge = switch_debouncer_update(&mut debouncer, input);
        let level = level_after(level, edge);
        *self = Switch { debouncer, level };
        SwitchEvent { edge, is_high: level, is_low: !level }
    }
}

impl Default for Switch {
    /// A released switch.
    fn default() -> (s: Self)
        ensures
            s.window() == 0,
            !s.latched(),
    {
        Switch { debouncer: new_switch_debouncer(false), level: false }
    }
}

/// The direction reported for a debounced edge of phase A, given the stable
/// level of phase B after the same poll: a rising edge of A with B low is
/// clockwise, with B high counter-clockwise; anything else reports nothing.
pub open spec fn rotation(edge_a: Option<Edge>, level_b: bool) -> RotEvent {
    if edge_a == Some(Edge::Rising) {
        if level_b {
            Some(RotDirection::Ccw)
        } else {
            Some(RotDirection::Cw)
        }
    } else {
        None
    }
}

/// A rotary encoder: two phase lines, each debounced over two samples.
pub struct RotEnc {
    pin_a: DebouncerStateful<u8, Repeat2>,
    pin_b: DebouncerStateful<u8, Repeat2>,
    /// The stable level of phase B, kept equal to the direction of its last
    /// edge (phase A is read through its edges alone).
    level_b: bool,
}

impl RotEnc {
    #[verifier::type_invariant]
    spec fn level_follows_edges(&self) -> bool {
        self.level_b == phase_latched(self.pin_b)
    }

    /// The last two samples of phase A, newest in the lowest bit.
    pub closed spec fn window_a(&self) -> u8 {
        phase_window(self.pin_a)
    }

    /// The stable level of phase A.
    pub closed spec fn latched_a(&self) -> bool {
        phase_latched(self.pin_a)
    }

    /// The last two samples of phase B, newest in the lowest bit.
    pub closed spec fn window_b(&self) -> u8 {
        phase_window(self.pin_b)
    }

    /// The stable level of phase B.
    pub closed spec fn latched_b(&self) -> bool {
        phase_latched(self.pin_b)
    }

    /// What `update(a, b)` reports from this state.
    pub open spec fn event_for(&self, a: bool, b: bool) -> RotEvent {
        rotation(
            debounced_edge(PHASE_MASK, self.window_a(), self.latched_a(), a),
            latched_after(PHASE_MASK, self.window_b(), self.latched_b(), b),
        )
    }

    /// This state is the one `update(a, b)` leaves `prev` in.
    pub open spec fn follows(&self, prev: RotEnc, a: bool, b: bool) -> bool {
        &&& self.window_a() == shifted_window(PHASE_MASK, prev.window_a(), a)
        &&& self.latched_a() == latched_after(PHASE_MASK, prev.window_a(), prev.latched_a(), a)
        &&& self.window_b() == shifted_window(PHASE_MASK, prev.window_b(), b)
        &&& self.latched_b() == latched_after(PHASE_MASK, prev.window_b(), prev.latched_b(), b)
    }

    /// Takes one raw sample of each phase and reports a detent, if any.
    pub fn update(&mut self, pin_a: bool, pin_b: bool) -> (r: RotEvent)
        ensures
            r == old(self).event_for(pin_a, pin_b),
            final(self).follows(*old(self), pin_a, pin_b),
    {
        let mut current = RotEnc::default();
        core::mem::swap(self, &mut current);
        proof {
            use_type_invariant(&current);
        }
        let RotEnc { pin_a: mut phase_a, pin_b: mut phase_b, level_b } = current;
        let edge_a = phase_debouncer_update(&mut phase_a, pin_a);
        let edge_b = phase_debouncer_update(&mut phase_b, pin_b);
        let level_b = level_after(level_b, edge_b);
        *self = RotEnc { pin_a: phase_a, pin_b: phase_b, level_b };
        match edge_a {
            Some(Edge::Rising) => {
                if level_b {
                    Some(RotDirection::Ccw)
                } else {
                    Some(RotDirection::Cw)
                }
            },
            _ => None,
        }
    }
}

impl Default for RotEnc {
    /// An encoder with both phases low.
    fn default() -> (r: Self)
        ensures
            r.window_a() == 0,
            !r.latched_a(),
            r.window_b() == 0,
            !r.latched_b(),
    {
        RotEnc {
            pin_a: new_phase_debouncer(false),
            pin_b: new_phase_debouncer(false),
            level_b: false,
        }
    }
}

/// The decoders of all controls: four switches and four encoders.
pub struct Inputs {
    pub switch_a: Switch,
    pub switch_b: Switch,
    pub switch_c: Switch,
    pub switch_d: Switch,
    pub rot_a: RotEnc,
    pub rot_b: RotEnc,
    pub rot_c: RotEnc,
    pub rot_d: RotEnc,
}

impl Inputs {
    /// Takes one poll of raw levels and reports what every control did.
    pub fn update(&mut self, levels: InputLevels) -> (ev: InputEvent)
        ensures
            ev.switch_a == old(self).switch_a.event_for(levels.switch_a),
            ev.switch_b == old(self).switch_b.event_for(levels.switch_b),
            ev.switch_c == old(self).switch_c.event_for(levels.switch_c),
            ev.switch_d == old(self).switch_d.event_for(levels.switch_d),
            ev.rot_a == old(self).rot_a.event_for(levels.rot_a.0, levels.rot_a.1),
            ev.rot_b == old(self).rot_b.event_for(levels.rot_b.0, levels.rot_b.1),
            ev.rot_c == old(self).rot_c.event_for(levels.rot_c.0, levels.rot_c.1),
            ev.rot_d == old(self).rot_d.event_for(levels.rot_d.0, levels.rot_d.1),
            final(self).switch_a.follows(old(self).switch_a, levels.switch_a),
            final(self).switch_b.follows(old(self).switch_b, levels.switch_b),
            final(self).switch_c.follows(old(self).switch_c, levels.switch_c),
            final(self).switch_d.follows(old(self).switch_d, levels.switch_d),
            final(self).rot_a.follows(old(self).rot_a, levels.rot_a.0, levels.rot_a.1),
            final(self).rot_b.follows(old(self).rot_b, levels.rot_b.0, levels.rot_b.1),
            final(self).rot_c.follows(old(self).rot_c, levels.rot_c.0, levels.rot_c.1),
            final(self).rot_d.follows(old(self).rot_d, levels.rot_d.0, levels.rot_d.1),
    {
        InputEvent {
            switch_a: self.switch_a.update(levels.switch_a),
            switch_b: self.switch_b.update(levels.switch_b),
            switch_c: self.switch_c.update(levels.switch_c),
            switch_d: self.switch_d.update(levels.switch_d),
            rot_a: self.rot_a.update(levels.rot_a.0, levels.rot_a.1),
            rot_b: self.rot_b.update(levels.rot_b.0, levels.rot_b.1),
            rot_c: self.rot_c.update(levels.rot_c.0, levels.rot_c.1),
            rot_d: self.rot_d.update(levels.rot_d.0, levels.rot_d.1),
        }
    }
}

impl Default for Inputs {
    /// All switches released and all encoder phases low.
    fn default() -> (r: Self)
        ensures
            r.switch_a.window() == 0 && !r.switch_a.latched(),
            r.switch_b.window() == 0 && !r.switch_b.latched(),
            r.switch_c.window() == 0 && !r.switch_c.latched(),
            r.switch_d.window() == 0 && !r.switch_d.latched(),
            r.rot_a.window_a() == 0 && !r.rot_a.latched_a() && r.rot_a.window_b() == 0 && !r.rot_a.latched_b(),
            r.rot_b.window_a() == 0 && !r.rot_b.latched_a() && r.rot_b.window_b() == 0 && !r.rot_b.latched_b(),
            r.rot_c.window_a() == 0 && !r.rot_c.latched_a() && r.rot_c.window_b() == 0 && !r.rot_c.latched_b(),
            r.rot_d.window_a() == 0 && !r.rot_d.latched_a() && r.rot_d.window_b() == 0 && !r.rot_d.latched_b(),
    {
        Inputs {
            switch_a: Switch::default(),
            switch_b: Switch::default(),
            switch_c: Switch::default(),
            switch_d: Switch::default(),
            rot_a: RotEnc::default(),
            rot_b: RotEnc::default(),
            rot_c: RotEnc::default(),
            rot_d: RotEnc::default(),
        }
    }
}

} // verus!
