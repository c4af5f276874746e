//! LED multiplexing: which two slots each sub-step lights, and the PWM duty
//! values that show their colours.

use crate::view::LedData;
use vstd::prelude::*;

verus! {

/// Sub-steps of one multiplex cycle; each lights two slots.
pub const MUX_STEPS: u8 = 8;

/// The two slots lit on sub-step `step`: the first from the top row (0 to
/// 3) and the bottom row read backwards (15 to 12), the second from the
/// middle rows (7 to 4, then 8 to 11).
pub open spec fn mux_slots_spec(step: u8) -> (usize, usize) {
    if step < 4 {
        (step as usize, (7 - step) as usize)
    } else {
        ((19 - step) as usize, (step + 4) as usize)
    }
}

/// One 8-bit colour channel of a packed colour word.
pub open spec fn channel(word: u32, shift: u32) -> u32 {
    (word >> shift) & 0xFF
}

/// The duty values of one slot: red at full scale, green and blue halved.
pub open spec fn slot_duties(word: u32) -> (u32, u32, u32) {
    (channel(word, 16), channel(word, 8) / 2, (word & 0xFF) / 2)
}

/// The two slots lit on sub-step `step`.
pub fn mux_slots(step: u8) -> (r: (usize, usize))
    requires
        step < MUX_STEPS,
    ensures
        r == mux_slots_spec(step),
{
    match step {
        0 => (0, 7),
        1 => (1, 6),
        2 => (2, 5),
        3 => (3, 4),
        4 => (15, 8),
        5 => (14, 9),
        6 => (13, 10),
        _ => (12, 11),
    }
}

/// The red, green and blue duty values of a slot's colour word.
pub fn duties(word: u32) -> (r: (u32, u32, u32))
    ensures
        r == slot_duties(word),
{
    (word >> 16u32 & 0xFF, (word >> 8u32 & 0xFF) / 2, (word & 0xFF) / 2)
}

/// The duty values for sub-step `step`: the colours of its two slots.
pub fn led_duties(data: &LedData, step: u8) -> (r: ((u32, u32, u32), (u32, u32, u32)))
    requires
        step < MUX_STEPS,
    ensures
        r.0 == slot_duties(data[mux_slots_spec(step).0 as int]),
        r.1 == slot_duties(data[mux_slots_spec(step).1 as int]),
{
    let (l1, l2) = mux_slots(step);
    (duties(data[l1]), duties(data[l2]))
}

} // verus!
