//! Sample playback and mixing into the double-buffered DAC stream.

use crate::ui::clamp_spec;
use vstd::prelude::*;

verus! {

/// Output samples per second.
pub const SAMPLE_FREQ: u32 = 44_100;

/// Words in the audio buffer; each half is refilled while the other drains.
pub const BUFFER_LEN: usize = 1024;

/// The volume at which a voice plays its sample as recorded.
pub const UNITY_VOLUME: u16 = 256;

/// The mixed value that stands for full scale (1.0): a centred sample of
/// 128 at unity volume.
pub const FULL_SCALE: i64 = 32768;

/// Largest number of voices a synth mixes.
pub const MAX_VOICES: usize = 4096;

/// Largest value of one DAC channel (12 bits).
pub const DAC_MAX: u32 = 4095;

/// The buffer event that requested a refill.
#[derive(Debug, Clone, Copy, PartialEq, Eq, Structural)]
pub enum DmaState {
    /// The first half has been drained.
    Ht,
    /// The second half has been drained.
    Tc,
    /// The transfer failed.
    Error,
    /// No known event.
    Unknown,
}

/// A sample byte centred on zero.
pub open spec fn centered(s: u8) -> int {
    s - 128
}

/// `x` clipped to full scale.
pub open spec fn clip(x: int) -> int {
    clamp_spec(x, -FULL_SCALE, FULL_SCALE as int)
}

/// The 12-bit DAC code of a clipped mix value: -full scale maps to 0 and
/// full scale to 4095, rounding down.
pub open spec fn dac_code(x: int) -> int {
    (x + FULL_SCALE) * DAC_MAX / (2 * FULL_SCALE)
}

/// The buffer word for a mix value: the same code on both channels, the
/// second in the upper half-word.
pub open spec fn dac_word(x: int) -> u32 {
    (dac_code(clip(x)) * 65536 + dac_code(clip(x))) as u32
}

/// One voice: a sound of the bank, played from its start when triggered.
#[derive(Debug, Clone, Copy)]
pub struct SynthVoice {
    pub sound: usize,
    pub volume: u16,
    /// The index of the next sample byte to play.
    pub cursor: usize,
    /// The voice is sounding.
    pub playing: bool,
}

impl SynthVoice {
    /// This voice's contribution to the next output sample.
    pub open spec fn output(&self, bank: Seq<&[u8]>) -> int {
        if self.playing && self.cursor < bank[self.sound as int]@.len() {
            centered(bank[self.sound as int]@[self.cursor as int]) * self.volume
        } else {
            0
        }
    }

    /// The voice after producing one sample: it moves to the next byte, and
    /// falls silent once past the end of its sound.
    pub open spec fn advanced(&self, bank: Seq<&[u8]>) -> SynthVoice {
        if self.playing {
            if self.cursor < bank[self.sound as int]@.len() {
                SynthVoice { cursor: (self.cursor + 1) as usize, ..*self }
            } else {
                SynthVoice { playing: false, ..*self }
            }
        } else {
            *self
        }
    }

    /// The voice after a gate: restarted from the first byte.
    pub open spec fn retriggered(&self) -> SynthVoice {
        SynthVoice { cursor: 0, playing: true, ..*self }
    }

    /// A silent voice for sound `sound`, at unity volume.
    pub fn new(sound: usize) -> (v: Self)
        ensures
            v.sound == sound,
            v.volume == UNITY_VOLUME,
            v.cursor == 0,
            !v.playing,
    {
        SynthVoice { sound, volume: UNITY_VOLUME, cursor: 0, playing: false }
    }

    /// A gate restarts the voice from the first byte of its sound, even
    /// when it is already playing.
    fn apply_gate(&mut self, gate: bool)
        ensures
            *final(self) == if gate {
                old(self).retriggered()
            } else {
                *old(self)
            },
    {
        if gate {
            self.cursor = 0;
            self.playing = true;
        }
    }

    /// Produces this voice's contribution to one output sample.
    fn step(&mut self, bank: &[&[u8]]) -> (r: i64)
        requires
            old(self).sound < bank@.len(),
        ensures
            r == old(self).output(bank@),
            *final(self) == old(self).advanced(bank@),
    {
        let sound = bank[self.sound];
        if self.playing {
            if self.cursor < sound.len() {
                let c = sound[self.cursor] as i64 - 128;
                let vol = self.volume as i64;
                assert(-128 * 65535 <= c * vol <= 127 * 65535) by (nonlinear_arith)
                    requires
                        -128 <= c <= 127,
                        0 <= vol <= 65535,
                ;
                let val = c * vol;
                self.cursor += 1;
                val
            } else {
                self.playing = false;
                0
            }
        } else {
            0
        }
    }
}

/// The sum of the contributions of `voices`.
pub open spec fn mix(voices: Seq<SynthVoice>, bank: Seq<&[u8]>) -> int
    decreases voices.len(),
{
    if voices.len() == 0 {
        0
    } else {
        mix(voices.drop_last(), bank) + voices.last().output(bank)
    }
}

/// Every voice after producing one sample.
pub open spec fn advance_all(voices: Seq<SynthVoice>, bank: Seq<&[u8]>) -> Seq<SynthVoice> {
    voices.map_values(|v: SynthVoice| v.advanced(bank))
}

/// The voices after producing `n` samples.
pub open spec fn voices_after(voices: Seq<SynthVoice>, bank: Seq<&[u8]>, n: nat) -> Seq<SynthVoice>
    decreases n,
{
    if n == 0 {
        voices
    } else {
        advance_all(voices_after(voices, bank, (n - 1) as nat), bank)
    }
}

/// Every voice plays a sound of the bank.
pub open spec fn sounds_in_bank(voices: Seq<SynthVoice>, bank: Seq<&[u8]>) -> bool {
    forall|i: int| 0 <= i < voices.len() ==> #[trigger] voices[i].sound < bank.len()
}

/// The voices of the engine, one per sequencer layer.
pub struct Synth<const NUM_VOICES: usize> {
    pub voices: [SynthVoice; NUM_VOICES],
}

impl<const NUM_VOICES: usize> Synth<NUM_VOICES> {
    /// Restarts every voice whose gate is set; the others are left as they
    /// are.
    pub fn apply_gates(&mut self, gates: [bool; NUM_VOICES])
        ensures
            forall|i: int|
                0 <= i < NUM_VOICES && #[trigger] gates[i] ==> final(self).voices[i].cursor == 0
                    && final(self).voices[i].playing,
            forall|i: int|
                0 <= i < NUM_VOICES ==> #[trigger] final(self).voices[i] == if gates[i] {
                    old(self).voices[i].retriggered()
                } else {
                    old(self).voices[i]
                },
    {
        let mut i: usize = 0;
        while i < NUM_VOICES
            invariant
                i <= NUM_VOICES,
                forall|j: int|
                    0 <= j < NUM_VOICES ==> #[trigger] self.voices[j] == if j < i && gates[j] {
                        old(self).voices[j].retriggered()
                    } else {
                        old(self).voices[j]
                    },
            decreases NUM_VOICES - i,
        {
            let mut voice = self.voices[i];
            voice.apply_gate(gates[i]);
            self.voices[i] = voice;
            i += 1;
        }
    }

    /// Produces one output sample: the sum of all voices, clipped to full
    /// scale.
    fn step(&mut self, bank: &[&[u8]]) -> (r: i64)
        requires
            NUM_VOICES <= MAX_VOICES,
            sounds_in_bank(old(self).voices@, bank@),
        ensures
            r == clip(mix(old(self).voices@, bank@)),
            final(self).voices@ == advance_all(old(self).voices@, bank@),
    {
        let ghost start = self.voices@;
        let mut v: i64 = 0;
        let mut i: usize = 0;
        while i < NUM_VOICES
            invariant
                i <= NUM_VOICES <= MAX_VOICES,
                sounds_in_bank(start, bank@),
                start.len() == NUM_VOICES,
                v == mix(start.subrange(0, i as int), bank@),
                -(i as int) * 128 * 65535 <= v <= (i as int) * 128 * 65535,
                forall|j: int|
                    0 <= j < NUM_VOICES ==> #[trigger] self.voices[j] == if j < i {
                        start[j].advanced(bank@)
                    } else {
                        start[j]
                    },
            decreases NUM_VOICES - i,
        {
            let mut voice = self.voices[i];
            assert(start[i as int].sound < bank@.len());
            let out = voice.step(bank);
            self.voices[i] = voice;
            proof {
                let s = bank@[start[i as int].sound as int]@;
                if start[i as int].playing && start[i as int].cursor < s.len() {
                    let c = centered(s[start[i as int].cursor as int]);
                    let vol = start[i as int].volume as int;
                    assert(-128 * 65535 <= c * vol <= 128 * 65535) by (nonlinear_arith)
                        requires
                            -128 <= c <= 127,
                            0 <= vol <= 65535,
                    ;
                }
                assert(start.subrange(0, i + 1).drop_last() =~= start.subrange(0, i as int));
            }
            v = v + out;
            i += 1;
        }
        proof {
            assert(start.subrange(0, NUM_VOICES as int) =~= start);
            assert(self.voices@ =~= advance_all(start, bank@));
        }
        if v > FULL_SCALE {
            FULL_SCALE
        } else if v < -FULL_SCALE {
            -FULL_SCALE
        } else {
            v
        }
    }
}


proof fn lemma_advance_keeps_sounds(voices: Seq<SynthVoice>, bank: Seq<&[u8]>)
    requires
        sounds_in_bank(voices, bank),
    ensures
        sounds_in_bank(advance_all(voices, bank), bank),
        advance_all(voices, bank).len() == voices.len(),
{
    let a = advance_all(voices, bank);
    assert forall|i: int| 0 <= i < a.len() implies #[trigger] a[i].sound < bank.len() by {
        assert(a[i] == voices[i].advanced(bank));
    }
}

/// The buffer word for a clipped mix value.
fn dac_word_of(v: i64) -> (w: u32)
    requires
        -FULL_SCALE <= v <= FULL_SCALE,
    ensures
        w == dac_word(v as int),
{
    let code = ((v + FULL_SCALE) * DAC_MAX as i64 / (2 * FULL_SCALE)) as u32;
    assert(code <= DAC_MAX) by {
        assert((v + FULL_SCALE) * DAC_MAX <= 2 * FULL_SCALE * DAC_MAX) by (nonlinear_arith)
            requires
                v + FULL_SCALE <= 2 * FULL_SCALE,
        ;
    }
    assert(code << 16u32 == code * 65536) by (bit_vector)
        requires
            code <= 4095,
    ;
    (code << 16u32) + code
}

/// Fills `buffer[start..end]` with the next output samples, oldest first.
fn synth_callback<const NUM_VOICES: usize>(
    buffer: &mut [u32; BUFFER_LEN],
    start: usize,
    end: usize,
    synth: &mut Synth<NUM_VOICES>,
    bank: &[&[u8]],
)
    requires
        start <= end <= BUFFER_LEN,
        NUM_VOICES <= MAX_VOICES,
        sounds_in_bank(old(synth).voices@, bank@),
    ensures
        forall|k: int|
            0 <= k < BUFFER_LEN ==> #[trigger] final(buffer)[k] == if start <= k < end {
                dac_word(mix(voices_after(old(synth).voices@, bank@, (k - start) as nat), bank@))
            } else {
                old(buffer)[k]
            },
        final(synth).voices@ == voices_after(old(synth).voices@, bank@, (end - start) as nat),
        sounds_in_bank(final(synth).voices@, bank@),
{
    let ghost voices0 = synth.voices@;
    let mut k: usize = start;
    while k < end
        invariant
            start <= k <= end <= BUFFER_LEN,
            NUM_VOICES <= MAX_VOICES,
            synth.voices@ == voices_after(voices0, bank@, (k - start) as nat),
            sounds_in_bank(synth.voices@, bank@),
            forall|u: int|
                0 <= u < BUFFER_LEN ==> #[trigger] buffer[u] == if start <= u < k {
                    dac_word(mix(voices_after(voices0, bank@, (u - start) as nat), bank@))
                } else {
                    old(buffer)[u]
                },
        decreases end - k,
    {
        proof {
            lemma_advance_keeps_sounds(synth.voices@, bank@);
        }
        let v = synth.step(bank);
        buffer[k] = dac_word_of(v);
        k += 1;
    }
}

/// Refills the half of the buffer that has just been drained: the first
/// half after `Ht`, the second after `Tc`; on any other event the buffer is
/// left alone. Returns the event.
pub fn dma_handler<const NUM_VOICES: usize>(
    state: DmaState,
    buffer: &mut [u32; BUFFER_LEN],
    synth: &mut Synth<NUM_VOICES>,
    bank: &[&[u8]],
) -> (r: DmaState)
    requires
        NUM_VOICES <= MAX_VOICES,
        sounds_in_bank(old(synth).voices@, bank@),
    ensures
        r == state,
        sounds_in_bank(final(synth).voices@, bank@),
        state == DmaState::Ht ==> {
            &&& forall|k: int|
                0 <= k < BUFFER_LEN ==> #[trigger] final(buffer)[k] == if k < BUFFER_LEN / 2 {
                    dac_word(mix(voices_after(old(synth).voices@, bank@, k as nat), bank@))
                } else {
                    old(buffer)[k]
                }
            &&& final(synth).voices@ == voices_after(old(synth).voices@, bank@, (BUFFER_LEN / 2) as nat)
        },
        state == DmaState::Tc ==> {
            &&& forall|k: int|
                0 <= k < BUFFER_LEN ==> #[trigger] final(buffer)[k] == if k >= BUFFER_LEN / 2 {
                    dac_word(
                        mix(
                            voices_after(old(synth).voices@, bank@, (k - BUFFER_LEN / 2) as nat),
                            bank@,
                        ),
                    )
                } else {
                    old(buffer)[k]
                }
            &&& final(synth).voices@ == voices_after(old(synth).voices@, bank@, (BUFFER_LEN / 2) as nat)
        },
        (state == DmaState::Error || state == DmaState::Unknown) ==> {
            &&& *final(buffer) == *old(buffer)
            &&& *final(synth) == *old(synth)
        },
{
    let mid = BUFFER_LEN / 2;
    match state {
        DmaState::Ht => synth_callback(buffer, 0, mid, synth, bank),
        DmaState::Tc => synth_callback(buffer, mid, BUFFER_LEN, synth, bank),
        _ => (),
    }
    state
}

} // verus!
