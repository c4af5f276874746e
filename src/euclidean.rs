//! The Euclidean rhythm generator.

use crate::pattern::{append, append_repeat, pattern_new, pattern_push, pattern_slice, pattern_steps, Pattern, MAXLEN};
use crate::rhythm::{
    assemble, euclidean_pattern, evenly_spaced, is_binary, lemma_euclidean_even,
    lemma_euclidean_shape, lemma_first_hit_at, lemma_level_totals, lemma_no_hit, lemma_repeat,
    ones, repeat, rotate_left,
};
use vstd::prelude::*;
use vstd::slice::slice_subrange;

verus! {

/// The Euclidean rhythm of `hits` hits spread over `steps` steps: the hits
/// are placed as evenly as possible and the pattern starts on a hit (all
/// rests when `hits == 0`). Asking for more hits than steps, or for more
/// steps than a pattern holds, is a caller error.
pub fn euclidean_rhythm(hits: usize, steps: usize) -> (r: Pattern)
    requires
        hits <= steps,
        steps <= MAXLEN,
    ensures
        pattern_steps(r) == euclidean_pattern(hits as nat, steps as nat),
        pattern_steps(r).len() == steps,
        is_binary(pattern_steps(r)),
        ones(pattern_steps(r)) == hits,
        hits > 0 ==> pattern_steps(r)[0] == 1,
        hits > 0 ==> evenly_spaced(pattern_steps(r), (steps / hits) as nat),
{
    proof {
        lemma_euclidean_shape(hits as nat, steps as nat);
        if hits > 0 {
            lemma_euclidean_even(hits as nat, steps as nat);
        }
    }
    let mut pattern = pattern_new();
    if hits == 0 {
        let mut i: usize = 0;
        while i < steps
            invariant
                i <= steps <= MAXLEN,
                pattern_steps(pattern) == repeat(seq![0u8], i as nat),
            decreases steps - i,
        {
            proof {
                lemma_repeat(seq![0u8], i as nat);
                assert(seq![0u8].len() == 1);
                assert(i * seq![0u8].len() == i) by (nonlinear_arith)
                    requires
                        seq![0u8].len() == 1,
                ;
            }
            pattern_push(&mut pattern, 0);
            proof {
                assert(pattern_steps(pattern) =~= repeat(seq![0u8], (i + 1) as nat));
            }
            i += 1;
        }
        return pattern;
    }
    let ghost target = assemble((steps - hits) as nat, hits as nat, seq![0u8], seq![1u8]);

    // Run the Euclidean division chain, assembling the block of each level
    // from the blocks of the two levels below.
    let mut divisor: usize = steps - hits;
    let mut rem: usize = hits;
    let mut prev = pattern_new();
    pattern_push(&mut prev, 0);
    let mut prev2 = pattern_new();
    pattern_push(&mut prev2, 1);
    proof {
        assert(pattern_steps(prev) =~= seq![0u8]);
        assert(pattern_steps(prev2) =~= seq![1u8]);
        let len1 = pattern_steps(prev).len();
        let len2 = pattern_steps(prev2).len();
        assert(divisor * len1 + rem * len2 == steps) by (nonlinear_arith)
            requires
                len1 == 1,
                len2 == 1,
                divisor + rem == steps,
        ;
    }
    while rem > 1
        invariant
            steps <= MAXLEN,
            divisor * pattern_steps(prev).len() + rem * pattern_steps(prev2).len() == steps,
            assemble(divisor as nat, rem as nat, pattern_steps(prev), pattern_steps(prev2)) == target,
        decreases rem,
    {
        let q = divisor / rem;
        let r = divisor % rem;
        let ghost len1 = pattern_steps(prev).len();
        let ghost len2 = pattern_steps(prev2).len();
        proof {
            lemma_level_totals(divisor as nat, rem as nat, len1, len2);
            assert(q * len1 + len2 <= steps) by (nonlinear_arith)
                requires
                    rem * (q * len1 + len2) + r * len1 == steps,
                    rem >= 1,
            ;
            lemma_repeat(pattern_steps(prev), q as nat);
        }
        let mut cur = pattern_new();
        append_repeat(&mut cur, pattern_slice(&prev), q);
        append(&mut cur, pattern_slice(&prev2));
        prev2 = prev;
        prev = cur;
        divisor = rem;
        rem = r;
    }
    let mut raw = pattern_new();
    proof {
        assert(divisor * pattern_steps(prev).len() <= steps) by (nonlinear_arith)
            requires
                divisor * pattern_steps(prev).len() + rem * pattern_steps(prev2).len() == steps,
        ;
    }
    append_repeat(&mut raw, pattern_slice(&prev), divisor);
    proof {
        lemma_repeat(pattern_steps(prev), divisor as nat);
    }
    if rem == 1 {
        append(&mut raw, pattern_slice(&prev2));
    } else {
        proof {
            assert(pattern_steps(raw) =~= pattern_steps(raw) + Seq::<u8>::empty());
        }
    }
    assert(pattern_steps(raw) == target);

    // Rotate left so that the pattern starts on its first hit.
    let s = pattern_slice(&raw);
    let n = s.len();
    let mut first: usize = 0;
    while first < n && s[first] != 1
        invariant
            first <= n == s@.len(),
            forall|t: int| 0 <= t < first ==> #[trigger] s@[t] != 1,
        decreases n - first,
    {
        first += 1;
    }
    proof {
        lemma_first_hit_at(s@, first as nat);
        if first == n {
            lemma_no_hit(s@);
            assert(rotate_left(s@, first as nat) =~= s@);
        }
    }
    let mut rotated = pattern_new();
    append(&mut rotated, slice_subrange(s, first, n));
    append(&mut rotated, slice_subrange(s, 0, first));
    proof {
        assert(pattern_steps(rotated) =~= rotate_left(s@, first as nat));
    }
    rotated
}

} // verus!
