//! The mathematical model of step patterns: counting hits, repetition,
//! rotation, the Euclidean construction and even spacing of hits.

use vstd::arithmetic::div_mod::{
    lemma_mod_bound,
    lemma_add_mod_noop_right, lemma_div_plus_one, lemma_fundamental_div_mod, lemma_mod_add_multiples_vanish,
    lemma_small_mod,
};
use vstd::prelude::*;

verus! {

/// Number of hits (entries equal to 1) in `s`.
pub open spec fn ones(s: Seq<u8>) -> nat
    decreases s.len(),
{
    if s.len() == 0 {
        0
    } else {
        ones(s.drop_last()) + if s.last() == 1 { 1nat } else { 0nat }
    }
}

/// Every step of `s` is a rest (0) or a hit (1).
pub open spec fn is_binary(s: Seq<u8>) -> bool {
    forall|i: int| 0 <= i < s.len() ==> #[trigger] s[i] == 0 || s[i] == 1
}

/// `n` copies of `s`, one after the other.
pub open spec fn repeat(s: Seq<u8>, n: nat) -> Seq<u8>
    decreases n,
{
    if n == 0 {
        Seq::empty()
    } else {
        repeat(s, (n - 1) as nat) + s
    }
}

/// `s` rotated left by `r` places: the step at index `r` comes first.
pub open spec fn rotate_left(s: Seq<u8>, r: nat) -> Seq<u8> {
    s.subrange(r as int, s.len() as int) + s.subrange(0, r as int)
}

/// `s` rotated right by `r` places (`r <= s.len()`): the step at index 0
/// moves to index `r`.
pub open spec fn rotate_right(s: Seq<u8>, r: nat) -> Seq<u8> {
    rotate_left(s, (s.len() - r) as nat)
}

/// Index of the first hit of `s` (`s.len()` when there is none).
pub open spec fn first_hit(s: Seq<u8>) -> nat
    decreases s.len(),
{
    if s.len() == 0 || s[0] == 1 {
        0
    } else {
        1 + first_hit(s.drop_first())
    }
}

/// Bottom-up assembly over the chain of Euclidean divisions. `prev` and
/// `prev2` are the blocks built at the two levels below; `div` and `rem` are
/// the dividend and divisor of the current level. Each level repeats `prev`
/// `div / rem` times followed by `prev2`; at the last level (`rem <= 1`) the
/// block is `prev` repeated `div` times, followed by `prev2` when `rem == 1`.
pub open spec fn assemble(div: nat, rem: nat, prev: Seq<u8>, prev2: Seq<u8>) -> Seq<u8>
    decreases rem,
{
    if rem <= 1 {
        repeat(prev, div) + if rem == 1 { prev2 } else { Seq::empty() }
    } else {
        assemble(rem, div % rem, repeat(prev, div / rem) + prev2, prev)
    }
}

/// The Euclidean rhythm of `hits` hits over `steps` steps, rotated so that it
/// starts on a hit; all rests when `hits == 0`.
pub open spec fn euclidean_pattern(hits: nat, steps: nat) -> Seq<u8> {
    if hits == 0 {
        repeat(seq![0u8], steps)
    } else {
        let raw = assemble((steps - hits) as nat, hits, seq![0u8], seq![1u8]);
        rotate_left(raw, first_hit(raw))
    }
}

/// Going around `s` cyclically from the hit at `i`, the next hit is exactly
/// `d` steps later.
pub open spec fn next_hit_at(s: Seq<u8>, i: int, d: int) -> bool {
    &&& s[(i + d) % (s.len() as int)] == 1
    &&& forall|t: int| 1 <= t < d ==> #[trigger] s[(i + t) % (s.len() as int)] == 0
}

/// Going around `s` cyclically, every hit is followed by the next one after
/// `gap` or `gap + 1` steps: no two distances between consecutive hits
/// differ by more than one.
pub open spec fn evenly_spaced(s: Seq<u8>, gap: nat) -> bool {
    forall|i: int|
        0 <= i < s.len() && #[trigger] s[i] == 1 ==> next_hit_at(s, i, gap as int)
            || next_hit_at(s, i, gap + 1int)
}


/// Hits add up over concatenation.
pub proof fn lemma_ones_concat(a: Seq<u8>, b: Seq<u8>)
    ensures
        ones(a + b) == ones(a) + ones(b),
    decreases b.len(),
{
    if b.len() == 0 {
        assert(a + b =~= a);
    } else {
        assert((a + b).drop_last() =~= a + b.drop_last());
        lemma_ones_concat(a, b.drop_last());
    }
}

/// Length, hit count and binarity of a repetition.
pub proof fn lemma_repeat(s: Seq<u8>, n: nat)
    ensures
        repeat(s, n).len() == n * s.len(),
        ones(repeat(s, n)) == n * ones(s),
        is_binary(s) ==> is_binary(repeat(s, n)),
    decreases n,
{
    if n > 0 {
        lemma_repeat(s, (n - 1) as nat);
        lemma_ones_concat(repeat(s, (n - 1) as nat), s);
        assert(repeat(s, n).len() == n * s.len()) by (nonlinear_arith)
            requires
                repeat(s, n).len() == repeat(s, (n - 1) as nat).len() + s.len(),
                repeat(s, (n - 1) as nat).len() == (n - 1) * s.len(),
        ;
        assert(ones(repeat(s, n)) == n * ones(s)) by (nonlinear_arith)
            requires
                ones(repeat(s, n)) == ones(repeat(s, (n - 1) as nat)) + ones(s),
                ones(repeat(s, (n - 1) as nat)) == (n - 1) * ones(s),
        ;
        if is_binary(s) {
            let r = repeat(s, n);
            let p = repeat(s, (n - 1) as nat);
            assert forall|i: int| 0 <= i < r.len() implies #[trigger] r[i] == 0 || r[i] == 1 by {
                if i >= p.len() {
                    assert(r[i] == s[i - p.len()]);
                }
            }
        }
    }
}

/// Rotating a sequence keeps its length and its hits.
pub proof fn lemma_rotate_left_counts(s: Seq<u8>, r: nat)
    requires
        r <= s.len(),
    ensures
        rotate_left(s, r).len() == s.len(),
        ones(rotate_left(s, r)) == ones(s),
        is_binary(s) ==> is_binary(rotate_left(s, r)),
{
    let a = s.subrange(0, r as int);
    let b = s.subrange(r as int, s.len() as int);
    assert(s =~= a + b);
    lemma_ones_concat(a, b);
    lemma_ones_concat(b, a);
    if is_binary(s) {
        let q = rotate_left(s, r);
        assert forall|i: int| 0 <= i < q.len() implies #[trigger] q[i] == 0 || q[i] == 1 by {
            if i < b.len() {
                assert(q[i] == s[i + r]);
            } else {
                assert(q[i] == s[i - b.len()]);
            }
        }
    }
}

/// Index arithmetic of a left rotation.
pub proof fn lemma_rotate_left_index(s: Seq<u8>, r: nat, j: int)
    requires
        r <= s.len(),
        0 <= j < s.len(),
    ensures
        rotate_left(s, r)[j] == s[(j + r) % (s.len() as int)],
{
    let n = s.len() as int;
    if j + r < n {
        lemma_small_mod((j + r) as nat, n as nat);
    } else {
        lemma_mod_add_multiples_vanish(j + r - n, n);
        lemma_small_mod((j + r - n) as nat, n as nat);
    }
}


/// All steps of `w` in `[a, b)` are rests.
spec fn rests_in(w: Seq<u8>, a: int, b: int) -> bool {
    forall|t: int| a <= t < b ==> #[trigger] w[t] == 0
}

/// The group `c` rests followed by one hit.
spec fn unit(c: nat) -> Seq<u8> {
    repeat(seq![0u8], c) + seq![1u8]
}

/// Read left to right (not cyclically), the hit at `i` of `w` is followed by
/// the next hit after `c + 1` or `c + 2` steps, or it is the last hit and at
/// most one rest follows it.
spec fn next_hit_ok(w: Seq<u8>, c: nat, i: int) -> bool {
    ||| (i + c + 1 < w.len() && rests_in(w, i + 1, i + c + 1) && w[i + c + 1] == 1)
    ||| (i + c + 2 < w.len() && rests_in(w, i + 1, i + c + 2) && w[i + c + 2] == 1)
    ||| (rests_in(w, i + 1, w.len() as int) && w.len() <= i + 2)
}

/// `w` begins with the group `unit(c)`, and all its hits are spaced by
/// `c + 1` or `c + 2` steps, its last hit being followed by at most one rest.
spec fn even_word(w: Seq<u8>, c: nat) -> bool {
    &&& w.len() > c
    &&& rests_in(w, 0, c as int)
    &&& w[c as int] == 1
    &&& forall|i: int|
        #![trigger next_hit_ok(w, c, i)]
        0 <= i < w.len() && w[i] == 1 ==> next_hit_ok(w, c, i)
}

proof fn lemma_repeat_zero(c: nat)
    ensures
        repeat(seq![0u8], c).len() == c,
        forall|t: int| 0 <= t < c ==> #[trigger] repeat(seq![0u8], c)[t] == 0,
    decreases c,
{
    if c > 0 {
        lemma_repeat_zero((c - 1) as nat);
        let r = repeat(seq![0u8], c);
        assert forall|t: int| 0 <= t < c implies #[trigger] r[t] == 0 by {
            if t < c - 1 {
                assert(r[t] == repeat(seq![0u8], (c - 1) as nat)[t]);
            }
        }
    }
}

proof fn lemma_ones_single()
    ensures
        ones(seq![0u8]) == 0,
        ones(seq![1u8]) == 1,
{
    reveal_with_fuel(ones, 2);
    assert(seq![0u8].drop_last() =~= Seq::<u8>::empty());
    assert(seq![1u8].drop_last() =~= Seq::<u8>::empty());
}

proof fn lemma_unit_even(c: nat)
    ensures
        even_word(unit(c), c),
        unit(c).len() == c + 1,
        unit(c).last() == 1,
        is_binary(unit(c)),
        ones(unit(c)) == 1,
{
    lemma_repeat_zero(c);
    let u = unit(c);
    assert forall|i: int| 0 <= i < u.len() && u[i] == 1 implies #[trigger] next_hit_ok(u, c, i) by {
        if i < c {
            assert(u[i] == 0);
        }
    }
    assert forall|t: int| 0 <= t < c implies #[trigger] u[t] == 0 by {
        assert(u[t] == repeat(seq![0u8], c)[t]);
    }
    assert forall|i: int| 0 <= i < u.len() implies #[trigger] u[i] == 0 || u[i] == 1 by {
        if i < c {
            assert(u[i] == repeat(seq![0u8], c)[i]);
        }
    }
    lemma_repeat(seq![0u8], c);
    lemma_ones_concat(repeat(seq![0u8], c), seq![1u8]);
    lemma_ones_single();
}

proof fn lemma_even_concat_left(a: Seq<u8>, b: Seq<u8>, c: nat, i: int)
    requires
        even_word(a, c),
        even_word(b, c),
        0 <= i < a.len(),
        a[i] == 1,
    ensures
        next_hit_ok(a + b, c, i),
{
    let w = a + b;
    let la = a.len() as int;
    assert(next_hit_ok(a, c, i));
    if i + c + 1 < la && rests_in(a, i + 1, i + c + 1) && a[i + c + 1] == 1 {
        assert forall|t: int| i + 1 <= t < i + c + 1 implies #[trigger] w[t] == 0 by {
            assert(a[t] == 0);
        }
    } else if i + c + 2 < la && rests_in(a, i + 1, i + c + 2) && a[i + c + 2] == 1 {
        assert forall|t: int| i + 1 <= t < i + c + 2 implies #[trigger] w[t] == 0 by {
            assert(a[t] == 0);
        }
    } else {
        assert(rests_in(a, i + 1, la) && la <= i + 2);
        assert(w[la + c] == b[c as int]);
        if la == i + 1 {
            assert forall|t: int| i + 1 <= t < i + c + 1 implies #[trigger] w[t] == 0 by {
                assert(w[t] == b[t - la]);
            }
        } else {
            assert forall|t: int| i + 1 <= t < i + c + 2 implies #[trigger] w[t] == 0 by {
                if t < la {
                    assert(w[t] == a[t]);
                } else {
                    assert(w[t] == b[t - la]);
                }
            }
        }
    }
}

proof fn lemma_even_concat_right(a: Seq<u8>, b: Seq<u8>, c: nat, i: int)
    requires
        even_word(b, c),
        a.len() <= i < a.len() + b.len(),
        b[i - a.len()] == 1,
    ensures
        next_hit_ok(a + b, c, i),
{
    let w = a + b;
    let la = a.len() as int;
    let j = i - la;
    assert(next_hit_ok(b, c, j));
    if j + c + 1 < b.len() && rests_in(b, j + 1, j + c + 1) && b[j + c + 1] == 1 {
        assert(w[i + c + 1] == b[j + c + 1]);
        assert forall|t: int| i + 1 <= t < i + c + 1 implies #[trigger] w[t] == 0 by {
            assert(w[t] == b[t - la]);
        }
    } else if j + c + 2 < b.len() && rests_in(b, j + 1, j + c + 2) && b[j + c + 2] == 1 {
        assert(w[i + c + 2] == b[j + c + 2]);
        assert forall|t: int| i + 1 <= t < i + c + 2 implies #[trigger] w[t] == 0 by {
            assert(w[t] == b[t - la]);
        }
    } else {
        assert forall|t: int| i + 1 <= t < w.len() implies #[trigger] w[t] == 0 by {
            assert(w[t] == b[t - la]);
        }
    }
}

/// Concatenating two even words gives an even word.
proof fn lemma_even_concat(a: Seq<u8>, b: Seq<u8>, c: nat)
    requires
        even_word(a, c),
        even_word(b, c),
    ensures
        even_word(a + b, c),
{
    let w = a + b;
    assert forall|t: int| 0 <= t < c implies #[trigger] w[t] == 0 by {
        assert(a[t] == 0);
    }
    assert forall|i: int| 0 <= i < w.len() && w[i] == 1 implies #[trigger] next_hit_ok(w, c, i) by {
        if i < a.len() {
            lemma_even_concat_left(a, b, c, i);
        } else {
            lemma_even_concat_right(a, b, c, i);
        }
    }
}

/// Repeating an even word at least once gives an even word.
proof fn lemma_even_repeat(w: Seq<u8>, c: nat, n: nat)
    requires
        even_word(w, c),
        n >= 1,
    ensures
        even_word(repeat(w, n), c),
        repeat(w, n).last() == w.last(),
    decreases n,
{
    if n == 1 {
        assert(repeat(w, 1) =~= w) by {
            assert(repeat(w, 0) =~= Seq::<u8>::empty());
        }
    } else {
        lemma_even_repeat(w, c, (n - 1) as nat);
        lemma_even_concat(repeat(w, (n - 1) as nat), w, c);
    }
}

/// An even word ending on a hit stays even with one rest appended.
proof fn lemma_even_push_rest(w: Seq<u8>, c: nat)
    requires
        even_word(w, c),
        w.last() == 1,
    ensures
        even_word(w.push(0u8), c),
{
    let v = w.push(0u8);
    let n = w.len() as int;
    assert forall|t: int| 0 <= t < c implies #[trigger] v[t] == 0 by {
        assert(w[t] == 0);
    }
    assert forall|i: int| 0 <= i < v.len() && v[i] == 1 implies #[trigger] next_hit_ok(v, c, i) by {
        assert(i < n);
        assert(w[i] == 1);
        assert(next_hit_ok(w, c, i));
        if i + c + 1 < n && rests_in(w, i + 1, i + c + 1) && w[i + c + 1] == 1 {
            assert forall|t: int| i + 1 <= t < i + c + 1 implies #[trigger] v[t] == 0 by {
                assert(w[t] == 0);
            }
        } else if i + c + 2 < n && rests_in(w, i + 1, i + c + 2) && w[i + c + 2] == 1 {
            assert forall|t: int| i + 1 <= t < i + c + 2 implies #[trigger] v[t] == 0 by {
                assert(w[t] == 0);
            }
        } else {
            if i < n - 1 {
                assert(w[n - 1] == 0);
            }
            assert forall|t: int| i + 1 <= t < v.len() implies #[trigger] v[t] == 0 by {}
        }
    }
}


proof fn lemma_binary_concat(a: Seq<u8>, b: Seq<u8>)
    requires
        is_binary(a),
        is_binary(b),
    ensures
        is_binary(a + b),
{
    let w = a + b;
    assert forall|i: int| 0 <= i < w.len() implies #[trigger] w[i] == 0 || w[i] == 1 by {
        if i < a.len() {
            assert(w[i] == a[i]);
        } else {
            assert(w[i] == b[i - a.len()]);
        }
    }
}

proof fn lemma_mod_shift(x: int, y: int, n: int)
    requires
        n > 0,
    ensures
        ((x % n) + y) % n == (x + y) % n,
{
    lemma_add_mod_noop_right(y, x, n);
}

/// Read cyclically, an even word has its hits `c + 1` or `c + 2` steps apart.
proof fn lemma_even_cyclic(w: Seq<u8>, c: nat)
    requires
        even_word(w, c),
    ensures
        evenly_spaced(w, c + 1),
{
    let n = w.len() as int;
    assert forall|i: int| 0 <= i < n && #[trigger] w[i] == 1 implies next_hit_at(w, i, c + 1int)
        || next_hit_at(w, i, c + 2int) by {
        assert(next_hit_ok(w, c, i));
        if i + c + 1 < n && rests_in(w, i + 1, i + c + 1) && w[i + c + 1] == 1 {
            lemma_small_mod((i + c + 1) as nat, n as nat);
            assert forall|t: int| 1 <= t < c + 1 implies #[trigger] w[(i + t) % n] == 0 by {
                lemma_small_mod((i + t) as nat, n as nat);
            }
            assert(next_hit_at(w, i, c + 1int));
        } else if i + c + 2 < n && rests_in(w, i + 1, i + c + 2) && w[i + c + 2] == 1 {
            lemma_small_mod((i + c + 2) as nat, n as nat);
            assert forall|t: int| 1 <= t < c + 2 implies #[trigger] w[(i + t) % n] == 0 by {
                lemma_small_mod((i + t) as nat, n as nat);
            }
            assert(next_hit_at(w, i, c + 2int));
        } else {
            let d = n - i + c;
            lemma_mod_add_multiples_vanish(c as int, n);
            lemma_small_mod(c, n as nat);
            assert((i + d) % n == c);
            assert forall|t: int| 1 <= t < d implies #[trigger] w[(i + t) % n] == 0 by {
                if i + t < n {
                    lemma_small_mod((i + t) as nat, n as nat);
                } else {
                    lemma_mod_add_multiples_vanish(i + t - n, n);
                    lemma_small_mod((i + t - n) as nat, n as nat);
                }
            }
            assert(next_hit_at(w, i, d));
        }
    }
}

/// Even spacing does not depend on where the cycle is read from.
proof fn lemma_evenly_spaced_rotate(s: Seq<u8>, r: nat, m: nat)
    requires
        evenly_spaced(s, m),
        r <= s.len(),
    ensures
        evenly_spaced(rotate_left(s, r), m),
{
    let q = rotate_left(s, r);
    let n = s.len() as int;
    lemma_rotate_left_counts(s, r);
    assert forall|j: int| 0 <= j < n && #[trigger] q[j] == 1 implies next_hit_at(q, j, m as int)
        || next_hit_at(q, j, m + 1int) by {
        lemma_rotate_left_index(s, r, j);
        let i = (j + r) % n;
        assert(0 <= i < n);
        assert forall|d: int| #[trigger] next_hit_at(s, i, d) implies next_hit_at(q, j, d) by {
            let k = (j + d) % n;
            lemma_rotate_left_index(s, r, k);
            lemma_mod_shift(j + d, r as int, n);
            lemma_mod_shift(j + r, d, n);
            assert((j + d + r) % n == (i + d) % n);
            assert forall|t: int| 1 <= t < d implies #[trigger] q[(j + t) % n] == 0 by {
                let kt = (j + t) % n;
                lemma_rotate_left_index(s, r, kt);
                lemma_mod_shift(j + t, r as int, n);
                lemma_mod_shift(j + r, t, n);
                assert((j + t + r) % n == (i + t) % n);
                assert(s[(i + t) % n] == 0);
            }
        }
    }
}

proof fn lemma_first_hit(w: Seq<u8>, c: nat)
    requires
        c < w.len(),
        rests_in(w, 0, c as int),
        w[c as int] == 1,
    ensures
        first_hit(w) == c,
    decreases c,
{
    if c > 0 {
        let v = w.drop_first();
        assert forall|t: int| 0 <= t < c - 1 implies #[trigger] v[t] == 0 by {
            assert(v[t] == w[t + 1]);
        }
        lemma_first_hit(v, (c - 1) as nat);
    }
}


/// Arithmetic of one level of the division chain: the step and hit totals
/// carried by the two current blocks do not change.
pub proof fn lemma_level_totals(div: nat, rem: nat, x: nat, y: nat)
    requires
        rem > 0,
    ensures
        rem * ((div / rem) * x + y) + (div % rem) * x == div * x + rem * y,
{
    let q = div / rem;
    let r = div % rem;
    lemma_fundamental_div_mod(div as int, rem as int);
    assert(rem * (q * x + y) + r * x == (rem * q + r) * x + rem * y) by (nonlinear_arith);
}

/// Invariant of the bottom-up assembly. At `level` 0 the blocks are the
/// single rest and the single hit; at level 1 they are `unit(c)` and the
/// single rest; from level 2 on both are even words. `div` copies of `prev`
/// and `rem` copies of `prev2` always account for all steps and all hits.
proof fn lemma_assemble(
    div: nat,
    rem: nat,
    prev: Seq<u8>,
    prev2: Seq<u8>,
    level: nat,
    c: nat,
    steps: nat,
    hits: nat,
)
    requires
        div * prev.len() + rem * prev2.len() == steps,
        div * ones(prev) + rem * ones(prev2) == hits,
        is_binary(prev),
        is_binary(prev2),
        level == 0 ==> prev == seq![0u8] && prev2 == seq![1u8] && rem >= 1 && c == div / rem,
        level == 1 ==> prev == unit(c) && prev2 == seq![0u8] && rem < div,
        level >= 2 ==> even_word(prev, c) && even_word(prev2, c) && div >= 1,
    ensures
        assemble(div, rem, prev, prev2).len() == steps,
        ones(assemble(div, rem, prev, prev2)) == hits,
        is_binary(assemble(div, rem, prev, prev2)),
        even_word(assemble(div, rem, prev, prev2), c),
    decreases rem,
{
    lemma_ones_single();
    if rem <= 1 {
        let tail = if rem == 1 { prev2 } else { Seq::<u8>::empty() };
        let rp = repeat(prev, div);
        let w = rp + tail;
        assert(w == assemble(div, rem, prev, prev2));
        lemma_repeat(prev, div);
        lemma_ones_concat(rp, tail);
        if rem == 0 {
            assert(ones(Seq::<u8>::empty()) == 0);
            assert(w =~= rp);
            assert(rem * prev2.len() == 0 && rem * ones(prev2) == 0);
        } else {
            assert(rem == 1);
            assert(rem * prev2.len() == prev2.len() && rem * ones(prev2) == ones(prev2)) by (nonlinear_arith)
                requires
                    rem == 1,
            ;
        }
        lemma_binary_concat(rp, tail);
        if level == 0 {
            assert(div / 1 == div);
            assert(w == unit(c));
            lemma_unit_even(c);
        } else if level == 1 {
            lemma_unit_even(c);
            lemma_even_repeat(prev, c, div);
            if rem == 1 {
                assert(w =~= rp.push(0u8));
                lemma_even_push_rest(rp, c);
            } else {
                assert(w =~= rp);
            }
        } else {
            lemma_even_repeat(prev, c, div);
            if rem == 1 {
                lemma_even_concat(rp, prev2, c);
            } else {
                assert(w =~= rp);
            }
        }
    } else {
        let q = div / rem;
        let r = div % rem;
        let rp = repeat(prev, q);
        let cur = rp + prev2;
        lemma_fundamental_div_mod(div as int, rem as int);
        lemma_mod_bound(div as int, rem as int);
        lemma_repeat(prev, q);
        lemma_ones_concat(rp, prev2);
        lemma_binary_concat(rp, prev2);
        lemma_level_totals(div, rem, prev.len(), prev2.len());
        lemma_level_totals(div, rem, ones(prev), ones(prev2));
        if level == 0 {
            assert(cur == unit(c));
        } else if level == 1 {
            assert(q >= 1) by (nonlinear_arith)
                requires
                    div == rem * q + r,
                    r < rem,
                    rem < div,
            ;
            lemma_unit_even(c);
            lemma_even_repeat(prev, c, q);
            assert(cur =~= rp.push(0u8));
            lemma_even_push_rest(rp, c);
        } else {
            if q >= 1 {
                lemma_even_repeat(prev, c, q);
                lemma_even_concat(rp, prev2, c);
            } else {
                assert(cur =~= prev2);
            }
        }
        lemma_assemble(rem, r, cur, prev, level + 1, c, steps, hits);
    }
}

/// The Euclidean pattern of `hits` hits over `steps` steps has `steps`
/// steps, each a rest or a hit, exactly `hits` hits, and, when there is a
/// hit at all, a hit on its first step.
pub proof fn lemma_euclidean_shape(hits: nat, steps: nat)
    requires
        hits <= steps,
    ensures
        euclidean_pattern(hits, steps).len() == steps,
        is_binary(euclidean_pattern(hits, steps)),
        ones(euclidean_pattern(hits, steps)) == hits,
        hits > 0 ==> euclidean_pattern(hits, steps)[0] == 1,
{
    lemma_ones_single();
    if hits == 0 {
        lemma_repeat(seq![0u8], steps);
        assert(is_binary(seq![0u8]));
    } else {
        let zeros = (steps - hits) as nat;
        let c = zeros / hits;
        let raw = assemble(zeros, hits, seq![0u8], seq![1u8]);
        assert(is_binary(seq![0u8]));
        assert(is_binary(seq![1u8]));
        lemma_assemble(zeros, hits, seq![0u8], seq![1u8], 0, c, steps, hits);
        lemma_first_hit(raw, c);
        lemma_rotate_left_counts(raw, c);
        lemma_rotate_left_index(raw, c, 0);
        lemma_small_mod(c, steps);
    }
}

/// Going around the Euclidean pattern cyclically, consecutive hits are
/// always `steps / hits` or `steps / hits + 1` steps apart; so no two gaps
/// between consecutive hits differ by more than one step.
pub proof fn lemma_euclidean_even(hits: nat, steps: nat)
    requires
        0 < hits <= steps,
    ensures
        evenly_spaced(euclidean_pattern(hits, steps), steps / hits),
{
    let zeros = (steps - hits) as nat;
    let c = zeros / hits;
    let raw = assemble(zeros, hits, seq![0u8], seq![1u8]);
    assert(steps / hits == c + 1) by {
        lemma_div_plus_one(zeros as int, hits as int);
    }
    assert(even_word(raw, c)) by {
        lemma_ones_single();
        assert(is_binary(seq![0u8]));
        assert(is_binary(seq![1u8]));
        lemma_assemble(zeros, hits, seq![0u8], seq![1u8], 0, c, steps, hits);
    }
    lemma_first_hit(raw, c);
    lemma_even_cyclic(raw, c);
    lemma_evenly_spaced_rotate(raw, c, c + 1);
}


/// The first hit of `s` is at `f` when `s[f]` is a hit and no step before
/// it is.
pub proof fn lemma_first_hit_at(s: Seq<u8>, f: nat)
    requires
        f <= s.len(),
        f < s.len() ==> s[f as int] == 1,
        forall|t: int| 0 <= t < f ==> #[trigger] s[t] != 1,
    ensures
        first_hit(s) == f,
    decreases f,
{
    if f > 0 {
        let v = s.drop_first();
        assert forall|t: int| 0 <= t < f - 1 implies #[trigger] v[t] != 1 by {
            assert(v[t] == s[t + 1]);
        }
        lemma_first_hit_at(v, (f - 1) as nat);
    }
}

/// A sequence in which no step is a hit has no hits.
pub proof fn lemma_no_hit(s: Seq<u8>)
    requires
        forall|t: int| 0 <= t < s.len() ==> #[trigger] s[t] != 1,
    ensures
        ones(s) == 0,
    decreases s.len(),
{
    if s.len() > 0 {
        let v = s.drop_last();
        assert forall|t: int| 0 <= t < v.len() implies #[trigger] v[t] != 1 by {
            assert(v[t] == s[t]);
        }
        lemma_no_hit(v);
    }
}

/// One copy of `s` is `s`.
pub proof fn lemma_repeat_once(s: Seq<u8>)
    ensures
        repeat(s, 1) == s,
{
    assert(repeat(s, 1) =~= s) by {
        assert(repeat(s, 0) =~= Seq::<u8>::empty());
    }
}

} // verus!
