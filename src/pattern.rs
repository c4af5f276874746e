//! Bounded step patterns, stored in fixed-capacity vectors.

use crate::rhythm::{lemma_repeat, lemma_repeat_once, repeat};
use arrayvec::ArrayVec;
use vstd::arithmetic::mul::lemma_mul_inequality;
use vstd::prelude::*;

verus! {

/// Largest number of steps a pattern can hold.
pub const MAXLEN: usize = 64;

/// A fixed-capacity sequence of steps; each step is 0 (rest) or 1 (hit).
pub type Pattern = ArrayVec<u8, MAXLEN>;

/// The fixed-capacity vector of the `arrayvec` crate, seen only through the
/// functions below.
#[verifier::external_type_specification]
#[verifier::external_body]
#[verifier::reject_recursive_types(T)]
pub struct ExArrayVec<T, const CAP: usize>(ArrayVec<T, CAP>);

/// The steps held by a pattern, in order.
pub uninterp spec fn pattern_steps(p: ArrayVec<u8, MAXLEN>) -> Seq<u8>;

/// Relies on `ArrayVec::new`: the new vector holds nothing.
#[verifier::external_body]
pub(crate) fn pattern_new() -> (r: Pattern)
    ensures
        pattern_steps(r) == Seq::<u8>::empty(),
{
    ArrayVec::new()
}

/// Relies on `ArrayVec::push`: the element is appended at the end (it panics
/// only when the vector is full).
#[verifier::external_body]
pub(crate) fn pattern_push(p: &mut Pattern, v: u8)
    requires
        pattern_steps(*old(p)).len() < MAXLEN,
    ensures
        pattern_steps(*final(p)) == pattern_steps(*old(p)).push(v),
{
    p.push(v)
}

/// Relies on `ArrayVec::as_slice`: a slice of exactly the stored elements,
/// which never outnumber the capacity.
#[verifier::external_body]
pub(crate) fn pattern_slice(p: &Pattern) -> (r: &[u8])
    ensures
        r@ == pattern_steps(*p),
        r@.len() <= MAXLEN,
{
    p.as_slice()
}

/// An empty pattern.
pub fn empty_pattern() -> (r: Pattern)
    ensures
        pattern_steps(r) == Seq::<u8>::empty(),
{
    pattern_new()
}

/// Appends `times` copies of `src` to `dst`.
pub(crate) fn append_repeat(dst: &mut Pattern, src: &[u8], times: usize)
    requires
        pattern_steps(*old(dst)).len() + times * src@.len() <= MAXLEN,
    ensures
        pattern_steps(*final(dst)) == pattern_steps(*old(dst)) + repeat(src@, times as nat),
{
    let ghost start = pattern_steps(*dst);
    let mut k: usize = 0;
    while k < times
        invariant
            k <= times,
            start.len() + times * src@.len() <= MAXLEN,
            pattern_steps(*dst) == start + repeat(src@, k as nat),
        decreases times - k,
    {
        proof {
            lemma_repeat(src@, k as nat);
            lemma_mul_inequality(k + 1, times as int, src@.len() as int);
            assert((k + 1) * src@.len() == k * src@.len() + src@.len()) by (nonlinear_arith);
        }
        let ghost before = pattern_steps(*dst);
        let mut t: usize = 0;
        while t < src.len()
            invariant
                t <= src@.len(),
                before.len() + src@.len() <= MAXLEN,
                pattern_steps(*dst) == before + src@.subrange(0, t as int),
            decreases src@.len() - t,
        {
            pattern_push(dst, src[t]);
            proof {
                assert(src@.subrange(0, t + 1) =~= src@.subrange(0, t as int).push(src@[t as int]));
            }
            t += 1;
        }
        proof {
            assert(src@.subrange(0, src@.len() as int) =~= src@);
            assert(start + repeat(src@, (k + 1) as nat) =~= start + repeat(src@, k as nat) + src@);
        }
        k += 1;
    }
}

/// Appends the steps of `src` to `dst`.
pub(crate) fn append(dst: &mut Pattern, src: &[u8])
    requires
        pattern_steps(*old(dst)).len() + src@.len() <= MAXLEN,
    ensures
        pattern_steps(*final(dst)) == pattern_steps(*old(dst)) + src@,
{
    proof {
        lemma_repeat_once(src@);
    }
    append_repeat(dst, src, 1);
}

} // verus!
