//! Construction of fixed-size arrays element by element.

use array_init::array_init;
use vstd::prelude::*;

verus! {

/// Relies on `array_init::array_init`: element `i` of the array is what the
/// initializer returns for index `i`.
#[verifier::external_body]
pub(crate) fn array_from_fn<T, F: Fn(usize) -> T, const N: usize>(f: F) -> (r: [T; N])
    requires
        forall|i: usize| i < N ==> #[trigger] f.requires((i,)),
    ensures
        forall|i: int| 0 <= i < N ==> f.ensures((i as usize,), #[trigger] r[i]),
{
    array_init(f)
}

} // verus!
