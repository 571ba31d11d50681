//! Sources outside the library, such as the clock: what a call of one gave, so
//! that a contract can say that a value came from there.

use vstd::prelude::*;

verus! {

/// Takes what `source` gives.
pub(crate) fn taken<T, F: Fn() -> T>(source: F) -> (r: T)
    requires
        call_requires(source, ()),
    ensures
        call_ensures(source, (), r),
{
    source()
}

/// Takes what `source` gives for `from`.
pub(crate) fn taken_from<A, T, F: Fn(A) -> T>(source: F, from: A) -> (r: T)
    requires
        call_requires(source, (from,)),
    ensures
        call_ensures(source, (from,), r),
{
    source(from)
}

} // verus!
