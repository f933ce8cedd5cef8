use vstd::prelude::*;

verus! {

/// A numeric kernel is pure when it accepts every argument and any two of its
/// results for one argument agree.
pub open spec fn pure_kernel<Args: core::marker::Tuple, Out, F: FnOnce<Args, Output = Out>>(
    f: F,
) -> bool {
    &&& forall|a: Args| #[trigger] call_requires(f, a)
    &&& forall|a: Args, r1: Out, r2: Out|
        #[trigger] call_ensures(f, a, r1) && #[trigger] call_ensures(f, a, r2) ==> r1 == r2
}

/// The value a pure kernel yields for `a`.
pub open spec fn value_of<Args: core::marker::Tuple, Out, F: FnOnce<Args, Output = Out>>(
    f: F,
    a: Args,
) -> Out {
    choose|r: Out| call_ensures(f, a, r)
}

/// A pure kernel as the function it computes.
pub open spec fn model<Args: core::marker::Tuple, Out, F: FnOnce<Args, Output = Out>>(
    f: F,
) -> spec_fn(Args) -> Out {
    |a: Args| value_of(f, a)
}

/// Whatever a pure kernel returned for `a` is its value at `a`.
pub proof fn lemma_value_of<Args: core::marker::Tuple, Out, F: FnOnce<Args, Output = Out>>(
    f: F,
    a: Args,
    r: Out,
)
    requires
        pure_kernel(f),
        call_ensures(f, a, r),
    ensures
        r == value_of(f, a),
        r == model(f)(a),
{
}

} // verus!
