use vstd::prelude::*;
use crate::kernel::{pure_kernel, model, lemma_value_of};

verus! {

/// How far a predictor stage is moved along a direction: half a step or a whole one.
#[derive(Clone, Copy, PartialEq, Eq, Structural, Debug)]
pub enum Reach {
    Half,
    Full,
}

/// One fixed step of the classic fourth-order scheme from `p`.
///
/// `direction(x, forward)` is the unit direction at `x`, turned round when
/// `forward` is false, with the magnitude of the field at `x` before it was
/// normalised. `shift(p, d, reach)` is `p` moved along `d` by half a step or a
/// whole one. `combine(p, k1, k2, k3, k4)` is `p` advanced by one step along
/// the weighted mean of the four stage directions.
///
/// The stages are taken at `p`, at `p` shifted half a step along the first
/// direction, at `p` shifted half a step along the second, and at `p` shifted a
/// whole step along the third. The magnitude handed back is that of the first
/// stage.
pub open spec fn rk4_next<P, D, M>(
    direction: spec_fn((P, bool)) -> (D, M),
    shift: spec_fn((P, D, Reach)) -> P,
    combine: spec_fn((P, D, D, D, D)) -> P,
    p: P,
    forward: bool,
) -> (P, M) {
    let s1 = direction((p, forward));
    let s2 = direction((shift((p, s1.0, Reach::Half)), forward));
    let s3 = direction((shift((p, s2.0, Reach::Half)), forward));
    let s4 = direction((shift((p, s3.0, Reach::Full)), forward));
    (combine((p, s1.0, s2.0, s3.0, s4.0)), s1.1)
}

/// The three kernels of a step are pure.
pub open spec fn pure_step<
    P,
    D,
    M,
    Dir: Fn(P, bool) -> (D, M),
    Sh: Fn(P, D, Reach) -> P,
    Co: Fn(P, D, D, D, D) -> P,
>(direction: Dir, shift: Sh, combine: Co) -> bool {
    &&& pure_kernel(direction)
    &&& pure_kernel(shift)
    &&& pure_kernel(combine)
}

/// Advances `p` by one step and returns the new point with the field magnitude
/// found at `p`.
pub fn rk4_step<
    P: Copy,
    D: Copy,
    M: Copy,
    Dir: Fn(P, bool) -> (D, M),
    Sh: Fn(P, D, Reach) -> P,
    Co: Fn(P, D, D, D, D) -> P,
>(p: P, forward: bool, direction: &Dir, shift: &Sh, combine: &Co) -> (next: (P, M))
    requires
        pure_step(*direction, *shift, *combine),
    ensures
        next == rk4_next(model(*direction), model(*shift), model(*combine), p, forward),
{
    let first = direction(p, forward);
    let mid_a = shift(p, first.0, Reach::Half);
    let second = direction(mid_a, forward);
    let mid_b = shift(p, second.0, Reach::Half);
    let third = direction(mid_b, forward);
    let end = shift(p, third.0, Reach::Full);
    let fourth = direction(end, forward);
    let q = combine(p, first.0, second.0, third.0, fourth.0);
    proof {
        lemma_value_of(*direction, (p, forward), first);
        lemma_value_of(*shift, (p, first.0, Reach::Half), mid_a);
        lemma_value_of(*direction, (mid_a, forward), second);
        lemma_value_of(*shift, (p, second.0, Reach::Half), mid_b);
        lemma_value_of(*direction, (mid_b, forward), third);
        lemma_value_of(*shift, (p, third.0, Reach::Full), end);
        lemma_value_of(*direction, (end, forward), fourth);
        lemma_value_of(*combine, (p, first.0, second.0, third.0, fourth.0), q);
    }
    (q, first.1)
}

} // verus!
