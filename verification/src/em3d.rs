use vstd::prelude::*;
use crate::kernel::{pure_kernel, model, lemma_value_of};

verus! {

/// A point source: where it sits, how strong it is, how it moves.
pub struct Charge3D<V, S> {
    pub pos: V,
    pub q: S,
    pub vel: V,
}

impl<V: Copy, S: Copy> Clone for Charge3D<V, S> {
    fn clone(&self) -> (c: Self)
        ensures
            c == *self,
    {
        *self
    }
}

impl<V: Copy, S: Copy> Copy for Charge3D<V, S> {

}

/// The field at `p`: every source of `charges`, first to last, added onto `zero`
/// by `add_source`.
pub open spec fn field_sum<V, S, P>(
    add_source: spec_fn((V, P, Charge3D<V, S>)) -> V,
    p: P,
    charges: Seq<Charge3D<V, S>>,
    zero: V,
) -> V
    decreases charges.len(),
{
    if charges.len() == 0 {
        zero
    } else {
        add_source((field_sum(add_source, p, charges.drop_last(), zero), p, charges.last()))
    }
}

/// The magnetic term at `p`: as `field_sum`, but a source that `is_moving`
/// rejects leaves the running total as it was.
pub open spec fn moving_sum<V, S, P>(
    is_moving: spec_fn((Charge3D<V, S>,)) -> bool,
    add_source: spec_fn((V, P, Charge3D<V, S>)) -> V,
    p: P,
    charges: Seq<Charge3D<V, S>>,
    zero: V,
) -> V
    decreases charges.len(),
{
    if charges.len() == 0 {
        zero
    } else {
        let before = moving_sum(is_moving, add_source, p, charges.drop_last(), zero);
        if is_moving((charges.last(),)) {
            add_source((before, p, charges.last()))
        } else {
            before
        }
    }
}

/// Electric field at `p`. `add_source(total, p, c)` returns `total` plus the
/// contribution of the single source `c` at `p`; the sources are taken in order,
/// starting from `zero`. An empty source set gives `zero`.
pub fn sample_e3d<V: Copy, S: Copy, P: Copy, F: Fn(V, P, Charge3D<V, S>) -> V>(
    p: P,
    charges: &[Charge3D<V, S>],
    zero: V,
    add_source: &F,
) -> (e: V)
    requires
        pure_kernel(*add_source),
    ensures
        e == field_sum(model(*add_source), p, charges@, zero),
{
    let mut e = zero;
    let mut i: usize = 0;
    while i < charges.len()
        invariant
            i <= charges.len(),
            pure_kernel(*add_source),
            e == field_sum(model(*add_source), p, charges@.take(i as int), zero),
        decreases charges.len() - i,
    {
        let c = charges[i];
        let next = add_source(e, p, c);
        proof {
            lemma_value_of(*add_source, (e, p, c), next);
            assert(charges@.take(i + 1).drop_last() =~= charges@.take(i as int));
        }
        e = next;
        i += 1;
    }
    proof {
        assert(charges@.take(charges.len() as int) =~= charges@);
    }
    e
}

/// Magnetic term at `p` in the slow-source approximation. A source for which
/// `is_moving` answers no is skipped; for every other one
/// `add_source(total, p, c)` returns `total` plus that source's term.
pub fn sample_b3d<
    V: Copy,
    S: Copy,
    P: Copy,
    M: Fn(Charge3D<V, S>) -> bool,
    F: Fn(V, P, Charge3D<V, S>) -> V,
>(p: P, charges: &[Charge3D<V, S>], zero: V, is_moving: &M, add_source: &F) -> (b: V)
    requires
        pure_kernel(*is_moving),
        pure_kernel(*add_source),
    ensures
        b == moving_sum(model(*is_moving), model(*add_source), p, charges@, zero),
{
    let mut b = zero;
    let mut i: usize = 0;
    while i < charges.len()
        invariant
            i <= charges.len(),
            pure_kernel(*is_moving),
            pure_kernel(*add_source),
            b == moving_sum(model(*is_moving), model(*add_source), p, charges@.take(i as int), zero),
        decreases charges.len() - i,
    {
        let c = charges[i];
        proof {
            assert(charges@.take(i + 1).drop_last() =~= charges@.take(i as int));
        }
        let moving = is_moving(c);
        proof {
            lemma_value_of(*is_moving, (c,), moving);
        }
        if moving {
            let next = add_source(b, p, c);
            proof {
                lemma_value_of(*add_source, (b, p, c), next);
            }
            b = next;
        }
        i += 1;
    }
    proof {
        assert(charges@.take(charges.len() as int) =~= charges@);
    }
    b
}

/// Superposition, as far as it holds of any pure kernel: the field of `a`
/// followed by `b` is the field of `b` accumulated onto the field of `a`.
pub proof fn lemma_field_sum_concat<V, S, P>(
    add_source: spec_fn((V, P, Charge3D<V, S>)) -> V,
    p: P,
    a: Seq<Charge3D<V, S>>,
    b: Seq<Charge3D<V, S>>,
    zero: V,
)
    ensures
        field_sum(add_source, p, a + b, zero) == field_sum(
            add_source,
            p,
            b,
            field_sum(add_source, p, a, zero),
        ),
    decreases b.len(),
{
    if b.len() == 0 {
        assert(a + b =~= a);
    } else {
        lemma_field_sum_concat(add_source, p, a, b.drop_last(), zero);
        assert((a + b).drop_last() =~= a + b.drop_last());
        assert((a + b).last() == b.last());
    }
}

/// Sources that do not move contribute nothing: where `is_moving` rejects every
/// source, the magnetic term is `zero`.
pub proof fn lemma_moving_sum_at_rest<V, S, P>(
    is_moving: spec_fn((Charge3D<V, S>,)) -> bool,
    add_source: spec_fn((V, P, Charge3D<V, S>)) -> V,
    p: P,
    charges: Seq<Charge3D<V, S>>,
    zero: V,
)
    requires
        forall|i: int| 0 <= i < charges.len() ==> !is_moving((#[trigger] charges[i],)),
    ensures
        moving_sum(is_moving, add_source, p, charges, zero) == zero,
    decreases charges.len(),
{
    if charges.len() > 0 {
        lemma_moving_sum_at_rest(is_moving, add_source, p, charges.drop_last(), zero);
    }
}

/// A source that adds nothing changes nothing: where `add_source` hands every
/// running total back as it got it for each source of `charges`, as a kernel
/// does for a source without strength, the field at `p` is `zero`.
pub proof fn lemma_field_sum_of_silent_sources<V, S, P>(
    add_source: spec_fn((V, P, Charge3D<V, S>)) -> V,
    p: P,
    charges: Seq<Charge3D<V, S>>,
    zero: V,
)
    requires
        forall|i: int, total: V|
            0 <= i < charges.len() ==> #[trigger] add_source((total, p, charges[i])) == total,
    ensures
        field_sum(add_source, p, charges, zero) == zero,
    decreases charges.len(),
{
    if charges.len() > 0 {
        let front = charges.drop_last();
        assert forall|i: int, total: V| 0 <= i < front.len() implies #[trigger] add_source(
            (total, p, front[i]),
        ) == total by {
            assert(front[i] == charges[i]);
        }
        lemma_field_sum_of_silent_sources(add_source, p, front, zero);
        assert(charges.last() == charges[charges.len() - 1]);
    }
}

/// The magnetic term is the field sum over the sources that move, in their
/// order.
pub proof fn lemma_moving_sum_is_sum_over_movers<V, S, P>(
    is_moving: spec_fn((Charge3D<V, S>,)) -> bool,
    add_source: spec_fn((V, P, Charge3D<V, S>)) -> V,
    p: P,
    charges: Seq<Charge3D<V, S>>,
    zero: V,
)
    ensures
        moving_sum(is_moving, add_source, p, charges, zero) == field_sum(
            add_source,
            p,
            charges.filter(|c: Charge3D<V, S>| is_moving((c,))),
            zero,
        ),
    decreases charges.len(),
{
    let movers = |c: Charge3D<V, S>| is_moving((c,));
    reveal(Seq::filter);
    if charges.len() > 0 {
        let front = charges.drop_last();
        lemma_moving_sum_is_sum_over_movers(is_moving, add_source, p, front, zero);
        if is_moving((charges.last(),)) {
            assert(charges.filter(movers) == front.filter(movers).push(charges.last()));
            assert(front.filter(movers).push(charges.last()).drop_last() =~= front.filter(movers));
        }
    }
}

} // verus!
