use vstd::prelude::*;
use crate::kernel::{pure_kernel, model, lemma_value_of};
use crate::rk4::{Reach, pure_step, rk4_next, rk4_step};

verus! {

/// What the two vertices of one ribbon step share: where the line is, which
/// way it runs there, and how bright it is drawn.
#[derive(Debug)]
pub struct RibbonSample<S> {
    pub pos: (S, S, S),
    pub tan: (S, S, S),
    pub tone: S,
}

impl<S: Copy> Clone for RibbonSample<S> {
    fn clone(&self) -> (c: Self)
        ensures
            c == *self,
    {
        *self
    }
}

impl<S: Copy> Copy for RibbonSample<S> {

}

/// One vertex as eight scalars: position, tangent, side, tone.
pub open spec fn vertex<S>(f: RibbonSample<S>, side: S) -> Seq<S> {
    seq![f.pos.0, f.pos.1, f.pos.2, f.tan.0, f.tan.1, f.tan.2, side, f.tone]
}

/// The six kernels of a ribbon trace are pure.
pub open spec fn pure_ribbon<
    P,
    S,
    D,
    M,
    Dir: Fn(P, bool) -> (D, M),
    Sh: Fn(P, D, Reach) -> P,
    Co: Fn(P, D, D, D, D) -> P,
    Fi: Fn(P) -> bool,
    Fr: Fn(P, P, M) -> RibbonSample<S>,
    Kp: Fn(P, M) -> bool,
>(direction: Dir, shift: Sh, combine: Co, is_finite: Fi, frame: Fr, keep: Kp) -> bool {
    &&& pure_step(direction, shift, combine)
    &&& pure_kernel(is_finite)
    &&& pure_kernel(frame)
    &&& pure_kernel(keep)
}

/// The vertices of a ribbon from `p`, with `prev` the point before it and at
/// most `budget` steps to go.
///
/// Each step is taken first. A step that lands on a point that is not finite
/// ends the ribbon without a vertex. Otherwise the new point is accepted: it
/// gives two vertices, for the first and the second side, that share one
/// sample; the sample is framed from the new point, the point before the one
/// stepped from, and the field magnitude at the point stepped from. The ribbon
/// goes on from the new point only if `keep` allows it.
pub open spec fn ribbon_pts<P, S, D, M>(
    direction: spec_fn((P, bool)) -> (D, M),
    shift: spec_fn((P, D, Reach)) -> P,
    combine: spec_fn((P, D, D, D, D)) -> P,
    is_finite: spec_fn((P,)) -> bool,
    frame: spec_fn((P, P, M)) -> RibbonSample<S>,
    keep: spec_fn((P, M)) -> bool,
    sides: (S, S),
    p: P,
    prev: P,
    forward: bool,
    budget: nat,
) -> Seq<S>
    decreases budget,
{
    if budget == 0 {
        Seq::empty()
    } else {
        let next = rk4_next(direction, shift, combine, p, forward);
        if !is_finite((next.0,)) {
            Seq::empty()
        } else {
            let f = frame((next.0, prev, next.1));
            let rest = if keep((next.0, next.1)) {
                ribbon_pts(
                    direction,
                    shift,
                    combine,
                    is_finite,
                    frame,
                    keep,
                    sides,
                    next.0,
                    p,
                    forward,
                    (budget - 1) as nat,
                )
            } else {
                Seq::empty()
            };
            vertex(f, sides.0) + vertex(f, sides.1) + rest
        }
    }
}

/// Appends one vertex to `out`.
fn push_vertex<S: Copy>(out: &mut Vec<S>, f: RibbonSample<S>, side: S)
    ensures
        final(out)@ == old(out)@ + vertex(f, side),
{
    out.push(f.pos.0);
    out.push(f.pos.1);
    out.push(f.pos.2);
    out.push(f.tan.0);
    out.push(f.tan.1);
    out.push(f.tan.2);
    out.push(side);
    out.push(f.tone);
    assert(out@ =~= old(out)@ + vertex(f, side));
}

/// Traces a ribbon from `seed`, with the field when `forward`, against it
/// otherwise, for at most `max_pts` steps. `prev` stands in for the point
/// before the seed. Every accepted step adds sixteen scalars: a vertex tagged
/// `sides.0` and one tagged `sides.1`.
///
/// `is_finite(p)` tells whether a point can be kept at all, `frame(p, prev, m)`
/// gives the sample of an accepted point, `keep(p, m)` tells whether the ribbon
/// may go on from it; the other three kernels make up the step.
pub fn integrate_streamline_ribbon_signed<
    P: Copy,
    S: Copy,
    D: Copy,
    M: Copy,
    Dir: Fn(P, bool) -> (D, M),
    Sh: Fn(P, D, Reach) -> P,
    Co: Fn(P, D, D, D, D) -> P,
    Fi: Fn(P) -> bool,
    Fr: Fn(P, P, M) -> RibbonSample<S>,
    Kp: Fn(P, M) -> bool,
>(
    seed: P,
    prev: P,
    max_pts: usize,
    forward: bool,
    sides: (S, S),
    direction: &Dir,
    shift: &Sh,
    combine: &Co,
    is_finite: &Fi,
    frame: &Fr,
    keep: &Kp,
) -> (out: Vec<S>)
    requires
        pure_ribbon(*direction, *shift, *combine, *is_finite, *frame, *keep),
    ensures
        out@ == ribbon_pts(
            model(*direction),
            model(*shift),
            model(*combine),
            model(*is_finite),
            model(*frame),
            model(*keep),
            sides,
            seed,
            prev,
            forward,
            max_pts as nat,
        ),
        out@.len() % 16 == 0,
        out@.len() <= 16 * max_pts,
{
    let ghost whole = ribbon_pts(
        model(*direction),
        model(*shift),
        model(*combine),
        model(*is_finite),
        model(*frame),
        model(*keep),
        sides,
        seed,
        prev,
        forward,
        max_pts as nat,
    );
    let mut out: Vec<S> = Vec::new();
    let mut p = seed;
    let mut prev = prev;
    let mut i: usize = 0;
    let mut done = false;
    while i < max_pts && !done
        invariant
            i <= max_pts,
            pure_ribbon(*direction, *shift, *combine, *is_finite, *frame, *keep),
            out@.len() % 16 == 0,
            out@.len() <= 16 * i,
            done ==> out@ == whole,
            !done ==> out@ + ribbon_pts(
                model(*direction),
                model(*shift),
                model(*combine),
                model(*is_finite),
                model(*frame),
                model(*keep),
                sides,
                p,
                prev,
                forward,
                (max_pts - i) as nat,
            ) == whole,
        decreases max_pts - i,
    {
        let ghost before = out@;
        let (landed, mag) = rk4_step(p, forward, direction, shift, combine);
        let finite = is_finite(landed);
        proof {
            lemma_value_of(*is_finite, (landed,), finite);
        }
        if !finite {
            done = true;
            assert(before + Seq::<S>::empty() =~= before);
        } else {
            let f = frame(landed, prev, mag);
            push_vertex(&mut out, f, sides.0);
            push_vertex(&mut out, f, sides.1);
            let go_on = keep(landed, mag);
            proof {
                lemma_value_of(*frame, (landed, prev, mag), f);
                lemma_value_of(*keep, (landed, mag), go_on);
            }
            if go_on {
                let ghost rest_next = ribbon_pts(
                    model(*direction),
                    model(*shift),
                    model(*combine),
                    model(*is_finite),
                    model(*frame),
                    model(*keep),
                    sides,
                    landed,
                    p,
                    forward,
                    (max_pts - i - 1) as nat,
                );
                assert(out@ + rest_next =~= before + (vertex(f, sides.0) + vertex(f, sides.1)
                    + rest_next));
                prev = p;
                p = landed;
            } else {
                done = true;
                assert(out@ =~= before + (vertex(f, sides.0) + vertex(f, sides.1) + Seq::<
                    S,
                >::empty()));
            }
        }
        i += 1;
    }
    proof {
        if !done {
            assert(out@ + Seq::<S>::empty() =~= out@);
        }
    }
    out
}

} // verus!
