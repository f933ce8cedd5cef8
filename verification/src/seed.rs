use vstd::prelude::*;
use vstd::arithmetic::div_mod::lemma_fundamental_div_mod_converse;
use crate::kernel::{pure_kernel, model, lemma_value_of};

verus! {

/// The `n` points of a shell: point `i` is `place(i, n)`.
pub open spec fn shell_points<P>(n: usize, place: spec_fn((usize, usize)) -> P) -> Seq<P> {
    Seq::new(n as nat, |i: int| place((i as usize, n)))
}

/// The points of one ring round `normal`: none when `frame` finds no plane
/// across the normal, else `points` of them, point `i` being `place(b, i, points)`
/// in the frame `b`.
pub open spec fn ring_points<N, B, P>(
    normal: N,
    points: usize,
    frame: spec_fn((N,)) -> Option<B>,
    place: spec_fn((B, usize, usize)) -> P,
) -> Seq<P> {
    match frame((normal,)) {
        Some(b) => Seq::new(points as nat, |i: int| place((b, i as usize, points))),
        None => Seq::empty(),
    }
}

/// The points of `rings` rings stacked round `vel`, ring after ring: none for a
/// source at rest or without a frame, else `pts_per_ring` on each ring, point
/// `i` of ring `r` being `place(b, r, i, pts_per_ring)`.
pub open spec fn stacked_ring_points<N, B, P>(
    vel: N,
    rings: usize,
    pts_per_ring: usize,
    is_moving: spec_fn((N,)) -> bool,
    frame: spec_fn((N,)) -> Option<B>,
    place: spec_fn((B, usize, usize, usize)) -> P,
) -> Seq<P> {
    if !is_moving((vel,)) {
        Seq::empty()
    } else {
        match frame((vel,)) {
            Some(b) => Seq::new(
                (rings * pts_per_ring) as nat,
                |k: int|
                    place(
                        (
                            b,
                            (k / (pts_per_ring as int)) as usize,
                            (k % (pts_per_ring as int)) as usize,
                            pts_per_ring,
                        ),
                    ),
            ),
            None => Seq::empty(),
        }
    }
}

/// Where a line starts, and which way the field is read along it.
#[derive(Debug)]
pub struct Seed<P, S> {
    pub at: P,
    pub sign: S,
}

/// The seeds of one shell round every source, source after source: `n` for
/// each, seed `i` of source `c` standing at `place(c, i, n)` and carrying the
/// sign `polarity(c)`.
pub open spec fn shell_seeds<C, P, S>(
    charges: Seq<C>,
    n: usize,
    polarity: spec_fn((C,)) -> S,
    place: spec_fn((C, usize, usize)) -> P,
) -> Seq<Seed<P, S>> {
    Seq::new(
        (charges.len() * n) as nat,
        |k: int|
            Seed {
                at: place((charges[k / (n as int)], (k % (n as int)) as usize, n)),
                sign: polarity((charges[k / (n as int)],)),
            },
    )
}

/// Spreads `n` seeds over a shell. `place(i, n)` is the position of seed `i`
/// out of `n`. No seeds are asked for, none are returned.
pub fn fibonacci_sphere<P, Pl: Fn(usize, usize) -> P>(n: usize, place: &Pl) -> (out: Vec<P>)
    requires
        pure_kernel(*place),
    ensures
        out@ == shell_points(n, model(*place)),
        out@.len() == n,
{
    let mut out: Vec<P> = Vec::new();
    let mut i: usize = 0;
    while i < n
        invariant
            i <= n,
            pure_kernel(*place),
            out@ == shell_points(n, model(*place)).take(i as int),
        decreases n - i,
    {
        let p = place(i, n);
        proof {
            lemma_value_of(*place, (i, n), p);
        }
        out.push(p);
        i += 1;
        assert(out@ =~= shell_points(n, model(*place)).take(i as int));
    }
    proof {
        assert(shell_points(n, model(*place)).take(n as int) =~= shell_points(n, model(*place)));
    }
    out
}

/// Spaces `points` seeds on a ring in the plane across `normal`.
/// `frame(normal)` is a frame of that plane, or `None` where the normal is too
/// short to have one; then the ring is empty.
pub fn sample_ring<N: Copy, B: Copy, P, Fr: Fn(N) -> Option<B>, Pl: Fn(B, usize, usize) -> P>(
    normal: N,
    points: usize,
    frame: &Fr,
    place: &Pl,
) -> (out: Vec<P>)
    requires
        pure_kernel(*frame),
        pure_kernel(*place),
    ensures
        out@ == ring_points(normal, points, model(*frame), model(*place)),
        model(*frame)((normal,)).is_none() ==> out@.len() == 0,
        model(*frame)((normal,)).is_some() ==> out@.len() == points,
{
    let mut out: Vec<P> = Vec::new();
    let found = frame(normal);
    proof {
        lemma_value_of(*frame, (normal,), found);
    }
    if points == 0 {
        proof {
            assert(out@ =~= ring_points(normal, points, model(*frame), model(*place)));
        }
        return out;
    }
    match found {
        None => {},
        Some(b) => {
            let ghost whole = ring_points(normal, points, model(*frame), model(*place));
            let mut i: usize = 0;
            while i < points
                invariant
                    i <= points,
                    pure_kernel(*place),
                    whole == Seq::new(
                        points as nat,
                        |i: int| model(*place)((b, i as usize, points)),
                    ),
                    out@ == whole.take(i as int),
                decreases points - i,
            {
                let p = place(b, i, points);
                proof {
                    lemma_value_of(*place, (b, i, points), p);
                }
                out.push(p);
                i += 1;
                assert(out@ =~= whole.take(i as int));
            }
            proof {
                assert(whole.take(points as int) =~= whole);
            }
        },
    }
    out
}

/// Stacks `rings` rings of `pts_per_ring` seeds round the velocity `vel` of a
/// source. `is_moving(vel)` tells whether the source moves at all; one at rest
/// gets no seeds. `place(b, r, i, n)` is seed `i` out of `n` on ring `r`.
pub fn b_rings_for_charge<
    N: Copy,
    B: Copy,
    P,
    Mv: Fn(N) -> bool,
    Fr: Fn(N) -> Option<B>,
    Pl: Fn(B, usize, usize, usize) -> P,
>(vel: N, rings: usize, pts_per_ring: usize, is_moving: &Mv, frame: &Fr, place: &Pl) -> (out: Vec<
    P,
>)
    requires
        pure_kernel(*is_moving),
        pure_kernel(*frame),
        pure_kernel(*place),
    ensures
        out@ == stacked_ring_points(
            vel,
            rings,
            pts_per_ring,
            model(*is_moving),
            model(*frame),
            model(*place),
        ),
        !model(*is_moving)((vel,)) ==> out@.len() == 0,
{
    let mut out: Vec<P> = Vec::new();
    let moving = is_moving(vel);
    let found = frame(vel);
    proof {
        lemma_value_of(*is_moving, (vel,), moving);
        lemma_value_of(*frame, (vel,), found);
    }
    if !moving {
        return out;
    }
    match found {
        None => {},
        Some(b) => {
            let ghost whole = stacked_ring_points(
                vel,
                rings,
                pts_per_ring,
                model(*is_moving),
                model(*frame),
                model(*place),
            );
            let mut r: usize = 0;
            while r < rings
                invariant
                    r <= rings,
                    pure_kernel(*place),
                    whole.len() == rings * pts_per_ring,
                    forall|k: int|
                        0 <= k < whole.len() ==> whole[k] == model(*place)(
                            (
                                b,
                                (k / (pts_per_ring as int)) as usize,
                                (k % (pts_per_ring as int)) as usize,
                                pts_per_ring,
                            ),
                        ),
                    r * pts_per_ring <= rings * pts_per_ring,
                    out@ == whole.take(r * pts_per_ring),
                decreases rings - r,
            {
                proof {
                    assert(r * pts_per_ring + pts_per_ring <= rings * pts_per_ring)
                        by (nonlinear_arith)
                        requires
                            r < rings,
                    ;
                }
                let mut i: usize = 0;
                while i < pts_per_ring
                    invariant
                        r < rings,
                        i <= pts_per_ring,
                        pure_kernel(*place),
                        whole.len() == rings * pts_per_ring,
                        forall|k: int|
                            0 <= k < whole.len() ==> whole[k] == model(*place)(
                                (
                                    b,
                                    (k / (pts_per_ring as int)) as usize,
                                    (k % (pts_per_ring as int)) as usize,
                                    pts_per_ring,
                                ),
                            ),
                        r * pts_per_ring + pts_per_ring <= rings * pts_per_ring,
                        out@ == whole.take(r * pts_per_ring + i),
                    decreases pts_per_ring - i,
                {
                    let p = place(b, r, i, pts_per_ring);
                    proof {
                        lemma_value_of(*place, (b, r, i, pts_per_ring), p);
                        lemma_fundamental_div_mod_converse(
                            r * pts_per_ring + i,
                            pts_per_ring as int,
                            r as int,
                            i as int,
                        );
                    }
                    out.push(p);
                    i += 1;
                    assert(out@ =~= whole.take(r * pts_per_ring + i));
                }
                r += 1;
                proof {
                    assert((r - 1) * pts_per_ring + pts_per_ring == r * pts_per_ring)
                        by (nonlinear_arith);
                }
            }
            proof {
                assert(whole.take(rings * pts_per_ring) =~= whole);
            }
        },
    }
    out
}

/// Seeds a shell of `n` points round every source and tags each seed with the
/// polarity of its source, so that a line is traced away from a positive source
/// and towards a negative one.
pub fn seeds_for_charges<C: Copy, P, S: Copy, Po: Fn(C) -> S, Pl: Fn(C, usize, usize) -> P>(
    charges: &[C],
    n: usize,
    polarity: &Po,
    place: &Pl,
) -> (out: Vec<Seed<P, S>>)
    requires
        pure_kernel(*polarity),
        pure_kernel(*place),
    ensures
        out@ == shell_seeds(charges@, n, model(*polarity), model(*place)),
        out@.len() == charges@.len() * n,
{
    let ghost whole = shell_seeds(charges@, n, model(*polarity), model(*place));
    let mut out: Vec<Seed<P, S>> = Vec::new();
    let mut c: usize = 0;
    while c < charges.len()
        invariant
            c <= charges.len(),
            pure_kernel(*polarity),
            pure_kernel(*place),
            whole == shell_seeds(charges@, n, model(*polarity), model(*place)),
            c * n <= charges@.len() * n,
            out@ == whole.take(c * n),
        decreases charges.len() - c,
    {
        let source = charges[c];
        let sign = polarity(source);
        proof {
            lemma_value_of(*polarity, (source,), sign);
            assert(c * n + n <= charges@.len() * n) by (nonlinear_arith)
                requires
                    c < charges@.len(),
            ;
        }
        let mut i: usize = 0;
        while i < n
            invariant
                c < charges.len(),
                i <= n,
                pure_kernel(*place),
                whole == shell_seeds(charges@, n, model(*polarity), model(*place)),
                source == charges@[c as int],
                sign == model(*polarity)((source,)),
                c * n + n <= charges@.len() * n,
                out@ == whole.take(c * n + i),
            decreases n - i,
        {
            let at = place(source, i, n);
            proof {
                lemma_value_of(*place, (source, i, n), at);
                lemma_fundamental_div_mod_converse(c * n + i, n as int, c as int, i as int);
            }
            out.push(Seed { at, sign });
            i += 1;
            assert(out@ =~= whole.take(c * n + i));
        }
        c += 1;
        proof {
            assert((c - 1) * n + n == c * n) by (nonlinear_arith);
        }
    }
    proof {
        assert(whole.take(charges@.len() * n) =~= whole);
    }
    out
}

} // verus!
