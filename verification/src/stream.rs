use vstd::prelude::*;
use vstd::arithmetic::div_mod::lemma_fundamental_div_mod_converse;
use crate::kernel::{pure_kernel, model, lemma_value_of};
use crate::rk4::{Reach, pure_step, rk4_next, rk4_step};
use crate::solver::Solver;

verus! {

/// Bookkeeping for a set of streamlines: how many seeds are wanted, and whether
/// the lines drawn so far are stale.
pub struct Streamliner {
    seeds: u32,
    dirty: bool,
}

/// The six kernels of a two-dimensional trace are pure.
pub open spec fn pure_walk<
    P,
    S,
    D,
    M,
    In: Fn(P) -> bool,
    Em: Fn(P) -> (S, S),
    Dir: Fn(P, bool) -> (D, M),
    Sh: Fn(P, D, Reach) -> P,
    Co: Fn(P, D, D, D, D) -> P,
    Rg: Fn(M) -> bool,
>(inside: In, emit: Em, direction: Dir, shift: Sh, combine: Co, in_range: Rg) -> bool {
    &&& pure_kernel(inside)
    &&& pure_kernel(emit)
    &&& pure_step(direction, shift, combine)
    &&& pure_kernel(in_range)
}

/// The samples of one run from `p` with at most `budget` points.
///
/// A run ends before a point that lies outside the domain, and when the budget
/// is used up. Otherwise the point is emitted as two scalars and one step is
/// taken from it; a field magnitude out of range at the point ends the run
/// after that point.
pub open spec fn walk_pts<P, S, D, M>(
    inside: spec_fn((P,)) -> bool,
    emit: spec_fn((P,)) -> (S, S),
    direction: spec_fn((P, bool)) -> (D, M),
    shift: spec_fn((P, D, Reach)) -> P,
    combine: spec_fn((P, D, D, D, D)) -> P,
    in_range: spec_fn((M,)) -> bool,
    p: P,
    forward: bool,
    budget: nat,
) -> Seq<S>
    decreases budget,
{
    if budget == 0 || !inside((p,)) {
        Seq::empty()
    } else {
        let e = emit((p,));
        let next = rk4_next(direction, shift, combine, p, forward);
        let rest = if in_range((next.1,)) {
            walk_pts(
                inside,
                emit,
                direction,
                shift,
                combine,
                in_range,
                next.0,
                forward,
                (budget - 1) as nat,
            )
        } else {
            Seq::empty()
        };
        seq![e.0, e.1] + rest
    }
}

/// Point `i` of a run of interleaved samples.
pub open spec fn point_at<S>(s: Seq<S>, i: int) -> (S, S) {
    (s[2 * i], s[2 * i + 1])
}

/// The points of `s` in reverse order, each point keeping its two scalars in place.
pub open spec fn reversed_points<S>(s: Seq<S>) -> Seq<S> {
    Seq::new(s.len(), |k: int| s[s.len() - 2 - 2 * (k / 2) + k % 2])
}

/// One line out of two runs from a common seed: the backward run without its
/// first point, which is the seed, reversed; then the forward run.
pub open spec fn merged<S>(back: Seq<S>, fwd: Seq<S>) -> Seq<S> {
    let tail = if back.len() >= 2 {
        back.skip(2)
    } else {
        back
    };
    reversed_points(tail) + fwd
}

/// The line through `seed`: both runs of at most `max_pts` points, merged.
pub open spec fn streamline<P, S, D, M>(
    inside: spec_fn((P,)) -> bool,
    emit: spec_fn((P,)) -> (S, S),
    direction: spec_fn((P, bool)) -> (D, M),
    shift: spec_fn((P, D, Reach)) -> P,
    combine: spec_fn((P, D, D, D, D)) -> P,
    in_range: spec_fn((M,)) -> bool,
    seed: P,
    max_pts: nat,
) -> Seq<S> {
    merged(
        walk_pts(inside, emit, direction, shift, combine, in_range, seed, false, max_pts),
        walk_pts(inside, emit, direction, shift, combine, in_range, seed, true, max_pts),
    )
}

/// The seeds of an `n` by `n` lattice, rows one after another: seed `k` has the
/// coordinates of column `k % n` and of row `k / n`.
pub open spec fn seed_lattice<S>(n: u32, coord: spec_fn((u32, u32)) -> S) -> Seq<(S, S)> {
    Seq::new(
        (n * n) as nat,
        |k: int| (coord(((k % (n as int)) as u32, n)), coord(((k / (n as int)) as u32, n))),
    )
}

/// The field between the samples of `s` at `(u, v)`, if `locate` names a cell
/// of the grid.
///
/// `locate(u, v, w, h)` gives the cell below and left of the point and the
/// point's two fractions within it. The stencil is that cell, its right
/// neighbour, the one above, and the one above to the right, where a neighbour
/// beyond the last column or row is the last column or row itself.
pub open spec fn field_at<S, T>(
    s: Solver<S>,
    u: S,
    v: S,
    locate: spec_fn((S, S, usize, usize)) -> (usize, usize, T, T),
    blend: spec_fn(((S, S), (S, S), (S, S), (S, S), T, T)) -> (S, S),
) -> Option<(S, S)> {
    let at = locate((u, v, s@.w as usize, s@.h as usize));
    let x0 = at.0 as nat;
    let y0 = at.1 as nat;
    if x0 < s@.w && y0 < s@.h {
        let x1 = if x0 + 1 < s@.w {
            x0 + 1
        } else {
            x0
        };
        let y1 = if y0 + 1 < s@.h {
            y0 + 1
        } else {
            y0
        };
        Some(blend((s@.cell(x0, y0), s@.cell(x1, y0), s@.cell(x0, y1), s@.cell(x1, y1), at.2, at.3)))
    } else {
        None
    }
}

/// Traces one run from `seed`, with the field when `forward`, against it otherwise.
///
/// `inside(p)` tells whether `p` lies in the domain, `emit(p)` gives the two
/// scalars written for it, `in_range(m)` tells whether a field magnitude allows
/// the run to go on; the other three kernels make up the step.
pub fn walk<
    P: Copy,
    S: Copy,
    D: Copy,
    M: Copy,
    In: Fn(P) -> bool,
    Em: Fn(P) -> (S, S),
    Dir: Fn(P, bool) -> (D, M),
    Sh: Fn(P, D, Reach) -> P,
    Co: Fn(P, D, D, D, D) -> P,
    Rg: Fn(M) -> bool,
>(
    seed: P,
    max_pts: usize,
    forward: bool,
    inside: &In,
    emit: &Em,
    direction: &Dir,
    shift: &Sh,
    combine: &Co,
    in_range: &Rg,
) -> (pts: Vec<S>)
    requires
        pure_walk(*inside, *emit, *direction, *shift, *combine, *in_range),
    ensures
        pts@ == walk_pts(
            model(*inside),
            model(*emit),
            model(*direction),
            model(*shift),
            model(*combine),
            model(*in_range),
            seed,
            forward,
            max_pts as nat,
        ),
        pts@.len() % 2 == 0,
        pts@.len() <= 2 * max_pts,
{
    let ghost whole = walk_pts(
        model(*inside),
        model(*emit),
        model(*direction),
        model(*shift),
        model(*combine),
        model(*in_range),
        seed,
        forward,
        max_pts as nat,
    );
    let mut pts: Vec<S> = Vec::new();
    let mut p = seed;
    let mut i: usize = 0;
    let mut done = false;
    while i < max_pts && !done
        invariant
            i <= max_pts,
            pure_walk(*inside, *emit, *direction, *shift, *combine, *in_range),
            pts@.len() % 2 == 0,
            pts@.len() <= 2 * i,
            done ==> pts@ == whole,
            !done ==> pts@ + walk_pts(
                model(*inside),
                model(*emit),
                model(*direction),
                model(*shift),
                model(*combine),
                model(*in_range),
                p,
                forward,
                (max_pts - i) as nat,
            ) == whole,
        decreases max_pts - i,
    {
        let ghost rest_here = walk_pts(
            model(*inside),
            model(*emit),
            model(*direction),
            model(*shift),
            model(*combine),
            model(*in_range),
            p,
            forward,
            (max_pts - i) as nat,
        );
        let ghost before = pts@;
        let within = inside(p);
        proof {
            lemma_value_of(*inside, (p,), within);
        }
        if !within {
            done = true;
            assert(before + rest_here =~= before);
        } else {
            let e = emit(p);
            pts.push(e.0);
            pts.push(e.1);
            let (q, m) = rk4_step(p, forward, direction, shift, combine);
            let go_on = in_range(m);
            proof {
                lemma_value_of(*emit, (p,), e);
                lemma_value_of(*in_range, (m,), go_on);
            }
            if go_on {
                let ghost rest_next = walk_pts(
                    model(*inside),
                    model(*emit),
                    model(*direction),
                    model(*shift),
                    model(*combine),
                    model(*in_range),
                    q,
                    forward,
                    (max_pts - i - 1) as nat,
                );
                assert(pts@ + rest_next =~= before + (seq![e.0, e.1] + rest_next));
                p = q;
            } else {
                done = true;
                assert(pts@ =~= before + (seq![e.0, e.1] + Seq::<S>::empty()));
            }
        }
        i += 1;
    }
    proof {
        if !done {
            assert(pts@ + Seq::<S>::empty() =~= pts@);
        }
    }
    pts
}

/// Joins the two runs from one seed into a single line: the backward run
/// without its first point, last point first, then the forward run.
pub fn merge_runs<S: Copy>(back: &[S], fwd: &[S]) -> (line: Vec<S>)
    requires
        back@.len() % 2 == 0,
    ensures
        line@ == merged(back@, fwd@),
{
    let ghost tail = if back@.len() >= 2 {
        back@.skip(2)
    } else {
        back@
    };
    let ghost turned = reversed_points(tail);
    let mut line: Vec<S> = Vec::new();
    let mut i: usize = back.len();
    while i > 2
        invariant
            back@.len() % 2 == 0,
            i % 2 == 0,
            i <= back@.len(),
            back@.len() >= 2 ==> i >= 2,
            tail == (if back@.len() >= 2 {
                back@.skip(2)
            } else {
                back@
            }),
            turned == reversed_points(tail),
            line@.len() == back@.len() - i,
            line@ == turned.take(back@.len() - i),
        decreases i,
    {
        i -= 2;
        let ghost before = line@;
        line.push(back[i]);
        line.push(back[i + 1]);
        proof {
            let n = back@.len() - i;
            assert(line@ =~= turned.take(n)) by {
                assert forall|k: int| 0 <= k < n implies line@[k] == turned[k] by {
                    if k < n - 2 {
                        assert(line@[k] == before[k]);
                    }
                }
            }
        }
    }
    proof {
        assert(line@ =~= turned) by {
            if back@.len() >= 2 {
                assert(i == 2);
            }
        }
    }
    let mut j: usize = 0;
    while j < fwd.len()
        invariant
            j <= fwd.len(),
            line@ == turned + fwd@.take(j as int),
        decreases fwd.len() - j,
    {
        line.push(fwd[j]);
        j += 1;
        assert(line@ =~= turned + fwd@.take(j as int));
    }
    proof {
        assert(fwd@.take(fwd.len() as int) =~= fwd@);
    }
    line
}

/// Traces the line through `seed`: one run against the field and one with it,
/// of at most `max_pts` points each, joined at the seed.
pub fn integrate_streamline<
    P: Copy,
    S: Copy,
    D: Copy,
    M: Copy,
    In: Fn(P) -> bool,
    Em: Fn(P) -> (S, S),
    Dir: Fn(P, bool) -> (D, M),
    Sh: Fn(P, D, Reach) -> P,
    Co: Fn(P, D, D, D, D) -> P,
    Rg: Fn(M) -> bool,
>(
    seed: P,
    max_pts: usize,
    inside: &In,
    emit: &Em,
    direction: &Dir,
    shift: &Sh,
    combine: &Co,
    in_range: &Rg,
) -> (line: Vec<S>)
    requires
        pure_walk(*inside, *emit, *direction, *shift, *combine, *in_range),
    ensures
        line@ == streamline(
            model(*inside),
            model(*emit),
            model(*direction),
            model(*shift),
            model(*combine),
            model(*in_range),
            seed,
            max_pts as nat,
        ),
{
    let back = walk(seed, max_pts, false, inside, emit, direction, shift, combine, in_range);
    let fwd = walk(seed, max_pts, true, inside, emit, direction, shift, combine, in_range);
    merge_runs(&back, &fwd)
}

/// Lays `n` by `n` seeds over the domain. `coord(i, n)` is the coordinate of
/// column, or row, `i` out of `n`.
pub fn make_seeds<S: Copy, C: Fn(u32, u32) -> S>(n: u32, coord: &C) -> (seeds: Vec<(S, S)>)
    requires
        pure_kernel(*coord),
    ensures
        seeds@ == seed_lattice(n, model(*coord)),
{
    let ghost lattice = seed_lattice(n, model(*coord));
    let mut seeds: Vec<(S, S)> = Vec::new();
    let mut j: u32 = 0;
    while j < n
        invariant
            j <= n,
            pure_kernel(*coord),
            lattice == seed_lattice(n, model(*coord)),
            seeds@ == lattice.take(j * n),
            j * n <= n * n,
        decreases n - j,
    {
        let v = coord(j, n);
        proof {
            lemma_value_of(*coord, (j, n), v);
            assert(j * n + n <= n * n) by (nonlinear_arith)
                requires
                    j < n,
            ;
        }
        let mut i: u32 = 0;
        while i < n
            invariant
                j < n,
                i <= n,
                pure_kernel(*coord),
                lattice == seed_lattice(n, model(*coord)),
                v == model(*coord)((j, n)),
                j * n + n <= n * n,
                seeds@ == lattice.take(j * n + i),
            decreases n - i,
        {
            let u = coord(i, n);
            proof {
                lemma_value_of(*coord, (i, n), u);
                lemma_fundamental_div_mod_converse(j * n + i, n as int, j as int, i as int);
            }
            seeds.push((u, v));
            i += 1;
            assert(seeds@ =~= lattice.take(j * n + i));
        }
        j += 1;
        proof {
            assert((j - 1) * n + n == j * n) by (nonlinear_arith);
            assert(j * n <= n * n) by (nonlinear_arith)
                requires
                    j <= n,
            ;
        }
    }
    proof {
        assert(lattice.take(n * n) =~= lattice);
    }
    seeds
}

/// Samples the swept field of `s` at `(u, v)` by blending the four cells round
/// the point. `blend(e00, e10, e01, e11, tx, ty)` weighs the four samples by
/// the two fractions. No cell, no sample: `None` when `locate` points off the grid.
pub fn sample_field<
    S: Copy,
    T: Copy,
    L: Fn(S, S, usize, usize) -> (usize, usize, T, T),
    B: Fn((S, S), (S, S), (S, S), (S, S), T, T) -> (S, S),
>(s: &Solver<S>, u: S, v: S, locate: &L, blend: &B) -> (e: Option<(S, S)>)
    requires
        s@.wf(),
        pure_kernel(*locate),
        pure_kernel(*blend),
    ensures
        e == field_at(*s, u, v, model(*locate), model(*blend)),
{
    let w = s.width();
    let h = s.height();
    let (x0, y0, tx, ty) = locate(u, v, w, h);
    proof {
        lemma_value_of(*locate, (u, v, w, h), (x0, y0, tx, ty));
    }
    if x0 < w && y0 < h {
        let x1 = if x0 + 1 < w {
            x0 + 1
        } else {
            x0
        };
        let y1 = if y0 + 1 < h {
            y0 + 1
        } else {
            y0
        };
        let e00 = s.cell(x0, y0);
        let e10 = s.cell(x1, y0);
        let e01 = s.cell(x0, y1);
        let e11 = s.cell(x1, y1);
        let e = blend(e00, e10, e01, e11, tx, ty);
        proof {
            lemma_value_of(*blend, (e00, e10, e01, e11, tx, ty), e);
        }
        Some(e)
    } else {
        None
    }
}

impl Streamliner {
    /// The number of seeds currently asked for.
    pub closed spec fn seed_count(&self) -> u32 {
        self.seeds
    }

    /// Whether the lines have to be traced again.
    pub closed spec fn is_dirty(&self) -> bool {
        self.dirty
    }

    /// Sixteen seeds, and nothing traced yet.
    pub fn new() -> (s: Self)
        ensures
            s.seed_count() == 16,
            s.is_dirty(),
    {
        Streamliner { seeds: 16, dirty: true }
    }

    /// Asks for `n` seeds; the lines are stale from now on.
    pub fn set_seeds(&mut self, n: u32)
        ensures
            final(self).seed_count() == n,
            final(self).is_dirty(),
    {
        self.seeds = n;
        self.dirty = true;
    }

    /// Reports whether the lines are stale, and marks them fresh.
    pub fn dirty(&mut self) -> (d: bool)
        ensures
            d == old(self).is_dirty(),
            !final(self).is_dirty(),
            final(self).seed_count() == old(self).seed_count(),
    {
        let d = self.dirty;
        self.dirty = false;
        d
    }

    /// Traces one line through every seed of a `seeds_per_axis` by
    /// `seeds_per_axis` lattice, in the order of the lattice. Each line has at
    /// most `max_pts` points on either side of its seed.
    pub fn recompute<
        S: Copy,
        D: Copy,
        M: Copy,
        C: Fn(u32, u32) -> S,
        In: Fn((S, S)) -> bool,
        Em: Fn((S, S)) -> (S, S),
        Dir: Fn((S, S), bool) -> (D, M),
        Sh: Fn((S, S), D, Reach) -> (S, S),
        Co: Fn((S, S), D, D, D, D) -> (S, S),
        Rg: Fn(M) -> bool,
    >(
        &self,
        seeds_per_axis: u32,
        max_pts: usize,
        coord: &C,
        inside: &In,
        emit: &Em,
        direction: &Dir,
        shift: &Sh,
        combine: &Co,
        in_range: &Rg,
    ) -> (lines: Vec<Vec<S>>)
        requires
            pure_kernel(*coord),
            pure_walk(*inside, *emit, *direction, *shift, *combine, *in_range),
        ensures
            lines@.len() == seeds_per_axis * seeds_per_axis,
            forall|k: int|
                0 <= k < lines@.len() ==> (#[trigger] lines@[k])@ == streamline(
                    model(*inside),
                    model(*emit),
                    model(*direction),
                    model(*shift),
                    model(*combine),
                    model(*in_range),
                    seed_lattice(seeds_per_axis, model(*coord))[k],
                    max_pts as nat,
                ),
    {
        let seeds = make_seeds(seeds_per_axis, coord);
        let mut lines: Vec<Vec<S>> = Vec::new();
        let mut k: usize = 0;
        while k < seeds.len()
            invariant
                k <= seeds.len(),
                seeds@ == seed_lattice(seeds_per_axis, model(*coord)),
                pure_walk(*inside, *emit, *direction, *shift, *combine, *in_range),
                lines@.len() == k,
                forall|j: int|
                    0 <= j < k ==> (#[trigger] lines@[j])@ == streamline(
                        model(*inside),
                        model(*emit),
                        model(*direction),
                        model(*shift),
                        model(*combine),
                        model(*in_range),
                        seeds@[j],
                        max_pts as nat,
                    ),
            decreases seeds.len() - k,
        {
            let line = integrate_streamline(
                seeds[k],
                max_pts,
                inside,
                emit,
                direction,
                shift,
                combine,
                in_range,
            );
            lines.push(line);
            k += 1;
        }
        lines
    }
}

/// A run is a whole number of points, at most as many as its budget.
pub proof fn lemma_walk_shape<P, S, D, M>(
    inside: spec_fn((P,)) -> bool,
    emit: spec_fn((P,)) -> (S, S),
    direction: spec_fn((P, bool)) -> (D, M),
    shift: spec_fn((P, D, Reach)) -> P,
    combine: spec_fn((P, D, D, D, D)) -> P,
    in_range: spec_fn((M,)) -> bool,
    p: P,
    forward: bool,
    budget: nat,
)
    ensures
        walk_pts(inside, emit, direction, shift, combine, in_range, p, forward, budget).len() % 2
            == 0,
        walk_pts(inside, emit, direction, shift, combine, in_range, p, forward, budget).len() <= 2
            * budget,
    decreases budget,
{
    if budget > 0 && inside((p,)) {
        let next = rk4_next(direction, shift, combine, p, forward);
        lemma_walk_shape(
            inside,
            emit,
            direction,
            shift,
            combine,
            in_range,
            next.0,
            forward,
            (budget - 1) as nat,
        );
    }
}

/// The two runs from one seed make one line through it.
///
/// Either both runs are empty, and so is the line; or both begin with the
/// seed's sample. Then the line holds that sample once, at the point whose
/// index is the number of points behind the seed. From there on the line is the
/// forward run, point for point, and from there back it is the backward run:
/// two neighbours on the line are always two neighbours of one run.
pub proof fn lemma_streamline_through_seed<P, S, D, M>(
    inside: spec_fn((P,)) -> bool,
    emit: spec_fn((P,)) -> (S, S),
    direction: spec_fn((P, bool)) -> (D, M),
    shift: spec_fn((P, D, Reach)) -> P,
    combine: spec_fn((P, D, D, D, D)) -> P,
    in_range: spec_fn((M,)) -> bool,
    seed: P,
    max_pts: nat,
)
    ensures
        ({
            let back = walk_pts(
                inside,
                emit,
                direction,
                shift,
                combine,
                in_range,
                seed,
                false,
                max_pts,
            );
            let fwd = walk_pts(
                inside,
                emit,
                direction,
                shift,
                combine,
                in_range,
                seed,
                true,
                max_pts,
            );
            let line = streamline(
                inside,
                emit,
                direction,
                shift,
                combine,
                in_range,
                seed,
                max_pts,
            );
            let behind = back.len() / 2 - 1;
            if max_pts == 0 || !inside((seed,)) {
                back.len() == 0 && fwd.len() == 0 && line.len() == 0
            } else {
                &&& back.len() >= 2
                &&& fwd.len() >= 2
                &&& line.len() == back.len() + fwd.len() - 2
                &&& point_at(line, behind) == emit((seed,))
                &&& forall|i: int|
                    0 <= i < fwd.len() / 2 ==> point_at(line, behind + i) == #[trigger] point_at(
                        fwd,
                        i,
                    )
                &&& forall|i: int|
                    0 <= i < back.len() / 2 ==> point_at(line, behind - i) == #[trigger] point_at(
                        back,
                        i,
                    )
            }
        }),
{
    let back = walk_pts(inside, emit, direction, shift, combine, in_range, seed, false, max_pts);
    let fwd = walk_pts(inside, emit, direction, shift, combine, in_range, seed, true, max_pts);
    let line = streamline(inside, emit, direction, shift, combine, in_range, seed, max_pts);
    lemma_walk_shape(inside, emit, direction, shift, combine, in_range, seed, false, max_pts);
    lemma_walk_shape(inside, emit, direction, shift, combine, in_range, seed, true, max_pts);
    if max_pts == 0 || !inside((seed,)) {
        assert(line =~= Seq::<S>::empty());
    } else {
        let e = emit((seed,));
        let tail = back.skip(2);
        let turned = reversed_points(tail);
        let behind = back.len() / 2 - 1;
        assert(back[0] == e.0 && back[1] == e.1);
        assert(fwd[0] == e.0 && fwd[1] == e.1);
        assert(line == turned + fwd);
        assert forall|i: int| 0 <= i < fwd.len() / 2 implies point_at(line, behind + i)
            == #[trigger] point_at(fwd, i) by {
            assert(line[2 * (behind + i)] == fwd[2 * i]);
            assert(line[2 * (behind + i) + 1] == fwd[2 * i + 1]);
        }
        assert forall|i: int| 0 <= i < back.len() / 2 implies point_at(line, behind - i)
            == #[trigger] point_at(back, i) by {
            if i == 0 {
                assert(point_at(line, behind + 0) == point_at(fwd, 0));
            } else {
                let k = 2 * (behind - i);
                assert(k / 2 == behind - i && k % 2 == 0);
                assert((k + 1) / 2 == behind - i && (k + 1) % 2 == 1);
                assert(line[k] == turned[k]);
                assert(line[k + 1] == turned[k + 1]);
                assert(turned[k] == tail[2 * i - 2]);
                assert(turned[k + 1] == tail[2 * i - 1]);
            }
        }
        assert(point_at(line, behind + 0) == point_at(fwd, 0));
    }
}

} // verus!
