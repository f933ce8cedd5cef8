use vstd::prelude::*;
use crate::kernel::{pure_kernel, model, lemma_value_of};

verus! {

/// A point source on the unit square, with its drift.
#[derive(Debug)]
pub struct Charge<S> {
    pub u: S,
    pub v: S,
    pub q: S,
    pub vu: S,
    pub vv: S,
}

impl<S: Copy> Clone for Charge<S> {
    fn clone(&self) -> (c: Self)
        ensures
            c == *self,
    {
        *self
    }
}

impl<S: Copy> Copy for Charge<S> {

}

/// A dense grid of field samples over the unit square, recomputed as a whole
/// from the sources it holds.
pub struct Solver<S> {
    w: usize,
    h: usize,
    field: Vec<S>,
    b_field: Vec<S>,
    charges: Vec<Charge<S>>,
    zero: S,
}

/// What a solver holds, as plain values.
pub ghost struct Grid<S> {
    pub w: nat,
    pub h: nat,
    /// Two components per cell, rows one after another: length `w * h * 2`.
    pub field: Seq<S>,
    /// One component per cell, rows one after another: length `w * h`.
    pub b_field: Seq<S>,
    pub charges: Seq<Charge<S>>,
    /// The value a sum starts from.
    pub zero: S,
}

/// Where the first component of cell `(x, y)` sits in a grid `w` cells wide;
/// the second follows it.
pub open spec fn cell_base(w: nat, x: nat, y: nat) -> int {
    (y * w + x) * 2 as int
}

/// The two-component field at cell `(x, y)`: every source, first to last,
/// added onto `start` by `add_source`.
pub open spec fn cell_sum<S>(
    add_source: spec_fn(((S, S), usize, usize, Charge<S>)) -> (S, S),
    x: usize,
    y: usize,
    charges: Seq<Charge<S>>,
    start: (S, S),
) -> (S, S)
    decreases charges.len(),
{
    if charges.len() == 0 {
        start
    } else {
        add_source((cell_sum(add_source, x, y, charges.drop_last(), start), x, y, charges.last()))
    }
}

/// The out-of-plane magnetic term at cell `(x, y)`: as `cell_sum`, with one
/// component, and with the sources that `is_moving` rejects left out.
pub open spec fn cell_b_sum<S>(
    is_moving: spec_fn((Charge<S>,)) -> bool,
    add_source: spec_fn((S, usize, usize, Charge<S>)) -> S,
    x: usize,
    y: usize,
    charges: Seq<Charge<S>>,
    start: S,
) -> S
    decreases charges.len(),
{
    if charges.len() == 0 {
        start
    } else {
        let before = cell_b_sum(is_moving, add_source, x, y, charges.drop_last(), start);
        if is_moving((charges.last(),)) {
            add_source((before, x, y, charges.last()))
        } else {
            before
        }
    }
}

impl<S> Grid<S> {
    /// The buffers have the lengths that the dimensions ask for.
    pub open spec fn wf(self) -> bool {
        &&& self.field.len() == self.w * self.h * 2
        &&& self.b_field.len() == self.w * self.h
    }

    /// The two components stored for cell `(x, y)`.
    pub open spec fn cell(self, x: nat, y: nat) -> (S, S) {
        (self.field[cell_base(self.w, x, y)], self.field[cell_base(self.w, x, y) + 1])
    }

    /// Every cell of `field` holds the sum of all sources at that cell.
    pub open spec fn swept(
        self,
        add_source: spec_fn(((S, S), usize, usize, Charge<S>)) -> (S, S),
    ) -> bool {
        forall|x: usize, y: usize|
            x < self.w && y < self.h ==> #[trigger] self.cell(x as nat, y as nat) == cell_sum(
                add_source,
                x,
                y,
                self.charges,
                (self.zero, self.zero),
            )
    }

    /// Every cell of `b_field` holds the sum over the moving sources at that cell.
    pub open spec fn b_swept(
        self,
        is_moving: spec_fn((Charge<S>,)) -> bool,
        add_source: spec_fn((S, usize, usize, Charge<S>)) -> S,
    ) -> bool {
        forall|x: usize, y: usize|
            x < self.w && y < self.h ==> #[trigger] self.b_field[y * self.w + x] == cell_b_sum(
                is_moving,
                add_source,
                x,
                y,
                self.charges,
                self.zero,
            )
    }
}

impl<S> View for Solver<S> {
    type V = Grid<S>;

    closed spec fn view(&self) -> Grid<S> {
        Grid {
            w: self.w as nat,
            h: self.h as nat,
            field: self.field@,
            b_field: self.b_field@,
            charges: self.charges@,
            zero: self.zero,
        }
    }
}

/// A vector of `n` copies of `value`.
fn filled<S: Copy>(n: usize, value: S) -> (v: Vec<S>)
    ensures
        v@ == Seq::new(n as nat, |i: int| value),
{
    let mut v: Vec<S> = Vec::new();
    let mut i: usize = 0;
    while i < n
        invariant
            i <= n,
            v@ == Seq::new(i as nat, |k: int| value),
        decreases n - i,
    {
        v.push(value);
        i += 1;
        assert(v@ =~= Seq::new(i as nat, |k: int| value));
    }
    v
}

impl<S: Copy> Solver<S> {
    /// A grid of `w` by `h` cells without sources, every sample at `zero`.
    /// `zero` is also what every later sum starts from.
    pub fn new(w: usize, h: usize, zero: S) -> (s: Self)
        requires
            w * h * 2 <= usize::MAX,
        ensures
            s@.wf(),
            s@.w == w,
            s@.h == h,
            s@.zero == zero,
            s@.charges == Seq::<Charge<S>>::empty(),
            s@.field == Seq::new((w * h * 2) as nat, |i: int| zero),
            s@.b_field == Seq::new((w * h) as nat, |i: int| zero),
    {
        assert(w * h <= w * h * 2) by (nonlinear_arith);
        let n = w * h;
        Solver {
            w,
            h,
            field: filled(n * 2, zero),
            b_field: filled(n, zero),
            charges: Vec::new(),
            zero,
        }
    }

    /// The number of cells in a row.
    pub fn width(&self) -> (w: usize)
        ensures
            w == self@.w,
    {
        self.w
    }

    /// The number of rows.
    pub fn height(&self) -> (h: usize)
        ensures
            h == self@.h,
    {
        self.h
    }

    /// The field samples: two components per cell, rows one after another.
    pub fn field(&self) -> (f: &Vec<S>)
        ensures
            f@ == self@.field,
    {
        &self.field
    }

    /// The magnetic samples: one component per cell, rows one after another.
    pub fn b_field(&self) -> (b: &Vec<S>)
        ensures
            b@ == self@.b_field,
    {
        &self.b_field
    }

    /// The sources, in the order in which they were added.
    pub fn charges(&self) -> (c: &Vec<Charge<S>>)
        ensures
            c@ == self@.charges,
    {
        &self.charges
    }

    /// The two components stored for cell `(x, y)`.
    pub fn cell(&self, x: usize, y: usize) -> (e: (S, S))
        requires
            self@.wf(),
            x < self@.w,
            y < self@.h,
        ensures
            e == self@.cell(x as nat, y as nat),
    {
        proof {
            lemma_cell_in_grid(self.w as nat, self.h as nat, x as nat, y as nat);
            assert(self.field@.len() == self.field.len());
        }
        let base = (y * self.w + x) * 2;
        (self.field[base], self.field[base + 1])
    }

    /// Removes every source. The samples stay as they are until the next sweep.
    pub fn clear(&mut self)
        ensures
            final(self)@ == (Grid { charges: Seq::empty(), ..old(self)@ }),
    {
        self.charges.clear();
    }

    /// Adds a source of strength `q` at rest at `(u, v)`.
    pub fn add(&mut self, u: S, v: S, q: S)
        ensures
            final(self)@ == (Grid {
                charges: old(self)@.charges.push(
                    Charge { u, v, q, vu: old(self)@.zero, vv: old(self)@.zero },
                ),
                ..old(self)@
            }),
    {
        let zero = self.zero;
        self.charges.push(Charge { u, v, q, vu: zero, vv: zero });
    }

    /// Gives source `idx` the drift `(vu, vv)`. Without such a source nothing changes.
    pub fn set_velocity(&mut self, idx: usize, vu: S, vv: S)
        ensures
            idx < old(self)@.charges.len() ==> final(self)@ == (Grid {
                charges: old(self)@.charges.update(
                    idx as int,
                    Charge { vu, vv, ..old(self)@.charges[idx as int] },
                ),
                ..old(self)@
            }),
            idx >= old(self)@.charges.len() ==> final(self)@ == old(self)@,
    {
        if idx < self.charges.len() {
            let c = self.charges[idx];
            self.charges.set(idx, Charge { u: c.u, v: c.v, q: c.q, vu, vv });
        }
    }

    /// The field at the centre of cell `(x, y)` from the sources held now.
    /// `add_source(total, x, y, c)` returns `total` plus what the single source
    /// `c` contributes at that cell; the sources are taken in order, starting at
    /// `(zero, zero)`.
    pub fn sample_cell<F: Fn((S, S), usize, usize, Charge<S>) -> (S, S)>(
        &self,
        x: usize,
        y: usize,
        add_source: &F,
    ) -> (e: (S, S))
        requires
            pure_kernel(*add_source),
        ensures
            e == cell_sum(model(*add_source), x, y, self@.charges, (self@.zero, self@.zero)),
    {
        let mut e = (self.zero, self.zero);
        let mut i: usize = 0;
        while i < self.charges.len()
            invariant
                i <= self.charges.len(),
                pure_kernel(*add_source),
                e == cell_sum(
                    model(*add_source),
                    x,
                    y,
                    self.charges@.take(i as int),
                    (self.zero, self.zero),
                ),
            decreases self.charges.len() - i,
        {
            let c = self.charges[i];
            let next = add_source(e, x, y, c);
            proof {
                lemma_value_of(*add_source, (e, x, y, c), next);
                assert(self.charges@.take(i + 1).drop_last() =~= self.charges@.take(i as int));
            }
            e = next;
            i += 1;
        }
        proof {
            assert(self.charges@.take(self.charges.len() as int) =~= self.charges@);
        }
        e
    }

    /// The magnetic term at the centre of cell `(x, y)` from the sources held
    /// now. A source for which `is_moving` answers no is skipped; for every
    /// other one `add_source(total, x, y, c)` returns `total` plus its term.
    pub fn sample_cell_b<M: Fn(Charge<S>) -> bool, F: Fn(S, usize, usize, Charge<S>) -> S>(
        &self,
        x: usize,
        y: usize,
        is_moving: &M,
        add_source: &F,
    ) -> (b: S)
        requires
            pure_kernel(*is_moving),
            pure_kernel(*add_source),
        ensures
            b == cell_b_sum(model(*is_moving), model(*add_source), x, y, self@.charges, self@.zero),
    {
        let mut b = self.zero;
        let mut i: usize = 0;
        while i < self.charges.len()
            invariant
                i <= self.charges.len(),
                pure_kernel(*is_moving),
                pure_kernel(*add_source),
                b == cell_b_sum(
                    model(*is_moving),
                    model(*add_source),
                    x,
                    y,
                    self.charges@.take(i as int),
                    self.zero,
                ),
            decreases self.charges.len() - i,
        {
            let c = self.charges[i];
            proof {
                assert(self.charges@.take(i + 1).drop_last() =~= self.charges@.take(i as int));
            }
            let moving = is_moving(c);
            proof {
                lemma_value_of(*is_moving, (c,), moving);
            }
            if moving {
                let next = add_source(b, x, y, c);
                proof {
                    lemma_value_of(*add_source, (b, x, y, c), next);
                }
                b = next;
            }
            i += 1;
        }
        proof {
            assert(self.charges@.take(self.charges.len() as int) =~= self.charges@);
        }
        b
    }

    /// Recomputes every field sample from the sources held now. Nothing of the
    /// old samples survives; dimensions, sources and magnetic samples are kept.
    pub fn step<F: Fn((S, S), usize, usize, Charge<S>) -> (S, S)>(&mut self, add_source: &F)
        requires
            old(self)@.wf(),
            pure_kernel(*add_source),
        ensures
            final(self)@.wf(),
            final(self)@ == (Grid { field: final(self)@.field, ..old(self)@ }),
            final(self)@.swept(model(*add_source)),
    {
        let w = self.w;
        let h = self.h;
        let mut jy: usize = 0;
        while jy < h
            invariant
                jy <= h,
                w == self.w,
                h == self.h,
                self@.wf(),
                self@ == (Grid { field: self@.field, ..old(self)@ }),
                pure_kernel(*add_source),
                forall|x: usize, y: usize|
                    x < w && y < jy ==> #[trigger] self@.cell(x as nat, y as nat) == cell_sum(
                        model(*add_source),
                        x,
                        y,
                        self@.charges,
                        (self@.zero, self@.zero),
                    ),
            decreases h - jy,
        {
            let mut ix: usize = 0;
            while ix < w
                invariant
                    jy < h,
                    ix <= w,
                    w == self.w,
                    h == self.h,
                    self@.wf(),
                    self@ == (Grid { field: self@.field, ..old(self)@ }),
                    pure_kernel(*add_source),
                    forall|x: usize, y: usize|
                        x < w && (y < jy || (y == jy && x < ix)) ==> #[trigger] self@.cell(
                            x as nat,
                            y as nat,
                        ) == cell_sum(model(*add_source), x, y, self@.charges, (self@.zero, self@.zero)),
                decreases w - ix,
            {
                let e = self.sample_cell(ix, jy, add_source);
                proof {
                    lemma_cell_in_grid(w as nat, h as nat, ix as nat, jy as nat);
                    assert(self.field@.len() == self.field.len());
                }
                let base = (jy * w + ix) * 2;
                let ghost before = self@;
                self.field.set(base, e.0);
                self.field.set(base + 1, e.1);
                proof {
                    assert forall|x: usize, y: usize|
                        x < w && (y < jy || (y == jy && x < ix + 1)) implies #[trigger] self@.cell(
                        x as nat,
                        y as nat,
                    ) == cell_sum(
                        model(*add_source),
                        x,
                        y,
                        self@.charges,
                        (self@.zero, self@.zero),
                    ) by {
                        lemma_cell_in_grid(w as nat, h as nat, x as nat, y as nat);
                        if x != ix || y != jy {
                            lemma_cells_apart(w as nat, x as nat, y as nat, ix as nat, jy as nat);
                            assert(self@.cell(x as nat, y as nat) == before.cell(
                                x as nat,
                                y as nat,
                            ));
                        }
                    }
                }
                ix += 1;
            }
            jy += 1;
        }
    }

    /// Recomputes every magnetic sample from the sources held now: for each cell,
    /// the sum over the sources that move. The field samples are kept.
    pub fn compute_b_from_velocities<
        M: Fn(Charge<S>) -> bool,
        F: Fn(S, usize, usize, Charge<S>) -> S,
    >(&mut self, is_moving: &M, add_source: &F)
        requires
            old(self)@.wf(),
            pure_kernel(*is_moving),
            pure_kernel(*add_source),
        ensures
            final(self)@.wf(),
            final(self)@ == (Grid { b_field: final(self)@.b_field, ..old(self)@ }),
            final(self)@.b_swept(model(*is_moving), model(*add_source)),
    {
        let w = self.w;
        let h = self.h;
        let mut jy: usize = 0;
        while jy < h
            invariant
                jy <= h,
                w == self.w,
                h == self.h,
                self@.wf(),
                self@ == (Grid { b_field: self@.b_field, ..old(self)@ }),
                pure_kernel(*is_moving),
                pure_kernel(*add_source),
                forall|x: usize, y: usize|
                    x < w && y < jy ==> #[trigger] self@.b_field[y * w + x] == cell_b_sum(
                        model(*is_moving),
                        model(*add_source),
                        x,
                        y,
                        self@.charges,
                        self@.zero,
                    ),
            decreases h - jy,
        {
            let mut ix: usize = 0;
            while ix < w
                invariant
                    jy < h,
                    ix <= w,
                    w == self.w,
                    h == self.h,
                    self@.wf(),
                    self@ == (Grid { b_field: self@.b_field, ..old(self)@ }),
                    pure_kernel(*is_moving),
                    pure_kernel(*add_source),
                    forall|x: usize, y: usize|
                        x < w && (y < jy || (y == jy && x < ix)) ==> #[trigger] self@.b_field[y
                            * w + x] == cell_b_sum(
                            model(*is_moving),
                            model(*add_source),
                            x,
                            y,
                            self@.charges,
                            self@.zero,
                        ),
                decreases w - ix,
            {
                let b = self.sample_cell_b(ix, jy, is_moving, add_source);
                proof {
                    lemma_cell_in_grid(w as nat, h as nat, ix as nat, jy as nat);
                    assert(self.b_field@.len() == self.b_field.len());
                }
                let at = jy * w + ix;
                let ghost before = self@;
                self.b_field.set(at, b);
                proof {
                    assert forall|x: usize, y: usize|
                        x < w && (y < jy || (y == jy && x < ix + 1)) implies #[trigger] self@.b_field[y
                        * w + x] == cell_b_sum(
                        model(*is_moving),
                        model(*add_source),
                        x,
                        y,
                        self@.charges,
                        self@.zero,
                    ) by {
                        lemma_cell_in_grid(w as nat, h as nat, x as nat, y as nat);
                        if x != ix || y != jy {
                            lemma_cells_apart(w as nat, x as nat, y as nat, ix as nat, jy as nat);
                            assert(self@.b_field[y * w + x] == before.b_field[y * w + x]);
                        }
                    }
                }
                ix += 1;
            }
            jy += 1;
        }
    }
}

/// A cell of the grid has its two slots inside the buffer.
pub proof fn lemma_cell_in_grid(w: nat, h: nat, x: nat, y: nat)
    requires
        x < w,
        y < h,
    ensures
        0 <= y * w + x < w * h,
        0 <= cell_base(w, x, y),
        cell_base(w, x, y) + 1 < w * h * 2,
{
    assert(y * w + x < w * h) by (nonlinear_arith)
        requires
            x < w,
            y < h,
    ;
    assert(0 <= y * w + x) by (nonlinear_arith);
}

/// Two different cells never share a slot.
pub proof fn lemma_cells_apart(w: nat, x1: nat, y1: nat, x2: nat, y2: nat)
    requires
        x1 < w,
        x2 < w,
        x1 != x2 || y1 != y2,
    ensures
        y1 * w + x1 != y2 * w + x2,
        cell_base(w, x1, y1) != cell_base(w, x2, y2),
        cell_base(w, x1, y1) != cell_base(w, x2, y2) + 1,
        cell_base(w, x1, y1) + 1 != cell_base(w, x2, y2),
{
    assert(y1 * w + x1 != y2 * w + x2) by (nonlinear_arith)
        requires
            x1 < w,
            x2 < w,
            x1 != x2 || y1 != y2,
    ;
}

/// Every slot of the buffer belongs to a cell of the grid.
pub proof fn lemma_slot_has_cell(w: nat, h: nat, k: int) -> (c: (nat, nat))
    requires
        0 <= k < w * h * 2,
    ensures
        c.0 < w,
        c.1 < h,
        k == cell_base(w, c.0, c.1) || k == cell_base(w, c.0, c.1) + 1,
{
    let n = k / 2;
    assert(w > 0) by (nonlinear_arith)
        requires
            0 <= k < w * h * 2,
    ;
    let x = (n % (w as int)) as nat;
    let y = (n / (w as int)) as nat;
    assert(n == y * w + x && y < h && x < w) by (nonlinear_arith)
        requires
            0 <= n < w * h,
            w > 0,
            x == n % (w as int),
            y == n / (w as int),
    ;
    (x, y)
}

/// A sweep leaves nothing to chance, and nothing of what the buffer held
/// before: two solvers of one size that were swept with one kernel over the
/// same sources hold the same samples. In particular a second sweep over
/// unchanged sources reproduces the first.
pub proof fn lemma_sweep_is_determined<S>(
    a: Solver<S>,
    b: Solver<S>,
    add_source: spec_fn(((S, S), usize, usize, Charge<S>)) -> (S, S),
)
    requires
        a@.wf(),
        b@.wf(),
        a@.w == b@.w,
        a@.h == b@.h,
        a@.charges == b@.charges,
        a@.zero == b@.zero,
        a@.swept(add_source),
        b@.swept(add_source),
    ensures
        a@.field == b@.field,
{
    assert(a.field@.len() == a.field.len());
    assert forall|k: int| 0 <= k < a@.field.len() implies a@.field[k] == b@.field[k] by {
        let c = lemma_slot_has_cell(a@.w, a@.h, k);
        let x = c.0 as usize;
        let y = c.1 as usize;
        assert(a@.cell(x as nat, y as nat) == b@.cell(x as nat, y as nat));
    }
    assert(a@.field =~= b@.field);
}

/// Without sources a swept solver holds `zero` in every slot.
pub proof fn lemma_sweep_without_sources<S>(
    s: Solver<S>,
    add_source: spec_fn(((S, S), usize, usize, Charge<S>)) -> (S, S),
)
    requires
        s@.wf(),
        s@.charges.len() == 0,
        s@.swept(add_source),
    ensures
        forall|k: int| 0 <= k < s@.field.len() ==> s@.field[k] == s@.zero,
{
    assert(s.field@.len() == s.field.len());
    assert forall|k: int| 0 <= k < s@.field.len() implies s@.field[k] == s@.zero by {
        let c = lemma_slot_has_cell(s@.w, s@.h, k);
        let x = c.0 as usize;
        let y = c.1 as usize;
        assert(s@.cell(x as nat, y as nat) == (s@.zero, s@.zero));
    }
}

} // verus!
