//! A cubic grid of saturating photon counters.
//!
//! The grid is centred on the origin. A position is located in it by the
//! integer cell coordinates `floor(position[axis] / cell_size)` of each axis;
//! the grid shifts those by half its extent, so that axis coordinate `k`
//! lands in cell `k + cell_number / 2`, which must lie in `[0, cell_number)`.
use vstd::prelude::*;

verus! {

/// The floored cell coordinates of a position, one per axis, before the grid
/// shifts them by half its extent.
#[derive(Clone, Copy, Debug, PartialEq, Eq)]
pub struct CellCoordinates {
    pub x: i64,
    pub y: i64,
    pub z: i64,
}

/// The largest value a cell can hold; a full cell stays full.
pub open spec fn cell_max() -> int {
    u32::MAX as int
}

/// `v`, capped at the largest value a cell can hold.
pub open spec fn saturate(v: int) -> int {
    if v <= cell_max() { v } else { cell_max() }
}

/// The grid index along one axis of floored coordinate `k`.
pub open spec fn axis_cell(n: nat, k: int) -> int {
    k + (n / 2) as int
}

/// Whether floored coordinate `k` lies inside a grid of `n` cells per axis.
pub open spec fn axis_inside(n: nat, k: int) -> bool {
    0 <= axis_cell(n, k) < n
}

/// The flat index of the cell at `c` in a grid of `n` cells per axis, laid
/// out with z slowest and x fastest; `None` where any axis falls outside.
pub open spec fn cell_of(n: nat, c: CellCoordinates) -> Option<int> {
    if axis_inside(n, c.x as int) && axis_inside(n, c.y as int) && axis_inside(n, c.z as int) {
        Some(axis_cell(n, c.z as int) * n * n + axis_cell(n, c.y as int) * n + axis_cell(n, c.x as int))
    } else {
        None
    }
}

/// How many of the points `s` land in cell `i` of a grid of `n` cells per axis.
pub open spec fn hits(n: nat, s: Seq<CellCoordinates>, i: int) -> nat
    decreases s.len(),
{
    if s.len() == 0 {
        0
    } else {
        hits(n, s.drop_last(), i) + if cell_of(n, s.last()) == Some(i) { 1nat } else { 0nat }
    }
}

/// The cells `base` after every point of `s` has been counted into them.
pub open spec fn counted(n: nat, base: Seq<u32>, s: Seq<CellCoordinates>) -> Seq<u32> {
    Seq::new(base.len(), |i: int| saturate(base[i] + hits(n, s, i)) as u32)
}

/// The cells `a` and `b` added cell by cell.
pub open spec fn merged(a: Seq<u32>, b: Seq<u32>) -> Seq<u32> {
    Seq::new(a.len(), |i: int| saturate(a[i] + b[i]) as u32)
}

/// A grid of `n * n * n` empty cells.
pub open spec fn empty_cells(n: nat) -> Seq<u32> {
    Seq::new(n * n * n, |i: int| 0u32)
}

/// The decimal digits of `v`, most significant first, as ASCII bytes.
pub open spec fn decimal(v: nat) -> Seq<u8>
    decreases v,
{
    if v < 10 {
        seq![(48 + v) as u8]
    } else {
        decimal(v / 10).push((48 + v % 10) as u8)
    }
}

/// The counters `cells` written in decimal and separated by commas.
pub open spec fn csv(cells: Seq<u32>) -> Seq<u8>
    decreases cells.len(),
{
    if cells.len() == 0 {
        Seq::empty()
    } else if cells.len() == 1 {
        decimal(cells[0] as nat)
    } else {
        csv(cells.drop_last()).push(44u8) + decimal(cells.last() as nat)
    }
}

/// Appends the decimal digits of `v` to `out`.
fn push_decimal(out: &mut Vec<u8>, v: u32)
    ensures
        final(out)@ == old(out)@ + decimal(v as nat),
    decreases v,
{
    if v >= 10 {
        push_decimal(out, v / 10);
    }
    let d: u8 = (v % 10) as u8;
    out.push(48u8 + d);
    proof {
        if v >= 10 {
            assert(final(out)@ =~= old(out)@ + decimal(v as nat));
        } else {
            assert(final(out)@ =~= old(out)@ + decimal(v as nat));
        }
    }
}

/// How many of the points `s` land in cell `i`, counted over two parts.
proof fn lemma_hits_concat(n: nat, a: Seq<CellCoordinates>, b: Seq<CellCoordinates>, i: int)
    ensures
        hits(n, a + b, i) == hits(n, a, i) + hits(n, b, i),
    decreases b.len(),
{
    if b.len() == 0 {
        assert(a + b =~= a);
    } else {
        assert((a + b).drop_last() =~= a + b.drop_last());
        lemma_hits_concat(n, a, b.drop_last(), i);
    }
}

/// Counting the points of two workers into histograms of their own and then
/// merging them gives, in every cell, exactly the number of in-grid points
/// that either worker counted there (capped at the largest cell value),
/// whichever order the parts come in: no count is lost.
pub proof fn lemma_merge_loses_no_count(n: nat, a: Seq<CellCoordinates>, b: Seq<CellCoordinates>)
    ensures
        merged(counted(n, empty_cells(n), a), counted(n, empty_cells(n), b)) == counted(n, empty_cells(n), a + b),
        counted(n, empty_cells(n), a + b) == counted(n, empty_cells(n), b + a),
        forall|i: int| 0 <= i < n * n * n ==>
            #[trigger] counted(n, empty_cells(n), a + b)[i] as int == saturate((hits(n, a, i) + hits(n, b, i)) as int),
{
    let z = empty_cells(n);
    assert forall|i: int| 0 <= i < z.len() implies
        #[trigger] counted(n, z, a + b)[i] as int == saturate((hits(n, a, i) + hits(n, b, i)) as int)
        && counted(n, z, b + a)[i] == counted(n, z, a + b)[i]
        && merged(counted(n, z, a), counted(n, z, b))[i] == counted(n, z, a + b)[i] by {
        lemma_hits_concat(n, a, b, i);
        lemma_hits_concat(n, b, a, i);
    }
    assert(merged(counted(n, z, a), counted(n, z, b)) =~= counted(n, z, a + b));
    assert(counted(n, z, a + b) =~= counted(n, z, b + a));
}

/// The grid treats every axis alike, and along each the interval of
/// accepted floored coordinates is half open: `-(n / 2)` is inside and
/// `n - n / 2` (for even `n`, the coordinate of a position exactly on the
/// upper face) is outside.
pub proof fn lemma_boundary_alike_on_every_axis(n: nat, k: i64, a: i64, b: i64)
    requires
        axis_inside(n, a as int),
        axis_inside(n, b as int),
    ensures
        axis_inside(n, k as int) <==> -((n / 2) as int) <= k < n - n / 2,
        cell_of(n, CellCoordinates { x: k, y: a, z: b }) is Some <==> axis_inside(n, k as int),
        cell_of(n, CellCoordinates { x: a, y: k, z: b }) is Some <==> axis_inside(n, k as int),
        cell_of(n, CellCoordinates { x: a, y: b, z: k }) is Some <==> axis_inside(n, k as int),
        !axis_inside(n, n - n / 2),
        n > 0 ==> axis_inside(n, -((n / 2) as int)),
{
}

/// The abstract content of a histogram: cells per axis and the counters.
pub struct HistogramModel {
    pub cell_number: nat,
    pub cells: Seq<u32>,
}

/// A spatial histogram of photon emission sites.
pub struct PhotonHistogram {
    cell_number: usize,
    cells: Vec<u32>,
}

impl View for PhotonHistogram {
    type V = HistogramModel;

    closed spec fn view(&self) -> HistogramModel {
        HistogramModel { cell_number: self.cell_number as nat, cells: self.cells@ }
    }
}

proof fn lemma_index_bound(n: int, x: int, y: int, z: int)
    requires
        0 <= x < n,
        0 <= y < n,
        0 <= z < n,
    ensures
        0 <= z * n * n + y * n + x < n * n * n,
{
    assert(0 <= z * n * n + y * n + x < n * n * n) by (nonlinear_arith)
        requires
            0 <= x < n,
            0 <= y < n,
            0 <= z < n,
    ;
}

proof fn lemma_square_le_cube(m: int)
    requires
        m >= 1,
    ensures
        m * m <= m * m * m,
{
    assert(m * m <= m * m * m) by (nonlinear_arith)
        requires
            m >= 1,
    ;
}

proof fn lemma_hits_single(n: nat, c: CellCoordinates, i: int)
    ensures
        hits(n, seq![c], i) == if cell_of(n, c) == Some(i) { 1nat } else { 0nat },
{
    assert(seq![c].drop_last() =~= Seq::<CellCoordinates>::empty());
    assert(seq![c].last() == c);
    assert(hits(n, Seq::<CellCoordinates>::empty(), i) == 0);
}

/// Counting one more point extends the counted sequence by that point.
proof fn lemma_counted_push(n: nat, base: Seq<u32>, s: Seq<CellCoordinates>, c: CellCoordinates)
    ensures
        counted(n, base, s.push(c)) == counted(n, counted(n, base, s), seq![c]),
{
    assert(s.push(c).drop_last() =~= s);
    assert forall|i: int| 0 <= i < base.len() implies #[trigger] counted(n, base, s.push(c))[i]
        == counted(n, counted(n, base, s), seq![c])[i] by {
        lemma_hits_single(n, c, i);
    }
    assert(counted(n, base, s.push(c)) =~= counted(n, counted(n, base, s), seq![c]));
}

impl PhotonHistogram {
    /// The histogram is well formed: it holds `cell_number` cubed counters.
    pub open spec fn wf(&self) -> bool {
        self@.cells.len() == self@.cell_number * self@.cell_number * self@.cell_number
    }

    /// Creates a histogram of `cell_number` cells per axis, all empty.
    pub fn new(cell_number: usize) -> (r: PhotonHistogram)
        requires
            cell_number * cell_number * cell_number <= usize::MAX,
        ensures
            r.wf(),
            r@.cell_number == cell_number,
            r@.cells == empty_cells(cell_number as nat),
    {
        proof {
            if cell_number >= 1 {
                lemma_square_le_cube(cell_number as int);
            }
        }
        let total: usize = cell_number * cell_number * cell_number;
        let mut cells: Vec<u32> = Vec::new();
        let mut i: usize = 0;
        while i < total
            invariant
                i <= total,
                total == cell_number * cell_number * cell_number,
                cells@.len() == i,
                forall|j: int| 0 <= j < i ==> cells@[j] == 0u32,
            decreases total - i,
        {
            cells.push(0u32);
            i = i + 1;
        }
        assert(cells@ =~= empty_cells(cell_number as nat));
        PhotonHistogram { cell_number, cells }
    }

    /// The number of cells along one axis.
    pub fn cell_number(&self) -> (r: usize)
        ensures
            r == self@.cell_number,
    {
        self.cell_number
    }

    /// The counters, z slowest and x fastest.
    pub fn cells(&self) -> (r: &Vec<u32>)
        ensures
            r@ == self@.cells,
    {
        &self.cells
    }

    /// The counter of the cell at flat index `index`, if there is one.
    pub fn get(&self, index: usize) -> (r: Option<u32>)
        ensures
            r == (if index < self@.cells.len() { Some(self@.cells[index as int]) } else { None::<u32> }),
    {
        if index < self.cells.len() {
            Some(self.cells[index])
        } else {
            None
        }
    }

    /// The flat index of the cell at `c`, or `None` where `c` lies outside
    /// the grid on any axis.
    pub fn get_index(&self, c: CellCoordinates) -> (r: Option<usize>)
        requires
            self.wf(),
        ensures
            match r {
                Some(i) => cell_of(self@.cell_number, c) == Some(i as int) && i < self@.cells.len(),
                None => cell_of(self@.cell_number, c) is None,
            },
    {
        let n: i128 = self.cell_number as i128;
        let half: i128 = n / 2;
        let x: i128 = c.x as i128 + half;
        let y: i128 = c.y as i128 + half;
        let z: i128 = c.z as i128 + half;
        if x < 0 || x >= n || y < 0 || y >= n || z < 0 || z >= n {
            None
        } else {
            let m: usize = self.cell_number;
            let len: usize = self.cells.len();
            let (xu, yu, zu) = (x as usize, y as usize, z as usize);
            proof {
                lemma_index_bound(m as int, xu as int, yu as int, zu as int);
                lemma_square_le_cube(m as int);
                assert(len == m * m * m);
                assert(zu * m <= m * m) by (nonlinear_arith)
                    requires zu < m;
                assert(zu * m * m <= m * m * m) by (nonlinear_arith)
                    requires zu * m <= m * m;
                assert(yu * m <= m * m) by (nonlinear_arith)
                    requires yu < m;
            }
            Some(zu * m * m + yu * m + xu)
        }
    }

    /// Counts one photon at `c` into its cell; a point outside the grid is
    /// dropped, and a full cell stays full.
    pub fn count(&mut self, c: CellCoordinates)
        requires
            old(self).wf(),
        ensures
            final(self).wf(),
            final(self)@.cell_number == old(self)@.cell_number,
            final(self)@.cells == counted(old(self)@.cell_number, old(self)@.cells, seq![c]),
    {
        let ghost n = self@.cell_number;
        let ghost s = seq![c];
        proof {
            assert forall|i: int| 0 <= i < old(self)@.cells.len() implies #[trigger] hits(n, s, i)
                == if cell_of(n, c) == Some(i) { 1nat } else { 0nat } by {
                lemma_hits_single(n, c, i);
            }
        }
        match self.get_index(c) {
            Some(i) => {
                let v: u32 = self.cells[i];
                self.cells.set(i, v.saturating_add(1));
            },
            None => {},
        }
        assert(self.cells@ =~= counted(n, old(self)@.cells, s));
    }

    /// Counts every point of `points` into the histogram, in order.
    pub fn count_all(&mut self, points: &Vec<CellCoordinates>)
        requires
            old(self).wf(),
        ensures
            final(self).wf(),
            final(self)@.cell_number == old(self)@.cell_number,
            final(self)@.cells == counted(old(self)@.cell_number, old(self)@.cells, points@),
    {
        let ghost n = self@.cell_number;
        let ghost base = self@.cells;
        let mut k: usize = 0;
        assert(self@.cells =~= counted(n, base, points@.take(0)));
        while k < points.len()
            invariant
                k <= points@.len(),
                self.wf(),
                self@.cell_number == n,
                base.len() == n * n * n,
                self@.cells == counted(n, base, points@.take(k as int)),
            decreases points@.len() - k,
        {
            let ghost before = self@.cells;
            self.count(points[k]);
            proof {
                assert(points@.take(k as int + 1) =~= points@.take(k as int).push(points@[k as int]));
                lemma_counted_push(n, base, points@.take(k as int), points@[k as int]);
            }
            k = k + 1;
        }
        assert(points@.take(k as int) =~= points@);
    }

    /// Counts `times` photons at `c`: the emissions of one atom in a step.
    pub fn count_times(&mut self, c: CellCoordinates, times: u32)
        requires
            old(self).wf(),
        ensures
            final(self).wf(),
            final(self)@.cell_number == old(self)@.cell_number,
            final(self)@.cells == counted(old(self)@.cell_number, old(self)@.cells, Seq::new(times as nat, |k: int| c)),
    {
        let ghost n = self@.cell_number;
        let ghost base = self@.cells;
        let mut k: u32 = 0;
        assert(self@.cells =~= counted(n, base, Seq::new(0, |j: int| c)));
        while k < times
            invariant
                k <= times,
                self.wf(),
                self@.cell_number == n,
                base.len() == n * n * n,
                self@.cells == counted(n, base, Seq::new(k as nat, |j: int| c)),
            decreases times - k,
        {
            self.count(c);
            proof {
                assert(Seq::new(k as nat + 1, |j: int| c) =~= Seq::new(k as nat, |j: int| c).push(c));
                lemma_counted_push(n, base, Seq::new(k as nat, |j: int| c), c);
            }
            k = k + 1;
        }
    }

    /// The counters as text: each in decimal, z slowest and x fastest,
    /// separated by commas.
    pub fn to_csv(&self) -> (r: Vec<u8>)
        ensures
            r@ == csv(self@.cells),
    {
        let mut out: Vec<u8> = Vec::new();
        let mut i: usize = 0;
        while i < self.cells.len()
            invariant
                i <= self@.cells.len(),
                out@ == csv(self@.cells.take(i as int)),
            decreases self@.cells.len() - i,
        {
            let ghost prefix = self@.cells.take(i as int + 1);
            proof {
                assert(prefix.drop_last() =~= self@.cells.take(i as int));
            }
            if i > 0 {
                out.push(44u8);
            }
            push_decimal(&mut out, self.cells[i]);
            proof {
                if i == 0 {
                    assert(out@ =~= csv(prefix));
                } else {
                    assert(out@ =~= csv(prefix));
                }
            }
            i = i + 1;
        }
        assert(self@.cells.take(i as int) =~= self@.cells);
        out
    }

    /// Adds the counters of `other` into this histogram, cell by cell, when
    /// both have the same number of cells per axis; returns whether they had.
    pub fn merge(&mut self, other: &PhotonHistogram) -> (r: bool)
        requires
            old(self).wf(),
            other.wf(),
        ensures
            final(self).wf(),
            r == (old(self)@.cell_number == other@.cell_number),
            final(self)@.cell_number == old(self)@.cell_number,
            final(self)@.cells == (if r { merged(old(self)@.cells, other@.cells) } else { old(self)@.cells }),
    {
        if self.cell_number != other.cell_number {
            return false;
        }
        proof {
            assert(self@.cells.len() == other@.cells.len());
        }
        let ghost base = self@.cells;
        let mut i: usize = 0;
        while i < self.cells.len()
            invariant
                i <= self@.cells.len(),
                self@.cells.len() == base.len(),
                self@.cell_number == old(self)@.cell_number,
                base == old(self)@.cells,
                other@.cells.len() == base.len(),
                forall|j: int| 0 <= j < i ==> self@.cells[j] == saturate(base[j] + other@.cells[j]) as u32,
                forall|j: int| i <= j < base.len() ==> self@.cells[j] == base[j],
            decreases base.len() - i,
        {
            let v: u32 = self.cells[i].saturating_add(other.cells[i]);
            self.cells.set(i, v);
            i = i + 1;
        }
        assert(self@.cells =~= merged(base, other@.cells));
        true
    }
}

} // verus!
