use vstd::prelude::*;
use vstd::arithmetic::div_mod::{
    lemma_fundamental_div_mod, lemma_fundamental_div_mod_converse_div,
    lemma_fundamental_div_mod_converse_mod, lemma_mod_bound, lemma_mod_multiples_vanish,
};
use vstd::arithmetic::mul::lemma_mul_inequality;
use crate::cell::{Cell, life_rule};

verus! {

/// Where the coordinate pair `(x, y)` lands on a `width` by `height` torus:
/// the row-major index of the wrapped coordinate. `%` here is the Euclidean
/// remainder, so both underflowing and overflowing coordinates of any
/// magnitude wrap into range.
pub open spec fn wrap_index(x: int, y: int, width: int, height: int) -> int
    recommends
        0 < width,
        0 < height,
{
    (x % width) + (y % height) * width
}

/// The wrapped index is always a valid row-major index.
pub proof fn lemma_wrap_index_in_range(x: int, y: int, width: int, height: int)
    requires
        0 < width,
        0 < height,
    ensures
        0 <= wrap_index(x, y, width, height) < width * height,
{
    lemma_mod_bound(x, width);
    lemma_mod_bound(y, height);
    lemma_mul_inequality(y % height, height - 1, width);
    assert((height - 1) * width + width == width * height) by (nonlinear_arith);
}

/// Map a possibly out-of-range coordinate pair onto the cell it wraps to,
/// returning that cell's row-major index in a `grid_width` by `grid_height`
/// toroidal grid.
pub fn coords_to_index(coords: (i16, i16), grid_width: i16, grid_height: i16) -> (index: usize)
    requires
        0 < grid_width,
        0 < grid_height,
    ensures
        index == wrap_index(coords.0 as int, coords.1 as int, grid_width as int, grid_height as int),
        index < grid_width * grid_height,
{
    let (x, y) = coords;
    let w = grid_width as i32;
    let h = grid_height as i32;
    // Lifting by 32768 * modulus makes the left operand non-negative without
    // changing the remainder, so one `%` wraps any i16 coordinate.
    let x_wrapped = (x as i32 + 32768 * w) % w;
    let y_wrapped = (y as i32 + 32768 * h) % h;
    proof {
        lemma_mod_multiples_vanish(32768, x as int, w as int);
        lemma_mod_multiples_vanish(32768, y as int, h as int);
        lemma_wrap_index_in_range(x as int, y as int, w as int, h as int);
        assert(w * h <= 32767 * 32767) by (nonlinear_arith)
            requires
                0 < w <= 32767,
                0 < h <= 32767,
        ;
        lemma_mod_bound(y as int, h as int);
        lemma_mul_inequality(y as int % h as int, h - 1, w as int);
    }
    (x_wrapped + y_wrapped * w) as usize
}

/// The eight Moore-neighbourhood offsets, in the fixed construction order.
pub open spec fn moore_offset(j: int) -> (int, int) {
    if j == 0 {
        (-1, -1)
    } else if j == 1 {
        (0, -1)
    } else if j == 2 {
        (1, -1)
    } else if j == 3 {
        (-1, 0)
    } else if j == 4 {
        (1, 0)
    } else if j == 5 {
        (-1, 1)
    } else if j == 6 {
        (0, 1)
    } else {
        (1, 1)
    }
}

/// The indices of the eight Moore neighbours of grid coordinate `(gx, gy)`,
/// wrapped onto the torus, in the fixed construction order.
pub open spec fn neighbour_indices(gx: int, gy: int, width: int, height: int) -> Seq<int> {
    Seq::new(8, |j: int| wrap_index(gx + moore_offset(j).0, gy + moore_offset(j).1, width, height))
}

/// What construction fixes about the cell at row-major index `i` of a
/// `width` by `height` grid: its centred position and its wrapped
/// Moore-neighbour indices, in the fixed construction order.
pub open spec fn cell_built(c: Cell, i: int, width: int, height: int) -> bool {
    let gx = i % width;
    let gy = i / width;
    &&& c.x == gx - width / 2
    &&& c.y == gy - height / 2
    &&& c.neighbours@.len() == 8
    &&& forall|j: int| 0 <= j < 8 ==> (#[trigger] c.neighbours@[j]) == neighbour_indices(gx, gy, width, height)[j]
}

/// Pointwise equality of two cell sequences: same length and, at every
/// index, the same position, the same neighbour list and the same alive
/// flag.
pub open spec fn cells_equiv(a: Seq<Cell>, b: Seq<Cell>) -> bool {
    &&& a.len() == b.len()
    &&& forall|i: int| 0 <= i < a.len() ==> {
        &&& (#[trigger] a[i]).x == b[i].x
        &&& a[i].y == b[i].y
        &&& a[i].neighbours@ == b[i].neighbours@
        &&& a[i].alive == b[i].alive
    }
}

/// How many of the cells picked out by `neighbours` are alive in `cells`.
pub open spec fn alive_count(cells: Seq<Cell>, neighbours: Seq<usize>) -> int
    decreases neighbours.len(),
{
    if neighbours.len() == 0 {
        0
    } else {
        alive_count(cells, neighbours.drop_last()) + if cells[neighbours.last() as int].alive {
            1int
        } else {
            0int
        }
    }
}

/// The alive flag the Life rule assigns to the cell at index `i` for the
/// next generation, read entirely from the previous generation `cells`.
pub open spec fn next_alive(cells: Seq<Cell>, i: int) -> bool {
    life_rule(cells[i].alive, alive_count(cells, cells[i].neighbours@))
}

/// The positions of the alive cells of `cells`, in index order.
pub open spec fn alive_positions(cells: Seq<Cell>) -> Seq<(i16, i16)>
    decreases cells.len(),
{
    if cells.len() == 0 {
        Seq::empty()
    } else {
        let rest = alive_positions(cells.drop_last());
        if cells.last().alive {
            rest.push((cells.last().x, cells.last().y))
        } else {
            rest
        }
    }
}

/// The complete toroidal collection of cells plus their precomputed
/// adjacency. `cells` is row-major: the cell at grid coordinate `(x, y)`
/// sits at index `x + y * width`.
pub struct Grid {
    /// The cells, in row-major order, fixed for the grid's lifetime.
    pub cells: Vec<Cell>,
    /// Number of cell columns.
    pub width: i16,
    /// Number of cell rows.
    pub height: i16,
}

impl Grid {
    /// The invariant every operation preserves: positive dimensions, one
    /// cell per coordinate, and eight in-range neighbour indices per cell.
    pub open spec fn wf(self) -> bool {
        &&& 0 < self.width
        &&& 0 < self.height
        &&& self.cells@.len() == self.width * self.height
        &&& forall|i: int| 0 <= i < self.cells@.len() ==> (#[trigger] self.cells@[i]).neighbours@.len() == 8
        &&& forall|i: int, j: int|
            0 <= i < self.cells@.len() && 0 <= j < 8 ==> (#[trigger] self.cells@[i].neighbours@[j])
                < self.cells@.len()
    }

    /// Everything construction fixes apart from the alive flags: positive
    /// dimensions, one cell per coordinate in row-major order, and each
    /// cell's centred position and wrapped neighbour list.
    pub open spec fn built(self) -> bool {
        &&& 0 < self.width
        &&& 0 < self.height
        &&& self.cells@.len() == self.width * self.height
        &&& forall|i: int|
            0 <= i < self.cells@.len() ==> #[trigger] cell_built(
                self.cells@[i],
                i,
                self.width as int,
                self.height as int,
            )
    }

    /// The alive flags a seed predicate over grid coordinates assigns:
    /// the cell at index `i` starts alive exactly when the predicate holds
    /// of `(i % width, i / width)`.
    pub open spec fn seeded_by(self, seed: spec_fn(int, int) -> bool) -> bool {
        forall|i: int|
            0 <= i < self.cells@.len() ==> (#[trigger] self.cells@[i]).alive == seed(
                i % self.width as int,
                i / self.width as int,
            )
    }
}

/// A grid as construction built it satisfies the operating invariant.
pub proof fn lemma_built_wf(g: Grid)
    requires
        g.built(),
    ensures
        g.wf(),
{
    assert forall|i: int| 0 <= i < g.cells@.len() implies (#[trigger] g.cells@[i]).neighbours@.len()
        == 8 by {
        assert(cell_built(g.cells@[i], i, g.width as int, g.height as int));
    }
    assert forall|i: int, j: int|
        0 <= i < g.cells@.len() && 0 <= j < 8 implies (#[trigger] g.cells@[i].neighbours@[j])
        < g.cells@.len() by {
        assert(cell_built(g.cells@[i], i, g.width as int, g.height as int));
        lemma_wrap_index_in_range(
            i % g.width as int + moore_offset(j).0,
            i / g.width as int + moore_offset(j).1,
            g.width as int,
            g.height as int,
        );
    }
}

/// Build a `width` by `height` toroidal grid whose cell at grid coordinate
/// `(x, y)` starts alive exactly as `is_alive(x, y)` says; positions are
/// centred on the origin and every neighbour list is wrapped at the edges.
pub fn new<F: Fn(i16, i16) -> bool>(width: i16, height: i16, is_alive: F) -> (grid: Grid)
    requires
        0 < width,
        0 < height,
        forall|x: i16, y: i16|
            0 <= x < width && 0 <= y < height ==> call_requires(is_alive, (x, y)),
    ensures
        grid.width == width,
        grid.height == height,
        grid.built(),
        grid.wf(),
        forall|i: int|
            0 <= i < grid.cells@.len() ==> call_ensures(
                is_alive,
                (((i % (width as int)) as i16), ((i / (width as int)) as i16)),
                (#[trigger] grid.cells@[i]).alive,
            ),
{
    let mut cells: Vec<Cell> = Vec::new();
    let mut y: i16 = 0;
    while y < height
        invariant
            0 < width,
            0 < height,
            0 <= y <= height,
            cells@.len() == y * width,
            forall|x2: i16, y2: i16|
                0 <= x2 < width && 0 <= y2 < height ==> call_requires(is_alive, (x2, y2)),
            forall|i: int|
                0 <= i < cells@.len() ==> #[trigger] cell_built(
                    cells@[i],
                    i,
                    width as int,
                    height as int,
                ),
            forall|i: int|
                0 <= i < cells@.len() ==> call_ensures(
                    is_alive,
                    (((i % (width as int)) as i16), ((i / (width as int)) as i16)),
                    (#[trigger] cells@[i]).alive,
                ),
        decreases height - y,
    {
        let mut x: i16 = 0;
        while x < width
            invariant
                0 < width,
                0 < height,
                0 <= y < height,
                0 <= x <= width,
                cells@.len() == y * width + x,
                forall|x2: i16, y2: i16|
                    0 <= x2 < width && 0 <= y2 < height ==> call_requires(is_alive, (x2, y2)),
                forall|i: int|
                    0 <= i < cells@.len() ==> #[trigger] cell_built(
                        cells@[i],
                        i,
                        width as int,
                        height as int,
                    ),
                forall|i: int|
                    0 <= i < cells@.len() ==> call_ensures(
                        is_alive,
                        (((i % (width as int)) as i16), ((i / (width as int)) as i16)),
                        (#[trigger] cells@[i]).alive,
                    ),
            decreases width - x,
        {
            let mut neighbours: Vec<usize> = Vec::new();
            neighbours.push(coords_to_index((x - 1, y - 1), width, height));
            neighbours.push(coords_to_index((x, y - 1), width, height));
            neighbours.push(coords_to_index((x + 1, y - 1), width, height));
            neighbours.push(coords_to_index((x - 1, y), width, height));
            neighbours.push(coords_to_index((x + 1, y), width, height));
            neighbours.push(coords_to_index((x - 1, y + 1), width, height));
            neighbours.push(coords_to_index((x, y + 1), width, height));
            neighbours.push(coords_to_index((x + 1, y + 1), width, height));
            let alive = is_alive(x, y);
            let cell = Cell { x: x - width / 2, y: y - height / 2, neighbours, alive };
            proof {
                let i = cells@.len() as int;
                lemma_fundamental_div_mod_converse_mod(i, width as int, y as int, x as int);
                lemma_fundamental_div_mod_converse_div(i, width as int, y as int, x as int);
                assert forall|j: int| 0 <= j < 8 implies (#[trigger] cell.neighbours@[j])
                    == neighbour_indices(x as int, y as int, width as int, height as int)[j] by {
                }
                assert(cell_built(cell, i, width as int, height as int));
            }
            cells.push(cell);
            x = x + 1;
        }
        proof {
            assert((y + 1) * width == y * width + width) by (nonlinear_arith);
        }
        y = y + 1;
    }
    proof {
        assert(height * width == width * height) by (nonlinear_arith);
    }
    let grid = Grid { cells, width, height };
    proof {
        lemma_built_wf(grid);
    }
    grid
}

/// How one generation relates the new state to the old: dimensions,
/// positions and neighbour lists unchanged, and every alive flag as the Life
/// rule says, read entirely from the old state.
pub open spec fn steps(pre: Grid, post: Grid) -> bool {
    &&& post.width == pre.width
    &&& post.height == pre.height
    &&& post.cells@.len() == pre.cells@.len()
    &&& forall|i: int|
        0 <= i < pre.cells@.len() ==> {
            let c = #[trigger] post.cells@[i];
            &&& c.x == pre.cells@[i].x
            &&& c.y == pre.cells@[i].y
            &&& c.neighbours == pre.cells@[i].neighbours
            &&& c.alive == next_alive(pre.cells@, i)
        }
}

/// Counting over one more neighbour adds one exactly when that neighbour is
/// alive.
proof fn lemma_alive_count_take_step(cells: Seq<Cell>, ns: Seq<usize>, j: int)
    requires
        0 <= j < ns.len(),
    ensures
        alive_count(cells, ns.take(j + 1)) == alive_count(cells, ns.take(j)) + if cells[ns[j] as int].alive {
            1int
        } else {
            0int
        },
{
    let t = ns.take(j + 1);
    assert(t.drop_last() =~= ns.take(j));
    assert(t.last() == ns[j]);
}

impl Grid {
    /// Advance the whole grid one generation, synchronously: every cell's
    /// next alive flag is the Life rule applied to its own previous flag and
    /// the count of its previously-alive neighbours. Positions and neighbour
    /// lists do not change.
    pub fn update(&mut self)
        requires
            old(self).wf(),
        ensures
            final(self).wf(),
            steps(*old(self), *final(self)),
    {
        let n = self.cells.len();
        let mut alive_neighbours: Vec<usize> = Vec::new();
        let mut i: usize = 0;
        while i < n
            invariant
                old(self).wf(),
                *self == *old(self),
                n == self.cells@.len(),
                0 <= i <= n,
                alive_neighbours@.len() == i,
                forall|k: int|
                    0 <= k < i ==> #[trigger] alive_neighbours@[k] == alive_count(
                        self.cells@,
                        self.cells@[k].neighbours@,
                    ),
            decreases n - i,
        {
            let ns_len = self.cells[i].neighbours.len();
            assert(ns_len == 8);
            let mut count: usize = 0;
            let mut j: usize = 0;
            while j < ns_len
                invariant
                    old(self).wf(),
                    *self == *old(self),
                    n == self.cells@.len(),
                    0 <= i < n,
                    ns_len == self.cells@[i as int].neighbours@.len(),
                    ns_len == 8,
                    0 <= j <= ns_len,
                    count <= j,
                    count == alive_count(
                        self.cells@,
                        self.cells@[i as int].neighbours@.take(j as int),
                    ),
                decreases ns_len - j,
            {
                let idx = self.cells[i].neighbours[j];
                proof {
                    lemma_alive_count_take_step(
                        self.cells@,
                        self.cells@[i as int].neighbours@,
                        j as int,
                    );
                }
                if self.cells[idx].alive {
                    count = count + 1;
                }
                j = j + 1;
            }
            proof {
                assert(self.cells@[i as int].neighbours@.take(ns_len as int) =~= self.cells@[
                    i as int
                ].neighbours@);
            }
            alive_neighbours.push(count);
            i = i + 1;
        }
        let ghost snap = self.cells@;
        let mut i: usize = 0;
        while i < n
            invariant
                snap == old(self).cells@,
                old(self).wf(),
                self.width == old(self).width,
                self.height == old(self).height,
                n == snap.len(),
                self.cells@.len() == n,
                0 <= i <= n,
                alive_neighbours@.len() == n,
                forall|k: int|
                    0 <= k < n ==> #[trigger] alive_neighbours@[k] == alive_count(
                        snap,
                        snap[k].neighbours@,
                    ),
                forall|k: int| i <= k < n ==> #[trigger] self.cells@[k] == snap[k],
                forall|k: int|
                    0 <= k < i ==> {
                        let c = #[trigger] self.cells@[k];
                        &&& c.x == snap[k].x
                        &&& c.y == snap[k].y
                        &&& c.neighbours == snap[k].neighbours
                        &&& c.alive == next_alive(snap, k)
                    },
            decreases n - i,
        {
            let count = alive_neighbours[i];
            self.cells[i].update(count);
            i = i + 1;
        }
    }

    /// The positions of the cells now alive, in row-major order: the
    /// read-only surface a renderer needs.
    pub fn alive_cells(&self) -> (positions: Vec<(i16, i16)>)
        ensures
            positions@ == alive_positions(self.cells@),
    {
        let mut positions: Vec<(i16, i16)> = Vec::new();
        let mut i: usize = 0;
        while i < self.cells.len()
            invariant
                0 <= i <= self.cells@.len(),
                positions@ == alive_positions(self.cells@.take(i as int)),
            decreases self.cells@.len() - i,
        {
            proof {
                assert(self.cells@.take(i + 1).drop_last() =~= self.cells@.take(i as int));
                assert(self.cells@.take(i + 1).last() == self.cells@[i as int]);
            }
            let c = &self.cells[i];
            if c.alive {
                positions.push((c.x, c.y));
            }
            i = i + 1;
        }
        proof {
            assert(self.cells@.take(self.cells@.len() as int) =~= self.cells@);
        }
        positions
    }
}

/// Congruent coordinates closer together than the modulus wrap to different
/// residues.
proof fn lemma_distinct_mod(a: int, b: int, m: int)
    requires
        0 < m,
        a != b,
        -m < a - b < m,
    ensures
        a % m != b % m,
{
    lemma_mod_bound(a, m);
    lemma_mod_bound(b, m);
    lemma_fundamental_div_mod(a, m);
    lemma_fundamental_div_mod(b, m);
    if a % m == b % m {
        let d = a / m - b / m;
        assert(a - b == m * d) by (nonlinear_arith)
            requires
                a == m * (a / m) + a % m,
                b == m * (b / m) + b % m,
                a % m == b % m,
                d == a / m - b / m,
        ;
        assert(false) by (nonlinear_arith)
            requires
                a - b == m * d,
                -m < a - b < m,
                a != b,
                0 < m,
        ;
    }
}

/// Row-major indexing is injective over in-range column numbers.
proof fn lemma_row_major_injective(x1: int, y1: int, x2: int, y2: int, width: int)
    requires
        0 < width,
        0 <= x1 < width,
        0 <= x2 < width,
        !(x1 == x2 && y1 == y2),
    ensures
        x1 + y1 * width != x2 + y2 * width,
{
    if x1 + y1 * width == x2 + y2 * width {
        let v = x1 + y1 * width;
        lemma_fundamental_div_mod_converse_mod(v, width, y1, x1);
        lemma_fundamental_div_mod_converse_div(v, width, y1, x1);
        lemma_fundamental_div_mod_converse_mod(v, width, y2, x2);
        lemma_fundamental_div_mod_converse_div(v, width, y2, x2);
    }
}

/// The neighbour list of any grid coordinate holds eight valid indices, and
/// on a torus at least 3 wide and 3 high they are pairwise distinct. (On
/// narrower tori distinct offsets can wrap onto the same cell.)
pub proof fn lemma_neighbour_indices_distinct(gx: int, gy: int, width: int, height: int)
    requires
        3 <= width,
        3 <= height,
        0 <= gx < width,
        0 <= gy < height,
    ensures
        neighbour_indices(gx, gy, width, height).len() == 8,
        forall|j: int|
            0 <= j < 8 ==> 0 <= #[trigger] neighbour_indices(gx, gy, width, height)[j] < width
                * height,
        forall|j: int, k: int|
            0 <= j < 8 && 0 <= k < 8 && j != k ==> neighbour_indices(gx, gy, width, height)[j]
                != neighbour_indices(gx, gy, width, height)[k],
{
    let ns = neighbour_indices(gx, gy, width, height);
    assert forall|j: int| 0 <= j < 8 implies 0 <= #[trigger] ns[j] < width * height by {
        lemma_wrap_index_in_range(gx + moore_offset(j).0, gy + moore_offset(j).1, width, height);
    }
    assert forall|j: int, k: int| 0 <= j < 8 && 0 <= k < 8 && j != k implies ns[j] != ns[k] by {
        let dx1 = moore_offset(j).0;
        let dy1 = moore_offset(j).1;
        let dx2 = moore_offset(k).0;
        let dy2 = moore_offset(k).1;
        let x1 = (gx + dx1) % width;
        let y1 = (gy + dy1) % height;
        let x2 = (gx + dx2) % width;
        let y2 = (gy + dy2) % height;
        lemma_mod_bound(gx + dx1, width);
        lemma_mod_bound(gx + dx2, width);
        lemma_mod_bound(gy + dy1, height);
        lemma_mod_bound(gy + dy2, height);
        if dy1 == dy2 {
            lemma_distinct_mod(gx + dx1, gx + dx2, width);
        } else {
            lemma_distinct_mod(gy + dy1, gy + dy2, height);
        }
        lemma_row_major_injective(x1, y1, x2, y2, width);
    }
}

/// On any grid as construction built it, at least 3 wide and 3 high, every
/// cell's neighbour list holds exactly eight pairwise-distinct valid
/// indices.
pub proof fn lemma_grid_neighbours_distinct(g: Grid, i: int)
    requires
        g.built(),
        3 <= g.width,
        3 <= g.height,
        0 <= i < g.cells@.len(),
    ensures
        g.cells@[i].neighbours@.len() == 8,
        forall|j: int|
            0 <= j < 8 ==> 0 <= #[trigger] g.cells@[i].neighbours@[j] < g.cells@.len(),
        forall|j: int, k: int|
            0 <= j < 8 && 0 <= k < 8 && j != k ==> g.cells@[i].neighbours@[j]
                != g.cells@[i].neighbours@[k],
{
    let w = g.width as int;
    let h = g.height as int;
    let gx = i % w;
    let gy = i / w;
    assert(cell_built(g.cells@[i], i, w, h));
    lemma_mod_bound(i, w);
    lemma_fundamental_div_mod(i, w);
    assert(0 <= gy < h) by (nonlinear_arith)
        requires
            i == w * gy + gx,
            0 <= gx < w,
            0 <= i < w * h,
            0 < w,
            0 < h,
    ;
    lemma_neighbour_indices_distinct(gx, gy, w, h);
}

/// Counting alive neighbours reads only alive flags, so pointwise-identical
/// states give identical counts.
proof fn lemma_alive_count_equiv(a: Seq<Cell>, b: Seq<Cell>, ns: Seq<usize>)
    requires
        cells_equiv(a, b),
        forall|j: int| 0 <= j < ns.len() ==> (#[trigger] ns[j]) < a.len(),
    ensures
        alive_count(a, ns) == alive_count(b, ns),
    decreases ns.len(),
{
    if ns.len() > 0 {
        lemma_alive_count_equiv(a, b, ns.drop_last());
    }
}

/// One generation is a function of the prior state alone: advancing two
/// pointwise-identical well-formed grids gives pointwise-identical results,
/// alive flags included. The result states satisfy the hypotheses again, so
/// applying this to each successive generation extends it to any number of
/// updates.
pub proof fn lemma_update_deterministic(a0: Grid, a1: Grid, b0: Grid, b1: Grid)
    requires
        a0.wf(),
        b0.wf(),
        cells_equiv(a0.cells@, b0.cells@),
        steps(a0, a1),
        steps(b0, b1),
    ensures
        cells_equiv(a1.cells@, b1.cells@),
{
    assert forall|i: int| 0 <= i < a1.cells@.len() implies {
        &&& (#[trigger] a1.cells@[i]).x == b1.cells@[i].x
        &&& a1.cells@[i].y == b1.cells@[i].y
        &&& a1.cells@[i].neighbours@ == b1.cells@[i].neighbours@
        &&& a1.cells@[i].alive == b1.cells@[i].alive
    } by {
        lemma_alive_count_equiv(a0.cells@, b0.cells@, a0.cells@[i].neighbours@);
    }
}

/// Construction is deterministic: two grids built with identical dimensions
/// and seeded by the same predicate have pointwise-identical cell
/// sequences.
pub proof fn lemma_construction_deterministic(a: Grid, b: Grid, seed: spec_fn(int, int) -> bool)
    requires
        a.built(),
        b.built(),
        a.width == b.width,
        a.height == b.height,
        a.seeded_by(seed),
        b.seeded_by(seed),
    ensures
        cells_equiv(a.cells@, b.cells@),
{
    let w = a.width as int;
    let h = a.height as int;
    assert forall|i: int| 0 <= i < a.cells@.len() implies {
        &&& (#[trigger] a.cells@[i]).x == b.cells@[i].x
        &&& a.cells@[i].y == b.cells@[i].y
        &&& a.cells@[i].neighbours@ == b.cells@[i].neighbours@
        &&& a.cells@[i].alive == b.cells@[i].alive
    } by {
        assert(cell_built(a.cells@[i], i, w, h));
        assert(cell_built(b.cells@[i], i, w, h));
        assert(a.cells@[i].neighbours@ =~= b.cells@[i].neighbours@);
    }
}

} // verus!
