//! A fixed 20 x 20 uniform grid with buckets kept as linked lists embedded
//! in two index arrays: inserting is O(1) and allocates nothing.
use vstd::prelude::*;
use vstd::arithmetic::div_mod::lemma_div_is_ordered;
use crate::error::CoreError;
use crate::fixed::clamp;

verus! {

/// Cells along each axis.
pub const GRID_SIDE: usize = 20;

/// Number of cells.
pub const CELL_COUNT: usize = 400;

/// Number of agent slots.
pub const MAX_AGENTS: usize = 2000;

/// The link value that ends a bucket.
pub const EMPTY: i32 = -1;

/// The cell coordinate of `p` along one axis: `floor(p / cell_size)`,
/// clamped into the grid.
pub open spec fn axis_cell(p: int, cell_size: int) -> int {
    clamp(p / cell_size, 0, GRID_SIDE - 1)
}

/// The index of the cell that holds position `pos`.
pub open spec fn cell_of(cell_size: int, pos: (i64, i64)) -> int {
    axis_cell(pos.1 as int, cell_size) * GRID_SIDE + axis_cell(pos.0 as int, cell_size)
}

/// The agents reached from `start` by following `next`, at most `fuel` of them.
pub open spec fn walk(next: Seq<i32>, start: int, fuel: nat) -> Seq<int>
    decreases fuel,
{
    if fuel == 0 || start < 0 || start >= next.len() {
        Seq::empty()
    } else {
        seq![start] + walk(next, next[start] as int, (fuel - 1) as nat)
    }
}

/// The cells `y * 20 + x` for `x` in `min_x..=max_x`.
pub open spec fn cell_row(y: int, min_x: int, max_x: int) -> Seq<usize> {
    Seq::new(
        if max_x >= min_x {
            (max_x - min_x + 1) as nat
        } else {
            0
        },
        |j: int| (y * GRID_SIDE + min_x + j) as usize,
    )
}

/// The rows `min_y..=max_y` of the rectangle, row after row.
pub open spec fn cell_rows(min_y: int, max_y: int, min_x: int, max_x: int) -> Seq<usize>
    decreases max_y - min_y + 1,
{
    if max_y < min_y {
        Seq::empty()
    } else {
        cell_rows(min_y, max_y - 1, min_x, max_x) + cell_row(max_y, min_x, max_x)
    }
}

/// Every cell of the grid rectangle that covers the bounding box of the
/// circle of `radius` around `pos`, row-major.
pub open spec fn nearby_cells(cell_size: int, pos: (i64, i64), radius: int) -> Seq<usize> {
    cell_rows(
        axis_cell(pos.1 - radius, cell_size),
        axis_cell(pos.1 + radius, cell_size),
        axis_cell(pos.0 - radius, cell_size),
        axis_cell(pos.0 + radius, cell_size),
    )
}

/// The abstract state of a grid.
pub struct GridState {
    pub cell_size: int,
    pub heads: Seq<i32>,
    pub next: Seq<i32>,
}

impl GridState {
    /// Every head reset to empty.
    pub open spec fn cleared(self) -> GridState {
        GridState { heads: Seq::new(CELL_COUNT as nat, |k: int| EMPTY), ..self }
    }

    /// Agent `id` prepended to the bucket of the cell holding `pos`.
    pub open spec fn inserted(self, id: int, pos: (i64, i64)) -> GridState {
        let c = cell_of(self.cell_size, pos);
        GridState {
            cell_size: self.cell_size,
            heads: self.heads.update(c, id as i32),
            next: self.next.update(id, self.heads[c]),
        }
    }

    /// The state after clearing and then inserting `items` in order.
    pub open spec fn rebuilt(self, items: Seq<(usize, (i64, i64))>) -> GridState
        decreases items.len(),
    {
        if items.len() == 0 {
            self.cleared()
        } else {
            self.rebuilt(items.drop_last()).inserted(items.last().0 as int, items.last().1)
        }
    }

    /// The agents of cell `cell`, first to last.
    pub open spec fn bucket(self, cell: int) -> Seq<int> {
        walk(self.next, self.heads[cell] as int, MAX_AGENTS as nat)
    }
}

/// Uniform grid of 20 x 20 cells over agent positions, with a bucket per cell.
pub struct SpatialGrid {
    /// Side of a square cell, in world units.
    pub cell_size: i64,
    /// `heads[cell]`: the first agent of the cell's bucket, or `EMPTY`.
    pub heads: [i32; 400],
    /// `next[agent]`: the agent after it in its bucket, or `EMPTY`.
    pub next: [i32; 2000],
}

impl View for SpatialGrid {
    type V = GridState;

    open spec fn view(&self) -> GridState {
        GridState { cell_size: self.cell_size as int, heads: self.heads@, next: self.next@ }
    }
}

/// The exec counterpart of `axis_cell`.
fn axis_cell_of(p: i128, cell_size: i64) -> (r: usize)
    requires
        cell_size > 0,
    ensures
        r == axis_cell(p as int, cell_size as int),
        r < GRID_SIDE,
{
    if p < 0 {
        proof {
            lemma_div_is_ordered(p as int, 0, cell_size as int);
        }
        0
    } else {
        let q: u128 = (p as u128) / (cell_size as u128);
        if q > 19 {
            19
        } else {
            q as usize
        }
    }
}

impl SpatialGrid {
    /// Cell size positive, every link `EMPTY` or an agent slot.
    pub open spec fn wf(&self) -> bool {
        &&& self.cell_size > 0
        &&& forall|c: int| 0 <= c < CELL_COUNT ==> -1 <= #[trigger] self.heads@[c] < MAX_AGENTS
        &&& forall|a: int| 0 <= a < MAX_AGENTS ==> -1 <= #[trigger] self.next@[a] < MAX_AGENTS
    }

    /// An empty grid of cells of side `cell_size`.
    pub fn new(cell_size: i64) -> (r: Self)
        requires
            cell_size > 0,
        ensures
            r.wf(),
            r.cell_size == cell_size,
            forall|c: int| 0 <= c < CELL_COUNT ==> #[trigger] r.heads@[c] == EMPTY,
            forall|a: int| 0 <= a < MAX_AGENTS ==> #[trigger] r.next@[a] == EMPTY,
    {
        SpatialGrid { cell_size, heads: [-1i32; 400], next: [-1i32; 2000] }
    }

    /// Resets every cell to empty; the links are left as they are.
    pub fn clear(&mut self)
        requires
            old(self).wf(),
        ensures
            final(self).wf(),
            final(self)@ == old(self)@.cleared(),
    {
        let mut c: usize = 0;
        while c < CELL_COUNT
            invariant
                0 <= c <= CELL_COUNT,
                self.cell_size == old(self).cell_size,
                self.next@ == old(self).next@,
                self.heads@.len() == CELL_COUNT,
                forall|k: int| 0 <= k < c ==> #[trigger] self.heads@[k] == EMPTY,
                forall|k: int| c <= k < CELL_COUNT ==> #[trigger] self.heads@[k] == old(self).heads@[k],
            decreases CELL_COUNT - c,
        {
            self.heads.set(c, EMPTY);
            c = c + 1;
        }
        assert(self.heads@ =~= Seq::new(CELL_COUNT as nat, |k: int| EMPTY));
    }

    /// Prepends agent `agent_id` to the bucket of the cell holding `pos`.
    /// Positions beyond the grid land in its border cells.
    pub fn insert(&mut self, agent_id: usize, pos: (i64, i64)) -> (r: Result<(), CoreError>)
        requires
            old(self).wf(),
        ensures
            final(self).wf(),
            agent_id < MAX_AGENTS ==> r is Ok && final(self)@ == old(self)@.inserted(agent_id as int, pos),
            agent_id >= MAX_AGENTS ==> r == Err::<(), CoreError>(CoreError::CapacityExceeded)
                && *final(self) == *old(self),
    {
        if agent_id >= MAX_AGENTS {
            return Err(CoreError::CapacityExceeded);
        }
        let gx = axis_cell_of(pos.0 as i128, self.cell_size);
        let gy = axis_cell_of(pos.1 as i128, self.cell_size);
        let cell = gy * GRID_SIDE + gx;
        let head = self.heads[cell];
        self.next.set(agent_id, head);
        self.heads.set(cell, agent_id as i32);
        Ok(())
    }

    /// The cells that the bounding box of the circle of `radius` around `pos`
    /// overlaps, clamped to the grid, row after row. A broad phase: the
    /// rectangle may reach beyond the circle.
    pub fn get_nearby_cells(&self, pos: (i64, i64), radius: i64) -> (r: Vec<usize>)
        requires
            self.wf(),
        ensures
            r@ == nearby_cells(self.cell_size as int, pos, radius as int),
            forall|k: int| 0 <= k < r@.len() ==> #[trigger] r@[k] < CELL_COUNT,
    {
        let min_x = axis_cell_of(pos.0 as i128 - radius as i128, self.cell_size);
        let max_x = axis_cell_of(pos.0 as i128 + radius as i128, self.cell_size);
        let min_y = axis_cell_of(pos.1 as i128 - radius as i128, self.cell_size);
        let max_y = axis_cell_of(pos.1 as i128 + radius as i128, self.cell_size);
        let mut nearby: Vec<usize> = Vec::with_capacity(25);
        let mut y: usize = min_y;
        while y <= max_y
            invariant
                min_y <= y,
                max_y < GRID_SIDE,
                max_x < GRID_SIDE,
                y == min_y || y <= max_y + 1,
                forall|k: int| 0 <= k < nearby@.len() ==> #[trigger] nearby@[k] < CELL_COUNT,
                nearby@ == cell_rows(min_y as int, y - 1, min_x as int, max_x as int),
            decreases max_y + 1 - y,
        {
            let mut x: usize = min_x;
            while x <= max_x
                invariant
                    min_y <= y <= max_y,
                    max_y < GRID_SIDE,
                    max_x < GRID_SIDE,
                    min_x <= x,
                    x == min_x || x <= max_x + 1,
                    forall|k: int| 0 <= k < nearby@.len() ==> #[trigger] nearby@[k] < CELL_COUNT,
                    nearby@ == cell_rows(min_y as int, y - 1, min_x as int, max_x as int) + cell_row(
                        y as int,
                        min_x as int,
                        max_x as int,
                    ).take(x - min_x),
                decreases max_x + 1 - x,
            {
                let ghost before = nearby@;
                nearby.push(y * GRID_SIDE + x);
                proof {
                    let row = cell_row(y as int, min_x as int, max_x as int);
                    assert(row.take(x + 1 - min_x) =~= row.take(x - min_x).push(row[x - min_x]));
                    assert(nearby@ =~= cell_rows(min_y as int, y - 1, min_x as int, max_x as int)
                        + row.take(x + 1 - min_x));
                }
                x = x + 1;
            }
            proof {
                let row = cell_row(y as int, min_x as int, max_x as int);
                assert(row.take(x - min_x) =~= row);
            }
            y = y + 1;
        }
        assert(nearby@ =~= cell_rows(min_y as int, max_y as int, min_x as int, max_x as int));
        nearby
    }
}

proof fn lemma_axis_cell_monotone(a: int, b: int, cell_size: int)
    requires
        cell_size > 0,
        a <= b,
    ensures
        axis_cell(a, cell_size) <= axis_cell(b, cell_size),
{
    lemma_div_is_ordered(a, b, cell_size);
}

proof fn lemma_rows_contain(min_y: int, max_y: int, min_x: int, max_x: int, y: int, x: int)
    requires
        min_y <= y <= max_y,
        min_x <= x <= max_x,
        0 <= y < GRID_SIDE,
        0 <= x < GRID_SIDE,
    ensures
        cell_rows(min_y, max_y, min_x, max_x).contains((y * GRID_SIDE + x) as usize),
    decreases max_y - min_y,
{
    let rows = cell_rows(min_y, max_y, min_x, max_x);
    let before = cell_rows(min_y, max_y - 1, min_x, max_x);
    let row = cell_row(max_y, min_x, max_x);
    assert(rows == before + row);
    if y == max_y {
        assert(row[x - min_x] == (y * GRID_SIDE + x) as usize);
        assert(rows[before.len() + (x - min_x)] == (y * GRID_SIDE + x) as usize);
    } else {
        lemma_rows_contain(min_y, max_y - 1, min_x, max_x, y, x);
        let k = choose|k: int| 0 <= k < before.len() && before[k] == (y * GRID_SIDE + x) as usize;
        assert(rows[k] == before[k]);
    }
}

/// The broad phase covers the circle: whenever position `p` lies within
/// `radius` of `q`, the cell holding `p` is among `nearby_cells` of `q`.
pub proof fn lemma_nearby_covers(cell_size: int, p: (i64, i64), q: (i64, i64), radius: int)
    requires
        cell_size > 0,
        radius >= 0,
        (p.0 - q.0) * (p.0 - q.0) + (p.1 - q.1) * (p.1 - q.1) <= radius * radius,
    ensures
        nearby_cells(cell_size, q, radius).contains(cell_of(cell_size, p) as usize),
{
    let dx = p.0 - q.0;
    let dy = p.1 - q.1;
    assert(-radius <= dx <= radius && -radius <= dy <= radius) by (nonlinear_arith)
        requires
            dx * dx + dy * dy <= radius * radius,
            radius >= 0,
    ;
    lemma_axis_cell_monotone(q.0 - radius, p.0 as int, cell_size);
    lemma_axis_cell_monotone(p.0 as int, q.0 + radius, cell_size);
    lemma_axis_cell_monotone(q.1 - radius, p.1 as int, cell_size);
    lemma_axis_cell_monotone(p.1 as int, q.1 + radius, cell_size);
    lemma_rows_contain(
        axis_cell(q.1 - radius, cell_size),
        axis_cell(q.1 + radius, cell_size),
        axis_cell(q.0 - radius, cell_size),
        axis_cell(q.0 + radius, cell_size),
        axis_cell(p.1 as int, cell_size),
        axis_cell(p.0 as int, cell_size),
    );
}

/// Agent `a` is inserted by one of `items`.
pub open spec fn inserts(items: Seq<(usize, (i64, i64))>, a: int) -> bool
    decreases items.len(),
{
    items.len() > 0 && (items.last().0 == a || inserts(items.drop_last(), a))
}

/// Every link of `g` that a bucket can reach is `EMPTY` or an agent of `items`.
pub open spec fn links_within(g: GridState, items: Seq<(usize, (i64, i64))>) -> bool {
    &&& forall|c: int| 0 <= c < CELL_COUNT ==> #[trigger] g.heads[c] == EMPTY || inserts(items, g.heads[c] as int)
    &&& forall|a: int| inserts(items, a) ==> #[trigger] g.next[a] == EMPTY || inserts(items, g.next[a] as int)
}

proof fn lemma_inserts_slot(items: Seq<(usize, (i64, i64))>, a: int)
    requires
        forall|k: int| 0 <= k < items.len() ==> #[trigger] items[k].0 < MAX_AGENTS,
        inserts(items, a),
    ensures
        0 <= a < MAX_AGENTS,
    decreases items.len(),
{
    assert(items.last() == items[items.len() - 1]);
    if items.last().0 != a {
        let prefix = items.drop_last();
        assert forall|k: int| 0 <= k < prefix.len() implies #[trigger] prefix[k].0 < MAX_AGENTS by {
            assert(prefix[k] == items[k]);
        }
        lemma_inserts_slot(prefix, a);
    }
}

proof fn lemma_rebuilt_shape(g: GridState, items: Seq<(usize, (i64, i64))>)
    requires
        g.cell_size > 0,
        g.next.len() == MAX_AGENTS,
        forall|k: int| 0 <= k < items.len() ==> #[trigger] items[k].0 < MAX_AGENTS,
    ensures
        g.rebuilt(items).cell_size == g.cell_size,
        g.rebuilt(items).heads.len() == CELL_COUNT,
        g.rebuilt(items).next.len() == MAX_AGENTS,
        links_within(g.rebuilt(items), items),
    decreases items.len(),
{
    if items.len() > 0 {
        let prefix = items.drop_last();
        assert forall|k: int| 0 <= k < prefix.len() implies #[trigger] prefix[k].0 < MAX_AGENTS by {
            assert(prefix[k] == items[k]);
        }
        lemma_rebuilt_shape(g, prefix);
        let h = g.rebuilt(prefix);
        let id = items.last().0 as int;
        let c = cell_of(g.cell_size, items.last().1);
        assert(items.last() == items[items.len() - 1]);
        let r = g.rebuilt(items);
        assert(r == h.inserted(id, items.last().1));
        assert forall|cc: int| 0 <= cc < CELL_COUNT implies #[trigger] r.heads[cc] == EMPTY || inserts(
            items,
            r.heads[cc] as int,
        ) by {
            if cc != c {
                assert(r.heads[cc] == h.heads[cc]);
            }
        }
        assert forall|a: int| inserts(items, a) implies #[trigger] r.next[a] == EMPTY || inserts(
            items,
            r.next[a] as int,
        ) by {
            if a != id {
                assert(inserts(prefix, a));
                lemma_inserts_slot(prefix, a);
                assert(r.next[a] == h.next[a]);
            }
        }
    }
}

proof fn lemma_rebuilt_agree(g: GridState, h: GridState, items: Seq<(usize, (i64, i64))>)
    requires
        g.cell_size == h.cell_size,
        g.cell_size > 0,
        g.next.len() == MAX_AGENTS,
        h.next.len() == MAX_AGENTS,
        forall|k: int| 0 <= k < items.len() ==> #[trigger] items[k].0 < MAX_AGENTS,
    ensures
        g.rebuilt(items).heads == h.rebuilt(items).heads,
        forall|a: int| inserts(items, a) ==> #[trigger] g.rebuilt(items).next[a] == h.rebuilt(items).next[a],
    decreases items.len(),
{
    if items.len() > 0 {
        let prefix = items.drop_last();
        assert forall|k: int| 0 <= k < prefix.len() implies #[trigger] prefix[k].0 < MAX_AGENTS by {
            assert(prefix[k] == items[k]);
        }
        lemma_rebuilt_agree(g, h, prefix);
        lemma_rebuilt_shape(g, prefix);
        lemma_rebuilt_shape(h, prefix);
        assert(items.last() == items[items.len() - 1]);
        let id = items.last().0 as int;
        assert forall|a: int| inserts(items, a) implies #[trigger] g.rebuilt(items).next[a] == h.rebuilt(
            items,
        ).next[a] by {
            assert(g.rebuilt(items) == g.rebuilt(prefix).inserted(id, items.last().1));
            assert(h.rebuilt(items) == h.rebuilt(prefix).inserted(id, items.last().1));
            if a != id {
                assert(inserts(prefix, a));
                lemma_inserts_slot(prefix, a);
            }
        }
    } else {
        assert(g.rebuilt(items).heads =~= h.rebuilt(items).heads);
    }
}

proof fn lemma_walk_agree(
    n1: Seq<i32>,
    n2: Seq<i32>,
    items: Seq<(usize, (i64, i64))>,
    start: int,
    fuel: nat,
)
    requires
        n1.len() == MAX_AGENTS,
        n2.len() == MAX_AGENTS,
        forall|k: int| 0 <= k < items.len() ==> #[trigger] items[k].0 < MAX_AGENTS,
        start == EMPTY || inserts(items, start),
        forall|a: int| inserts(items, a) ==> #[trigger] n1[a] == n2[a],
        forall|a: int| inserts(items, a) ==> #[trigger] n1[a] == EMPTY || inserts(items, n1[a] as int),
    ensures
        walk(n1, start, fuel) == walk(n2, start, fuel),
    decreases fuel,
{
    if fuel > 0 && start >= 0 {
        lemma_inserts_slot(items, start);
        assert(n1[start] == n2[start]);
        lemma_walk_agree(n1, n2, items, n1[start] as int, (fuel - 1) as nat);
    }
}

/// Rebuilding is idempotent: clearing a grid and inserting the same agents at
/// the same positions once more reproduces its heads and every bucket.
pub proof fn lemma_rebuild_idempotent(g: GridState, items: Seq<(usize, (i64, i64))>)
    requires
        g.cell_size > 0,
        g.next.len() == MAX_AGENTS,
        forall|k: int| 0 <= k < items.len() ==> #[trigger] items[k].0 < MAX_AGENTS,
    ensures
        g.rebuilt(items).rebuilt(items).heads == g.rebuilt(items).heads,
        forall|c: int|
            0 <= c < CELL_COUNT ==> #[trigger] g.rebuilt(items).rebuilt(items).bucket(c) == g.rebuilt(
                items,
            ).bucket(c),
{
    let g1 = g.rebuilt(items);
    let g2 = g1.rebuilt(items);
    lemma_rebuilt_shape(g, items);
    lemma_rebuilt_shape(g1, items);
    lemma_rebuilt_agree(g1, g, items);
    assert forall|c: int| 0 <= c < CELL_COUNT implies #[trigger] g2.bucket(c) == g1.bucket(c) by {
        lemma_walk_agree(g1.next, g2.next, items, g1.heads[c] as int, MAX_AGENTS as nat);
    }
}

} // verus!
