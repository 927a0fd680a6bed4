use vstd::prelude::*;

use crate::point::{adjacent, Point2d};

verus! {

/// Expansion budget of `find_path`.
pub const CALCULATION_LIMIT: u32 = 150;

/// Largest side of a grid: cells and their neighbors keep `i32` coordinates.
pub const MAX_GRID_SIDE: u32 = 0x3fff_ffff;

/// Occupancy of the cells `(x, y)` with `0 <= x < size.0` and `0 <= y < size.1`;
/// every other cell counts as blocked.
pub struct Grid {
    pub size: (u32, u32),
    blocked: Vec<bool>,
}

/// Position of a cell in the row-major cell array of a grid `h` cells high.
pub open spec fn cell_index(p: Point2d, h: int) -> int {
    p.x * h + p.y
}

proof fn lemma_cell_index(p: Point2d, q: Point2d, w: int, h: int)
    requires
        0 <= p.x < w,
        0 <= p.y < h,
        0 <= q.x < w,
        0 <= q.y < h,
    ensures
        0 <= cell_index(p, h) < w * h,
        cell_index(p, h) == cell_index(q, h) ==> p == q,
{
    assert(0 <= p.x * h + p.y < w * h) by (nonlinear_arith)
        requires
            0 <= p.x < w,
            0 <= p.y < h,
    ;
    if cell_index(p, h) == cell_index(q, h) {
        assert(p.x == q.x) by (nonlinear_arith)
            requires
                p.x * h + p.y == q.x * h + q.y,
                0 <= p.y < h,
                0 <= q.y < h,
                0 <= p.x,
                0 <= q.x,
        ;
    }
}

impl Grid {
    /// The cells lie in `0..size.0` by `0..size.1`, one flag each.
    pub closed spec fn wf(&self) -> bool {
        &&& self.size.0 <= MAX_GRID_SIDE
        &&& self.size.1 <= MAX_GRID_SIDE
        &&& self.blocked@.len() == self.size.0 * self.size.1
    }

    /// Number of cells along `x`.
    pub closed spec fn width(&self) -> int {
        self.size.0 as int
    }

    /// Number of cells along `y`.
    pub closed spec fn height(&self) -> int {
        self.size.1 as int
    }

    pub open spec fn in_grid(&self, p: Point2d) -> bool {
        0 <= p.x < self.width() && 0 <= p.y < self.height()
    }

    /// A cell of the grid that is not marked blocked.
    pub closed spec fn walkable(&self, p: Point2d) -> bool {
        self.in_grid(p) && !self.blocked@[cell_index(p, self.size.1 as int)]
    }

    /// A grid covering `size` at twice its resolution, every cell walkable.
    pub fn new(size: (u32, u32)) -> (r: Grid)
        requires
            2 * size.0 <= MAX_GRID_SIDE,
            2 * size.1 <= MAX_GRID_SIDE,
            4 * size.0 * size.1 <= usize::MAX,
        ensures
            r.wf(),
            r.width() == 2 * size.0,
            r.height() == 2 * size.1,
            forall|p: Point2d| r.walkable(p) <==> r.in_grid(p),
    {
        let w: u32 = size.0 * 2;
        let h: u32 = size.1 * 2;
        assert(w as int * h as int == 4 * size.0 * size.1) by (nonlinear_arith)
            requires
                w == 2 * size.0,
                h == 2 * size.1,
        ;
        let n: usize = w as usize * h as usize;
        let mut blocked: Vec<bool> = Vec::new();
        let mut i: usize = 0;
        while i < n
            invariant
                i <= n,
                blocked@.len() == i,
                forall|k: int| 0 <= k < i ==> !#[trigger] blocked@[k],
            decreases n - i,
        {
            blocked.push(false);
            i += 1;
        }
        let r = Grid { size: (w, h), blocked };
        assert forall|p: Point2d| r.walkable(p) <==> r.in_grid(p) by {
            if r.in_grid(p) {
                lemma_cell_index(p, p, w as int, h as int);
            }
        }
        r
    }

    fn index(&self, p: Point2d) -> (r: usize)
        requires
            self.wf(),
            self.in_grid(p),
        ensures
            r == cell_index(p, self.size.1 as int),
            r < self.blocked@.len(),
    {
        let n = self.blocked.len();
        proof {
            lemma_cell_index(p, p, self.size.0 as int, self.size.1 as int);
            assert(p.x * self.size.1 <= p.x * self.size.1 + p.y);
            assert(p.x * self.size.1 + p.y < n);
        }
        let x = p.x as usize;
        let h = self.size.1 as usize;
        let y = p.y as usize;
        assert(x * h == p.x * self.size.1);
        x * h + y
    }

    pub fn in_bounds(&self, p: Point2d) -> (r: bool)
        ensures
            r == self.in_grid(p),
    {
        0 <= p.x && (p.x as i64) < self.size.0 as i64 && 0 <= p.y && (p.y as i64)
            < self.size.1 as i64
    }

    /// Whether `at` is outside the grid or marked blocked.
    pub fn is_blocked(&self, at: Point2d) -> (r: bool)
        requires
            self.wf(),
        ensures
            r == !self.walkable(at),
    {
        if !self.in_bounds(at) {
            return true;
        }
        let i = self.index(at);
        self.blocked[i]
    }

    /// Marks a cell of the grid blocked or walkable; other cells are kept.
    pub fn set_blocked(&mut self, at: Point2d, blocked: bool)
        requires
            old(self).wf(),
            old(self).in_grid(at),
        ensures
            final(self).wf(),
            final(self).width() == old(self).width(),
            final(self).height() == old(self).height(),
            final(self).walkable(at) == !blocked,
            forall|p: Point2d| p != at ==> final(self).walkable(p) == old(self).walkable(p),
    {
        let i = self.index(at);
        self.blocked.set(i, blocked);
        assert forall|p: Point2d| p != at implies self.walkable(p) == old(self).walkable(p) by {
            if self.in_grid(p) {
                lemma_cell_index(p, at, self.size.0 as int, self.size.1 as int);
            }
        }
    }

    /// Rebuilds the occupancy from the cells an outside collision query found
    /// occupied: those of them inside the grid become blocked, every other
    /// cell of the grid walkable.
    pub fn discretize(&mut self, occupied: &Vec<Point2d>)
        requires
            old(self).wf(),
        ensures
            final(self).wf(),
            final(self).width() == old(self).width(),
            final(self).height() == old(self).height(),
            forall|p: Point2d|
                #[trigger] final(self).walkable(p) <==> (final(self).in_grid(p) && !occupied@.contains(p)),
    {
        let n = self.blocked.len();
        let mut i: usize = 0;
        while i < n
            invariant
                self.wf(),
                self.size == old(self).size,
                n == self.blocked@.len(),
                i <= n,
                forall|k: int| 0 <= k < i ==> !#[trigger] self.blocked@[k],
            decreases n - i,
        {
            self.blocked.set(i, false);
            i += 1;
        }
        assert forall|p: Point2d|
            #[trigger] self.walkable(p) <==> (self.in_grid(p) && !occupied@.subrange(0, 0).contains(
                p,
            )) by {
            if self.in_grid(p) {
                lemma_cell_index(p, p, self.size.0 as int, self.size.1 as int);
            }
        }
        let mut j: usize = 0;
        while j < occupied.len()
            invariant
                self.wf(),
                self.size == old(self).size,
                j <= occupied@.len(),
                forall|p: Point2d|
                    #[trigger] self.walkable(p) <==> (self.in_grid(p) && !occupied@.subrange(
                        0,
                        j as int,
                    ).contains(p)),
            decreases occupied@.len() - j,
        {
            let c = occupied[j];
            let ghost before = *self;
            if self.in_bounds(c) {
                self.set_blocked(c, true);
            }
            assert forall|p: Point2d|
                #[trigger] self.walkable(p) <==> (self.in_grid(p) && !occupied@.subrange(
                    0,
                    j + 1,
                ).contains(p)) by {
                let prev = occupied@.subrange(0, j as int);
                let next = occupied@.subrange(0, j + 1);
                assert(next == prev.push(c));
                if prev.contains(p) {
                    let k = choose|k: int| 0 <= k < prev.len() && prev[k] == p;
                    assert(next[k] == p);
                }
                if next.contains(p) && p != c {
                    let k = choose|k: int| 0 <= k < next.len() && next[k] == p;
                    assert(k < prev.len());
                    assert(prev[k] == p);
                }
                if p == c {
                    assert(next[j as int] == p);
                }
            }
            j += 1;
        }
        assert(occupied@.subrange(0, occupied@.len() as int) == occupied@);
    }

    /// The walkable cells among `center` and the eight around it; none if
    /// `center` is outside the grid.
    fn neighbors(&self, center: Point2d) -> (r: Vec<Point2d>)
        requires
            self.wf(),
        ensures
            forall|i: int|
                0 <= i < r@.len() ==> #[trigger] self.walkable(r@[i]) && -1 <= r@[i].x
                    - center.x <= 1 && -1 <= r@[i].y - center.y <= 1,
            forall|q: Point2d|
                self.in_grid(center) && #[trigger] self.walkable(q) && -1 <= q.x - center.x <= 1
                    && -1 <= q.y - center.y <= 1 ==> r@.contains(q),
    {
        let mut out: Vec<Point2d> = Vec::new();
        if !self.in_bounds(center) {
            return out;
        }
        let mut dx: i32 = -1;
        while dx <= 1
            invariant
                -1 <= dx <= 2,
                self.wf(),
                self.in_grid(center),
                forall|i: int|
                    0 <= i < out@.len() ==> #[trigger] self.walkable(out@[i]) && -1 <= out@[i].x
                        - center.x <= 1 && -1 <= out@[i].y - center.y <= 1,
                forall|q: Point2d|
                    #[trigger] self.walkable(q) && -1 <= q.x - center.x < dx && -1 <= q.y
                        - center.y <= 1 ==> out@.contains(q),
            decreases 2 - dx,
        {
            let mut dy: i32 = -1;
            while dy <= 1
                invariant
                    -1 <= dx <= 1,
                    -1 <= dy <= 2,
                    self.wf(),
                    self.in_grid(center),
                    forall|i: int|
                        0 <= i < out@.len() ==> #[trigger] self.walkable(out@[i]) && -1
                            <= out@[i].x - center.x <= 1 && -1 <= out@[i].y - center.y <= 1,
                    forall|q: Point2d|
                        #[trigger] self.walkable(q) && ((-1 <= q.x - center.x < dx && -1 <= q.y
                            - center.y <= 1) || (q.x - center.x == dx && -1 <= q.y - center.y
                            < dy)) ==> out@.contains(q),
                decreases 2 - dy,
            {
                let p = Point2d::new(center.x + dx, center.y + dy);
                assert(p.x - center.x == dx && p.y - center.y == dy);
                let ghost before = out@;
                if !self.is_blocked(p) {
                    out.push(p);
                }
                assert forall|i: int|
                    0 <= i < out@.len() implies #[trigger] self.walkable(out@[i]) && -1 <= out@[i].x
                        - center.x <= 1 && -1 <= out@[i].y - center.y <= 1 by {
                    if i < before.len() {
                        assert(out@[i] == before[i]);
                    } else {
                        assert(out@[i] == p);
                        assert(self.walkable(p));
                    }
                }
                assert forall|q: Point2d|
                    #[trigger] self.walkable(q) && ((-1 <= q.x - center.x < dx && -1 <= q.y
                        - center.y <= 1) || (q.x - center.x == dx && -1 <= q.y - center.y < dy
                        + 1)) implies out@.contains(q) by {
                    if q == p {
                        assert(out@[out@.len() - 1] == p);
                    } else {
                        assert(before.contains(q));
                        let k = choose|k: int| 0 <= k < before.len() && before[k] == q;
                        assert(out@[k] == q);
                    }
                }
                dy += 1;
            }
            dx += 1;
        }
        out
    }
}

/// Manhattan distance between two cells.
pub open spec fn manhattan(a: Point2d, b: Point2d) -> int {
    (if a.x < b.x { b.x - a.x } else { a.x - b.x }) + (if a.y < b.y { b.y - a.y } else { a.y - b.y })
}

fn search_heuristic(destination: Point2d, next: Point2d) -> (r: u64)
    ensures
        r == manhattan(destination, next),
{
    let dx: i64 = destination.x as i64 - next.x as i64;
    let dy: i64 = destination.y as i64 - next.y as i64;
    let ax: u64 = if dx < 0 { (-dx) as u64 } else { dx as u64 };
    let ay: u64 = if dy < 0 { (-dy) as u64 } else { dy as u64 };
    ax + ay
}

/// No cell occurs twice in `path`.
#[verifier::opaque]
pub open spec fn no_repeated_cell(path: Seq<Point2d>) -> bool {
    forall|i: int, j: int| 0 <= i < j < path.len() ==> #[trigger] path[i] != #[trigger] path[j]
}

/// `path` leads from `from` (not included) to `to` (included) through
/// walkable cells, each step to an adjacent cell; the empty path counts as
/// "no path known".
pub open spec fn is_path(grid: Grid, from: Point2d, to: Point2d, path: Seq<Point2d>) -> bool {
    path.len() > 0 ==> {
        &&& adjacent(from, path[0])
        &&& path.last() == to
        &&& forall|i: int| 0 <= i < path.len() - 1 ==> adjacent(#[trigger] path[i], path[i + 1])
        &&& forall|i: int| 0 <= i < path.len() ==> grid.walkable(#[trigger] path[i])
        &&& forall|i: int| 0 <= i < path.len() ==> #[trigger] path[i] != from
        &&& no_repeated_cell(path)
    }
}

/// What the pathfinder promises of its result `r` for a search from `from` to
/// `to` on `grid` with a budget of `limit` expansions: `r` is a path (see
/// `is_path`) of at most `limit` cells; it is empty when `from == to` or
/// `from` lies outside the grid, and it is the single step `[to]` when `to` is
/// a walkable neighbor of `from` and the budget is not zero.
pub open spec fn path_outcome(grid: Grid, from: Point2d, to: Point2d, limit: int, r: Seq<Point2d>) -> bool {
    &&& is_path(grid, from, to, r)
    &&& r.len() <= limit
    &&& from == to ==> r.len() == 0
    &&& !grid.in_grid(from) ==> r.len() == 0
    &&& next_to_goal(grid, from, to) && limit > 0 ==> r == seq![to]
}

/// What the search keeps for every cell: the cheapest cost found (`u64::MAX`
/// for none yet) and the cell it was reached from.
spec fn search_state_ok(
    grid: Grid,
    from: Point2d,
    cost: Seq<u64>,
    parent: Seq<Option<Point2d>>,
    steps: int,
) -> bool {
    let h = grid.size.1 as int;
    &&& cost.len() == grid.blocked@.len()
    &&& parent.len() == grid.blocked@.len()
    &&& cost[cell_index(from, h)] == 0
    &&& forall|p: Point2d| #[trigger]
        grid.in_grid(p) ==> (cost[cell_index(p, h)] != u64::MAX ==> cost[cell_index(p, h)]
            <= steps)
    &&& forall|p: Point2d| #[trigger]
        grid.in_grid(p) && p != from ==> cost[cell_index(p, h)] >= 1 && (cost[cell_index(p, h)]
            != u64::MAX ==> parent[cell_index(p, h)] is Some)
    &&& forall|p: Point2d| #[trigger]
        grid.in_grid(p) && parent[cell_index(p, h)] is Some ==> {
            let q = parent[cell_index(p, h)]->Some_0;
            &&& grid.in_grid(q)
            &&& q == from || grid.walkable(q)
            &&& grid.walkable(p)
            &&& adjacent(q, p)
            &&& cost[cell_index(p, h)] != u64::MAX
            &&& cost[cell_index(q, h)] < cost[cell_index(p, h)]
        }
}

/// `to` is a walkable cell next to `from`, inside the grid.
pub open spec fn next_to_goal(grid: Grid, from: Point2d, to: Point2d) -> bool {
    grid.in_grid(from) && adjacent(from, to) && grid.walkable(to)
}

/// A* from `from` to `to` over the walkable cells of `grid`, expanding at
/// most `limit` cells. The frontier is ordered by cost so far plus the
/// Manhattan distance to `to`; every step costs one. The result is the path
/// found, in walking order, or empty when `from == to` or when no path was
/// found within the budget.
pub fn find_path_within(from: Point2d, to: Point2d, grid: &Grid, limit: u32) -> (r: Vec<Point2d>)
    requires
        grid.wf(),
    ensures
        path_outcome(*grid, from, to, limit as int, r@),
{
    if from == to || !grid.in_bounds(from) || !grid.in_bounds(to) {
        return Vec::new();
    }
    let ghost h = grid.size.1 as int;
    let n = grid.blocked.len();
    let mut cost: Vec<u64> = Vec::new();
    let mut parent: Vec<Option<Point2d>> = Vec::new();
    let mut i: usize = 0;
    while i < n
        invariant
            i <= n,
            n == grid.blocked@.len(),
            cost@.len() == i,
            parent@.len() == i,
            forall|k: int| 0 <= k < i ==> #[trigger] cost@[k] == u64::MAX,
            forall|k: int| 0 <= k < i ==> #[trigger] parent@[k] is None,
        decreases n - i,
    {
        cost.push(u64::MAX);
        parent.push(None);
        i += 1;
    }
    let fi = grid.index(from);
    cost.set(fi, 0);
    assert(search_state_ok(*grid, from, cost@, parent@, 0)) by {
        assert forall|p: Point2d| #[trigger]
            grid.in_grid(p) implies (cost@[cell_index(p, h)] != u64::MAX ==> cost@[cell_index(
            p,
            h,
        )] <= 0) by {
            lemma_cell_index(p, from, grid.size.0 as int, h);
        }
        assert forall|p: Point2d| #[trigger]
            grid.in_grid(p) implies parent@[cell_index(p, h)] is None by {
            lemma_cell_index(p, p, grid.size.0 as int, h);
        }
        assert forall|p: Point2d| #[trigger]
            grid.in_grid(p) && p != from implies cost@[cell_index(p, h)] >= 1 && (cost@[cell_index(
            p,
            h,
        )] != u64::MAX ==> parent@[cell_index(p, h)] is Some) by {
            lemma_cell_index(p, from, grid.size.0 as int, h);
        }
    }
    let mut frontier: Vec<(u64, Point2d)> = Vec::new();
    frontier.push((0, from));
    let mut steps: u32 = 0;
    while frontier.len() > 0
        invariant
            grid.wf(),
            h == grid.size.1 as int,
            grid.in_grid(from),
            grid.in_grid(to),
            from != to,
            steps <= limit,
            search_state_ok(*grid, from, cost@, parent@, steps as int),
            forall|k: int|
                0 <= k < frontier@.len() ==> {
                    let p = #[trigger] frontier@[k].1;
                    &&& grid.in_grid(p)
                    &&& p == from || grid.walkable(p)
                    &&& cost@[cell_index(p, h)] != u64::MAX
                },
            steps == 0 && limit > 0 ==> frontier@ == seq![(0u64, from)],
            next_to_goal(*grid, from, to) && steps >= 1 ==> cost@[cell_index(to, h)] == 1
                && parent@[cell_index(to, h)] == Some(from),
        ensures
            grid.in_grid(from),
            grid.in_grid(to),
            steps <= limit,
            search_state_ok(*grid, from, cost@, parent@, steps as int),
            next_to_goal(*grid, from, to) && steps >= 1 ==> cost@[cell_index(to, h)] == 1
                && parent@[cell_index(to, h)] == Some(from),
            limit > 0 ==> steps >= 1,
        decreases limit - steps,
    {
        let mut best: usize = 0;
        let mut k: usize = 1;
        while k < frontier.len()
            invariant
                best < frontier@.len(),
                1 <= k <= frontier@.len(),
            decreases frontier@.len() - k,
        {
            if frontier[k].0 < frontier[best].0 {
                best = k;
            }
            k += 1;
        }
        let ghost old_frontier = frontier@;
        let (_, current) = frontier.remove(best);
        assert(frontier@.len() + 1 > best);
        proof {
            if steps == 0 && limit > 0 {
                assert(best == 0);
                assert(old_frontier[0] == (0u64, from));
                assert(current == from);
            }
        }
        if current == to || steps >= limit {
            break;
        }
        steps += 1;
        let ci = grid.index(current);
        let current_cost = cost[ci];
        let neigh = grid.neighbors(current);
        let mut j: usize = 0;
        while j < neigh.len()
            invariant
                grid.wf(),
                h == grid.size.1 as int,
                grid.in_grid(from),
                grid.in_grid(to),
                grid.in_grid(current),
                current == from || grid.walkable(current),
                ci == cell_index(current, h),
                ci < cost@.len(),
                current_cost == cost@[ci as int],
                current_cost < steps,
                steps <= limit,
                search_state_ok(*grid, from, cost@, parent@, steps as int),
                forall|i: int|
                    0 <= i < neigh@.len() ==> #[trigger] grid.walkable(neigh@[i]) && -1
                        <= neigh@[i].x - current.x <= 1 && -1 <= neigh@[i].y - current.y <= 1,
                forall|k: int|
                    0 <= k < frontier@.len() ==> {
                        let p = #[trigger] frontier@[k].1;
                        &&& grid.in_grid(p)
                        &&& p == from || grid.walkable(p)
                        &&& cost@[cell_index(p, h)] != u64::MAX
                    },
                forall|q: Point2d|
                    grid.in_grid(current) && #[trigger] grid.walkable(q) && -1 <= q.x - current.x
                        <= 1 && -1 <= q.y - current.y <= 1 ==> neigh@.contains(q),
                j <= neigh@.len(),
                grid.in_grid(to),
                steps == 1 ==> current == from,
                next_to_goal(*grid, from, to) && steps >= 2 ==> cost@[cell_index(to, h)] == 1
                    && parent@[cell_index(to, h)] == Some(from),
                next_to_goal(*grid, from, to) && steps == 1 && neigh@.subrange(0, j as int).contains(
                    to,
                ) ==> cost@[cell_index(to, h)] == 1 && parent@[cell_index(to, h)] == Some(from),
            decreases neigh@.len() - j,
        {
            let next = neigh[j];
            assert(grid.walkable(neigh@[j as int]));
            let ni = grid.index(next);
            let new_cost = current_cost + 1;
            if new_cost < cost[ni] {
                proof {
                    lemma_cell_index(next, current, grid.size.0 as int, h);
                    lemma_cell_index(from, next, grid.size.0 as int, h);
                    assert(ni != ci);
                    assert(next != current);
                    assert(adjacent(current, next));
                }
                let ghost old_cost = cost@;
                let ghost old_parent = parent@;
                cost.set(ni, new_cost);
                parent.set(ni, Some(current));
                assert forall|p: Point2d| #[trigger]
                    grid.in_grid(p) implies (cost@[cell_index(p, h)] != u64::MAX ==> cost@[cell_index(
                    p,
                    h,
                )] <= steps) by {
                    lemma_cell_index(p, next, grid.size.0 as int, h);
                }
                assert forall|p: Point2d| #[trigger]
                    grid.in_grid(p) && parent@[cell_index(p, h)] is Some implies {
                    let q = parent@[cell_index(p, h)]->Some_0;
                    &&& grid.in_grid(q)
                    &&& q == from || grid.walkable(q)
                    &&& grid.walkable(p)
                    &&& adjacent(q, p)
                    &&& cost@[cell_index(p, h)] != u64::MAX
                    &&& cost@[cell_index(q, h)] < cost@[cell_index(p, h)]
                } by {
                    lemma_cell_index(p, next, grid.size.0 as int, h);
                    if p != next {
                        assert(parent@[cell_index(p, h)] == old_parent[cell_index(p, h)]);
                        assert(cost@[cell_index(p, h)] == old_cost[cell_index(p, h)]);
                        let q = old_parent[cell_index(p, h)]->Some_0;
                        lemma_cell_index(q, next, grid.size.0 as int, h);
                        if q != next {
                            assert(cost@[cell_index(q, h)] == old_cost[cell_index(q, h)]);
                        }
                    } else {
                        assert(cell_index(current, h) == ci as int);
                        assert(cost@[ci as int] == old_cost[ci as int]);
                    }
                }
                assert forall|p: Point2d| #[trigger]
                    grid.in_grid(p) && p != from implies cost@[cell_index(p, h)] >= 1 && (cost@[cell_index(
                    p,
                    h,
                )] != u64::MAX ==> parent@[cell_index(p, h)] is Some) by {
                    lemma_cell_index(p, next, grid.size.0 as int, h);
                }
                proof {
                    lemma_cell_index(to, next, grid.size.0 as int, h);
                    if next_to_goal(*grid, from, to) && steps == 1 && next == to {
                        assert(current_cost == 0);
                    }
                }
                let heuristic = search_heuristic(to, next);
                assert(grid.in_grid(next));
                assert(0 <= next.x < MAX_GRID_SIDE && 0 <= to.x < MAX_GRID_SIDE);
                assert(0 <= next.y < MAX_GRID_SIDE && 0 <= to.y < MAX_GRID_SIDE);
                assert(heuristic < 0x1_0000_0000);
                frontier.push((new_cost + heuristic, next));
                assert forall|k: int|
                    0 <= k < frontier@.len() implies {
                    let p = #[trigger] frontier@[k].1;
                    &&& grid.in_grid(p)
                    &&& p == from || grid.walkable(p)
                    &&& cost@[cell_index(p, h)] != u64::MAX
                } by {
                    let p = frontier@[k].1;
                    lemma_cell_index(p, next, grid.size.0 as int, h);
                }
            } else {
                proof {
                    lemma_cell_index(to, from, grid.size.0 as int, h);
                    if next_to_goal(*grid, from, to) && steps == 1 && next == to {
                        assert(current_cost == 0);
                        assert(cost@[cell_index(to, h)] == 1);
                        let q = parent@[cell_index(to, h)]->Some_0;
                        lemma_cell_index(q, from, grid.size.0 as int, h);
                    }
                }
            }
            proof {
                assert(neigh@.subrange(0, j + 1) == neigh@.subrange(0, j as int).push(next));
                if neigh@.subrange(0, j + 1).contains(to) && next != to {
                    let sub = neigh@.subrange(0, j + 1);
                    let k = choose|k: int| 0 <= k < sub.len() && #[trigger] sub[k] == to;
                    assert(neigh@.subrange(0, j as int)[k] == to);
                }
            }
            j += 1;
        }
        proof {
            assert(neigh@.subrange(0, neigh@.len() as int) == neigh@);
            if next_to_goal(*grid, from, to) && steps == 1 {
                assert(neigh@.contains(to));
            }
        }
    }
    create_path(from, to, grid, &cost, &parent, Ghost(steps as int))
}

/// Walks the parent links back from `to` to `from` and returns the cells
/// passed, `from` excluded, in walking order; empty if `to` was not reached.
fn create_path(
    from: Point2d,
    to: Point2d,
    grid: &Grid,
    cost: &Vec<u64>,
    parent: &Vec<Option<Point2d>>,
    steps: Ghost<int>,
) -> (r: Vec<Point2d>)
    requires
        grid.wf(),
        grid.in_grid(from),
        grid.in_grid(to),
        from != to,
        search_state_ok(*grid, from, cost@, parent@, steps@),
    ensures
        is_path(*grid, from, to, r@),
        r@.len() <= steps@,
        parent@[cell_index(to, grid.size.1 as int)] == Some(from) ==> r@ == seq![to],
        r@.len() == 0 <==> parent@[cell_index(to, grid.size.1 as int)] is None,
{
    let ghost h = grid.size.1 as int;
    let ti = grid.index(to);
    if parent[ti].is_none() {
        return Vec::new();
    }
    let mut rev: Vec<Point2d> = Vec::new();
    rev.push(to);
    let mut current = to;
    loop
        invariant
            grid.wf(),
            h == grid.size.1 as int,
            grid.in_grid(from),
            grid.in_grid(current),
            current != from,
            search_state_ok(*grid, from, cost@, parent@, steps@),
            parent@[cell_index(current, h)] is Some,
            parent@[cell_index(to, h)] is Some,
            rev@.len() > 0,
            rev@[0] == to,
            rev@.last() == current,
            forall|i: int| 0 <= i < rev@.len() - 1 ==> adjacent(#[trigger] rev@[i + 1], rev@[i]),
            forall|i: int| 0 <= i < rev@.len() ==> grid.walkable(#[trigger] rev@[i]),
            rev@.len() + cost@[cell_index(current, h)] <= cost@[cell_index(to, h)] + 1,
            h == grid.size.1 as int,
            parent@[cell_index(to, h)] == Some(from) ==> rev@ == seq![to] && current == to,
            forall|i: int, j: int|
                0 <= i < j < rev@.len() ==> cost@[cell_index(#[trigger] rev@[j], h)] < cost@[cell_index(
                    #[trigger] rev@[i],
                    h,
                )],
            forall|i: int|
                0 <= i < rev@.len() ==> cost@[cell_index(current, h)] <= cost@[cell_index(
                    #[trigger] rev@[i],
                    h,
                )],
            forall|i: int| 0 <= i < rev@.len() ==> #[trigger] rev@[i] != from,
        ensures
            grid.in_grid(current),
            current != from,
            parent@[cell_index(current, h)] == Some(from),
            rev@.len() > 0,
            rev@[0] == to,
            rev@.last() == current,
            forall|i: int| 0 <= i < rev@.len() - 1 ==> adjacent(#[trigger] rev@[i + 1], rev@[i]),
            forall|i: int| 0 <= i < rev@.len() ==> grid.walkable(#[trigger] rev@[i]),
            rev@.len() + cost@[cell_index(current, h)] <= cost@[cell_index(to, h)] + 1,
            parent@[cell_index(to, h)] == Some(from) ==> rev@ == seq![to],
            forall|i: int, j: int|
                0 <= i < j < rev@.len() ==> cost@[cell_index(#[trigger] rev@[j], h)] < cost@[cell_index(
                    #[trigger] rev@[i],
                    h,
                )],
            forall|i: int|
                0 <= i < rev@.len() ==> cost@[cell_index(current, h)] <= cost@[cell_index(
                    #[trigger] rev@[i],
                    h,
                )],
            forall|i: int| 0 <= i < rev@.len() ==> #[trigger] rev@[i] != from,
        decreases cost@[cell_index(current, h)],
    {
        let ci = grid.index(current);
        let p = parent[ci].unwrap();
        if p == from {
            break;
        }
        assert(grid.in_grid(p) && grid.walkable(p));
        assert(cost@[cell_index(p, h)] != u64::MAX);
        let ghost before = rev@;
        rev.push(p);
        current = p;
        assert forall|i: int, j: int|
            0 <= i < j < rev@.len() implies cost@[cell_index(#[trigger] rev@[j], h)] < cost@[cell_index(
            #[trigger] rev@[i],
            h,
        )] by {
            if j == rev@.len() - 1 {
                assert(before[i] == rev@[i]);
            } else {
                assert(before[i] == rev@[i] && before[j] == rev@[j]);
            }
        }
        assert forall|i: int|
            0 <= i < rev@.len() implies cost@[cell_index(current, h)] <= cost@[cell_index(
            #[trigger] rev@[i],
            h,
        )] by {
            if i < before.len() {
                assert(before[i] == rev@[i]);
            }
        }
    }
    proof {
        lemma_cell_index(from, from, grid.size.0 as int, h);
        lemma_cell_index(to, to, grid.size.0 as int, h);
    }
    let mut path: Vec<Point2d> = Vec::new();
    let mut k: usize = rev.len();
    while k > 0
        invariant
            k <= rev@.len(),
            path@.len() == rev@.len() - k,
            forall|i: int| 0 <= i < path@.len() ==> #[trigger] path@[i] == rev@[rev@.len() - 1 - i],
        decreases k,
    {
        k -= 1;
        path.push(rev[k]);
    }
    assert(path@[0] == current);
    assert(adjacent(from, current));
    assert(parent@[cell_index(to, h)] == Some(from) ==> path@ == seq![to]);
    assert(path@.last() == to);
    assert forall|i: int| 0 <= i < path@.len() - 1 implies adjacent(
        #[trigger] path@[i],
        path@[i + 1],
    ) by {
        let j = rev@.len() - 2 - i;
        assert(adjacent(rev@[j + 1], rev@[j]));
    }
    assert forall|i: int| 0 <= i < path@.len() implies grid.walkable(#[trigger] path@[i]) by {
        assert(grid.walkable(rev@[rev@.len() - 1 - i]));
    }
    assert forall|i: int| 0 <= i < path@.len() implies #[trigger] path@[i] != from by {
        assert(rev@[rev@.len() - 1 - i] != from);
    }
    assert(no_repeated_cell(path@)) by {
        reveal(no_repeated_cell);
        assert forall|i: int, j: int| 0 <= i < j < path@.len() implies #[trigger] path@[i]
            != #[trigger] path@[j] by {
            let a = rev@.len() - 1 - j;
            let b = rev@.len() - 1 - i;
            assert(cost@[cell_index(rev@[b], h)] < cost@[cell_index(rev@[a], h)]);
        }
    }
    path
}

/// `find_path_within` with the default expansion budget.
pub fn find_path(from: Point2d, to: Point2d, grid: &Grid) -> (r: Vec<Point2d>)
    requires
        grid.wf(),
    ensures
        path_outcome(*grid, from, to, CALCULATION_LIMIT as int, r@),
{
    find_path_within(from, to, grid, CALCULATION_LIMIT)
}

} // verus!
