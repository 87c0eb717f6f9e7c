use vstd::prelude::*;

verus! {

/// The maps of the game, in the order they are played.
#[derive(PartialEq, Eq, Structural, Clone, Copy, Debug)]
pub enum MapId {
    House,
    Level1_1,
    Level1_2,
    Level2_1,
    Level2_2,
}

/// Position of a map in the order of play.
pub open spec fn map_index(m: MapId) -> usize {
    match m {
        MapId::House => 0,
        MapId::Level1_1 => 1,
        MapId::Level1_2 => 2,
        MapId::Level2_1 => 3,
        MapId::Level2_2 => 4,
    }
}

impl MapId {
    pub fn index(&self) -> (r: usize)
        ensures
            r == map_index(*self),
    {
        match self {
            MapId::House => 0,
            MapId::Level1_1 => 1,
            MapId::Level1_2 => 2,
            MapId::Level2_1 => 3,
            MapId::Level2_2 => 4,
        }
    }
}

/// Cost of a wall tile in the cost map, and the distance of a tile that no route reaches.
pub const BLOCKED: u16 = 65535;

pub open spec fn in_grid(w: int, h: int, x: int, y: int) -> bool {
    0 <= x < w && 0 <= y < h
}

/// Row-major index of tile (x, y) in a grid `w` tiles wide.
pub open spec fn cell(w: int, x: int, y: int) -> int {
    y * w + x
}

pub proof fn lemma_cell_bounds(w: int, h: int, x: int, y: int)
    requires
        in_grid(w, h, x, y),
    ensures
        0 <= cell(w, x, y) < w * h,
{
    assert(0 <= y * w + x < w * h) by (nonlinear_arith)
        requires
            0 <= x < w,
            0 <= y < h,
    ;
}

pub proof fn lemma_cell_inj(w: int, h: int, x1: int, y1: int, x2: int, y2: int)
    requires
        in_grid(w, h, x1, y1),
        in_grid(w, h, x2, y2),
        cell(w, x1, y1) == cell(w, x2, y2),
    ensures
        x1 == x2,
        y1 == y2,
{
    assert(y1 == y2) by (nonlinear_arith)
        requires
            0 <= x1 < w,
            0 <= x2 < w,
            0 <= y1,
            0 <= y2,
            y1 * w + x1 == y2 * w + x2,
    ;
}

proof fn lemma_next_row(w: int, y: int)
    ensures
        cell(w, w, y) == cell(w, 0, y + 1),
{
    assert(y * w + w == (y + 1) * w) by (nonlinear_arith);
}

/// The eight moves of the route search, in the order the search tries them.
pub open spec fn move_dx(k: int) -> int {
    if k == 0 || k == 4 || k == 6 {
        -1
    } else if k == 1 || k == 5 || k == 7 {
        1
    } else {
        0
    }
}

pub open spec fn move_dy(k: int) -> int {
    if k == 2 || k == 4 || k == 5 {
        -1
    } else if k == 3 || k == 6 || k == 7 {
        1
    } else {
        0
    }
}

/// The eight neighbours in scan order: dx runs over -1, 0, 1 and, within it, dy over -1, 0, 1.
pub open spec fn scan_dx(j: int) -> int {
    if j < 3 {
        -1
    } else if j < 5 {
        0
    } else {
        1
    }
}

pub open spec fn scan_dy(j: int) -> int {
    if j == 0 || j == 3 || j == 5 {
        -1
    } else if j == 1 || j == 6 {
        0
    } else {
        1
    }
}

pub open spec fn is_wall(coll: Seq<bool>, w: int, x: int, y: int) -> bool {
    coll[cell(w, x, y)]
}

/// A step by (dx, dy) from (x, y) stays on the grid and, when diagonal, does not cut a wall corner.
pub open spec fn step_ok(coll: Seq<bool>, w: int, h: int, x: int, y: int, dx: int, dy: int) -> bool {
    &&& in_grid(w, h, x + dx, y + dy)
    &&& (dx != 0 && dy != 0) ==> (!is_wall(coll, w, x + dx, y) && !is_wall(coll, w, x, y + dy))
}

pub open spec fn touches_wall(coll: Seq<bool>, w: int, h: int, x: int, y: int, j: int) -> bool {
    &&& in_grid(w, h, x + scan_dx(j), y + scan_dy(j))
    &&& is_wall(coll, w, x + scan_dx(j), y + scan_dy(j))
}

/// One of the eight tiles around (x, y) is a wall.
pub open spec fn near_wall(coll: Seq<bool>, w: int, h: int, x: int, y: int) -> bool {
    exists|j: int| 0 <= j < 8 && #[trigger] touches_wall(coll, w, h, x, y, j)
}

/// Cost of entering a tile: walls are blocked, tiles beside a wall cost 2, others 1.
pub open spec fn tile_cost(coll: Seq<bool>, w: int, h: int, x: int, y: int) -> u16 {
    if is_wall(coll, w, x, y) {
        BLOCKED
    } else if near_wall(coll, w, h, x, y) {
        2
    } else {
        1
    }
}

/// The tile one step from (x, y) by (dx, dy), where it lies on the grid.
fn neighbor(w: usize, h: usize, x: usize, y: usize, dx: i8, dy: i8) -> (r: Option<(usize, usize)>)
    requires
        x < w,
        y < h,
        -1 <= dx <= 1,
        -1 <= dy <= 1,
    ensures
        match r {
            Some(p) => in_grid(w as int, h as int, x + dx, y + dy) && p.0 == x + dx && p.1 == y
                + dy,
            None => !in_grid(w as int, h as int, x + dx, y + dy),
        },
{
    let nx = if dx < 0 {
        if x == 0 {
            return None;
        }
        x - 1
    } else if dx > 0 {
        if x + 1 >= w {
            return None;
        }
        x + 1
    } else {
        x
    };
    let ny = if dy < 0 {
        if y == 0 {
            return None;
        }
        y - 1
    } else if dy > 0 {
        if y + 1 >= h {
            return None;
        }
        y + 1
    } else {
        y
    };
    Some((nx, ny))
}

fn scan_offset(j: usize) -> (r: (i8, i8))
    requires
        j < 8,
    ensures
        r.0 == scan_dx(j as int),
        r.1 == scan_dy(j as int),
{
    if j == 0 {
        (-1, -1)
    } else if j == 1 {
        (-1, 0)
    } else if j == 2 {
        (-1, 1)
    } else if j == 3 {
        (0, -1)
    } else if j == 4 {
        (0, 1)
    } else if j == 5 {
        (1, -1)
    } else if j == 6 {
        (1, 0)
    } else {
        (1, 1)
    }
}

fn move_offset(k: usize) -> (r: (i8, i8))
    requires
        k < 8,
    ensures
        r.0 == move_dx(k as int),
        r.1 == move_dy(k as int),
{
    if k == 0 {
        (-1, 0)
    } else if k == 1 {
        (1, 0)
    } else if k == 2 {
        (0, -1)
    } else if k == 3 {
        (0, 1)
    } else if k == 4 {
        (-1, -1)
    } else if k == 5 {
        (1, -1)
    } else if k == 6 {
        (-1, 1)
    } else {
        (1, 1)
    }
}

/// Sum of a distance map; it falls whenever the route search shortens a distance.
pub open spec fn total(s: Seq<u16>) -> int
    decreases s.len(),
{
    if s.len() == 0 {
        0
    } else {
        total(s.drop_last()) + s.last()
    }
}

proof fn lemma_total_nonneg(s: Seq<u16>)
    ensures
        total(s) >= 0,
    decreases s.len(),
{
    if s.len() > 0 {
        lemma_total_nonneg(s.drop_last());
    }
}

proof fn lemma_total_update(s: Seq<u16>, i: int, v: u16)
    requires
        0 <= i < s.len(),
    ensures
        total(s.update(i, v)) == total(s) - s[i] + v,
    decreases s.len(),
{
    let t = s.update(i, v);
    if i == s.len() - 1 {
        assert(t.drop_last() =~= s.drop_last());
    } else {
        assert(t.drop_last() =~= s.drop_last().update(i, v));
        lemma_total_update(s.drop_last(), i, v);
    }
}


fn tile_index(w: usize, h: usize, x: usize, y: usize) -> (i: usize)
    requires
        in_grid(w as int, h as int, x as int, y as int),
        w * h <= usize::MAX,
    ensures
        i == cell(w as int, x as int, y as int),
        i < w * h,
{
    proof {
        lemma_cell_bounds(w as int, h as int, x as int, y as int);
        assert(y * w <= y * w + x);
    }
    y * w + x
}

fn near_wall_exec(coll: &Vec<bool>, w: usize, h: usize, x: usize, y: usize) -> (r: bool)
    requires
        coll.len() == w * h,
        in_grid(w as int, h as int, x as int, y as int),
    ensures
        r == near_wall(coll@, w as int, h as int, x as int, y as int),
{
    let mut j: usize = 0;
    while j < 8
        invariant
            j <= 8,
            coll.len() == w * h,
            in_grid(w as int, h as int, x as int, y as int),
            forall|j2: int| 0 <= j2 < j ==> !#[trigger] touches_wall(coll@, w as int, h as int, x as int, y as int, j2),
        decreases 8 - j,
    {
        let (dx, dy) = scan_offset(j);
        match neighbor(w, h, x, y, dx, dy) {
            Some((nx, ny)) => {
                let n = tile_index(w, h, nx, ny);
                if coll[n] {
                    assert(touches_wall(coll@, w as int, h as int, x as int, y as int, j as int));
                    return true;
                }
            },
            None => {},
        }
        j = j + 1;
    }
    false
}

/// Cost map of a collision grid: see `tile_cost`.
fn build_cost_map(coll: &Vec<bool>, w: usize, h: usize) -> (cost: Vec<u16>)
    requires
        coll.len() == w * h,
    ensures
        cost.len() == w * h,
        forall|x: int, y: int|
            in_grid(w as int, h as int, x, y) ==> #[trigger] cost@[cell(w as int, x, y)] == tile_cost(
                coll@,
                w as int,
                h as int,
                x,
                y,
            ),
{
    let mut cost: Vec<u16> = Vec::new();
    let mut y: usize = 0;
    while y < h
        invariant
            y <= h,
            coll.len() == w * h,
            cost.len() == cell(w as int, 0, y as int),
            forall|x2: int, y2: int|
                in_grid(w as int, h as int, x2, y2) && cell(w as int, x2, y2) < cost.len()
                    ==> #[trigger] cost@[cell(w as int, x2, y2)] == tile_cost(
                    coll@,
                    w as int,
                    h as int,
                    x2,
                    y2,
                ),
        decreases h - y,
    {
        let mut x: usize = 0;
        while x < w
            invariant
                x <= w,
                y < h,
                coll.len() == w * h,
                cost.len() == cell(w as int, x as int, y as int),
                forall|x2: int, y2: int|
                    in_grid(w as int, h as int, x2, y2) && cell(w as int, x2, y2) < cost.len()
                        ==> #[trigger] cost@[cell(w as int, x2, y2)] == tile_cost(
                        coll@,
                        w as int,
                        h as int,
                        x2,
                        y2,
                    ),
            decreases w - x,
        {
            let idx = tile_index(w, h, x, y);
            let c: u16 = if coll[idx] {
                BLOCKED
            } else if near_wall_exec(coll, w, h, x, y) {
                2
            } else {
                1
            };
            let ghost old_cost = cost@;
            cost.push(c);
            assert forall|x2: int, y2: int|
                in_grid(w as int, h as int, x2, y2) && cell(w as int, x2, y2) < cost.len()
                    implies #[trigger] cost@[cell(w as int, x2, y2)] == tile_cost(
                    coll@,
                    w as int,
                    h as int,
                    x2,
                    y2,
                ) by {
                if cell(w as int, x2, y2) == old_cost.len() {
                    lemma_cell_inj(w as int, h as int, x2, y2, x as int, y as int);
                } else {
                    assert(cost@[cell(w as int, x2, y2)] == old_cost[cell(w as int, x2, y2)]);
                }
            }
            x = x + 1;
        }
        proof {
            lemma_next_row(w as int, y as int);
        }
        y = y + 1;
    }
    assert(cost.len() == w * h) by {
        assert(h * w == w * h) by (nonlinear_arith);
    }
    assert forall|x: int, y: int| in_grid(w as int, h as int, x, y) implies #[trigger] cost@[cell(
        w as int,
        x,
        y,
    )] == tile_cost(coll@, w as int, h as int, x, y) by {
        lemma_cell_bounds(w as int, h as int, x, y);
    }
    cost
}


/// Walls and tile costs of one map, one entry per tile in row-major order.
pub struct Terrain {
    collision: Vec<bool>,
    cost: Vec<u16>,
    width: usize,
    height: usize,
}

/// A map's walls and costs together with the result of its latest route search.
pub struct NavGrid {
    terrain: Terrain,
    distance: Vec<u16>,
    flow: Vec<(i8, i8)>,
    last_target_tile: (usize, usize),
}

/// A queued tile of the route search: (distance, x, y).
pub type SearchEntry = (u32, usize, usize);

pub open spec fn queued(heap: Seq<SearchEntry>, d: int, x: int, y: int) -> bool {
    exists|i: int| 0 <= i < heap.len() && #[trigger] heap[i] == (d as u32, x as usize, y as usize)
}

/// Lexicographic order of search entries.
pub open spec fn entry_le(a: SearchEntry, b: SearchEntry) -> bool {
    a.0 < b.0 || (a.0 == b.0 && (a.1 < b.1 || (a.1 == b.1 && a.2 <= b.2)))
}

fn entry_before(a: SearchEntry, b: SearchEntry) -> (r: bool)
    ensures
        r == (entry_le(a, b) && a != b),
{
    a.0 < b.0 || (a.0 == b.0 && (a.1 < b.1 || (a.1 == b.1 && a.2 < b.2)))
}

/// Index of the least entry, as a binary heap of reversed entries would yield it.
fn nearest_entry(heap: &Vec<SearchEntry>) -> (i: usize)
    requires
        heap.len() > 0,
    ensures
        i < heap.len(),
        forall|j: int| 0 <= j < heap.len() ==> entry_le(heap@[i as int], #[trigger] heap@[j]),
{
    let mut best: usize = 0;
    let mut j: usize = 1;
    while j < heap.len()
        invariant
            1 <= j <= heap.len(),
            best < j,
            forall|j2: int| 0 <= j2 < j ==> entry_le(heap@[best as int], #[trigger] heap@[j2]),
        decreases heap.len() - j,
    {
        if entry_before(heap[j], heap[best]) {
            best = j;
        }
        j = j + 1;
    }
    best
}

impl NavGrid {
    pub closed spec fn grid_w(self) -> int {
        self.terrain.width as int
    }

    pub closed spec fn grid_h(self) -> int {
        self.terrain.height as int
    }

    pub closed spec fn walls(self) -> Seq<bool> {
        self.terrain.collision@
    }

    pub closed spec fn costs(self) -> Seq<u16> {
        self.terrain.cost@
    }

    pub closed spec fn distances(self) -> Seq<u16> {
        self.distance@
    }

    pub closed spec fn flows(self) -> Seq<(i8, i8)> {
        self.flow@
    }

    pub closed spec fn last_target(self) -> (usize, usize) {
        self.last_target_tile
    }

    /// Distance stored for tile (x, y).
    pub open spec fn distance_at(self, x: int, y: int) -> int {
        self.distances()[cell(self.grid_w(), x, y)] as int
    }

    /// Flow direction stored for tile (x, y).
    pub open spec fn flow_at(self, x: int, y: int) -> (i8, i8) {
        self.flows()[cell(self.grid_w(), x, y)]
    }

    /// Tile (x, y) is a wall.
    pub open spec fn wall_at(self, x: int, y: int) -> bool {
        is_wall(self.walls(), self.grid_w(), x, y)
    }

    /// Stepping to scan neighbour `j` of (x, y) stays on the grid, cuts no wall corner and
    /// reaches a tile with a lower distance.
    pub open spec fn lower_by(self, x: int, y: int, j: int) -> bool {
        &&& step_ok(self.walls(), self.grid_w(), self.grid_h(), x, y, scan_dx(j), scan_dy(j))
        &&& self.distance_at(x + scan_dx(j), y + scan_dy(j)) < self.distance_at(x, y)
    }

    /// Some neighbour of (x, y) can be stepped to and has a lower distance.
    pub open spec fn has_lower_neighbour(self, x: int, y: int) -> bool {
        exists|j: int| 0 <= j < 8 && #[trigger] self.lower_by(x, y, j)
    }

    /// The flow at (x, y) is no move, or a step to a neighbour that lies on the grid, cuts no
    /// wall corner and has a lower distance.
    pub open spec fn flow_leads_lower(self, x: int, y: int) -> bool {
        let f = self.flow_at(x, y);
        f == (0i8, 0i8) || {
            &&& -1 <= f.0 <= 1
            &&& -1 <= f.1 <= 1
            &&& step_ok(self.walls(), self.grid_w(), self.grid_h(), x, y, f.0 as int, f.1 as int)
            &&& self.distance_at(x + f.0, y + f.1) < self.distance_at(x, y)
        }
    }

    /// The tile reached from (x, y) by following the flow `n` times.
    pub open spec fn follow(self, x: int, y: int, n: nat) -> (int, int)
        decreases n,
    {
        if n == 0 {
            (x, y)
        } else {
            let p = self.follow(x, y, (n - 1) as nat);
            (p.0 + self.flow_at(p.0, p.1).0, p.1 + self.flow_at(p.0, p.1).1)
        }
    }

}

impl Terrain {
    /// The move `k` from (x, y) is an edge of the route graph: it stays on the grid,
    /// cuts no wall corner and enters a tile that is not blocked.
    pub closed spec fn edge(self, x: int, y: int, k: int) -> bool {
        &&& 0 <= k < 8
        &&& step_ok(
            self.collision@,
            self.width as int,
            self.height as int,
            x,
            y,
            move_dx(k),
            move_dy(k),
        )
        &&& self.cost@[cell(self.width as int, x + move_dx(k), y + move_dy(k))] != BLOCKED
    }

    /// Price of move `k` from (x, y): the cost of the tile entered times 10 (straight) or 14 (diagonal).
    pub closed spec fn weight(self, x: int, y: int, k: int) -> int {
        let c = self.cost@[cell(self.width as int, x + move_dx(k), y + move_dy(k))] as int;
        if k < 4 {
            c * 10
        } else {
            c * 14
        }
    }

    pub closed spec fn relax_via(self, dist: Seq<u16>, x: int, y: int, k: int) -> bool {
        self.edge(x, y, k) ==> dist[cell(self.width as int, x + move_dx(k), y + move_dy(k))]
            <= dist[cell(self.width as int, x, y)] + self.weight(x, y, k)
    }

    /// No move out of (x, y) would shorten the distance of the tile it enters.
    pub closed spec fn relaxed(self, dist: Seq<u16>, x: int, y: int) -> bool {
        forall|k: int| 0 <= k < 8 ==> #[trigger] self.relax_via(dist, x, y, k)
    }

    pub closed spec fn pred_via(self, dist: Seq<u16>, x: int, y: int, k: int) -> bool {
        let px = x - move_dx(k);
        let py = y - move_dy(k);
        &&& in_grid(self.width as int, self.height as int, px, py)
        &&& self.edge(px, py, k)
        &&& dist[cell(self.width as int, px, py)] + self.weight(px, py, k) <= dist[cell(
            self.width as int,
            x,
            y,
        )]
    }

    pub closed spec fn has_pred(self, dist: Seq<u16>, x: int, y: int) -> bool {
        exists|k: int| 0 <= k < 8 && #[trigger] self.pred_via(dist, x, y, k)
    }

    pub closed spec fn exact_pred_via(self, dist: Seq<u16>, x: int, y: int, k: int) -> bool {
        let px = x - move_dx(k);
        let py = y - move_dy(k);
        &&& in_grid(self.width as int, self.height as int, px, py)
        &&& self.edge(px, py, k)
        &&& dist[cell(self.width as int, px, py)] + self.weight(px, py, k) == dist[cell(
            self.width as int,
            x,
            y,
        )]
    }

    /// Tile (x, y) is reached by a move from a neighbour whose distance plus the move's price is its own.
    pub closed spec fn has_exact_pred(self, dist: Seq<u16>, x: int, y: int) -> bool {
        exists|k: int| 0 <= k < 8 && #[trigger] self.exact_pred_via(dist, x, y, k)
    }

    pub closed spec fn route_cell(self, dist: Seq<u16>, tx: int, ty: int, x: int, y: int) -> bool {
        let d = dist[cell(self.width as int, x, y)];
        &&& d != BLOCKED ==> self.relaxed(dist, x, y)
        &&& (d != BLOCKED && !(x == tx && y == ty)) ==> self.has_exact_pred(dist, x, y)
    }

    /// `dist` is the distance map of a route search that starts at (tx, ty).
    pub closed spec fn distances_from(self, dist: Seq<u16>, tx: int, ty: int) -> bool {
        &&& dist.len() == self.collision.len()
        &&& in_grid(self.width as int, self.height as int, tx, ty)
        &&& dist[cell(self.width as int, tx, ty)] == 0
        &&& forall|x: int, y: int|
            in_grid(self.width as int, self.height as int, x, y) ==> #[trigger] self.route_cell(
                dist,
                tx,
                ty,
                x,
                y,
            )
    }

    /// Flow choice at (x, y) after looking at scan neighbours `j..8`, given the least
    /// distance `best` seen so far and its direction `dir`.
    pub closed spec fn best_scan(self, dist: Seq<u16>, x: int, y: int, j: int, best: int, dir: (i8, i8)) -> (i8, i8)
        decreases 8 - j,
    {
        if j < 0 || j >= 8 {
            dir
        } else {
            let nx = x + scan_dx(j);
            let ny = y + scan_dy(j);
            if step_ok(
                self.collision@,
                self.width as int,
                self.height as int,
                x,
                y,
                scan_dx(j),
                scan_dy(j),
            ) && (dist[cell(self.width as int, nx, ny)] as int) < best {
                self.best_scan(
                    dist,
                    x,
                    y,
                    j + 1,
                    dist[cell(self.width as int, nx, ny)] as int,
                    (scan_dx(j) as i8, scan_dy(j) as i8),
                )
            } else {
                self.best_scan(dist, x, y, j + 1, best, dir)
            }
        }
    }

    /// Flow direction of tile (x, y): towards the first neighbour in scan order with the least
    /// distance below its own, or (0, 0) for walls, unreached tiles and tiles with no lower neighbour.
    pub closed spec fn flow_dir(self, dist: Seq<u16>, x: int, y: int) -> (i8, i8) {
        let d = dist[cell(self.width as int, x, y)];
        if is_wall(self.collision@, self.width as int, x, y) || d == BLOCKED {
            (0, 0)
        } else {
            self.best_scan(dist, x, y, 0, d as int, (0, 0))
        }
    }

    pub closed spec fn flow_cell(self, dist: Seq<u16>, flow: Seq<(i8, i8)>, x: int, y: int) -> bool {
        flow[cell(self.width as int, x, y)] == self.flow_dir(dist, x, y)
    }

    /// `dist` and `flow` are the distance and flow maps of a route search from (tx, ty).
    pub closed spec fn routes_to(self, dist: Seq<u16>, flow: Seq<(i8, i8)>, tx: int, ty: int) -> bool {
        &&& self.distances_from(dist, tx, ty)
        &&& flow.len() == self.collision.len()
        &&& forall|x: int, y: int|
            in_grid(self.width as int, self.height as int, x, y) ==> #[trigger] self.flow_cell(
                dist,
                flow,
                x,
                y,
            )
    }

    pub closed spec fn entry_ok(self, dist: Seq<u16>, e: SearchEntry) -> bool {
        &&& in_grid(self.width as int, self.height as int, e.1 as int, e.2 as int)
        &&& e.0 < BLOCKED
        &&& e.0 >= dist[cell(self.width as int, e.1 as int, e.2 as int)]
    }

    pub closed spec fn qr_ok(self, dist: Seq<u16>, heap: Seq<SearchEntry>, x: int, y: int) -> bool {
        let d = dist[cell(self.width as int, x, y)];
        d != BLOCKED ==> (queued(heap, d as int, x, y) || self.relaxed(dist, x, y))
    }

    pub closed spec fn pred_ok(self, dist: Seq<u16>, tx: int, ty: int, x: int, y: int) -> bool {
        let d = dist[cell(self.width as int, x, y)];
        (d != BLOCKED && !(x == tx && y == ty)) ==> self.has_pred(dist, x, y)
    }

    pub closed spec fn search_base(self, dist: Seq<u16>, heap: Seq<SearchEntry>, tx: int, ty: int) -> bool {
        &&& dist.len() == self.collision.len()
        &&& in_grid(self.width as int, self.height as int, tx, ty)
        &&& dist[cell(self.width as int, tx, ty)] == 0
        &&& forall|i: int| 0 <= i < heap.len() ==> #[trigger] self.entry_ok(dist, heap[i])
        &&& forall|x: int, y: int|
            in_grid(self.width as int, self.height as int, x, y) ==> #[trigger] self.pred_ok(
                dist,
                tx,
                ty,
                x,
                y,
            )
    }

    pub closed spec fn search_inv(self, dist: Seq<u16>, heap: Seq<SearchEntry>, tx: int, ty: int) -> bool {
        &&& self.search_base(dist, heap, tx, ty)
        &&& forall|x: int, y: int|
            in_grid(self.width as int, self.height as int, x, y) ==> #[trigger] self.qr_ok(
                dist,
                heap,
                x,
                y,
            )
    }

    pub closed spec fn grid_ok(self) -> bool {
        &&& self.width * self.height == self.collision.len()
        &&& self.cost.len() == self.collision.len()
        &&& forall|x: int, y: int|
            in_grid(self.width as int, self.height as int, x, y) ==> #[trigger] self.cost@[cell(
                self.width as int,
                x,
                y,
            )] == tile_cost(self.collision@, self.width as int, self.height as int, x, y)
    }
}

impl NavGrid {
    /// The search result stored for the grid is that of its last target, when it has one.
    pub closed spec fn wf(self) -> bool {
        &&& self.terrain.grid_ok()
        &&& self.terrain.width <= i32::MAX
        &&& self.terrain.height <= i32::MAX
        &&& self.distance.len() == self.terrain.collision.len()
        &&& self.flow.len() == self.terrain.collision.len()
        &&& forall|x: int, y: int|
            in_grid(self.terrain.width as int, self.terrain.height as int, x, y)
                ==> #[trigger] self.flow_leads_lower(x, y)
        &&& in_grid(
            self.terrain.width as int,
            self.terrain.height as int,
            self.last_target_tile.0 as int,
            self.last_target_tile.1 as int,
        ) ==> self.terrain.routes_to(
            self.distance@,
            self.flow@,
            self.last_target_tile.0 as int,
            self.last_target_tile.1 as int,
        )
    }

    /// The stored maps are those of a route search from (tx, ty).
    pub closed spec fn routes_to(self, tx: int, ty: int) -> bool {
        self.terrain.routes_to(self.distance@, self.flow@, tx, ty)
    }

}



impl Terrain {
    /// `nd` is `od` with tile (nx, ny), the target of move `k` from (cx, cy), shortened to `v`.
    pub closed spec fn shortens(self, od: Seq<u16>, nd: Seq<u16>, cx: int, cy: int, k: int, nx: int, ny: int, v: int) -> bool {
        &&& self.grid_ok()
        &&& in_grid(self.width as int, self.height as int, cx, cy)
        &&& 0 <= k < 8
        &&& nx == cx + move_dx(k)
        &&& ny == cy + move_dy(k)
        &&& self.edge(cx, cy, k)
        &&& od.len() == self.collision.len()
        &&& v == od[cell(self.width as int, cx, cy)] + self.weight(cx, cy, k)
        &&& v < od[cell(self.width as int, nx, ny)]
        &&& nd == od.update(cell(self.width as int, nx, ny), v as u16)
    }

    proof fn lemma_shortens_basics(self, od: Seq<u16>, nd: Seq<u16>, cx: int, cy: int, k: int, nx: int, ny: int, v: int)
        requires
            self.shortens(od, nd, cx, cy, k, nx, ny, v),
        ensures
            in_grid(self.width as int, self.height as int, nx, ny),
            0 <= cell(self.width as int, nx, ny) < od.len(),
            !(nx == cx && ny == cy),
            nd.len() == od.len(),
            forall|i: int| 0 <= i < nd.len() ==> nd[i] <= od[i],
            nd[cell(self.width as int, nx, ny)] == v,
            nd[cell(self.width as int, cx, cy)] == od[cell(self.width as int, cx, cy)],
            0 <= v < BLOCKED,
    {
        let w = self.width as int;
        let h = self.height as int;
        lemma_cell_bounds(w, h, nx, ny);
        lemma_cell_bounds(w, h, cx, cy);
        if cell(w, cx, cy) == cell(w, nx, ny) {
            lemma_cell_inj(w, h, cx, cy, nx, ny);
        }
    }

    proof fn lemma_shortens_pred(self, od: Seq<u16>, nd: Seq<u16>, cx: int, cy: int, k: int, nx: int, ny: int, v: int, tx: int, ty: int)
        requires
            self.shortens(od, nd, cx, cy, k, nx, ny, v),
            forall|x: int, y: int|
                in_grid(self.width as int, self.height as int, x, y) ==> #[trigger] self.pred_ok(od, tx, ty, x, y),
        ensures
            forall|x: int, y: int|
                in_grid(self.width as int, self.height as int, x, y) ==> #[trigger] self.pred_ok(nd, tx, ty, x, y),
    {
        let w = self.width as int;
        let h = self.height as int;
        self.lemma_shortens_basics(od, nd, cx, cy, k, nx, ny, v);
        assert forall|x: int, y: int| in_grid(w, h, x, y) implies #[trigger] self.pred_ok(nd, tx, ty, x, y) by {
            lemma_cell_bounds(w, h, x, y);
            if x == nx && y == ny {
                assert(self.pred_via(nd, x, y, k));
            } else {
                if cell(w, x, y) == cell(w, nx, ny) {
                    lemma_cell_inj(w, h, x, y, nx, ny);
                }
                assert(self.pred_ok(od, tx, ty, x, y));
                if nd[cell(w, x, y)] != BLOCKED && !(x == tx && y == ty) {
                    let k2 = choose|k2: int| 0 <= k2 < 8 && #[trigger] self.pred_via(od, x, y, k2);
                    lemma_cell_bounds(w, h, x - move_dx(k2), y - move_dy(k2));
                    assert(self.pred_via(nd, x, y, k2));
                }
            }
        }
    }

    proof fn lemma_shortens_relaxed(self, od: Seq<u16>, nd: Seq<u16>, cx: int, cy: int, k: int, nx: int, ny: int, v: int, x: int, y: int)
        requires
            self.shortens(od, nd, cx, cy, k, nx, ny, v),
            in_grid(self.width as int, self.height as int, x, y),
            !(x == nx && y == ny),
            self.relaxed(od, x, y),
        ensures
            self.relaxed(nd, x, y),
    {
        let w = self.width as int;
        let h = self.height as int;
        self.lemma_shortens_basics(od, nd, cx, cy, k, nx, ny, v);
        lemma_cell_bounds(w, h, x, y);
        if cell(w, x, y) == cell(w, nx, ny) {
            lemma_cell_inj(w, h, x, y, nx, ny);
        }
        assert forall|k2: int| 0 <= k2 < 8 implies #[trigger] self.relax_via(nd, x, y, k2) by {
            assert(self.relax_via(od, x, y, k2));
            if self.edge(x, y, k2) {
                lemma_cell_bounds(w, h, x + move_dx(k2), y + move_dy(k2));
            }
        }
    }

    proof fn lemma_shortens_qr(
        self,
        od: Seq<u16>,
        nd: Seq<u16>,
        oh: Seq<SearchEntry>,
        nh: Seq<SearchEntry>,
        cx: int,
        cy: int,
        k: int,
        nx: int,
        ny: int,
        v: int,
    )
        requires
            self.shortens(od, nd, cx, cy, k, nx, ny, v),
            nh == oh.push((v as u32, nx as usize, ny as usize)),
            forall|x: int, y: int|
                in_grid(self.width as int, self.height as int, x, y) && !(x == cx && y == cy)
                    ==> #[trigger] self.qr_ok(od, oh, x, y),
        ensures
            forall|x: int, y: int|
                in_grid(self.width as int, self.height as int, x, y) && !(x == cx && y == cy)
                    ==> #[trigger] self.qr_ok(nd, nh, x, y),
    {
        let w = self.width as int;
        let h = self.height as int;
        self.lemma_shortens_basics(od, nd, cx, cy, k, nx, ny, v);
        assert forall|x: int, y: int| in_grid(w, h, x, y) && !(x == cx && y == cy) implies #[trigger] self.qr_ok(nd, nh, x, y) by {
            lemma_cell_bounds(w, h, x, y);
            if x == nx && y == ny {
                assert(nh[oh.len() as int] == (v as u32, nx as usize, ny as usize));
                assert(queued(nh, nd[cell(w, x, y)] as int, x, y));
            } else {
                if cell(w, x, y) == cell(w, nx, ny) {
                    lemma_cell_inj(w, h, x, y, nx, ny);
                }
                assert(self.qr_ok(od, oh, x, y));
                let dd = od[cell(w, x, y)];
                if dd != BLOCKED {
                    if queued(oh, dd as int, x, y) {
                        let i = choose|i: int| 0 <= i < oh.len() && #[trigger] oh[i] == (dd as u32, x as usize, y as usize);
                        assert(nh[i] == oh[i]);
                    } else {
                        self.lemma_shortens_relaxed(od, nd, cx, cy, k, nx, ny, v, x, y);
                    }
                }
            }
        }
    }

    proof fn lemma_shortens_entries(
        self,
        od: Seq<u16>,
        nd: Seq<u16>,
        oh: Seq<SearchEntry>,
        nh: Seq<SearchEntry>,
        cx: int,
        cy: int,
        k: int,
        nx: int,
        ny: int,
        v: int,
    )
        requires
            self.shortens(od, nd, cx, cy, k, nx, ny, v),
            nh == oh.push((v as u32, nx as usize, ny as usize)),
            forall|i: int| 0 <= i < oh.len() ==> #[trigger] self.entry_ok(od, oh[i]),
        ensures
            forall|i: int| 0 <= i < nh.len() ==> #[trigger] self.entry_ok(nd, nh[i]),
    {
        let w = self.width as int;
        let h = self.height as int;
        self.lemma_shortens_basics(od, nd, cx, cy, k, nx, ny, v);
        assert forall|i: int| 0 <= i < nh.len() implies #[trigger] self.entry_ok(nd, nh[i]) by {
            if i < oh.len() {
                assert(nh[i] == oh[i]);
                assert(self.entry_ok(od, oh[i]));
                lemma_cell_bounds(w, h, oh[i].1 as int, oh[i].2 as int);
            }
        }
    }

    proof fn lemma_shortens_settled(self, od: Seq<u16>, nd: Seq<u16>, cx: int, cy: int, k: int, nx: int, ny: int, v: int)
        requires
            self.shortens(od, nd, cx, cy, k, nx, ny, v),
            forall|j: int| 0 <= j < k ==> #[trigger] self.relax_via(od, cx, cy, j),
        ensures
            forall|j: int| 0 <= j <= k ==> #[trigger] self.relax_via(nd, cx, cy, j),
    {
        let w = self.width as int;
        let h = self.height as int;
        self.lemma_shortens_basics(od, nd, cx, cy, k, nx, ny, v);
        assert forall|j: int| 0 <= j <= k implies #[trigger] self.relax_via(nd, cx, cy, j) by {
            if j < k {
                assert(self.relax_via(od, cx, cy, j));
                if self.edge(cx, cy, j) {
                    lemma_cell_bounds(w, h, cx + move_dx(j), cy + move_dy(j));
                }
            }
        }
    }

    /// Tries move `k` out of the settled tile (cx, cy) at distance `d`, shortening the
    /// distance of the tile it enters and queueing that tile where the move is shorter.
    fn relax_move(
        &self,
        dist: &mut Vec<u16>,
        heap: &mut Vec<SearchEntry>,
        tx: usize,
        ty: usize,
        cx: usize,
        cy: usize,
        d: u32,
        k: usize,
    )
        requires
            self.grid_ok(),
            in_grid(self.width as int, self.height as int, cx as int, cy as int),
            k < 8,
            d < BLOCKED,
            self.search_base(old(dist)@, old(heap)@, tx as int, ty as int),
            old(dist)@[cell(self.width as int, cx as int, cy as int)] == d,
            forall|x: int, y: int|
                in_grid(self.width as int, self.height as int, x, y) && !(x == cx && y == cy)
                    ==> #[trigger] self.qr_ok(old(dist)@, old(heap)@, x, y),
            forall|j: int| 0 <= j < k ==> #[trigger] self.relax_via(old(dist)@, cx as int, cy as int, j),
        ensures
            self.search_base(final(dist)@, final(heap)@, tx as int, ty as int),
            final(dist)@[cell(self.width as int, cx as int, cy as int)] == d,
            forall|x: int, y: int|
                in_grid(self.width as int, self.height as int, x, y) && !(x == cx && y == cy)
                    ==> #[trigger] self.qr_ok(final(dist)@, final(heap)@, x, y),
            forall|j: int| 0 <= j <= k ==> #[trigger] self.relax_via(final(dist)@, cx as int, cy as int, j),
            9 * total(final(dist)@) + final(heap).len() <= 9 * total(old(dist)@) + old(heap).len(),
    {
        let w = self.width;
        let h = self.height;
        let (dx, dy) = move_offset(k);
        let next = neighbor(w, h, cx, cy, dx, dy);
        match next {
            None => {
                assert(self.relax_via(dist@, cx as int, cy as int, k as int));
            },
            Some((nx, ny)) => {
                if dx != 0 && dy != 0 {
                    let wall1 = tile_index(w, h, nx, cy);
                    let wall2 = tile_index(w, h, cx, ny);
                    if self.collision[wall1] || self.collision[wall2] {
                        assert(self.relax_via(dist@, cx as int, cy as int, k as int));
                        return ;
                    }
                }
                let n = tile_index(w, h, nx, ny);
                let entered_cost = self.cost[n] as u32;
                if entered_cost == BLOCKED as u32 {
                    assert(self.relax_via(dist@, cx as int, cy as int, k as int));
                    return ;
                }
                let step = if k < 4 {
                    entered_cost * 10
                } else {
                    entered_cost * 14
                };
                let new_dist = d + step;
                assert(step == self.weight(cx as int, cy as int, k as int));
                assert(self.edge(cx as int, cy as int, k as int));
                if new_dist < dist[n] as u32 {
                    let ghost od = dist@;
                    let ghost oh = heap@;
                    dist.set(n, new_dist as u16);
                    heap.push((new_dist, nx, ny));
                    proof {
                        let nd = dist@;
                        let nh = heap@;
                        let (ci, cj, ki, xi, yi, vi) = (cx as int, cy as int, k as int, nx as int, ny as int, new_dist as int);
                        assert(self.shortens(od, nd, ci, cj, ki, xi, yi, vi));
                        self.lemma_shortens_basics(od, nd, ci, cj, ki, xi, yi, vi);
                        lemma_total_update(od, n as int, new_dist as u16);
                        self.lemma_shortens_entries(od, nd, oh, nh, ci, cj, ki, xi, yi, vi);
                        self.lemma_shortens_pred(od, nd, ci, cj, ki, xi, yi, vi, tx as int, ty as int);
                        self.lemma_shortens_qr(od, nd, oh, nh, ci, cj, ki, xi, yi, vi);
                        self.lemma_shortens_settled(od, nd, ci, cj, ki, xi, yi, vi);
                        lemma_cell_bounds(w as int, h as int, tx as int, ty as int);
                    }
                } else {
                    assert(self.relax_via(dist@, cx as int, cy as int, k as int));
                }
            },
        }
    }
}


impl Terrain {
    proof fn lemma_pop_keeps(self, dist: Seq<u16>, oh: Seq<SearchEntry>, nh: Seq<SearchEntry>, i: int, tx: int, ty: int)
        requires
            self.search_inv(dist, oh, tx, ty),
            0 <= i < oh.len(),
            nh == oh.remove(i),
        ensures
            self.search_base(dist, nh, tx, ty),
            self.entry_ok(dist, oh[i]),
            forall|x: int, y: int|
                in_grid(self.width as int, self.height as int, x, y) && !(x == oh[i].1 && y == oh[i].2)
                    ==> #[trigger] self.qr_ok(dist, nh, x, y),
            oh[i].0 != dist[cell(self.width as int, oh[i].1 as int, oh[i].2 as int)] ==> self.qr_ok(
                dist,
                nh,
                oh[i].1 as int,
                oh[i].2 as int,
            ),
    {
        let w = self.width as int;
        let h = self.height as int;
        assert(self.entry_ok(dist, oh[i]));
        assert forall|j: int| 0 <= j < nh.len() implies #[trigger] self.entry_ok(dist, nh[j]) by {
            if j < i {
                assert(nh[j] == oh[j]);
            } else {
                assert(nh[j] == oh[j + 1]);
            }
            assert(self.entry_ok(dist, oh[if j < i { j } else { j + 1 }]));
        }
        assert forall|x: int, y: int|
            in_grid(w, h, x, y) && (!(x == oh[i].1 && y == oh[i].2) || oh[i].0 != dist[cell(w, x, y)])
                implies #[trigger] self.qr_ok(dist, nh, x, y) by {
            assert(self.qr_ok(dist, oh, x, y));
            let d = dist[cell(w, x, y)];
            if d != BLOCKED && queued(oh, d as int, x, y) {
                let j = choose|j: int| 0 <= j < oh.len() && #[trigger] oh[j] == (d as u32, x as usize, y as usize);
                assert(j != i);
                if j < i {
                    assert(nh[j] == oh[j]);
                } else {
                    assert(nh[j - 1] == oh[j]);
                }
            }
        }
    }

    proof fn lemma_search_done(self, dist: Seq<u16>, tx: int, ty: int)
        requires
            self.search_inv(dist, Seq::empty(), tx, ty),
        ensures
            self.distances_from(dist, tx, ty),
    {
        let w = self.width as int;
        let h = self.height as int;
        assert forall|x: int, y: int| in_grid(w, h, x, y) implies #[trigger] self.route_cell(dist, tx, ty, x, y) by {
            assert(self.qr_ok(dist, Seq::empty(), x, y));
            assert(self.pred_ok(dist, tx, ty, x, y));
            let d = dist[cell(w, x, y)];
            if d != BLOCKED && !(x == tx && y == ty) {
                let k = choose|k: int| 0 <= k < 8 && #[trigger] self.pred_via(dist, x, y, k);
                let px = x - move_dx(k);
                let py = y - move_dy(k);
                assert(self.qr_ok(dist, Seq::empty(), px, py));
                assert(self.relax_via(dist, px, py, k));
                assert(self.exact_pred_via(dist, x, y, k));
            }
        }
    }

    /// Distance map of a route search from tile (tx, ty) over the cost map.
    fn route_search(&self, tx: usize, ty: usize) -> (dist: Vec<u16>)
        requires
            self.grid_ok(),
            in_grid(self.width as int, self.height as int, tx as int, ty as int),
        ensures
            self.distances_from(dist@, tx as int, ty as int),
    {
        let w = self.width;
        let h = self.height;
        let n = self.collision.len();
        let mut dist: Vec<u16> = Vec::new();
        let mut i: usize = 0;
        while i < n
            invariant
                i <= n,
                dist.len() == i,
                forall|j: int| 0 <= j < i ==> dist@[j] == BLOCKED,
            decreases n - i,
        {
            dist.push(BLOCKED);
            i = i + 1;
        }
        let t = tile_index(w, h, tx, ty);
        dist.set(t, 0);
        let mut heap: Vec<SearchEntry> = Vec::new();
        heap.push((0, tx, ty));
        proof {
            let wi = w as int;
            let hi = h as int;
            assert(heap@[0] == (0u32, tx, ty));
            assert forall|x: int, y: int| in_grid(wi, hi, x, y) implies #[trigger] self.qr_ok(dist@, heap@, x, y) by {
                lemma_cell_bounds(wi, hi, x, y);
                if x == tx && y == ty {
                    assert(queued(heap@, 0, x, y));
                } else if cell(wi, x, y) == t as int {
                    lemma_cell_inj(wi, hi, x, y, tx as int, ty as int);
                }
            }
            assert forall|x: int, y: int| in_grid(wi, hi, x, y) implies #[trigger] self.pred_ok(dist@, tx as int, ty as int, x, y) by {
                lemma_cell_bounds(wi, hi, x, y);
                if cell(wi, x, y) == t as int {
                    lemma_cell_inj(wi, hi, x, y, tx as int, ty as int);
                }
            }
            assert(self.entry_ok(dist@, heap@[0]));
        }
        while heap.len() > 0
            invariant
                self.grid_ok(),
                w == self.width,
                h == self.height,
                self.search_inv(dist@, heap@, tx as int, ty as int),
            decreases 9 * total(dist@) + heap.len(),
        {
            proof {
                lemma_total_nonneg(dist@);
            }
            let ghost m0 = 9 * total(dist@) + heap.len();
            let i = nearest_entry(&heap);
            let ghost oh = heap@;
            let e = heap.remove(i);
            proof {
                self.lemma_pop_keeps(dist@, oh, heap@, i as int, tx as int, ty as int);
            }
            let (d, x, y) = e;
            let c = tile_index(w, h, x, y);
            if d > dist[c] as u32 {
                proof {
                    lemma_total_nonneg(dist@);
                }
                continue ;
            }
            let mut k: usize = 0;
            while k < 8
                invariant
                    k <= 8,
                    self.grid_ok(),
                    w == self.width,
                    h == self.height,
                    in_grid(w as int, h as int, x as int, y as int),
                    d < BLOCKED,
                    self.search_base(dist@, heap@, tx as int, ty as int),
                    dist@[cell(w as int, x as int, y as int)] == d,
                    forall|x2: int, y2: int|
                        in_grid(w as int, h as int, x2, y2) && !(x2 == x && y2 == y)
                            ==> #[trigger] self.qr_ok(dist@, heap@, x2, y2),
                    forall|j: int| 0 <= j < k ==> #[trigger] self.relax_via(dist@, x as int, y as int, j),
                    9 * total(dist@) + heap.len() < m0,
                decreases 8 - k,
            {
                self.relax_move(&mut dist, &mut heap, tx, ty, x, y, d, k);
                k = k + 1;
            }
            proof {
                lemma_total_nonneg(dist@);
                assert(self.relaxed(dist@, x as int, y as int));
                assert(self.qr_ok(dist@, heap@, x as int, y as int));
            }
        }
        proof {
            assert(heap@ =~= Seq::<SearchEntry>::empty());
            self.lemma_search_done(dist@, tx as int, ty as int);
        }
        dist
    }
}


impl Terrain {
    /// Flow direction of tile (x, y) under the distance map `dist`: see `flow_dir`.
    fn best_flow(&self, dist: &Vec<u16>, x: usize, y: usize) -> (r: (i8, i8))
        requires
            self.grid_ok(),
            dist.len() == self.collision.len(),
            in_grid(self.width as int, self.height as int, x as int, y as int),
        ensures
            r == self.flow_dir(dist@, x as int, y as int),
    {
        let w = self.width;
        let h = self.height;
        let c = tile_index(w, h, x, y);
        if self.collision[c] || dist[c] == BLOCKED {
            return (0, 0);
        }
        let mut best: u16 = dist[c];
        let mut dir: (i8, i8) = (0, 0);
        let mut j: usize = 0;
        while j < 8
            invariant
                j <= 8,
                self.grid_ok(),
                w == self.width,
                h == self.height,
                dist.len() == self.collision.len(),
                in_grid(w as int, h as int, x as int, y as int),
                self.best_scan(dist@, x as int, y as int, j as int, best as int, dir)
                    == self.flow_dir(dist@, x as int, y as int),
            decreases 8 - j,
        {
            let (dx, dy) = scan_offset(j);
            match neighbor(w, h, x, y, dx, dy) {
                Some((nx, ny)) => {
                    let mut open = true;
                    if dx != 0 && dy != 0 {
                        let wall1 = tile_index(w, h, nx, y);
                        let wall2 = tile_index(w, h, x, ny);
                        if self.collision[wall1] || self.collision[wall2] {
                            open = false;
                        }
                    }
                    if open {
                        let n = tile_index(w, h, nx, ny);
                        if dist[n] < best {
                            best = dist[n];
                            dir = (dx, dy);
                        }
                    }
                },
                None => {},
            }
            j = j + 1;
        }
        dir
    }

    /// Flow map of the distance map `dist`, one direction per tile.
    fn build_flow(&self, dist: &Vec<u16>) -> (flow: Vec<(i8, i8)>)
        requires
            self.grid_ok(),
            dist.len() == self.collision.len(),
        ensures
            flow.len() == self.collision.len(),
            forall|x: int, y: int|
                in_grid(self.width as int, self.height as int, x, y) ==> #[trigger] self.flow_cell(
                    dist@,
                    flow@,
                    x,
                    y,
                ),
    {
        let w = self.width;
        let h = self.height;
        let mut flow: Vec<(i8, i8)> = Vec::new();
        let mut y: usize = 0;
        while y < h
            invariant
                y <= h,
                self.grid_ok(),
                w == self.width,
                h == self.height,
                dist.len() == self.collision.len(),
                flow.len() == cell(w as int, 0, y as int),
                forall|x2: int, y2: int|
                    in_grid(w as int, h as int, x2, y2) && cell(w as int, x2, y2) < flow.len()
                        ==> #[trigger] self.flow_cell(dist@, flow@, x2, y2),
            decreases h - y,
        {
            let mut x: usize = 0;
            while x < w
                invariant
                    x <= w,
                    y < h,
                    self.grid_ok(),
                    w == self.width,
                    h == self.height,
                    dist.len() == self.collision.len(),
                    flow.len() == cell(w as int, x as int, y as int),
                    forall|x2: int, y2: int|
                        in_grid(w as int, h as int, x2, y2) && cell(w as int, x2, y2) < flow.len()
                            ==> #[trigger] self.flow_cell(dist@, flow@, x2, y2),
                decreases w - x,
            {
                let f = self.best_flow(dist, x, y);
                let ghost old_flow = flow@;
                flow.push(f);
                proof {
                    lemma_cell_bounds(w as int, h as int, x as int, y as int);
                }
                assert forall|x2: int, y2: int|
                    in_grid(w as int, h as int, x2, y2) && cell(w as int, x2, y2) < flow.len()
                        implies #[trigger] self.flow_cell(dist@, flow@, x2, y2) by {
                    if cell(w as int, x2, y2) == old_flow.len() {
                        lemma_cell_inj(w as int, h as int, x2, y2, x as int, y as int);
                    } else {
                        assert(self.flow_cell(dist@, old_flow, x2, y2));
                    }
                }
                x = x + 1;
            }
            proof {
                lemma_next_row(w as int, y as int);
            }
            y = y + 1;
        }
        assert(flow.len() == w * h) by {
            assert(h * w == w * h) by (nonlinear_arith);
        }
        assert forall|x: int, y: int| in_grid(w as int, h as int, x, y) implies #[trigger] self.flow_cell(
            dist@,
            flow@,
            x,
            y,
        ) by {
            lemma_cell_bounds(w as int, h as int, x, y);
        }
        flow
    }

}

impl NavGrid {
    /// Grid of `width` by `height` tiles with the given walls (row-major), its cost map
    /// built and no route searched yet.
    pub fn new(collision: Vec<bool>, width: usize, height: usize) -> (g: NavGrid)
        requires
            collision.len() == width * height,
            width <= i32::MAX,
            height <= i32::MAX,
        ensures
            g.wf(),
            g.walls() == collision@,
            g.grid_w() == width,
            g.grid_h() == height,
            forall|x: int, y: int|
                in_grid(width as int, height as int, x, y) ==> #[trigger] g.costs()[cell(
                    width as int,
                    x,
                    y,
                )] == tile_cost(collision@, width as int, height as int, x, y),
            g.distances().len() == collision.len(),
            g.flows().len() == collision.len(),
            forall|i: int| 0 <= i < collision.len() ==> #[trigger] g.distances()[i] == BLOCKED,
            forall|i: int| 0 <= i < collision.len() ==> #[trigger] g.flows()[i] == (0i8, 0i8),
            g.last_target() == (usize::MAX, usize::MAX),
    {
        let cost = build_cost_map(&collision, width, height);
        let n = collision.len();
        let mut distance: Vec<u16> = Vec::new();
        let mut flow: Vec<(i8, i8)> = Vec::new();
        let mut i: usize = 0;
        while i < n
            invariant
                i <= n,
                distance.len() == i,
                flow.len() == i,
                forall|j: int| 0 <= j < i ==> distance@[j] == BLOCKED,
                forall|j: int| 0 <= j < i ==> flow@[j] == (0i8, 0i8),
            decreases n - i,
        {
            distance.push(BLOCKED);
            flow.push((0, 0));
            i = i + 1;
        }
        let g = NavGrid {
            terrain: Terrain { collision, cost, width, height },
            distance,
            flow,
            last_target_tile: (usize::MAX, usize::MAX),
        };
        assert forall|x: int, y: int|
            in_grid(width as int, height as int, x, y) implies #[trigger] g.flow_leads_lower(x, y) by {
            lemma_cell_bounds(width as int, height as int, x, y);
        }
        g
    }

    pub fn width(&self) -> (r: usize)
        ensures
            r == self.grid_w(),
    {
        self.terrain.width
    }

    pub fn height(&self) -> (r: usize)
        ensures
            r == self.grid_h(),
    {
        self.terrain.height
    }

    /// Cost of entering tile (x, y).
    pub fn cost_at(&self, x: usize, y: usize) -> (r: u16)
        requires
            self.wf(),
            in_grid(self.grid_w(), self.grid_h(), x as int, y as int),
        ensures
            r == self.costs()[cell(self.grid_w(), x as int, y as int)],
    {
        let i = tile_index(self.terrain.width, self.terrain.height, x, y);
        self.terrain.cost[i]
    }

    /// Distance of tile (x, y) from the target of the last route search.
    pub fn distance(&self, x: usize, y: usize) -> (r: u16)
        requires
            self.wf(),
            in_grid(self.grid_w(), self.grid_h(), x as int, y as int),
        ensures
            r == self.distance_at(x as int, y as int),
    {
        let i = tile_index(self.terrain.width, self.terrain.height, x, y);
        self.distance[i]
    }

    /// Whether tile (x, y) is a wall.
    pub fn is_wall(&self, x: usize, y: usize) -> (r: bool)
        requires
            self.wf(),
            in_grid(self.grid_w(), self.grid_h(), x as int, y as int),
        ensures
            r == self.wall_at(x as int, y as int),
    {
        let i = tile_index(self.terrain.width, self.terrain.height, x, y);
        self.terrain.collision[i]
    }

    /// Forgets the tile of the last route search, so that the next one runs whatever its target.
    pub fn forget_target(&mut self)
        requires
            old(self).wf(),
        ensures
            final(self).wf(),
            final(self).walls() == old(self).walls(),
            final(self).costs() == old(self).costs(),
            final(self).distances() == old(self).distances(),
            final(self).flows() == old(self).flows(),
            final(self).grid_w() == old(self).grid_w(),
            final(self).grid_h() == old(self).grid_h(),
            final(self).last_target() == (usize::MAX, usize::MAX),
    {
        let ghost g0 = *self;
        self.last_target_tile = (usize::MAX, usize::MAX);
        assert forall|x: int, y: int|
            in_grid(self.terrain.width as int, self.terrain.height as int, x, y)
                implies #[trigger] self.flow_leads_lower(x, y) by {
            assert(g0.flow_leads_lower(x, y));
        }
    }

    /// Searches routes towards tile (target_x, target_y), each coordinate clamped to the grid,
    /// unless the grid is empty or the last search had the same target.
    pub fn update_flow_field(&mut self, target_x: usize, target_y: usize)
        requires
            old(self).wf(),
        ensures
            final(self).wf(),
            final(self).walls() == old(self).walls(),
            final(self).costs() == old(self).costs(),
            final(self).grid_w() == old(self).grid_w(),
            final(self).grid_h() == old(self).grid_h(),
            old(self).walls().len() == 0 ==> *final(self) == *old(self),
            old(self).walls().len() > 0 ==> {
                let t = (
                    if target_x < old(self).grid_w() { target_x } else { (old(self).grid_w() - 1) as usize },
                    if target_y < old(self).grid_h() { target_y } else { (old(self).grid_h() - 1) as usize },
                );
                if old(self).last_target() == t {
                    *final(self) == *old(self)
                } else {
                    &&& final(self).last_target() == t
                    &&& final(self).routes_to(t.0 as int, t.1 as int)
                }
            },
    {
        if self.terrain.collision.len() == 0 {
            return ;
        }
        let w = self.terrain.width;
        let h = self.terrain.height;
        proof {
            if w == 0 || h == 0 {
                assert(w * h == 0) by (nonlinear_arith)
                    requires
                        w == 0 || h == 0,
                ;
            }
        }
        let tx = if target_x < w {
            target_x
        } else {
            w - 1
        };
        let ty = if target_y < h {
            target_y
        } else {
            h - 1
        };
        if self.last_target_tile.0 == tx && self.last_target_tile.1 == ty {
            return ;
        }
        let dist = self.terrain.route_search(tx, ty);
        let flow = self.terrain.build_flow(&dist);
        self.distance = dist;
        self.flow = flow;
        self.last_target_tile = (tx, ty);
        proof {
            self.lemma_routed_flow_leads_lower(tx as int, ty as int);
        }
    }

    /// Flow direction at tile (x, y), each coordinate clamped to the grid; (0, 0) on an empty grid.
    pub fn get_flow_direction(&self, x: usize, y: usize) -> (r: (i8, i8))
        requires
            self.wf(),
        ensures
            self.walls().len() == 0 ==> r == (0i8, 0i8),
            self.walls().len() > 0 ==> r == self.flow_at(
                if x < self.grid_w() { x as int } else { self.grid_w() - 1 },
                if y < self.grid_h() { y as int } else { self.grid_h() - 1 },
            ),
    {
        if self.terrain.collision.len() == 0 {
            return (0, 0);
        }
        let w = self.terrain.width;
        let h = self.terrain.height;
        proof {
            if w == 0 || h == 0 {
                assert(w * h == 0) by (nonlinear_arith)
                    requires
                        w == 0 || h == 0,
                ;
            }
        }
        let cx = if x < w {
            x
        } else {
            w - 1
        };
        let cy = if y < h {
            y
        } else {
            h - 1
        };
        let i = tile_index(w, h, cx, cy);
        self.flow[i]
    }
}


impl NavGrid {
    /// Some wall lies in the tile range [min_x, max_x] x [min_y, max_y] clipped to the grid.
    pub open spec fn walls_in(self, min_x: int, max_x: int, min_y: int, max_y: int) -> bool {
        exists|x: int, y: int|
            min_x <= x <= max_x && min_y <= y <= max_y && in_grid(self.grid_w(), self.grid_h(), x, y)
                && #[trigger] self.wall_at(x, y)
    }

    /// Whether any wall tile lies in the tile range [min_x, max_x] x [min_y, max_y]; a range
    /// wholly off the grid, and an empty grid, hold none.
    pub fn check_collision_tiles(&self, min_x: i32, max_x: i32, min_y: i32, max_y: i32) -> (r: bool)
        requires
            self.wf(),
        ensures
            r == (self.walls().len() > 0 && self.walls_in(
                min_x as int,
                max_x as int,
                min_y as int,
                max_y as int,
            )),
    {
        if self.terrain.collision.len() == 0 {
            return false;
        }
        let w = self.terrain.width;
        let h = self.terrain.height;
        proof {
            if w == 0 || h == 0 {
                assert(w * h == 0) by (nonlinear_arith)
                    requires
                        w == 0 || h == 0,
                ;
            }
        }
        if max_x < 0 || min_x >= w as i32 || max_y < 0 || min_y >= h as i32 {
            return false;
        }
        let lo_x: usize = if min_x < 0 {
            0
        } else {
            min_x as usize
        };
        let hi_x: usize = if (max_x as usize) < w - 1 {
            max_x as usize
        } else {
            w - 1
        };
        let lo_y: usize = if min_y < 0 {
            0
        } else {
            min_y as usize
        };
        let hi_y: usize = if (max_y as usize) < h - 1 {
            max_y as usize
        } else {
            h - 1
        };
        if lo_x > hi_x || lo_y > hi_y {
            assert(!self.walls_in(min_x as int, max_x as int, min_y as int, max_y as int));
            return false;
        }
        let mut y = lo_y;
        while y <= hi_y
            invariant
                self.wf(),
                w == self.terrain.width,
                h == self.terrain.height,
                lo_y <= y <= hi_y + 1,
                hi_y < h,
                hi_x < w,
                lo_x <= hi_x,
                min_x <= lo_x,
                hi_x <= max_x,
                min_y <= lo_y,
                hi_y <= max_y,
                lo_x == (if min_x < 0 { 0 } else { min_x as int }),
                lo_y == (if min_y < 0 { 0 } else { min_y as int }),
                hi_x == (if max_x < w - 1 { max_x as int } else { w - 1 }),
                hi_y == (if max_y < h - 1 { max_y as int } else { h - 1 }),
                forall|x2: int, y2: int|
                    lo_x <= x2 <= hi_x && lo_y <= y2 < y ==> !#[trigger] self.wall_at(x2, y2),
            decreases hi_y + 1 - y,
        {
            let mut x = lo_x;
            while x <= hi_x
                invariant
                    self.wf(),
                    w == self.terrain.width,
                    h == self.terrain.height,
                    lo_x <= x <= hi_x + 1,
                    lo_y <= y <= hi_y,
                    hi_y < h,
                    hi_x < w,
                    min_x <= lo_x,
                    hi_x <= max_x,
                    min_y <= lo_y,
                    hi_y <= max_y,
                    forall|x2: int, y2: int|
                        lo_x <= x2 <= hi_x && lo_y <= y2 < y ==> !#[trigger] self.wall_at(x2, y2),
                    forall|x2: int| lo_x <= x2 < x ==> !#[trigger] self.wall_at(x2, y as int),
                decreases hi_x + 1 - x,
            {
                let i = tile_index(w, h, x, y);
                if self.terrain.collision[i] {
                    assert(self.wall_at(x as int, y as int));
                    assert(min_x <= x <= max_x && min_y <= y <= max_y);
                    assert(self.walls_in(min_x as int, max_x as int, min_y as int, max_y as int));
                    return true;
                }
                x = x + 1;
            }
            y = y + 1;
        }
        assert(!self.walls_in(min_x as int, max_x as int, min_y as int, max_y as int));
        false
    }

    /// Every tile in `tiles` lies on the grid and is no wall.
    pub open spec fn tiles_open(self, tiles: Seq<(i32, i32)>) -> bool {
        forall|i: int|
            0 <= i < tiles.len() ==> {
                let t = #[trigger] tiles[i];
                in_grid(self.grid_w(), self.grid_h(), t.0 as int, t.1 as int) && !self.wall_at(
                    t.0 as int,
                    t.1 as int,
                )
            }
    }

    /// Whether a sight line passing through `tiles` is unobstructed: an empty grid hides nothing,
    /// otherwise every tile must lie on the grid and be no wall.
    pub fn tiles_clear(&self, tiles: &Vec<(i32, i32)>) -> (r: bool)
        requires
            self.wf(),
        ensures
            r == (self.walls().len() == 0 || self.tiles_open(tiles@)),
    {
        if self.terrain.collision.len() == 0 {
            return true;
        }
        let w = self.terrain.width;
        let h = self.terrain.height;
        let mut i: usize = 0;
        while i < tiles.len()
            invariant
                self.wf(),
                w == self.terrain.width,
                h == self.terrain.height,
                self.terrain.collision.len() > 0,
                i <= tiles.len(),
                forall|j: int|
                    0 <= j < i ==> {
                        let t = #[trigger] tiles@[j];
                        in_grid(w as int, h as int, t.0 as int, t.1 as int) && !self.wall_at(
                            t.0 as int,
                            t.1 as int,
                        )
                    },
            decreases tiles.len() - i,
        {
            let (x, y) = tiles[i];
            if x < 0 || x >= w as i32 || y < 0 || y >= h as i32 {
                assert(tiles@[i as int] == (x, y));
                assert(!in_grid(w as int, h as int, x as int, y as int));
                assert(!self.tiles_open(tiles@));
                return false;
            }
            let idx = tile_index(w, h, x as usize, y as usize);
            if self.terrain.collision[idx] {
                assert(tiles@[i as int] == (x, y));
                assert(self.wall_at(x as int, y as int));
                assert(!self.tiles_open(tiles@));
                return false;
            }
            i = i + 1;
        }
        true
    }
}

/// Where move `k` lands in the scan order of the tile it enters, looking back.
pub open spec fn back_scan(k: int) -> int {
    if k == 0 {
        6
    } else if k == 1 {
        1
    } else if k == 2 {
        4
    } else if k == 3 {
        3
    } else if k == 4 {
        7
    } else if k == 5 {
        2
    } else if k == 6 {
        5
    } else {
        0
    }
}

impl Terrain {
    pub closed spec fn lower_at(self, dist: Seq<u16>, x: int, y: int, j: int, b: int) -> bool {
        &&& step_ok(self.collision@, self.width as int, self.height as int, x, y, scan_dx(j), scan_dy(j))
        &&& (dist[cell(self.width as int, x + scan_dx(j), y + scan_dy(j))] as int) < b
    }

    proof fn lemma_best_scan(self, dist: Seq<u16>, x: int, y: int, j: int, b: int, dir: (i8, i8))
        requires
            0 <= j <= 8,
        ensures
            (exists|j2: int| j <= j2 < 8 && #[trigger] self.lower_at(dist, x, y, j2, b)) ==> (exists|j2: int|
                j <= j2 < 8 && #[trigger] self.lower_at(dist, x, y, j2, b) && self.best_scan(
                    dist,
                    x,
                    y,
                    j,
                    b,
                    dir,
                ) == (scan_dx(j2) as i8, scan_dy(j2) as i8)),
            !(exists|j2: int| j <= j2 < 8 && #[trigger] self.lower_at(dist, x, y, j2, b)) ==> self.best_scan(
                dist,
                x,
                y,
                j,
                b,
                dir,
            ) == dir,
        decreases 8 - j,
    {
        if j < 8 {
            let nb = dist[cell(self.width as int, x + scan_dx(j), y + scan_dy(j))] as int;
            if self.lower_at(dist, x, y, j, b) {
                let d2 = (scan_dx(j) as i8, scan_dy(j) as i8);
                self.lemma_best_scan(dist, x, y, j + 1, nb, d2);
                if exists|j2: int| j + 1 <= j2 < 8 && #[trigger] self.lower_at(dist, x, y, j2, nb) {
                    let j2 = choose|j2: int|
                        j + 1 <= j2 < 8 && #[trigger] self.lower_at(dist, x, y, j2, nb) && self.best_scan(
                            dist,
                            x,
                            y,
                            j + 1,
                            nb,
                            d2,
                        ) == (scan_dx(j2) as i8, scan_dy(j2) as i8);
                    assert(self.lower_at(dist, x, y, j2, b));
                } else {
                    assert(self.lower_at(dist, x, y, j, b));
                }
            } else {
                self.lemma_best_scan(dist, x, y, j + 1, b, dir);
                if exists|j2: int| j <= j2 < 8 && #[trigger] self.lower_at(dist, x, y, j2, b) {
                    let j2 = choose|j2: int| j <= j2 < 8 && #[trigger] self.lower_at(dist, x, y, j2, b);
                    assert(j2 != j);
                    assert(exists|j3: int| j + 1 <= j3 < 8 && #[trigger] self.lower_at(dist, x, y, j3, b));
                }
            }
        }
    }
}

impl Terrain {
    /// The flow direction chosen at (x, y) is no move exactly for walls, tiles without a
    /// distance and tiles with no lower neighbour; otherwise it steps to a lower neighbour.
    proof fn lemma_flow_dir_shape(self, dist: Seq<u16>, x: int, y: int)
        ensures
            (self.flow_dir(dist, x, y) == (0i8, 0i8)) == (is_wall(self.collision@, self.width as int, x, y)
                || dist[cell(self.width as int, x, y)] == BLOCKED || !(exists|j: int|
                0 <= j < 8 && #[trigger] self.lower_at(
                    dist,
                    x,
                    y,
                    j,
                    dist[cell(self.width as int, x, y)] as int,
                ))),
            self.flow_dir(dist, x, y) != (0i8, 0i8) ==> exists|j: int|
                0 <= j < 8 && #[trigger] self.lower_at(
                    dist,
                    x,
                    y,
                    j,
                    dist[cell(self.width as int, x, y)] as int,
                ) && self.flow_dir(dist, x, y) == (scan_dx(j) as i8, scan_dy(j) as i8),
    {
        let d = dist[cell(self.width as int, x, y)] as int;
        if !(is_wall(self.collision@, self.width as int, x, y) || dist[cell(self.width as int, x, y)]
            == BLOCKED) {
            self.lemma_best_scan(dist, x, y, 0, d, (0i8, 0i8));
            if exists|j: int| 0 <= j < 8 && #[trigger] self.lower_at(dist, x, y, j, d) {
                let j2 = choose|j2: int|
                    0 <= j2 < 8 && #[trigger] self.lower_at(dist, x, y, j2, d) && self.best_scan(
                        dist,
                        x,
                        y,
                        0,
                        d,
                        (0i8, 0i8),
                    ) == (scan_dx(j2) as i8, scan_dy(j2) as i8);
                assert((scan_dx(j2) as i8, scan_dy(j2) as i8) != (0i8, 0i8));
            }
        }
    }
}

impl NavGrid {
    /// A routed flow map steps each tile to a lower neighbour or nowhere.
    proof fn lemma_routed_flow_leads_lower(self, tx: int, ty: int)
        requires
            self.terrain.grid_ok(),
            self.terrain.routes_to(self.distance@, self.flow@, tx, ty),
        ensures
            forall|x: int, y: int|
                in_grid(self.terrain.width as int, self.terrain.height as int, x, y)
                    ==> #[trigger] self.flow_leads_lower(x, y),
    {
        let t = self.terrain;
        assert forall|x: int, y: int|
            in_grid(t.width as int, t.height as int, x, y) implies #[trigger] self.flow_leads_lower(
                x,
                y,
            ) by {
            assert(t.flow_cell(self.distance@, self.flow@, x, y));
            t.lemma_flow_dir_shape(self.distance@, x, y);
            if self.flow_at(x, y) != (0i8, 0i8) {
                let d = self.distance@[cell(t.width as int, x, y)] as int;
                let j = choose|j: int|
                    0 <= j < 8 && #[trigger] t.lower_at(self.distance@, x, y, j, d) && t.flow_dir(
                        self.distance@,
                        x,
                        y,
                    ) == (scan_dx(j) as i8, scan_dy(j) as i8);
                assert(self.flow_at(x, y).0 as int == scan_dx(j));
                assert(self.flow_at(x, y).1 as int == scan_dy(j));
            }
        }
    }
}

impl NavGrid {
    /// Law: after a route search from (tx, ty), every tile that a route reaches, the target
    /// excepted, has a flow direction that leads onto the grid, to a tile strictly closer to the target.
    pub proof fn lemma_flow_descends(self, tx: int, ty: int, x: int, y: int)
        requires
            self.wf(),
            self.routes_to(tx, ty),
            in_grid(self.grid_w(), self.grid_h(), x, y),
            self.distance_at(x, y) != BLOCKED,
            !(x == tx && y == ty),
        ensures
            self.flow_at(x, y) != (0i8, 0i8),
            in_grid(
                self.grid_w(),
                self.grid_h(),
                x + self.flow_at(x, y).0,
                y + self.flow_at(x, y).1,
            ),
            self.distance_at(x + self.flow_at(x, y).0, y + self.flow_at(x, y).1) < self.distance_at(x, y),
    {
        let t = self.terrain;
        let w = t.width as int;
        let h = t.height as int;
        let dist = self.distance@;
        assert(t.route_cell(dist, tx, ty, x, y));
        let k = choose|k: int| 0 <= k < 8 && #[trigger] t.exact_pred_via(dist, x, y, k);
        let px = x - move_dx(k);
        let py = y - move_dy(k);
        assert(t.cost@[cell(w, x, y)] == tile_cost(t.collision@, w, h, x, y));
        assert(!is_wall(t.collision@, w, x, y));
        let j = back_scan(k);
        assert(t.lower_at(dist, x, y, j, dist[cell(w, x, y)] as int));
        assert(t.flow_cell(dist, self.flow@, x, y));
        t.lemma_best_scan(dist, x, y, 0, dist[cell(w, x, y)] as int, (0i8, 0i8));
        let j2 = choose|j2: int|
            0 <= j2 < 8 && #[trigger] t.lower_at(dist, x, y, j2, dist[cell(w, x, y)] as int) && t.best_scan(
                dist,
                x,
                y,
                0,
                dist[cell(w, x, y)] as int,
                (0i8, 0i8),
            ) == (scan_dx(j2) as i8, scan_dy(j2) as i8);
        assert(self.flow_at(x, y) == (scan_dx(j2) as i8, scan_dy(j2) as i8));
    }
}


impl NavGrid {
    /// Tile reached from (x, y) by the moves `moves` (each an index of the move table).
    pub closed spec fn walk_end(self, x: int, y: int, moves: Seq<int>) -> (int, int)
        decreases moves.len(),
    {
        if moves.len() == 0 {
            (x, y)
        } else {
            let p = self.walk_end(x, y, moves.drop_last());
            (p.0 + move_dx(moves.last()), p.1 + move_dy(moves.last()))
        }
    }

    /// Every move of `moves` from (x, y), itself a tile of the grid, is an edge of the route graph.
    pub closed spec fn walk_ok(self, x: int, y: int, moves: Seq<int>) -> bool
        decreases moves.len(),
    {
        if moves.len() == 0 {
            in_grid(self.terrain.width as int, self.terrain.height as int, x, y)
        } else {
            let p = self.walk_end(x, y, moves.drop_last());
            self.walk_ok(x, y, moves.drop_last()) && self.terrain.edge(p.0, p.1, moves.last())
        }
    }

    /// Total price of the moves `moves` from (x, y).
    pub closed spec fn walk_cost(self, x: int, y: int, moves: Seq<int>) -> int
        decreases moves.len(),
    {
        if moves.len() == 0 {
            0
        } else {
            let p = self.walk_end(x, y, moves.drop_last());
            self.walk_cost(x, y, moves.drop_last()) + self.terrain.weight(p.0, p.1, moves.last())
        }
    }

    proof fn lemma_walk_in_grid(self, x: int, y: int, moves: Seq<int>)
        requires
            self.walk_ok(x, y, moves),
        ensures
            in_grid(
                self.terrain.width as int,
                self.terrain.height as int,
                self.walk_end(x, y, moves).0,
                self.walk_end(x, y, moves).1,
            ),
            self.walk_cost(x, y, moves) >= 0,
        decreases moves.len(),
    {
        if moves.len() > 0 {
            self.lemma_walk_in_grid(x, y, moves.drop_last());
            let p = self.walk_end(x, y, moves.drop_last());
            let k = moves.last();
            lemma_cell_bounds(self.terrain.width as int, self.terrain.height as int, p.0 + move_dx(k), p.1 + move_dy(k));
        }
    }

    /// Law: after a route search from (tx, ty), no walk from the target reaches a tile for less
    /// than that tile's distance.
    pub proof fn lemma_distance_is_least(self, tx: int, ty: int, moves: Seq<int>)
        requires
            self.wf(),
            self.routes_to(tx, ty),
            self.walk_ok(tx, ty, moves),
        ensures
            self.distance_at(self.walk_end(tx, ty, moves).0, self.walk_end(tx, ty, moves).1)
                <= self.walk_cost(tx, ty, moves),
        decreases moves.len(),
    {
        let t = self.terrain;
        let w = t.width as int;
        let h = t.height as int;
        if moves.len() > 0 {
            let prev = moves.drop_last();
            let p = self.walk_end(tx, ty, prev);
            let k = moves.last();
            self.lemma_walk_in_grid(tx, ty, prev);
            lemma_cell_bounds(w, h, p.0 + move_dx(k), p.1 + move_dy(k));
            assert(t.cost@[cell(w, p.0 + move_dx(k), p.1 + move_dy(k))] >= 1) by {
                assert(t.cost@[cell(w, p.0 + move_dx(k), p.1 + move_dy(k))] == tile_cost(
                    t.collision@,
                    w,
                    h,
                    p.0 + move_dx(k),
                    p.1 + move_dy(k),
                ));
            }
            self.lemma_distance_is_least(tx, ty, prev);
            assert(t.route_cell(self.distance@, tx, ty, p.0, p.1));
            assert(t.relax_via(self.distance@, p.0, p.1, k));
        }
    }

    /// Law: after a route search from (tx, ty), every tile with a distance is reached from the
    /// target by a walk whose price is exactly that distance.
    pub proof fn lemma_distance_is_reached(self, tx: int, ty: int, x: int, y: int) -> (moves: Seq<int>)
        requires
            self.wf(),
            self.routes_to(tx, ty),
            in_grid(self.grid_w(), self.grid_h(), x, y),
            self.distance_at(x, y) != BLOCKED,
        ensures
            self.walk_ok(tx, ty, moves),
            self.walk_end(tx, ty, moves) == (x, y),
            self.walk_cost(tx, ty, moves) == self.distance_at(x, y),
        decreases self.distance_at(x, y),
    {
        let t = self.terrain;
        let w = t.width as int;
        let h = t.height as int;
        let dist = self.distance@;
        lemma_cell_bounds(w, h, x, y);
        if x == tx && y == ty {
            Seq::empty()
        } else {
            assert(t.route_cell(dist, tx, ty, x, y));
            let k = choose|k: int| 0 <= k < 8 && #[trigger] t.exact_pred_via(dist, x, y, k);
            let px = x - move_dx(k);
            let py = y - move_dy(k);
            lemma_cell_bounds(w, h, px, py);
            assert(t.cost@[cell(w, x, y)] >= 1) by {
                assert(t.cost@[cell(w, x, y)] == tile_cost(t.collision@, w, h, x, y));
            }
            let prev = self.lemma_distance_is_reached(tx, ty, px, py);
            let moves = prev.push(k);
            assert(moves.drop_last() =~= prev);
            moves
        }
    }
}

impl NavGrid {
    /// Law: the wall, cost, distance and flow maps each hold one entry per tile of the grid.
    pub proof fn lemma_maps_fit(self)
        requires
            self.wf(),
        ensures
            self.walls().len() == self.grid_w() * self.grid_h(),
            self.costs().len() == self.walls().len(),
            self.distances().len() == self.walls().len(),
            self.flows().len() == self.walls().len(),
    {
    }

    /// Law: whatever the grid went through, the flow of every tile is no move, or a step to a
    /// neighbour on the grid, cutting no wall corner, whose distance is lower.
    pub proof fn lemma_flow_leads_lower(self, x: int, y: int)
        requires
            self.wf(),
            in_grid(self.grid_w(), self.grid_h(), x, y),
        ensures
            self.flow_leads_lower(x, y),
    {
    }

    proof fn lemma_follow_descends(self, x: int, y: int, n: nat)
        requires
            self.wf(),
            in_grid(self.grid_w(), self.grid_h(), x, y),
        ensures
            in_grid(self.grid_w(), self.grid_h(), self.follow(x, y, n).0, self.follow(x, y, n).1),
            self.flow_at(self.follow(x, y, n).0, self.follow(x, y, n).1) == (0i8, 0i8)
                || self.distance_at(self.follow(x, y, n).0, self.follow(x, y, n).1) + n
                <= self.distance_at(x, y),
        decreases n,
    {
        if n > 0 {
            self.lemma_follow_descends(x, y, (n - 1) as nat);
            let q = self.follow(x, y, (n - 1) as nat);
            assert(self.flow_leads_lower(q.0, q.1));
        }
    }

    /// Law: following the flow comes to a stop: from any tile, after as many steps as the
    /// tile's distance, the walk stands on the grid at a tile with no flow.
    pub proof fn lemma_flow_stops(self, x: int, y: int)
        requires
            self.wf(),
            in_grid(self.grid_w(), self.grid_h(), x, y),
        ensures
            in_grid(
                self.grid_w(),
                self.grid_h(),
                self.follow(x, y, self.distance_at(x, y) as nat).0,
                self.follow(x, y, self.distance_at(x, y) as nat).1,
            ),
            self.flow_at(
                self.follow(x, y, self.distance_at(x, y) as nat).0,
                self.follow(x, y, self.distance_at(x, y) as nat).1,
            ) == (0i8, 0i8),
    {
        let n = self.distance_at(x, y) as nat;
        self.lemma_follow_descends(x, y, n);
        let p = self.follow(x, y, n);
        assert(self.flow_leads_lower(p.0, p.1));
    }

    /// Law: after a route search from (tx, ty), a tile has no flow exactly when it is a wall,
    /// has no distance, or has no lower neighbour; the target itself has none.
    pub proof fn lemma_flow_zero(self, tx: int, ty: int, x: int, y: int)
        requires
            self.wf(),
            self.routes_to(tx, ty),
            in_grid(self.grid_w(), self.grid_h(), x, y),
        ensures
            (self.flow_at(x, y) == (0i8, 0i8)) == (self.wall_at(x, y) || self.distance_at(x, y)
                == BLOCKED || !self.has_lower_neighbour(x, y)),
            in_grid(self.grid_w(), self.grid_h(), tx, ty),
            self.flow_at(tx, ty) == (0i8, 0i8),
    {
        let t = self.terrain;
        let w = t.width as int;
        let dist = self.distance@;
        let d = dist[cell(w, x, y)] as int;
        assert(t.flow_cell(dist, self.flow@, x, y));
        t.lemma_flow_dir_shape(dist, x, y);
        assert forall|j: int| 0 <= j < 8 implies #[trigger] t.lower_at(dist, x, y, j, d)
            == self.lower_by(x, y, j) by {}
        if self.has_lower_neighbour(x, y) {
            let j = choose|j: int| 0 <= j < 8 && #[trigger] self.lower_by(x, y, j);
            assert(t.lower_at(dist, x, y, j, d));
        }
        assert(t.flow_cell(dist, self.flow@, tx, ty));
        t.lemma_flow_dir_shape(dist, tx, ty);
        assert(dist[cell(w, tx, ty)] == 0);
    }

    /// Law: a tile range that contains another meets every wall the smaller one meets.
    pub proof fn lemma_walls_in_wider(
        self,
        min_x: int,
        max_x: int,
        min_y: int,
        max_y: int,
        wide_min_x: int,
        wide_max_x: int,
        wide_min_y: int,
        wide_max_y: int,
    )
        requires
            wide_min_x <= min_x,
            max_x <= wide_max_x,
            wide_min_y <= min_y,
            max_y <= wide_max_y,
        ensures
            self.walls_in(min_x, max_x, min_y, max_y) ==> self.walls_in(
                wide_min_x,
                wide_max_x,
                wide_min_y,
                wide_max_y,
            ),
    {
        if self.walls_in(min_x, max_x, min_y, max_y) {
            let (x, y) = choose|x: int, y: int|
                min_x <= x <= max_x && min_y <= y <= max_y && in_grid(self.grid_w(), self.grid_h(), x, y)
                    && #[trigger] self.wall_at(x, y);
            assert(self.wall_at(x, y));
        }
    }
}

impl NavGrid {
    /// Tile (x, y) is entered from its neighbour (x - dx, y - dy) by a legal move whose price
    /// makes up its distance exactly: the neighbour lies on the grid, (x, y) is no wall, a
    /// diagonal move has both tiles beside it free of walls, and the neighbour's distance plus
    /// the move's price (10 straight, 14 diagonal, times the cost of the tile entered) is the
    /// distance of (x, y).
    pub open spec fn entered_from(self, x: int, y: int, dx: int, dy: int) -> bool {
        &&& -1 <= dx <= 1
        &&& -1 <= dy <= 1
        &&& !(dx == 0 && dy == 0)
        &&& in_grid(self.grid_w(), self.grid_h(), x - dx, y - dy)
        &&& !self.wall_at(x, y)
        &&& (dx != 0 && dy != 0) ==> (!self.wall_at(x - dx, y) && !self.wall_at(x, y - dy))
        &&& self.distance_at(x - dx, y - dy) + self.costs()[cell(self.grid_w(), x, y)] * (if dx
            != 0 && dy != 0 {
            14int
        } else {
            10int
        }) == self.distance_at(x, y)
    }

    /// Law: flow never cuts a wall corner. Wherever the flow points diagonally, both tiles
    /// beside the diagonal are free of walls.
    pub proof fn lemma_flow_cuts_no_corner(self, x: int, y: int)
        requires
            self.wf(),
            in_grid(self.grid_w(), self.grid_h(), x, y),
        ensures
            ({
                let f = self.flow_at(x, y);
                (f.0 != 0 && f.1 != 0) ==> (!self.wall_at(x + f.0, y) && !self.wall_at(x, y + f.1))
            }),
    {
        assert(self.flow_leads_lower(x, y));
    }

    /// Law: after a route search from (tx, ty), every tile with a distance, the target
    /// excepted, is entered from a neighbour by a legal move, one that cuts no wall corner,
    /// whose price makes up the tile's distance exactly.
    pub proof fn lemma_reached_without_cutting_corners(self, tx: int, ty: int, x: int, y: int)
        requires
            self.wf(),
            self.routes_to(tx, ty),
            in_grid(self.grid_w(), self.grid_h(), x, y),
            self.distance_at(x, y) != BLOCKED,
            !(x == tx && y == ty),
        ensures
            exists|dx: int, dy: int| #[trigger] self.entered_from(x, y, dx, dy),
    {
        let t = self.terrain;
        let w = t.width as int;
        let h = t.height as int;
        let dist = self.distance@;
        assert(t.route_cell(dist, tx, ty, x, y));
        let k = choose|k: int| 0 <= k < 8 && #[trigger] t.exact_pred_via(dist, x, y, k);
        let dx = move_dx(k);
        let dy = move_dy(k);
        lemma_cell_bounds(w, h, x, y);
        assert(t.cost@[cell(w, x, y)] == tile_cost(t.collision@, w, h, x, y));
        assert(self.entered_from(x, y, dx, dy));
    }
}

/// Position of the neighbour (dx, dy) in scan order.
pub open spec fn scan_of(dx: int, dy: int) -> int {
    if dx == -1 {
        if dy == -1 {
            0
        } else if dy == 0 {
            1
        } else {
            2
        }
    } else if dx == 0 {
        if dy == -1 {
            3
        } else {
            4
        }
    } else {
        if dy == -1 {
            5
        } else if dy == 0 {
            6
        } else {
            7
        }
    }
}

proof fn lemma_scan_of(dx: int, dy: int, dx2: int, dy2: int)
    requires
        -1 <= dx <= 1,
        -1 <= dy <= 1,
        !(dx == 0 && dy == 0),
        -1 <= dx2 <= 1,
        -1 <= dy2 <= 1,
        !(dx2 == 0 && dy2 == 0),
    ensures
        0 <= scan_of(dx, dy) < 8,
        scan_dx(scan_of(dx, dy)) == dx,
        scan_dy(scan_of(dx, dy)) == dy,
        (scan_of(dx, dy) < scan_of(dx2, dy2)) == (dx < dx2 || (dx == dx2 && dy < dy2)),
{
}

proof fn lemma_scan_index(j: int)
    requires
        0 <= j < 8,
    ensures
        -1 <= scan_dx(j) <= 1,
        -1 <= scan_dy(j) <= 1,
        !(scan_dx(j) == 0 && scan_dy(j) == 0),
        scan_of(scan_dx(j), scan_dy(j)) == j,
{
}

impl Terrain {
    /// Scan neighbour `j` of (x, y) can be stepped to.
    spec fn scan_legal(self, x: int, y: int, j: int) -> bool {
        step_ok(self.collision@, self.width as int, self.height as int, x, y, scan_dx(j), scan_dy(j))
    }

    /// Distance of scan neighbour `j` of (x, y).
    spec fn scan_dist(self, dist: Seq<u16>, x: int, y: int, j: int) -> int {
        dist[cell(self.width as int, x + scan_dx(j), y + scan_dy(j))] as int
    }

    /// The choice of the flow scan from neighbour `j` on, with the least distance `b` so far
    /// and direction `dir`: either nothing from `j` on is lower than `b` and `dir` stays, or the
    /// result is the first neighbour from `j` on with the least distance, lower than `b`.
    proof fn lemma_best_scan_least(self, dist: Seq<u16>, x: int, y: int, j: int, b: int, dir: (i8, i8))
        requires
            0 <= j <= 8,
        ensures
            (self.best_scan(dist, x, y, j, b, dir) == dir && forall|j3: int|
                j <= j3 < 8 && #[trigger] self.scan_legal(x, y, j3) ==> self.scan_dist(dist, x, y, j3)
                    >= b) || exists|j2: int|
                j <= j2 < 8 && #[trigger] self.scan_legal(x, y, j2) && self.scan_dist(dist, x, y, j2)
                    < b && self.best_scan(dist, x, y, j, b, dir) == (scan_dx(j2) as i8, scan_dy(
                    j2,
                ) as i8) && (forall|j3: int|
                    j <= j3 < 8 && #[trigger] self.scan_legal(x, y, j3) ==> self.scan_dist(
                        dist,
                        x,
                        y,
                        j3,
                    ) >= self.scan_dist(dist, x, y, j2)) && (forall|j3: int|
                    j <= j3 < j2 && #[trigger] self.scan_legal(x, y, j3) ==> self.scan_dist(
                        dist,
                        x,
                        y,
                        j3,
                    ) > self.scan_dist(dist, x, y, j2)),
        decreases 8 - j,
    {
        if j < 8 {
            let nb = self.scan_dist(dist, x, y, j);
            if self.scan_legal(x, y, j) && nb < b {
                let d2 = (scan_dx(j) as i8, scan_dy(j) as i8);
                self.lemma_best_scan_least(dist, x, y, j + 1, nb, d2);
                if !(self.best_scan(dist, x, y, j + 1, nb, d2) == d2 && forall|j3: int|
                    j + 1 <= j3 < 8 && #[trigger] self.scan_legal(x, y, j3) ==> self.scan_dist(
                        dist,
                        x,
                        y,
                        j3,
                    ) >= nb) {
                    let j2 = choose|j2: int|
                        j + 1 <= j2 < 8 && #[trigger] self.scan_legal(x, y, j2) && self.scan_dist(
                            dist,
                            x,
                            y,
                            j2,
                        ) < nb && self.best_scan(dist, x, y, j + 1, nb, d2) == (scan_dx(j2) as i8, scan_dy(
                            j2,
                        ) as i8) && (forall|j3: int|
                            j + 1 <= j3 < 8 && #[trigger] self.scan_legal(x, y, j3) ==> self.scan_dist(
                                dist,
                                x,
                                y,
                                j3,
                            ) >= self.scan_dist(dist, x, y, j2)) && (forall|j3: int|
                            j + 1 <= j3 < j2 && #[trigger] self.scan_legal(x, y, j3) ==> self.scan_dist(
                                dist,
                                x,
                                y,
                                j3,
                            ) > self.scan_dist(dist, x, y, j2));
                    assert(self.scan_legal(x, y, j2));
                } else {
                    assert(self.scan_legal(x, y, j));
                }
            } else {
                self.lemma_best_scan_least(dist, x, y, j + 1, b, dir);
                if !(self.best_scan(dist, x, y, j + 1, b, dir) == dir && forall|j3: int|
                    j + 1 <= j3 < 8 && #[trigger] self.scan_legal(x, y, j3) ==> self.scan_dist(
                        dist,
                        x,
                        y,
                        j3,
                    ) >= b) {
                    let j2 = choose|j2: int|
                        j + 1 <= j2 < 8 && #[trigger] self.scan_legal(x, y, j2) && self.scan_dist(
                            dist,
                            x,
                            y,
                            j2,
                        ) < b && self.best_scan(dist, x, y, j + 1, b, dir) == (scan_dx(j2) as i8, scan_dy(
                            j2,
                        ) as i8) && (forall|j3: int|
                            j + 1 <= j3 < 8 && #[trigger] self.scan_legal(x, y, j3) ==> self.scan_dist(
                                dist,
                                x,
                                y,
                                j3,
                            ) >= self.scan_dist(dist, x, y, j2)) && (forall|j3: int|
                            j + 1 <= j3 < j2 && #[trigger] self.scan_legal(x, y, j3) ==> self.scan_dist(
                                dist,
                                x,
                                y,
                                j3,
                            ) > self.scan_dist(dist, x, y, j2));
                    assert(self.scan_legal(x, y, j2));
                }
            }
        }
    }
}

impl NavGrid {
    /// A step by (dx, dy) from (x, y) to one of its eight neighbours stays on the grid and, when
    /// diagonal, has both tiles beside it free of walls.
    pub open spec fn can_step(self, x: int, y: int, dx: int, dy: int) -> bool {
        &&& -1 <= dx <= 1
        &&& -1 <= dy <= 1
        &&& !(dx == 0 && dy == 0)
        &&& in_grid(self.grid_w(), self.grid_h(), x + dx, y + dy)
        &&& (dx != 0 && dy != 0) ==> (!self.wall_at(x + dx, y) && !self.wall_at(x, y + dy))
    }

    /// Law: after a route search, a tile's flow points to a least neighbour it can step to: no
    /// such neighbour has a lower distance, and any that comes before it in scan order (dx from
    /// -1 up, then dy from -1 up) has a higher one.
    pub proof fn lemma_flow_to_least_neighbour(self, tx: int, ty: int, x: int, y: int)
        requires
            self.wf(),
            self.routes_to(tx, ty),
            in_grid(self.grid_w(), self.grid_h(), x, y),
            self.flow_at(x, y) != (0i8, 0i8),
        ensures
            forall|dx: int, dy: int|
                #[trigger] self.can_step(x, y, dx, dy) ==> self.distance_at(
                    x + self.flow_at(x, y).0,
                    y + self.flow_at(x, y).1,
                ) <= self.distance_at(x + dx, y + dy),
            forall|dx: int, dy: int|
                #[trigger] self.can_step(x, y, dx, dy) && (dx < self.flow_at(x, y).0 || (dx
                    == self.flow_at(x, y).0 && dy < self.flow_at(x, y).1)) ==> self.distance_at(
                    x + self.flow_at(x, y).0,
                    y + self.flow_at(x, y).1,
                ) < self.distance_at(x + dx, y + dy),
    {
        let t = self.terrain;
        let w = t.width as int;
        let dist = self.distance@;
        let d = dist[cell(w, x, y)] as int;
        assert(t.flow_cell(dist, self.flow@, x, y));
        t.lemma_best_scan_least(dist, x, y, 0, d, (0i8, 0i8));
        let j2 = choose|j2: int|
            0 <= j2 < 8 && #[trigger] t.scan_legal(x, y, j2) && t.scan_dist(dist, x, y, j2) < d
                && t.best_scan(dist, x, y, 0, d, (0i8, 0i8)) == (scan_dx(j2) as i8, scan_dy(j2) as i8)
                && (forall|j3: int|
                0 <= j3 < 8 && #[trigger] t.scan_legal(x, y, j3) ==> t.scan_dist(dist, x, y, j3)
                    >= t.scan_dist(dist, x, y, j2)) && (forall|j3: int|
                0 <= j3 < j2 && #[trigger] t.scan_legal(x, y, j3) ==> t.scan_dist(dist, x, y, j3)
                    > t.scan_dist(dist, x, y, j2));
        lemma_scan_index(j2);
        assert(self.flow_at(x, y).0 as int == scan_dx(j2));
        assert(self.flow_at(x, y).1 as int == scan_dy(j2));
        assert forall|dx: int, dy: int| #[trigger] self.can_step(x, y, dx, dy) implies self.distance_at(
            x + self.flow_at(x, y).0,
            y + self.flow_at(x, y).1,
        ) <= self.distance_at(x + dx, y + dy) && ((dx < self.flow_at(x, y).0 || (dx
            == self.flow_at(x, y).0 && dy < self.flow_at(x, y).1)) ==> self.distance_at(
            x + self.flow_at(x, y).0,
            y + self.flow_at(x, y).1,
        ) < self.distance_at(x + dx, y + dy)) by {
            lemma_scan_of(dx, dy, scan_dx(j2), scan_dy(j2));
            let j3 = scan_of(dx, dy);
            assert(t.scan_legal(x, y, j3));
        }
    }
}

impl NavGrid {
    /// One of the eight tiles around (x, y) lies on the grid and is a wall.
    pub open spec fn beside_wall(self, x: int, y: int) -> bool {
        exists|nx: int, ny: int|
            x - 1 <= nx <= x + 1 && y - 1 <= ny <= y + 1 && !(nx == x && ny == y) && in_grid(
                self.grid_w(),
                self.grid_h(),
                nx,
                ny,
            ) && #[trigger] self.wall_at(nx, ny)
    }

    /// Law: entering a wall is blocked, entering a tile beside a wall costs 2, any other tile 1.
    pub proof fn lemma_tile_costs(self, x: int, y: int)
        requires
            self.wf(),
            in_grid(self.grid_w(), self.grid_h(), x, y),
        ensures
            self.wall_at(x, y) ==> self.costs()[cell(self.grid_w(), x, y)] == BLOCKED,
            !self.wall_at(x, y) && self.beside_wall(x, y) ==> self.costs()[cell(self.grid_w(), x, y)]
                == 2,
            !self.wall_at(x, y) && !self.beside_wall(x, y) ==> self.costs()[cell(self.grid_w(), x, y)]
                == 1,
    {
        let t = self.terrain;
        let w = t.width as int;
        let h = t.height as int;
        assert(t.cost@[cell(w, x, y)] == tile_cost(t.collision@, w, h, x, y));
        if self.beside_wall(x, y) {
            let (nx, ny) = choose|nx: int, ny: int|
                x - 1 <= nx <= x + 1 && y - 1 <= ny <= y + 1 && !(nx == x && ny == y) && in_grid(
                    w,
                    h,
                    nx,
                    ny,
                ) && #[trigger] self.wall_at(nx, ny);
            lemma_scan_of(nx - x, ny - y, nx - x, ny - y);
            assert(touches_wall(t.collision@, w, h, x, y, scan_of(nx - x, ny - y)));
        }
        if near_wall(t.collision@, w, h, x, y) {
            let j = choose|j: int| 0 <= j < 8 && #[trigger] touches_wall(t.collision@, w, h, x, y, j);
            lemma_scan_index(j);
            assert(self.wall_at(x + scan_dx(j), y + scan_dy(j)));
        }
    }
}

/// Index of the move (dx, dy) in the route search's move table.
pub open spec fn move_of(dx: int, dy: int) -> int {
    if dy == 0 {
        if dx == -1 {
            0
        } else {
            1
        }
    } else if dx == 0 {
        if dy == -1 {
            2
        } else {
            3
        }
    } else if dy == -1 {
        if dx == -1 {
            4
        } else {
            5
        }
    } else if dx == -1 {
        6
    } else {
        7
    }
}

proof fn lemma_move_of(dx: int, dy: int)
    requires
        -1 <= dx <= 1,
        -1 <= dy <= 1,
        !(dx == 0 && dy == 0),
    ensures
        0 <= move_of(dx, dy) < 8,
        move_dx(move_of(dx, dy)) == dx,
        move_dy(move_of(dx, dy)) == dy,
        (move_of(dx, dy) < 4) == (dx == 0 || dy == 0),
{
}

impl NavGrid {
    /// Law: after a route search, no legal move shortens a distance: for a tile (x, y) with a
    /// distance and a step (dx, dy) to a neighbour that is no wall, the neighbour's distance is
    /// at most that of (x, y) plus the move's price (10 straight, 14 diagonal, times the cost of
    /// the tile entered).
    pub proof fn lemma_no_shortcut(self, tx: int, ty: int, x: int, y: int, dx: int, dy: int)
        requires
            self.wf(),
            self.routes_to(tx, ty),
            in_grid(self.grid_w(), self.grid_h(), x, y),
            self.distance_at(x, y) != BLOCKED,
            self.can_step(x, y, dx, dy),
            !self.wall_at(x + dx, y + dy),
        ensures
            self.distance_at(x + dx, y + dy) <= self.distance_at(x, y) + self.costs()[cell(
                self.grid_w(),
                x + dx,
                y + dy,
            )] * (if dx != 0 && dy != 0 {
                14int
            } else {
                10int
            }),
    {
        let t = self.terrain;
        let w = t.width as int;
        let h = t.height as int;
        let dist = self.distance@;
        lemma_move_of(dx, dy);
        let k = move_of(dx, dy);
        assert(t.route_cell(dist, tx, ty, x, y));
        assert(t.cost@[cell(w, x + dx, y + dy)] == tile_cost(t.collision@, w, h, x + dx, y + dy));
        assert(t.relax_via(dist, x, y, k));
        assert(t.edge(x, y, k));
    }
}

} // verus!
