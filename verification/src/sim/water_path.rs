//! Budgeted A* pathfinding for watercraft on the tile map.
use vstd::prelude::*;
use std::collections::BTreeMap;
use crate::types::enums::{OrderType, TileKind, VehicleState};
use crate::types::id::{StationID, TileIndex, VehicleID};
use crate::types::service::{ServiceId, ServicePriority};
use crate::world::entities::Vehicle;
use crate::sim::world::World;
use crate::kernel::context::KernelContext;
use crate::kernel::driver::{DriverError, SubsystemDriver};
use crate::kernel::phase::Phase;
use crate::world::map::{MAX_TILES, MapSize, TileMap, lemma_linear_in_range, lemma_linear_injective};

verus! {

/// Passability mode determining which tiles are navigable by watercraft.
#[derive(Debug, Clone, Copy, PartialEq, Eq, Structural)]
pub enum PassabilityMode {
    /// Only water, station docks and oil rigs (and the target tile).
    StrictWater,
    /// Everything except land obstacles (clear, grass, house, industry, trees, rail, road).
    AvoidObstacles,
}

/// Result of a budgeted pathfinding search.
#[derive(Debug, Clone, PartialEq, Eq)]
pub enum PathResult {
    /// A complete path from origin to destination (excluding origin, including target).
    Found(Vec<TileIndex>),
    /// The destination cannot be reached over navigable tiles.
    Unreachable,
    /// The node expansion budget ran out before the destination was reached.
    BudgetExceeded,
}

/// Whether two tiles are orthogonal neighbours.
pub open spec fn adjacent(a: TileIndex, b: TileIndex) -> bool {
    (a.y == b.y && (a.x == b.x + 1 || b.x == a.x + 1)) || (a.x == b.x && (a.y == b.y + 1 || b.y
        == a.y + 1))
}

/// Absolute difference of two coordinates.
pub open spec fn coord_gap(a: u16, b: u16) -> int {
    if a >= b { a - b } else { b - a }
}

/// Manhattan distance between two tiles.
pub open spec fn manhattan(a: TileIndex, b: TileIndex) -> int {
    coord_gap(a.x, b.x) + coord_gap(a.y, b.y)
}

/// Whether `kind` may be crossed under `mode`.
pub open spec fn kind_passable(mode: PassabilityMode, kind: TileKind) -> bool {
    match mode {
        PassabilityMode::StrictWater => kind == TileKind::Water || kind == TileKind::Station || kind
            == TileKind::OilRig,
        PassabilityMode::AvoidObstacles => !(kind == TileKind::Clear || kind == TileKind::Grass
            || kind == TileKind::House || kind == TileKind::Industry || kind == TileKind::Trees
            || kind == TileKind::Rail || kind == TileKind::Road),
    }
}

/// Whether a ship heading for `target` may enter `tile`: the target itself always,
/// otherwise a tile inside the map whose kind the mode allows.
pub open spec fn passable(mode: PassabilityMode, map: &TileMap, tile: TileIndex, target: TileIndex) -> bool {
    tile == target || (map.dims().contains(tile) && kind_passable(mode, map.tile_at(tile).base.kind))
}

/// A route from `start` to `target`: a non-empty sequence of tiles inside the map,
/// each a neighbour of the previous one (the first a neighbour of `start`), each
/// passable, ending at `target`.
pub open spec fn is_route(mode: PassabilityMode, map: &TileMap, start: TileIndex, target: TileIndex, path: Seq<TileIndex>) -> bool {
    &&& path.len() > 0
    &&& path.last() == target
    &&& adjacent(start, path[0])
    &&& forall|i: int| 0 <= i < path.len() - 1 ==> adjacent(#[trigger] path[i], path[i + 1])
    &&& forall|i: int| 0 <= i < path.len() ==> map.dims().contains(#[trigger] path[i])
        && passable(mode, map, path[i], target)
}

/// What a budgeted search from `start` to `target` may return: the empty path when they
/// coincide; otherwise a found path is a shortest route, which does not pass the start
/// and is shorter than the budget; `Unreachable` means no route exists; the budget can
/// run out only when it is at most the map's area (each tile is expanded at most once)
/// and always runs out when it is at most 1; and a route is found whenever one exists
/// and the budget does not run out.
pub open spec fn search_outcome(mode: PassabilityMode, map: &TileMap, start: TileIndex, target: TileIndex, budget: int, result: PathResult) -> bool {
    &&& start == target ==> (result matches PathResult::Found(p) && p@.len() == 0)
    &&& start != target ==> (result matches PathResult::Found(p) ==> is_route(mode, map, start, target, p@)
        && !p@.contains(start) && p@.len() < budget
        && forall|q: Seq<TileIndex>| #[trigger] is_route(mode, map, start, target, q) ==> p@.len() <= q.len())
    &&& result is Unreachable ==> start != target && forall|p: Seq<TileIndex>| !is_route(mode, map, start, target, p)
    &&& result is BudgetExceeded ==> start != target && budget <= map.dims().spec_area()
    &&& start != target && budget <= 1 ==> result is BudgetExceeded
    &&& (exists|p: Seq<TileIndex>| is_route(mode, map, start, target, p)) && !(result is BudgetExceeded)
        ==> result is Found
}

/// `s` cut to length `n`, or padded to it with `fill`.
pub open spec fn resized<T>(s: Seq<T>, n: nat, fill: T) -> Seq<T> {
    Seq::new(n, |i: int| if i < s.len() { s[i] } else { fill })
}

/// Cut `v` to length `n`, or pad it to `n` with `fill`.
fn resize_filled<T: Copy>(v: &mut Vec<T>, n: usize, fill: T)
    ensures
        final(v)@ == resized(old(v)@, n as nat, fill),
{
    if n <= v.len() {
        v.truncate(n);
        assert(v@ =~= resized(old(v)@, n as nat, fill));
    } else {
        while v.len() < n
            invariant
                old(v)@.len() <= v@.len() <= n,
                forall|i: int| 0 <= i < v@.len() ==> #[trigger] v@[i] == (if i < old(v)@.len() { old(v)@[i] } else { fill }),
            decreases n - v@.len(),
        {
            v.push(fill);
        }
        assert(v@ =~= resized(old(v)@, n as nat, fill));
    }
}

/// Reusable buffers for grid A* search, invalidated in O(1) by a generation counter.
pub struct SearchBuffers {
    visited_gen: Vec<u32>,
    came_from: Vec<TileIndex>,
    g_score: Vec<u32>,
    current_generation: u32,
    size: MapSize,
}

impl SearchBuffers {
    /// The map size the buffers are laid out for.
    pub closed spec fn dims(&self) -> MapSize {
        self.size
    }

    /// The current search generation.
    pub closed spec fn generation(&self) -> u32 {
        self.current_generation
    }

    /// Generation stamps, row-major.
    pub closed spec fn stamps(&self) -> Seq<u32> {
        self.visited_gen@
    }

    /// Best known path costs, row-major.
    pub closed spec fn costs(&self) -> Seq<u32> {
        self.g_score@
    }

    /// Parent tiles, row-major.
    pub closed spec fn parents(&self) -> Seq<TileIndex> {
        self.came_from@
    }

    /// One slot per map cell in each buffer, and no stamp ahead of the current generation.
    #[verifier::type_invariant]
    pub open spec fn inv(&self) -> bool {
        &&& self.stamps().len() == self.dims().spec_area()
        &&& self.costs().len() == self.dims().spec_area()
        &&& self.parents().len() == self.dims().spec_area()
        &&& self.generation() >= 1
        &&& forall|i: int| 0 <= i < self.stamps().len() ==> #[trigger] self.stamps()[i] <= self.generation()
    }

    /// Whether the tile's row-major position falls inside the buffers.
    pub open spec fn addressable(&self, t: TileIndex) -> bool {
        self.dims().linear(t) < self.dims().spec_area()
    }

    /// Whether the tile was reached in the current search.
    pub open spec fn visited(&self, t: TileIndex) -> bool {
        self.stamps()[self.dims().linear(t)] == self.generation()
    }

    /// Cost recorded for the tile.
    pub open spec fn cost(&self, t: TileIndex) -> u32 {
        self.costs()[self.dims().linear(t)]
    }

    /// Parent recorded for the tile.
    pub open spec fn parent(&self, t: TileIndex) -> TileIndex {
        self.parents()[self.dims().linear(t)]
    }

    /// Cost of the tile in the current search: its recorded cost if visited, `u32::MAX` otherwise.
    pub open spec fn current_cost(&self, t: TileIndex) -> u32 {
        if self.visited(t) { self.cost(t) } else { u32::MAX }
    }

    pub fn new(size: MapSize) -> (b: SearchBuffers)
        ensures
            b.inv(),
            b.dims() == size,
            b.generation() == 1,
            forall|i: int| 0 <= i < b.stamps().len() ==> #[trigger] b.stamps()[i] == 0,
    {
        let area = size.area() as usize;
        let mut visited_gen: Vec<u32> = Vec::new();
        let mut came_from: Vec<TileIndex> = Vec::new();
        let mut g_score: Vec<u32> = Vec::new();
        let mut i: usize = 0;
        while i < area
            invariant
                i <= area,
                visited_gen@.len() == i,
                came_from@.len() == i,
                g_score@.len() == i,
                forall|j: int| 0 <= j < i ==> #[trigger] visited_gen@[j] == 0,
            decreases area - i,
        {
            visited_gen.push(0);
            came_from.push(TileIndex { x: 0, y: 0 });
            g_score.push(u32::MAX);
            i = i + 1;
        }
        SearchBuffers { visited_gen, came_from, g_score, current_generation: 1, size }
    }

    /// Re-lay the buffers out for `size` when it differs from the current size: each
    /// buffer keeps its leading entries, is cut to the new area or padded with unreached
    /// entries (stamp 0, cost `u32::MAX`, parent (0, 0)).
    pub fn ensure_capacity(&mut self, size: MapSize)
        requires
            old(self).inv(),
        ensures
            final(self).inv(),
            final(self).dims() == size,
            final(self).generation() == old(self).generation(),
            old(self).dims() == size ==> *final(self) == *old(self),
            old(self).dims() != size ==> {
                &&& final(self).stamps() == resized(old(self).stamps(), size.spec_area(), 0u32)
                &&& final(self).costs() == resized(old(self).costs(), size.spec_area(), u32::MAX)
                &&& final(self).parents() == resized(old(self).parents(), size.spec_area(), TileIndex { x: 0, y: 0 })
            },
    {
        if self.size.width != size.width || self.size.height != size.height {
            let area = size.area() as usize;
            let SearchBuffers { mut visited_gen, mut came_from, mut g_score, current_generation, size: _ } = self.take();
            let ghost st0 = visited_gen@;
            resize_filled(&mut visited_gen, area, 0u32);
            resize_filled(&mut came_from, area, TileIndex { x: 0, y: 0 });
            resize_filled(&mut g_score, area, u32::MAX);
            proof {
                assert forall|i: int| 0 <= i < visited_gen@.len() implies #[trigger] visited_gen@[i] <= current_generation by {
                    if i < st0.len() {
                        assert(st0[i] <= current_generation);
                    }
                }
            }
            *self = SearchBuffers { visited_gen, came_from, g_score, current_generation, size };
        }
    }

    /// Begin a new search: afterwards no tile counts as visited.
    pub fn start_search(&mut self)
        requires
            old(self).inv(),
        ensures
            final(self).inv(),
            final(self).dims() == old(self).dims(),
            final(self).costs() == old(self).costs(),
            final(self).parents() == old(self).parents(),
            forall|i: int| 0 <= i < final(self).stamps().len() ==> #[trigger] final(self).stamps()[i] < final(self).generation(),
    {
        if self.current_generation == u32::MAX {
            let SearchBuffers { mut visited_gen, came_from, g_score, current_generation: _, size } = self.take();
            let n = visited_gen.len();
            let mut i: usize = 0;
            while i < n
                invariant
                    n == visited_gen@.len(),
                    i <= n,
                    forall|j: int| 0 <= j < i ==> #[trigger] visited_gen@[j] == 0,
                decreases n - i,
            {
                visited_gen.set(i, 0);
                i = i + 1;
            }
            *self = SearchBuffers { visited_gen, came_from, g_score, current_generation: 1, size };
        } else {
            self.current_generation = self.current_generation + 1;
        }
    }

    /// Move the buffers out, leaving empty buffers for an empty map behind.
    fn take(&mut self) -> (b: SearchBuffers)
        requires
            old(self).inv(),
        ensures
            b == *old(self),
            final(self).inv(),
    {
        let mut b = SearchBuffers {
            visited_gen: Vec::new(),
            came_from: Vec::new(),
            g_score: Vec::new(),
            current_generation: 1,
            size: MapSize { width: 0, height: 0 },
        };
        std::mem::swap(self, &mut b);
        b
    }

    fn index(&self, tile: TileIndex) -> (i: usize)
        requires
            self.inv(),
            self.addressable(tile),
        ensures
            i as int == self.dims().linear(tile),
    {
        assert(self.dims().width * self.dims().height <= 65535 * 65535) by (nonlinear_arith)
            requires
                self.dims().width <= 65535,
                self.dims().height <= 65535,
        ;
        assert(tile.y * self.dims().width >= 0) by (nonlinear_arith);
        (tile.y as usize) * (self.size.width as usize) + (tile.x as usize)
    }

    pub fn is_visited(&self, tile: TileIndex) -> (r: bool)
        requires
            self.inv(),
            self.addressable(tile),
        ensures
            r == self.visited(tile),
    {
        self.visited_gen[self.index(tile)] == self.current_generation
    }

    /// Record the tile as reached in this search with cost `g` via `parent`.
    pub fn mark_visited(&mut self, tile: TileIndex, g: u32, parent: TileIndex)
        requires
            old(self).inv(),
            old(self).addressable(tile),
        ensures
            final(self).inv(),
            final(self).dims() == old(self).dims(),
            final(self).generation() == old(self).generation(),
            final(self).stamps() == old(self).stamps().update(old(self).dims().linear(tile), old(self).generation()),
            final(self).costs() == old(self).costs().update(old(self).dims().linear(tile), g),
            final(self).parents() == old(self).parents().update(old(self).dims().linear(tile), parent),
    {
        let idx = self.index(tile);
        let SearchBuffers { mut visited_gen, mut came_from, mut g_score, current_generation, size } = self.take();
        visited_gen.set(idx, current_generation);
        g_score.set(idx, g);
        came_from.set(idx, parent);
        proof {
            assert forall|j: int| 0 <= j < visited_gen@.len() implies #[trigger] visited_gen@[j] <= current_generation by {
                if j != idx {
                    assert(old(self).stamps()[j] <= old(self).generation());
                }
            }
        }
        *self = SearchBuffers { visited_gen, came_from, g_score, current_generation, size };
    }

    /// Cost of the tile in this search, `u32::MAX` if not reached.
    pub fn get_g(&self, tile: TileIndex) -> (g: u32)
        requires
            self.inv(),
            self.addressable(tile),
        ensures
            g == self.current_cost(tile),
    {
        if self.is_visited(tile) {
            self.g_score[self.index(tile)]
        } else {
            u32::MAX
        }
    }

    pub fn get_parent(&self, tile: TileIndex) -> (p: TileIndex)
        requires
            self.inv(),
            self.addressable(tile),
        ensures
            p == self.parent(tile),
    {
        self.came_from[self.index(tile)]
    }
}

/// Calculate the Manhattan distance between two tiles.
pub fn manhattan_distance(a: TileIndex, b: TileIndex) -> (d: u32)
    ensures
        d == manhattan(a, b),
{
    let dx: u32 = if a.x >= b.x { (a.x - b.x) as u32 } else { (b.x - a.x) as u32 };
    let dy: u32 = if a.y >= b.y { (a.y - b.y) as u32 } else { (b.y - a.y) as u32 };
    dx + dy
}

/// Check whether two tiles are orthogonal neighbours.
pub fn is_cardinal_adjacent(a: TileIndex, b: TileIndex) -> (r: bool)
    ensures
        r == adjacent(a, b),
{
    let dx: i32 = if a.x >= b.x { (a.x - b.x) as i32 } else { (b.x - a.x) as i32 };
    let dy: i32 = if a.y >= b.y { (a.y - b.y) as i32 } else { (b.y - a.y) as i32 };
    (dx == 1 && dy == 0) || (dx == 0 && dy == 1)
}

/// A search frontier entry: estimated total cost, cost so far, tile.
pub type OpenEntry = (u32, u32, TileIndex);

/// Lexicographic order on frontier entries (estimate, cost, column, row).
pub open spec fn entry_lt(a: OpenEntry, b: OpenEntry) -> bool {
    a.0 < b.0 || (a.0 == b.0 && (a.1 < b.1 || (a.1 == b.1 && (a.2.x < b.2.x || (a.2.x == b.2.x
        && a.2.y < b.2.y)))))
}

/// Remove and return a least frontier entry.
fn pop_min(open: &mut Vec<OpenEntry>) -> (e: OpenEntry)
    requires
        old(open)@.len() > 0,
    ensures
        exists|i: int|
            0 <= i < old(open)@.len() && e == old(open)@[i] && final(open)@ == old(open)@.remove(i),
        forall|j: int| 0 <= j < old(open)@.len() ==> !entry_lt(#[trigger] old(open)@[j], e),
{
    let mut best: usize = 0;
    let mut i: usize = 1;
    while i < open.len()
        invariant
            1 <= i <= open@.len(),
            best < open@.len(),
            forall|j: int| 0 <= j < i ==> !entry_lt(#[trigger] open@[j], open@[best as int]),
        decreases open@.len() - i,
    {
        let a = open[i];
        let b = open[best];
        if a.0 < b.0 || (a.0 == b.0 && (a.1 < b.1 || (a.1 == b.1 && (a.2.x < b.2.x || (a.2.x == b.2.x && a.2.y < b.2.y))))) {
            best = i;
        }
        i = i + 1;
    }
    let ghost before = open@;
    let e = open.remove(best);
    assert(e == before[best as int]);
    e
}

/// Whether the tile may be entered on the way to `target` under `mode`.
fn tile_passable(mode: PassabilityMode, tile: TileIndex, target: TileIndex, map: &TileMap) -> (r: bool)
    requires
        map.wf(),
    ensures
        r == passable(mode, map, tile, target),
{
    if tile.x == target.x && tile.y == target.y {
        return true;
    }
    match map.get(tile) {
        None => false,
        Some(t) => match mode {
            PassabilityMode::StrictWater => match t.base.kind {
                TileKind::Water | TileKind::Station | TileKind::OilRig => true,
                _ => false,
            },
            PassabilityMode::AvoidObstacles => match t.base.kind {
                TileKind::Clear | TileKind::Grass | TileKind::House | TileKind::Industry
                | TileKind::Trees | TileKind::Rail | TileKind::Road => false,
                _ => true,
            },
        },
    }
}

/// How many stamps equal `g`.
pub open spec fn stamp_count(s: Seq<u32>, g: u32) -> nat
    decreases s.len(),
{
    if s.len() == 0 {
        0
    } else {
        stamp_count(s.drop_last(), g) + if s.last() == g { 1nat } else { 0nat }
    }
}

/// How many tiles the current search has reached.
pub open spec fn visited_count(b: &SearchBuffers) -> nat {
    stamp_count(b.stamps(), b.generation())
}

/// No more stamps equal `g` than there are stamps.
proof fn lemma_stamp_count_le(s: Seq<u32>, g: u32)
    ensures
        stamp_count(s, g) <= s.len(),
    decreases s.len(),
{
    if s.len() > 0 {
        lemma_stamp_count_le(s.drop_last(), g);
    }
}

/// Without a stamp equal to `g`, the count is zero.
proof fn lemma_stamp_count_zero(s: Seq<u32>, g: u32)
    requires
        forall|i: int| 0 <= i < s.len() ==> #[trigger] s[i] != g,
    ensures
        stamp_count(s, g) == 0,
    decreases s.len(),
{
    if s.len() > 0 {
        lemma_stamp_count_zero(s.drop_last(), g);
    }
}

/// Overwriting one stamp changes the count by what was there and what is written.
proof fn lemma_stamp_count_update(s: Seq<u32>, g: u32, i: int, v: u32)
    requires
        0 <= i < s.len(),
    ensures
        stamp_count(s.update(i, v), g) + (if s[i] == g { 1int } else { 0int })
            == stamp_count(s, g) + (if v == g { 1int } else { 0int }),
    decreases s.len(),
{
    let u = s.update(i, v);
    if i == s.len() - 1 {
        assert(u.drop_last() =~= s.drop_last());
    } else {
        assert(u.drop_last() =~= s.drop_last().update(i, v));
        lemma_stamp_count_update(s.drop_last(), g, i, v);
    }
}

/// Every visited tile other than the start has a visited, adjacent parent of lower
/// cost, and is itself passable.
pub open spec fn chain_ok(b: &SearchBuffers, map: &TileMap, mode: PassabilityMode, start: TileIndex, target: TileIndex) -> bool {
    forall|v: TileIndex|
        map.dims().contains(v) && #[trigger] b.visited(v) && v != start ==> {
            &&& map.dims().contains(b.parent(v))
            &&& b.visited(b.parent(v))
            &&& adjacent(b.parent(v), v)
            &&& b.cost(b.parent(v)) < b.cost(v)
            &&& passable(mode, map, v, target)
        }
}

/// The invariant of the A* loop. `extra` is the tile being expanded, whose frontier
/// entry was already removed.
pub open spec fn search_ok(
    b: &SearchBuffers,
    map: &TileMap,
    mode: PassabilityMode,
    start: TileIndex,
    target: TileIndex,
    open: Seq<OpenEntry>,
    expanded: Set<TileIndex>,
    expansions: int,
    budget: int,
    extra: Option<TileIndex>,
) -> bool {
    &&& b.inv()
    &&& map.wf()
    &&& b.dims() == map.dims()
    &&& map.dims().contains(start)
    &&& start != target
    &&& b.visited(start)
    &&& b.cost(start) == 0
    &&& b.parent(start) == start
    &&& chain_ok(b, map, mode, start, target)
    &&& forall|i: int|
        0 <= i < open.len() ==> {
            &&& map.dims().contains((#[trigger] open[i]).2)
            &&& b.visited(open[i].2)
            &&& open[i].1 >= b.cost(open[i].2)
            &&& open[i].1 <= expansions
            &&& open[i].1 < visited_count(b)
        }
    &&& forall|v: TileIndex| map.dims().contains(v) && #[trigger] b.visited(v) ==> b.cost(v) < visited_count(b)
    &&& forall|v: TileIndex| #[trigger] expanded.contains(v) ==> map.dims().contains(v) && b.visited(v)
    &&& !expanded.contains(target)
    &&& forall|v: TileIndex, n: TileIndex|
        #[trigger] expanded.contains(v) && map.dims().contains(n) && adjacent(v, n) && passable(
            mode,
            map,
            n,
            target,
        ) ==> #[trigger] b.visited(n)
    &&& forall|v: TileIndex|
        map.dims().contains(v) && #[trigger] b.visited(v) ==> expanded.contains(v) || extra == Some(v)
            || exists|i: int| 0 <= i < open.len() && (#[trigger] open[i]).2 == v
    &&& 0 <= expansions
}

/// The frontier holds an entry for `w` at cost `c`.
pub open spec fn open_has(open: Seq<OpenEntry>, w: TileIndex, c: u32) -> bool {
    exists|i: int| 0 <= i < open.len() && (#[trigger] open[i]).2 == w && open[i].1 == c
}

/// Every passable neighbour of `w` is reached at a cost at most one above `w`'s.
pub open spec fn settled(b: &SearchBuffers, map: &TileMap, mode: PassabilityMode, target: TileIndex, w: TileIndex) -> bool {
    forall|n: TileIndex|
        map.dims().contains(n) && adjacent(w, n) && passable(mode, map, n, target) ==> #[trigger] b.visited(n)
            && b.cost(n) <= b.cost(w) + 1
}

/// The A* frontier invariant: each entry's estimate is its cost plus the Manhattan
/// distance to the target, and each reached tile is queued at its cost, or (other than
/// the target) settled, or under expansion (`extra`).
pub open spec fn frontier_ok(b: &SearchBuffers, map: &TileMap, mode: PassabilityMode, target: TileIndex, open: Seq<OpenEntry>, extra: Option<TileIndex>) -> bool {
    &&& forall|i: int| 0 <= i < open.len() ==> (#[trigger] open[i]).0 == open[i].1 + manhattan(open[i].2, target)
    &&& forall|w: TileIndex|
        map.dims().contains(w) && #[trigger] b.visited(w) ==> open_has(open, w, b.cost(w)) || (w != target
            && settled(b, map, mode, target, w)) || extra == Some(w)
}

/// Relax one neighbour: record it (and queue it) if it is passable and `next_g` beats
/// its current cost.
fn relax(
    b: &mut SearchBuffers,
    mode: PassabilityMode,
    candidate: TileIndex,
    next_g: u32,
    current: TileIndex,
    target: TileIndex,
    map: &TileMap,
    open: &mut Vec<OpenEntry>,
)
    requires
        old(b).inv(),
        map.wf(),
        old(b).dims() == map.dims(),
        map.dims().contains(candidate),
    ensures
        final(b).inv(),
        final(b).dims() == old(b).dims(),
        final(b).generation() == old(b).generation(),
        ({
            let lin = map.dims().linear(candidate);
            if passable(mode, map, candidate, target) && next_g < old(b).current_cost(candidate) {
                &&& final(b).stamps() == old(b).stamps().update(lin, old(b).generation())
                &&& final(b).costs() == old(b).costs().update(lin, next_g)
                &&& final(b).parents() == old(b).parents().update(lin, current)
                &&& final(open)@.len() == old(open)@.len() + 1
                &&& final(open)@.subrange(0, old(open)@.len() as int) == old(open)@
                &&& final(open)@.last().1 == next_g
                &&& final(open)@.last().2 == candidate
                &&& final(open)@.last().0 == (if next_g + manhattan(candidate, target) > u32::MAX {
                    u32::MAX as int
                } else {
                    next_g + manhattan(candidate, target)
                })
            } else {
                &&& *final(b) == *old(b)
                &&& final(open)@ == old(open)@
            }
        }),
{
    proof {
        lemma_linear_in_range(map.dims(), candidate);
    }
    if !tile_passable(mode, candidate, target, map) {
        return;
    }
    if next_g < b.get_g(candidate) {
        b.mark_visited(candidate, next_g, current);
        let h = manhattan_distance(candidate, target);
        let f = next_g.saturating_add(h);
        open.push((f, next_g, candidate));
    }
}

/// One relaxation keeps the search invariant (with `current` under expansion), keeps
/// every visited tile visited, and leaves the candidate visited when it is passable and
/// `next_g` is below `u32::MAX`.
#[verifier::rlimit(60)]
#[verifier::spinoff_prover]
proof fn lemma_relax_step(
    b0: &SearchBuffers,
    b1: &SearchBuffers,
    map: &TileMap,
    mode: PassabilityMode,
    start: TileIndex,
    target: TileIndex,
    open0: Seq<OpenEntry>,
    open1: Seq<OpenEntry>,
    expanded: Set<TileIndex>,
    expansions: int,
    budget: int,
    current: TileIndex,
    current_g: u32,
    next_g: u32,
    candidate: TileIndex,
)
    requires
        search_ok(b0, map, mode, start, target, open0, expanded, expansions, budget, Some(current)),
        map.dims().contains(current),
        b0.visited(current),
        b0.cost(current) <= current_g,
        next_g == (if current_g < u32::MAX { current_g + 1 } else { current_g as int }),
        next_g <= expansions,
        current_g < visited_count(b0),
        map.dims().contains(candidate),
        adjacent(current, candidate),
        b1.inv(),
        b1.dims() == b0.dims(),
        b1.generation() == b0.generation(),
        ({
            let lin = map.dims().linear(candidate);
            if passable(mode, map, candidate, target) && next_g < b0.current_cost(candidate) {
                &&& b1.stamps() == b0.stamps().update(lin, b0.generation())
                &&& b1.costs() == b0.costs().update(lin, next_g)
                &&& b1.parents() == b0.parents().update(lin, current)
                &&& open1.len() == open0.len() + 1
                &&& open1.subrange(0, open0.len() as int) == open0
                &&& open1.last().1 == next_g
                &&& open1.last().2 == candidate
            } else {
                &&& *b1 == *b0
                &&& open1 == open0
            }
        }),
    ensures
        search_ok(b1, map, mode, start, target, open1, expanded, expansions, budget, Some(current)),
        forall|t: TileIndex| map.dims().contains(t) && #[trigger] b0.visited(t) ==> b1.visited(t),
        passable(mode, map, candidate, target) && next_g < u32::MAX ==> b1.visited(candidate),
        visited_count(b1) >= visited_count(b0),
{
    let lin = map.dims().linear(candidate);
    lemma_linear_in_range(map.dims(), candidate);
    if passable(mode, map, candidate, target) && next_g < b0.current_cost(candidate) {
        assert(candidate != start);
        assert(candidate != current);
        assert forall|t: TileIndex| map.dims().contains(t) && t != candidate implies {
            &&& b1.visited(t) == b0.visited(t)
            &&& b1.cost(t) == b0.cost(t)
            &&& b1.parent(t) == b0.parent(t)
        } by {
            lemma_linear_in_range(map.dims(), t);
            if map.dims().linear(t) == lin {
                lemma_linear_injective(map.dims(), t, candidate);
            }
        }
        assert(b1.visited(candidate));
        assert(b1.cost(candidate) == next_g);
        assert(b1.parent(candidate) == current);
        lemma_stamp_count_update(b0.stamps(), b0.generation(), lin, b0.generation());
        assert(visited_count(b1) == visited_count(b0) + (if b0.visited(candidate) { 0int } else { 1int }));
        assert(next_g < visited_count(b1));
        lemma_stamp_count_le(b1.stamps(), b1.generation());
        assert(b1.stamps() == b0.stamps().update(lin, b0.generation()));
        assert(b1.costs() == b0.costs().update(lin, next_g));
        assert forall|v: TileIndex| map.dims().contains(v) && #[trigger] b1.visited(v) implies b1.cost(v) < visited_count(b1) by {
            if v != candidate {
                assert(b0.visited(v));
            }
        }
        assert forall|t: TileIndex| map.dims().contains(t) && #[trigger] b0.visited(t) implies b1.visited(t) by {
        }
        assert forall|v: TileIndex|
            map.dims().contains(v) && #[trigger] b1.visited(v) && v != start implies {
                &&& map.dims().contains(b1.parent(v))
                &&& b1.visited(b1.parent(v))
                &&& adjacent(b1.parent(v), v)
                &&& b1.cost(b1.parent(v)) < b1.cost(v)
                &&& passable(mode, map, v, target)
            } by {
            if v == candidate {
            } else {
                assert(b0.visited(v));
                let p = b0.parent(v);
                assert(map.dims().contains(p) && b0.visited(p));
                if p == candidate {
                    assert(b0.current_cost(candidate) == b0.cost(candidate));
                } else {
                }
            }
        }
        assert forall|i: int| 0 <= i < open1.len() implies {
            &&& map.dims().contains((#[trigger] open1[i]).2)
            &&& b1.visited(open1[i].2)
            &&& open1[i].1 >= b1.cost(open1[i].2)
            &&& open1[i].1 <= expansions
            &&& open1[i].1 < visited_count(b1)
        } by {
            if i < open0.len() {
                assert(open1[i] == open0[i]);
                let t = open0[i].2;
                assert(map.dims().contains(t) && b0.visited(t));
                if t == candidate {
                    assert(b0.current_cost(candidate) == b0.cost(candidate));
                }
            } else {
                assert(i == open0.len());
            }
        }
        assert forall|v: TileIndex| #[trigger] expanded.contains(v) implies map.dims().contains(v) && b1.visited(v) by {
            assert(b0.visited(v));
        }
        assert forall|v: TileIndex, n: TileIndex|
            #[trigger] expanded.contains(v) && map.dims().contains(n) && adjacent(v, n) && passable(
                mode,
                map,
                n,
                target,
            ) implies #[trigger] b1.visited(n) by {
            assert(b0.visited(n));
        }
        assert forall|v: TileIndex|
            map.dims().contains(v) && #[trigger] b1.visited(v) implies expanded.contains(v) || Some(current) == Some(v)
                || exists|i: int| 0 <= i < open1.len() && (#[trigger] open1[i]).2 == v by {
            if v == candidate {
                let k = open0.len() as int;
                assert(open1[k].2 == v);
            } else {
                assert(b0.visited(v));
                if !expanded.contains(v) && Some(current) != Some(v) {
                    let i = choose|i: int| 0 <= i < open0.len() && (#[trigger] open0[i]).2 == v;
                    assert(open1[i] == open0[i]);
                }
            }
        }
    } else {
        if passable(mode, map, candidate, target) && next_g < u32::MAX {
            assert(b0.visited(candidate));
        }
    }
}

/// One relaxation keeps the frontier invariant, keeps reached tiles reached at no
/// higher cost, keeps the frontier's earlier entries, and leaves a passable candidate
/// reached at cost at most `next_g`.
proof fn lemma_relax_frontier(
    b0: &SearchBuffers,
    b1: &SearchBuffers,
    map: &TileMap,
    mode: PassabilityMode,
    target: TileIndex,
    open0: Seq<OpenEntry>,
    open1: Seq<OpenEntry>,
    current: TileIndex,
    next_g: u32,
    candidate: TileIndex,
)
    requires
        frontier_ok(b0, map, mode, target, open0, Some(current)),
        b0.inv(),
        map.wf(),
        b0.dims() == map.dims(),
        map.dims().contains(candidate),
        next_g + manhattan(candidate, target) <= u32::MAX,
        next_g < u32::MAX,
        b1.inv(),
        b1.dims() == b0.dims(),
        b1.generation() == b0.generation(),
        ({
            let lin = map.dims().linear(candidate);
            if passable(mode, map, candidate, target) && next_g < b0.current_cost(candidate) {
                &&& b1.stamps() == b0.stamps().update(lin, b0.generation())
                &&& b1.costs() == b0.costs().update(lin, next_g)
                &&& b1.parents() == b0.parents().update(lin, current)
                &&& open1.len() == open0.len() + 1
                &&& open1.subrange(0, open0.len() as int) == open0
                &&& open1.last().1 == next_g
                &&& open1.last().2 == candidate
                &&& open1.last().0 == (if next_g + manhattan(candidate, target) > u32::MAX {
                    u32::MAX as int
                } else {
                    next_g + manhattan(candidate, target)
                })
            } else {
                &&& *b1 == *b0
                &&& open1 == open0
            }
        }),
    ensures
        frontier_ok(b1, map, mode, target, open1, Some(current)),
        forall|t: TileIndex| map.dims().contains(t) && #[trigger] b0.visited(t) ==> b1.visited(t) && b1.cost(t) <= b0.cost(t),
        forall|t: TileIndex| map.dims().contains(t) && t != candidate ==> #[trigger] b1.cost(t) == b0.cost(t),
        passable(mode, map, candidate, target) ==> b1.visited(candidate) && b1.cost(candidate) <= next_g,
        open1.len() >= open0.len(),
        forall|i: int| 0 <= i < open0.len() ==> #[trigger] open1[i] == open0[i],
{
    let lin = map.dims().linear(candidate);
    lemma_linear_in_range(map.dims(), candidate);
    if passable(mode, map, candidate, target) && next_g < b0.current_cost(candidate) {
        assert forall|t: TileIndex| map.dims().contains(t) && t != candidate implies {
            &&& b1.visited(t) == b0.visited(t)
            &&& b1.cost(t) == b0.cost(t)
        } by {
            lemma_linear_in_range(map.dims(), t);
            if map.dims().linear(t) == lin {
                lemma_linear_injective(map.dims(), t, candidate);
            }
        }
        assert(b1.visited(candidate));
        assert(b1.cost(candidate) == next_g);
        assert forall|i: int| 0 <= i < open0.len() implies #[trigger] open1[i] == open0[i] by {
            assert(open1.subrange(0, open0.len() as int)[i] == open1[i]);
        }
        let k = open0.len() as int;
        assert(open1[k].2 == candidate && open1[k].1 == next_g);
        assert forall|t: TileIndex| map.dims().contains(t) && #[trigger] b0.visited(t) implies b1.visited(t) && b1.cost(t) <= b0.cost(t) by {
            if t == candidate {
                assert(b0.current_cost(candidate) == b0.cost(candidate));
            }
        }
        assert forall|i: int| 0 <= i < open1.len() implies (#[trigger] open1[i]).0 == open1[i].1 + manhattan(open1[i].2, target) by {
            if i < open0.len() {
                assert(open1[i] == open0[i]);
            }
        }
        assert forall|w: TileIndex| map.dims().contains(w) && #[trigger] b1.visited(w) implies open_has(open1, w, b1.cost(w))
            || (w != target && settled(b1, map, mode, target, w)) || Some(current) == Some(w) by {
            if w == candidate {
                assert(open1[k].2 == w && open1[k].1 == b1.cost(w));
            } else {
                assert(b0.visited(w));
                if open_has(open0, w, b0.cost(w)) {
                    let j = choose|j: int| 0 <= j < open0.len() && (#[trigger] open0[j]).2 == w && open0[j].1 == b0.cost(w);
                    assert(open1[j] == open0[j]);
                } else if w != target && settled(b0, map, mode, target, w) {
                    assert forall|n: TileIndex|
                        map.dims().contains(n) && adjacent(w, n) && passable(mode, map, n, target) implies #[trigger] b1.visited(n)
                            && b1.cost(n) <= b1.cost(w) + 1 by {
                        assert(b0.visited(n));
                        if n == candidate {
                            assert(b0.current_cost(candidate) == b0.cost(candidate));
                        }
                    }
                }
            }
        }
    } else {
        if passable(mode, map, candidate, target) {
            assert(b0.current_cost(candidate) <= next_g);
        }
    }
}

/// Taking an entry off the frontier keeps the frontier invariant with its tile under
/// expansion; if the entry was stale, the tile stays queued or settled otherwise.
proof fn lemma_pop_frontier(
    b: &SearchBuffers,
    map: &TileMap,
    mode: PassabilityMode,
    target: TileIndex,
    open0: Seq<OpenEntry>,
    open1: Seq<OpenEntry>,
    i: int,
)
    requires
        frontier_ok(b, map, mode, target, open0, None),
        0 <= i < open0.len(),
        open1 == open0.remove(i),
        map.dims().contains(open0[i].2),
        b.visited(open0[i].2),
    ensures
        frontier_ok(b, map, mode, target, open1, Some(open0[i].2)),
        open0[i].2 != target && open0[i].1 != b.cost(open0[i].2) ==> queued_or_settled(b, map, mode, target, open1, open0[i].2),
{
    let e = open0[i];
    assert forall|j: int| 0 <= j < open1.len() implies (#[trigger] open1[j]).0 == open1[j].1 + manhattan(open1[j].2, target) by {
        if j < i {
            assert(open1[j] == open0[j]);
        } else {
            assert(open1[j] == open0[j + 1]);
        }
    }
    assert forall|w: TileIndex| map.dims().contains(w) && #[trigger] b.visited(w) && w != e.2 && open_has(open0, w, b.cost(w))
        implies open_has(open1, w, b.cost(w)) by {
        let j = choose|j: int| 0 <= j < open0.len() && (#[trigger] open0[j]).2 == w && open0[j].1 == b.cost(w);
        if j < i {
            assert(open1[j] == open0[j]);
        } else {
            assert(j != i);
            assert(open1[j - 1] == open0[j]);
        }
    }
    assert(open_has(open0, e.2, b.cost(e.2)) || (e.2 != target && settled(b, map, mode, target, e.2)));
    if e.2 != target && e.1 != b.cost(e.2) && open_has(open0, e.2, b.cost(e.2)) {
        let j = choose|j: int| 0 <= j < open0.len() && (#[trigger] open0[j]).2 == e.2 && open0[j].1 == b.cost(e.2);
        assert(j != i);
        if j < i {
            assert(open1[j] == open0[j]);
        } else {
            assert(open1[j - 1] == open0[j]);
        }
    }
}

/// The Manhattan distance to the target bounds the steps left on a route.
proof fn lemma_route_estimate(mode: PassabilityMode, map: &TileMap, start: TileIndex, target: TileIndex, q: Seq<TileIndex>, k: int)
    requires
        is_route(mode, map, start, target, q),
        0 <= k < q.len(),
    ensures
        manhattan(q[k], target) <= q.len() - 1 - k,
    decreases q.len() - k,
{
    if k < q.len() - 1 {
        lemma_route_estimate(mode, map, start, target, q, k + 1);
        assert(adjacent(q[k], q[k + 1]));
    }
}

/// Walking a route from the start: either the frontier holds an entry whose estimate
/// is at most the route's length, or the `k`-th tile is reached at cost at most `k + 1`.
#[verifier::rlimit(50)]
proof fn lemma_route_walk(
    b: &SearchBuffers,
    map: &TileMap,
    mode: PassabilityMode,
    start: TileIndex,
    target: TileIndex,
    open: Seq<OpenEntry>,
    q: Seq<TileIndex>,
    k: int,
)
    requires
        frontier_ok(b, map, mode, target, open, None),
        map.dims().contains(start),
        b.visited(start),
        b.cost(start) == 0,
        start != target,
        is_route(mode, map, start, target, q),
        0 <= k < q.len(),
    ensures
        (exists|j: int| 0 <= j < open.len() && (#[trigger] open[j]).0 <= q.len())
            || (b.visited(q[k]) && b.cost(q[k]) <= k + 1),
    decreases k,
{
    let found = exists|j: int| 0 <= j < open.len() && (#[trigger] open[j]).0 <= q.len();
    // The tile before q[k] and its cost bound.
    if k == 0 {
        lemma_route_estimate(mode, map, start, target, q, 0);
        if open_has(open, start, 0) {
            let j = choose|j: int| 0 <= j < open.len() && (#[trigger] open[j]).2 == start && open[j].1 == 0u32;
            assert(adjacent(start, q[0]));
            assert(open[j].0 <= q.len());
        } else {
            assert(settled(b, map, mode, target, start));
            assert(map.dims().contains(q[0]) && passable(mode, map, q[0], target));
        }
    } else {
        lemma_route_walk(b, map, mode, start, target, open, q, k - 1);
        if !found {
            let p = q[k - 1];
            assert(map.dims().contains(p));
            lemma_route_estimate(mode, map, start, target, q, k - 1);
            if open_has(open, p, b.cost(p)) {
                let j = choose|j: int| 0 <= j < open.len() && (#[trigger] open[j]).2 == p && open[j].1 == b.cost(p);
                assert(open[j].0 <= q.len());
            } else {
                assert(p != target);
                assert(settled(b, map, mode, target, p));
                assert(adjacent(q[k - 1], q[k]));
                assert(map.dims().contains(q[k]) && passable(mode, map, q[k], target));
            }
        }
    }
}

/// Any route to the target bounds from above the estimate of some frontier entry.
proof fn lemma_route_bound(
    b: &SearchBuffers,
    map: &TileMap,
    mode: PassabilityMode,
    start: TileIndex,
    target: TileIndex,
    open: Seq<OpenEntry>,
    q: Seq<TileIndex>,
)
    requires
        frontier_ok(b, map, mode, target, open, None),
        map.dims().contains(start),
        b.visited(start),
        b.cost(start) == 0,
        start != target,
        is_route(mode, map, start, target, q),
    ensures
        exists|j: int| 0 <= j < open.len() && (#[trigger] open[j]).0 <= q.len(),
{
    let k = q.len() - 1;
    lemma_route_walk(b, map, mode, start, target, open, q, k);
    if !(exists|j: int| 0 <= j < open.len() && (#[trigger] open[j]).0 <= q.len()) {
        assert(q[k] == target);
        assert(map.dims().contains(target));
        assert(open_has(open, target, b.cost(target)));
        let j = choose|j: int| 0 <= j < open.len() && (#[trigger] open[j]).2 == target && open[j].1 == b.cost(target);
        assert(open[j].0 <= q.len());
    }
}

/// Taking an entry off the frontier puts its tile under expansion and counts one more
/// expansion.
proof fn lemma_pop(
    b: &SearchBuffers,
    map: &TileMap,
    mode: PassabilityMode,
    start: TileIndex,
    target: TileIndex,
    open0: Seq<OpenEntry>,
    open1: Seq<OpenEntry>,
    expanded: Set<TileIndex>,
    expansions: int,
    budget: int,
    i: int,
)
    requires
        search_ok(b, map, mode, start, target, open0, expanded, expansions, budget, None),
        0 <= i < open0.len(),
        open1 == open0.remove(i),
    ensures
        search_ok(b, map, mode, start, target, open1, expanded, expansions + 1, budget, Some(open0[i].2)),
        map.dims().contains(open0[i].2),
        b.visited(open0[i].2),
        open0[i].1 >= b.cost(open0[i].2),
        open0[i].1 <= expansions,
        open0[i].1 < visited_count(b),
{
    let e = open0[i];
    assert(map.dims().contains(open0[i].2));
    assert forall|j: int| 0 <= j < open1.len() implies {
        &&& map.dims().contains((#[trigger] open1[j]).2)
        &&& b.visited(open1[j].2)
        &&& open1[j].1 >= b.cost(open1[j].2)
        &&& open1[j].1 <= expansions
        &&& open1[j].1 < visited_count(b)
    } by {
        if j < i {
            assert(open1[j] == open0[j]);
        } else {
            assert(open1[j] == open0[j + 1]);
        }
    }
    assert forall|v: TileIndex|
        map.dims().contains(v) && #[trigger] b.visited(v) implies expanded.contains(v) || Some(e.2) == Some(v)
            || exists|j: int| 0 <= j < open1.len() && (#[trigger] open1[j]).2 == v by {
        if !expanded.contains(v) && v != e.2 {
            let k = choose|k: int| 0 <= k < open0.len() && (#[trigger] open0[k]).2 == v;
            if k < i {
                assert(open1[k] == open0[k]);
            } else {
                assert(k != i);
                assert(open1[k - 1] == open0[k]);
            }
        }
    }
}

/// Finishing the expansion of `current` (all its passable neighbours visited) adds it
/// to the expanded set.
proof fn lemma_expand_done(
    b: &SearchBuffers,
    map: &TileMap,
    mode: PassabilityMode,
    start: TileIndex,
    target: TileIndex,
    open: Seq<OpenEntry>,
    expanded: Set<TileIndex>,
    expansions: int,
    budget: int,
    current: TileIndex,
)
    requires
        search_ok(b, map, mode, start, target, open, expanded, expansions, budget, Some(current)),
        current != target,
        map.dims().contains(current),
        b.visited(current),
        forall|n: TileIndex|
            map.dims().contains(n) && adjacent(current, n) && passable(mode, map, n, target) ==> #[trigger] b.visited(n),
    ensures
        search_ok(b, map, mode, start, target, open, expanded.insert(current), expansions, budget, None),
{
    let e2 = expanded.insert(current);
    assert forall|v: TileIndex| #[trigger] e2.contains(v) implies map.dims().contains(v) && b.visited(v) by {
        if v != current {
            assert(expanded.contains(v));
        }
    }
    assert forall|v: TileIndex, n: TileIndex|
        #[trigger] e2.contains(v) && map.dims().contains(n) && adjacent(v, n) && passable(
            mode,
            map,
            n,
            target,
        ) implies #[trigger] b.visited(n) by {
        if v != current {
            assert(expanded.contains(v));
        }
    }
}

/// Every tile of a route is visited once the frontier is empty.
proof fn lemma_route_visited(
    b: &SearchBuffers,
    map: &TileMap,
    mode: PassabilityMode,
    start: TileIndex,
    target: TileIndex,
    expanded: Set<TileIndex>,
    expansions: int,
    budget: int,
    path: Seq<TileIndex>,
    k: int,
)
    requires
        search_ok(b, map, mode, start, target, Seq::empty(), expanded, expansions, budget, None),
        is_route(mode, map, start, target, path),
        0 <= k < path.len(),
    ensures
        b.visited(path[k]),
    decreases k,
{
    let open: Seq<OpenEntry> = Seq::empty();
    if k == 0 {
        assert(map.dims().contains(start) && b.visited(start));
        assert(expanded.contains(start));
        assert(map.dims().contains(path[0]));
    } else {
        lemma_route_visited(b, map, mode, start, target, expanded, expansions, budget, path, k - 1);
        assert(map.dims().contains(path[k - 1]));
        assert(expanded.contains(path[k - 1]));
        assert(adjacent(path[k - 1], path[k]));
        assert(map.dims().contains(path[k]));
    }
}

/// With an empty frontier, no route reaches the target.
proof fn lemma_no_route(
    b: &SearchBuffers,
    map: &TileMap,
    mode: PassabilityMode,
    start: TileIndex,
    target: TileIndex,
    expanded: Set<TileIndex>,
    expansions: int,
    budget: int,
)
    requires
        search_ok(b, map, mode, start, target, Seq::empty(), expanded, expansions, budget, None),
    ensures
        forall|path: Seq<TileIndex>| !is_route(mode, map, start, target, path),
{
    assert forall|path: Seq<TileIndex>| !is_route(mode, map, start, target, path) by {
        if is_route(mode, map, start, target, path) {
            let k = path.len() - 1;
            lemma_route_visited(b, map, mode, start, target, expanded, expansions, budget, path, k);
            assert(map.dims().contains(path[k]));
            assert(path[k] == target);
            assert(expanded.contains(target));
        }
    }
}

/// Follow parents back from the target to the start and return the route in travel order.
fn reconstruct(b: &SearchBuffers, map: &TileMap, mode: PassabilityMode, start: TileIndex, target: TileIndex) -> (path: Vec<TileIndex>)
    requires
        b.inv(),
        map.wf(),
        b.dims() == map.dims(),
        map.dims().contains(start),
        start != target,
        b.visited(start),
        chain_ok(b, map, mode, start, target),
        map.dims().contains(target),
        b.visited(target),
    ensures
        is_route(mode, map, start, target, path@),
        !path@.contains(start),
        path@.len() <= b.cost(target),
{
    let mut rev: Vec<TileIndex> = Vec::new();
    let mut curr = target;
    while !(curr.x == start.x && curr.y == start.y)
        invariant
            b.inv(),
            map.wf(),
            b.dims() == map.dims(),
            chain_ok(b, map, mode, start, target),
            map.dims().contains(curr),
            b.visited(curr),
            rev@.len() == 0 ==> curr == target,
            rev@.len() > 0 ==> rev@[0] == target && adjacent(curr, rev@.last()),
            forall|i: int| 0 <= i < rev@.len() - 1 ==> adjacent(#[trigger] rev@[i + 1], rev@[i]),
            forall|i: int| 0 <= i < rev@.len() ==> map.dims().contains(#[trigger] rev@[i])
                && passable(mode, map, rev@[i], target) && rev@[i] != start,
            rev@.len() + b.cost(curr) <= b.cost(target),
        decreases b.cost(curr),
    {
        proof {
            lemma_linear_in_range(map.dims(), curr);
        }
        let ghost prev = rev@;
        rev.push(curr);
        let next = b.get_parent(curr);
        assert(forall|i: int| 0 <= i < prev.len() ==> rev@[i] == prev[i]);
        assert forall|i: int| 0 <= i < rev@.len() - 1 implies adjacent(#[trigger] rev@[i + 1], rev@[i]) by {
            if i + 1 == prev.len() {
                assert(rev@[i + 1] == curr);
            }
        }
        curr = next;
    }
    let n = rev.len();
    let mut path: Vec<TileIndex> = Vec::new();
    let mut k: usize = 0;
    while k < n
        invariant
            n == rev@.len(),
            n > 0,
            k <= n,
            path@.len() == k,
            forall|j: int| 0 <= j < k ==> #[trigger] path@[j] == rev@[n - 1 - j],
            forall|j: int| 0 <= j < n ==> #[trigger] rev@[j] != start,
        decreases n - k,
    {
        path.push(rev[n - 1 - k]);
        k = k + 1;
    }
    assert(path@.last() == rev@[0]);
    assert(adjacent(start, path@[0]));
    assert forall|i: int| 0 <= i < path@.len() - 1 implies adjacent(#[trigger] path@[i], path@[i + 1]) by {
        assert(path@[i] == rev@[n - 1 - i]);
        assert(path@[i + 1] == rev@[n - 1 - (i + 1)]);
        assert(adjacent(rev@[(n - 1 - (i + 1)) + 1], rev@[n - 1 - (i + 1)]));
    }
    assert forall|i: int| 0 <= i < path@.len() implies map.dims().contains(#[trigger] path@[i])
        && passable(mode, map, path@[i], target) && path@[i] != start by {
        assert(path@[i] == rev@[n - 1 - i]);
    }
    path
}

/// Relax one neighbour of the tile under expansion, keeping the search invariant.
#[verifier::rlimit(60)]
#[verifier::spinoff_prover]
fn relax_step(
    b: &mut SearchBuffers,
    mode: PassabilityMode,
    map: &TileMap,
    start: TileIndex,
    target: TileIndex,
    open: &mut Vec<OpenEntry>,
    Ghost(expanded): Ghost<Set<TileIndex>>,
    expansions: usize,
    budget: usize,
    current_tile: TileIndex,
    current_g: u32,
    next_g: u32,
    cand: TileIndex,
)
    requires
        search_ok(old(b), map, mode, start, target, old(open)@, expanded, expansions as int, budget as int, Some(current_tile)),
        map.dims().contains(current_tile),
        old(b).visited(current_tile),
        old(b).cost(current_tile) <= current_g,
        next_g == (if current_g < u32::MAX { current_g + 1 } else { current_g as int }),
        next_g <= expansions,
        current_g < visited_count(old(b)),
        current_g < MAX_TILES,
        map.dims().contains(cand),
        adjacent(current_tile, cand),
        frontier_ok(old(b), map, mode, target, old(open)@, Some(current_tile)),
    ensures
        search_ok(final(b), map, mode, start, target, final(open)@, expanded, expansions as int, budget as int, Some(current_tile)),
        forall|t: TileIndex| map.dims().contains(t) && #[trigger] old(b).visited(t) ==> final(b).visited(t),
        passable(mode, map, cand, target) && next_g < u32::MAX ==> final(b).visited(cand),
        final(b).cost(current_tile) == old(b).cost(current_tile),
        visited_count(final(b)) >= visited_count(old(b)),
        frontier_ok(final(b), map, mode, target, final(open)@, Some(current_tile)),
        forall|t: TileIndex| map.dims().contains(t) && #[trigger] old(b).visited(t) ==> final(b).cost(t) <= old(b).cost(t),
        passable(mode, map, cand, target) ==> final(b).visited(cand) && final(b).cost(cand) <= next_g,
        final(open)@.len() >= old(open)@.len(),
        forall|i: int| 0 <= i < old(open)@.len() ==> #[trigger] final(open)@[i] == old(open)@[i],
        side_grew(old(b), final(b), old(open)@, final(open)@, map, mode, target, current_g + manhattan(current_tile, target), current_g as int, current_tile),
{
    let ghost b0 = *b;
    let ghost o0 = open@;
    relax(b, mode, cand, next_g, current_tile, target, map, open);
    proof {
        lemma_relax_step(&b0, &*b, map, mode, start, target, o0, open@, expanded, expansions as int, budget as int, current_tile, current_g, next_g, cand);
        assert(manhattan(cand, target) <= 131070);
        lemma_relax_frontier(&b0, &*b, map, mode, target, o0, open@, current_tile, next_g, cand);
        lemma_linear_in_range(map.dims(), cand);
        lemma_linear_in_range(map.dims(), current_tile);
        if map.dims().linear(cand) == map.dims().linear(current_tile) {
            lemma_linear_injective(map.dims(), cand, current_tile);
        }
        lemma_relax_grew(&b0, &*b, o0, open@, map, mode, target, current_tile, current_g, next_g, cand);
        reveal(side_grew);
    }
}

/// Which side of `w` the neighbour `n` lies on: north 0, south 1, west 2, east 3.
pub open spec fn side_of(w: TileIndex, n: TileIndex) -> int {
    if n.x == w.x && n.y + 1 == w.y {
        0
    } else if n.x == w.x && n.y == w.y + 1 {
        1
    } else if n.y == w.y && n.x + 1 == w.x {
        2
    } else {
        3
    }
}

/// The passable neighbours of `w` on the first `k` sides are reached at cost at most `g`.
pub open spec fn sides_done(b: &SearchBuffers, map: &TileMap, mode: PassabilityMode, target: TileIndex, w: TileIndex, g: int, k: int) -> bool {
    forall|n: TileIndex|
        map.dims().contains(n) && adjacent(w, n) && passable(mode, map, n, target) && side_of(w, n) < k
            ==> #[trigger] b.visited(n) && b.cost(n) <= g
}

/// `w` is queued at its cost or settled.
pub open spec fn queued_or_settled(b: &SearchBuffers, map: &TileMap, mode: PassabilityMode, target: TileIndex, open: Seq<OpenEntry>, w: TileIndex) -> bool {
    open_has(open, w, b.cost(w)) || settled(b, map, mode, target, w)
}

/// Relaxing the neighbour on side `k` (if there is one) extends the sides done, and what
/// was queued or settled stays so.
proof fn lemma_side_step(
    b0: &SearchBuffers,
    b1: &SearchBuffers,
    map: &TileMap,
    mode: PassabilityMode,
    target: TileIndex,
    open0: Seq<OpenEntry>,
    open1: Seq<OpenEntry>,
    w: TileIndex,
    g: int,
    k: int,
    cand: Option<TileIndex>,
)
    requires
        sides_done(b0, map, mode, target, w, g, k),
        forall|t: TileIndex| map.dims().contains(t) && #[trigger] b0.visited(t) ==> b1.visited(t) && b1.cost(t) <= b0.cost(t),
        b1.cost(w) == b0.cost(w),
        open1.len() >= open0.len(),
        forall|i: int| 0 <= i < open0.len() ==> #[trigger] open1[i] == open0[i],
        cand matches Some(c) ==> side_of(w, c) == k && adjacent(w, c) && (passable(mode, map, c, target)
            ==> b1.visited(c) && b1.cost(c) <= g),
        cand is None ==> forall|n: TileIndex| map.dims().contains(n) && adjacent(w, n) ==> side_of(w, n) != k,
    ensures
        sides_done(b1, map, mode, target, w, g, k + 1),
        queued_or_settled(b0, map, mode, target, open0, w) ==> queued_or_settled(b1, map, mode, target, open1, w),
{
    assert forall|n: TileIndex|
        map.dims().contains(n) && adjacent(w, n) && passable(mode, map, n, target) && side_of(w, n) < k + 1
        implies #[trigger] b1.visited(n) && b1.cost(n) <= g by {
        if side_of(w, n) < k {
            assert(b0.visited(n));
        } else {
            let c = cand->0;
            assert(side_of(w, c) == side_of(w, n));
            assert(n == c);
        }
    }
    if open_has(open0, w, b0.cost(w)) {
        let j = choose|j: int| 0 <= j < open0.len() && (#[trigger] open0[j]).2 == w && open0[j].1 == b0.cost(w);
        assert(open1[j] == open0[j]);
    } else if settled(b0, map, mode, target, w) {
        assert forall|n: TileIndex|
            map.dims().contains(n) && adjacent(w, n) && passable(mode, map, n, target) implies #[trigger] b1.visited(n)
                && b1.cost(n) <= b1.cost(w) + 1 by {
            assert(b0.visited(n));
        }
    }
}

/// Once the tile under expansion is queued or settled, it needs the exception no more.
proof fn lemma_expand_frontier(
    b: &SearchBuffers,
    map: &TileMap,
    mode: PassabilityMode,
    target: TileIndex,
    open: Seq<OpenEntry>,
    cur: TileIndex,
)
    requires
        frontier_ok(b, map, mode, target, open, Some(cur)),
        cur != target,
        queued_or_settled(b, map, mode, target, open, cur),
    ensures
        frontier_ok(b, map, mode, target, open, None),
{
}

/// Expand one tile: relax its north, south, west and east neighbours (those inside the
/// map), then count it as expanded.
#[verifier::rlimit(100)]
#[verifier::spinoff_prover]
fn expand_tile(
    b: &mut SearchBuffers,
    mode: PassabilityMode,
    map: &TileMap,
    start: TileIndex,
    target: TileIndex,
    open: &mut Vec<OpenEntry>,
    Ghost(expanded): Ghost<Set<TileIndex>>,
    expansions: usize,
    budget: usize,
    current_tile: TileIndex,
    current_g: u32,
)
    requires
        search_ok(old(b), map, mode, start, target, old(open)@, expanded, expansions as int, budget as int, Some(current_tile)),
        current_tile != target,
        map.dims().contains(current_tile),
        old(b).visited(current_tile),
        old(b).cost(current_tile) <= current_g,
        current_g < expansions,
        current_g < visited_count(old(b)),
        current_g < MAX_TILES,
        expansions < budget,
        frontier_ok(old(b), map, mode, target, old(open)@, Some(current_tile)),
        current_g != old(b).cost(current_tile) ==> queued_or_settled(old(b), map, mode, target, old(open)@, current_tile),
    ensures
        search_ok(final(b), map, mode, start, target, final(open)@, expanded.insert(current_tile), expansions as int, budget as int, None),
        frontier_ok(final(b), map, mode, target, final(open)@, None),
        grew(old(b), final(b), old(open)@, final(open)@, map, target, current_g + manhattan(current_tile, target), 4),
        final(b).cost(current_tile) == old(b).cost(current_tile),
        settled(old(b), map, mode, target, current_tile) ==> final(open)@.len() == old(open)@.len(),
        current_g == old(b).cost(current_tile) ==> settled(final(b), map, mode, target, current_tile),
        near_done(old(b), map, mode, target, current_tile, current_g as int) ==> fresh_growth(old(b), final(b), old(open)@, final(open)@, map, current_tile, current_g as int),
{
    assert(map.dims() == old(b).dims());
    let ghost fest = current_g + manhattan(current_tile, target);
    let map_size = map.size();
    let next_g = current_g.saturating_add(1);
    let ghost cur = current_tile;
    let ghost exps = expansions as int;
    let ghost bud = budget as int;
    // north
    let ghost bn0 = *b;
    let ghost obn0 = open@;
    if current_tile.y > 0 {
        let cand = TileIndex { x: current_tile.x, y: current_tile.y - 1 };
        relax_step(b, mode, map, start, target, open, Ghost(expanded), expansions, budget, current_tile, current_g, next_g, cand);
    }
    proof {
        let c: Option<TileIndex> = if current_tile.y > 0 { Some(TileIndex { x: current_tile.x, y: (current_tile.y - 1) as u16 }) } else { None };
        lemma_side_step(&bn0, &*b, map, mode, target, obn0, open@, cur, next_g as int, 0, c);
    }
    // south
    let ghost bs0 = *b;
    let ghost obs0 = open@;
    if (current_tile.y as u32) + 1 < map_size.height as u32 {
        let cand = TileIndex { x: current_tile.x, y: current_tile.y + 1 };
        relax_step(b, mode, map, start, target, open, Ghost(expanded), expansions, budget, current_tile, current_g, next_g, cand);
    }
    proof {
        let c: Option<TileIndex> = if (current_tile.y as u32) + 1 < map_size.height as u32 { Some(TileIndex { x: current_tile.x, y: (current_tile.y + 1) as u16 }) } else { None };
        lemma_side_step(&bs0, &*b, map, mode, target, obs0, open@, cur, next_g as int, 1, c);
    }
    // west
    let ghost bw0 = *b;
    let ghost obw0 = open@;
    if current_tile.x > 0 {
        let cand = TileIndex { x: current_tile.x - 1, y: current_tile.y };
        relax_step(b, mode, map, start, target, open, Ghost(expanded), expansions, budget, current_tile, current_g, next_g, cand);
    }
    proof {
        let c: Option<TileIndex> = if current_tile.x > 0 { Some(TileIndex { x: (current_tile.x - 1) as u16, y: current_tile.y }) } else { None };
        lemma_side_step(&bw0, &*b, map, mode, target, obw0, open@, cur, next_g as int, 2, c);
    }
    // east
    let ghost be0 = *b;
    let ghost obe0 = open@;
    if (current_tile.x as u32) + 1 < map_size.width as u32 {
        let cand = TileIndex { x: current_tile.x + 1, y: current_tile.y };
        relax_step(b, mode, map, start, target, open, Ghost(expanded), expansions, budget, current_tile, current_g, next_g, cand);
    }
    proof {
        let c: Option<TileIndex> = if (current_tile.x as u32) + 1 < map_size.width as u32 { Some(TileIndex { x: (current_tile.x + 1) as u16, y: current_tile.y }) } else { None };
        lemma_side_step(&be0, &*b, map, mode, target, obe0, open@, cur, next_g as int, 3, c);
    }
    proof {
        let bf = *b;
        assert(next_g < u32::MAX);
        assert forall|n: TileIndex|
            map.dims().contains(n) && adjacent(cur, n) && passable(mode, map, n, target)
            implies #[trigger] bf.visited(n) by {
            if n.x == cur.x && n.y + 1 == cur.y {
                assert(bs0.visited(n));
            } else if n.x == cur.x && n.y == cur.y + 1 {
                assert(bw0.visited(n));
            } else if n.y == cur.y && n.x + 1 == cur.x {
                assert(be0.visited(n));
            } else {
                assert(bf.visited(n));
            }
        }
        assert(bf.visited(cur));
        lemma_expand_done(&*b, map, mode, start, target, open@, expanded, exps, bud, cur);
        if current_g == bn0.cost(cur) {
            assert(settled(&bf, map, mode, target, cur));
        }
        lemma_expand_frontier(&bf, map, mode, target, open@, cur);
        lemma_four_sides(&bn0, &bs0, &bw0, &be0, &bf, obn0, obs0, obw0, obe0, open@, map, mode, target, fest, current_g as int, cur);
    }
}

/// Budgeted water pathfinding solver running during the solver phase.
pub struct WaterPathSolver {
    pub passability_mode: PassabilityMode,
    /// Maximum node expansions per vehicle per tick
    pub budget_per_vehicle: usize,
    /// Per vehicle (by raw ID): the target tile and the remaining planned route
    pub cached_routes: BTreeMap<u32, (TileIndex, Vec<TileIndex>)>,
    /// Search buffers reused from one search to the next
    pub buffers: SearchBuffers,
}

impl WaterPathSolver {
    /// The solver's search buffers are well formed.
    pub closed spec fn inv(&self) -> bool {
        self.buffers.inv()
    }

    /// The passability mode.
    pub open spec fn mode(&self) -> PassabilityMode {
        self.passability_mode
    }

    /// The per-vehicle expansion budget.
    pub open spec fn budget(&self) -> usize {
        self.budget_per_vehicle
    }

    /// The cached routes.
    pub open spec fn routes(&self) -> Map<u32, (TileIndex, Vec<TileIndex>)> {
        self.cached_routes@
    }

    /// A solver in strict-water mode with a budget of 512 expansions per vehicle and no
    /// cached routes.
    pub fn new() -> (s: WaterPathSolver)
        ensures
            s.inv(),
            s.mode() == PassabilityMode::StrictWater,
            s.budget() == 512,
            s.routes().len() == 0,
    {
        WaterPathSolver {
            passability_mode: PassabilityMode::StrictWater,
            budget_per_vehicle: 512,
            cached_routes: BTreeMap::new(),
            buffers: SearchBuffers::new(MapSize { width: 1, height: 1 }),
        }
    }

    /// Configure the passability mode.
    pub fn with_passability_mode(self, mode: PassabilityMode) -> (s: WaterPathSolver)
        requires
            self.inv(),
        ensures
            s.inv(),
            s.mode() == mode,
            s.budget() == self.budget(),
            s.routes() == self.routes(),
    {
        let mut s = self;
        s.passability_mode = mode;
        s
    }

    /// Configure the maximum node expansions per vehicle per tick.
    pub fn with_budget(self, budget: usize) -> (s: WaterPathSolver)
        requires
            self.inv(),
        ensures
            s.inv(),
            s.mode() == self.mode(),
            s.budget() == budget,
            s.routes() == self.routes(),
    {
        let mut s = self;
        s.budget_per_vehicle = budget;
        s
    }

    /// Whether a ship heading for `target` may enter `tile` under this solver's mode.
    pub fn is_passable(&self, tile: TileIndex, target: TileIndex, map: &TileMap) -> (r: bool)
        requires
            map.wf(),
        ensures
            r == passable(self.mode(), map, tile, target),
    {
        tile_passable(self.passability_mode, tile, target, map)
    }

    /// Budgeted A* from `start` to `target` over orthogonal moves, with the Manhattan
    /// distance as estimate. A found path excludes the start and ends at the target;
    /// an empty frontier means the target cannot be reached; reaching `budget`
    /// expansions aborts the search.
    #[verifier::rlimit(100)]
    #[verifier::spinoff_prover]
    pub fn find_path(&mut self, start: TileIndex, target: TileIndex, map: &TileMap, budget: usize) -> (result: PathResult)
        requires
            old(self).inv(),
            map.wf(),
            start == target || map.dims().contains(start),
        ensures
            final(self).inv(),
            final(self).mode() == old(self).mode(),
            final(self).budget() == old(self).budget(),
            final(self).routes() == old(self).routes(),
            search_outcome(old(self).mode(), map, start, target, budget as int, result),
    {
        if start.x == target.x && start.y == target.y {
            return PathResult::Found(Vec::new());
        }
        let mode = self.passability_mode;
        self.buffers.ensure_capacity(map.size());
        self.buffers.start_search();
        proof {
            lemma_linear_in_range(map.dims(), start);
        }
        let ghost b0 = self.buffers;
        self.buffers.mark_visited(start, 0, start);
        proof {
            assert forall|v: TileIndex| map.dims().contains(v) && #[trigger] self.buffers.visited(v) implies v == start by {
                lemma_linear_in_range(map.dims(), v);
                if v != start && map.dims().linear(v) == map.dims().linear(start) {
                    lemma_linear_injective(map.dims(), v, start);
                }
                if v != start {
                    assert(self.buffers.stamps()[map.dims().linear(v)] == b0.stamps()[map.dims().linear(v)]);
                }
            }
            lemma_stamp_count_zero(b0.stamps(), b0.generation());
            lemma_stamp_count_update(b0.stamps(), b0.generation(), map.dims().linear(start), b0.generation());
            assert(visited_count(&self.buffers) == 1);
        }
        let mut open: Vec<OpenEntry> = Vec::new();
        let h_start = manhattan_distance(start, target);
        open.push((h_start, 0, start));
        let ghost mut expanded: Set<TileIndex> = Set::empty();
        let ghost mut last_f: int = 0;
        let ghost mut last_g: int = 0;
        let mut expansions: usize = 0;
        let map_size = map.size();
        proof {
            reveal(tree_ok);
            reveal(open_above);
            assert(open@[0].2 == start);
            assert(open@ =~= seq![(h_start, 0u32, start)]);
        }
        while open.len() > 0
            invariant
                self.inv(),
                self.passability_mode == mode,
                mode == old(self).mode(),
                self.budget_per_vehicle == old(self).budget_per_vehicle,
                self.cached_routes@ == old(self).cached_routes@,
                map_size == map.dims(),
                search_ok(&self.buffers, map, mode, start, target, open@, expanded, expansions as int, budget as int, None),
                expansions <= budget,
                expansions < budget || expansions == 0,
                expansions == 0 ==> open@ == seq![(h_start, 0u32, start)],
                frontier_ok(&self.buffers, map, mode, target, open@, None),
                tree_ok(&self.buffers, map, start, target, last_f, last_g),
                open_above(open@, last_f, last_g),
                open@.len() + expansions <= visited_count(&self.buffers),
            decreases budget - expansions,
        {
            let ghost open0 = open@;
            let e = pop_min(&mut open);
            let ghost i = choose|i: int| 0 <= i < open0.len() && e == open0[i] && open@ == open0.remove(i);
            let current_g = e.1;
            let current_tile = e.2;
            proof {
                lemma_pop(&self.buffers, map, mode, start, target, open0, open@, expanded, expansions as int, budget as int, i);
                lemma_pop_frontier(&self.buffers, map, mode, target, open0, open@, i);
            }
            if current_tile.x == target.x && current_tile.y == target.y {
                let path = reconstruct(&self.buffers, map, mode, start, target);
                proof {
                    assert forall|q: Seq<TileIndex>| #[trigger] is_route(mode, map, start, target, q) implies path@.len() <= q.len() by {
                        lemma_route_bound(&self.buffers, map, mode, start, target, open0, q);
                        let j = choose|j: int| 0 <= j < open0.len() && (#[trigger] open0[j]).0 <= q.len();
                        assert(!entry_lt(open0[j], e));
                        assert(e.0 == e.1 + manhattan(target, target));
                    }
                    assert(open0[i].1 <= expansions);
                }
                return PathResult::Found(path);
            }
            proof {
                lemma_pop_above(&self.buffers, map, mode, target, open0, open@, e, i, last_f, last_g);
                lemma_stamp_count_le(self.buffers.stamps(), self.buffers.generation());
            }
            expansions = expansions + 1;
            if expansions >= budget {
                return PathResult::BudgetExceeded;
            }
            let ghost b_before = self.buffers;
            let ghost open_before = open@;
            proof {
                lemma_near_done(&self.buffers, map, mode, start, target, e, last_f, last_g);
            }
            expand_tile(&mut self.buffers, mode, map, start, target, &mut open, Ghost(expanded), expansions, budget, current_tile, current_g);
            proof {
                expanded = expanded.insert(current_tile);
                lemma_tree_step(&b_before, &self.buffers, open_before, open@, map, mode, start, target, e, last_f, last_g);
                last_f = e.0 as int;
                last_g = e.1 as int;
            }
        }
        proof {
            assert(open@ == Seq::<OpenEntry>::empty());
            lemma_no_route(&self.buffers, map, mode, start, target, expanded, expansions as int, budget as int);
        }
        PathResult::Unreachable
    }
}

} // verus!

verus! {

/// The route left after dropping the leading tiles equal to `pos` (already reached).
pub open spec fn trim_reached(route: Seq<TileIndex>, pos: TileIndex) -> Seq<TileIndex>
    decreases route.len(),
{
    if route.len() > 0 && route[0] == pos {
        trim_reached(route.drop_first(), pos)
    } else {
        route
    }
}

/// The vehicle's waypoint becomes `wp`; nothing else in the world changes.
pub open spec fn waypoint_set(w: World, vid: u32, wp: Option<TileIndex>, w2: World) -> bool {
    &&& w2.vehicles@ == w.vehicles@.insert(vid, Vehicle { next_waypoint: wp, ..w.vehicles@[vid] })
    &&& w2 == (World { vehicles: w2.vehicles, ..w })
}

/// Routes of vehicles other than `vid` are unchanged.
pub open spec fn other_routes_kept(routes: Map<u32, (TileIndex, Vec<TileIndex>)>, routes2: Map<u32, (TileIndex, Vec<TileIndex>)>, vid: u32) -> bool {
    forall|k: u32| k != vid ==> (#[trigger] routes2.contains_key(k) <==> routes.contains_key(k))
        && (routes.contains_key(k) ==> routes2[k] == routes[k])
}

/// The cached route of `vid` is `route` towards `target`.
pub open spec fn route_cached(routes2: Map<u32, (TileIndex, Vec<TileIndex>)>, vid: u32, target: TileIndex, route: Seq<TileIndex>) -> bool {
    routes2.contains_key(vid) && routes2[vid].0 == target && routes2[vid].1@ == route
}

/// The route of `vid` as after the cache step: trimmed of reached tiles if the cache
/// held a route to `target`, else as it was.
pub open spec fn route_after_cache(routes: Map<u32, (TileIndex, Vec<TileIndex>)>, routes2: Map<u32, (TileIndex, Vec<TileIndex>)>, vid: u32, target: TileIndex, pos: TileIndex) -> bool {
    if routes.contains_key(vid) && routes[vid].0 == target && routes[vid].1@.len() > 0 {
        route_cached(routes2, vid, target, trim_reached(routes[vid].1@, pos))
    } else {
        (routes2.contains_key(vid) <==> routes.contains_key(vid)) && (routes.contains_key(vid) ==> routes2[vid]
            == routes[vid])
    }
}

/// The station tile a vehicle is heading for, if its current order is to go to a
/// station that exists and has tiles: the order is the one at the current index (0
/// without one) modulo the schedule length.
pub open spec fn route_target(w: World, v: Vehicle) -> Option<TileIndex> {
    if !w.order_lists@.contains_key(v.orders.0) || w.order_lists@[v.orders.0]@.len() == 0 {
        None
    } else {
        let orders = w.order_lists@[v.orders.0]@;
        match orders[crate::sim::schedule::current_index(v) % (orders.len() as int)] {
            OrderType::GoToStation { station_id, .. } => if w.stations@.contains_key(station_id.0)
                && w.stations@[station_id.0].tiles@.len() > 0 {
                Some(w.stations@[station_id.0].tiles@[0])
            } else {
                None
            },
            _ => None,
        }
    }
}

/// Whether the vehicle's current order is something other than going to a station.
pub open spec fn not_heading_to_station(w: World, v: Vehicle) -> bool {
    w.order_lists@.contains_key(v.orders.0) && w.order_lists@[v.orders.0]@.len() > 0 && !(
    w.order_lists@[v.orders.0]@[crate::sim::schedule::current_index(v) % (w.order_lists@[v.orders.0]@.len() as int)] is GoToStation)
}

/// The solver's planning step for vehicle `vid`.
///
/// A loading vehicle, one whose current order is not to go to a station, and one
/// already at the station's first tile drop their cached route and waypoint. A vehicle
/// heading for a station's first tile first trims the reached tiles off its cached
/// route to that tile; if the route then continues to a neighbouring tile, that tile is
/// the waypoint. Otherwise a new route is searched from the vehicle's tile: a route
/// found is cached and its first tile is the waypoint; otherwise there is no waypoint.
/// Vehicles that do not exist, have no schedule or head for a station that does not
/// exist or has no tiles are left alone.
pub open spec fn route_planned(mode: PassabilityMode, budget: usize, w: World, routes: Map<u32, (TileIndex, Vec<TileIndex>)>, vid: u32, w2: World, routes2: Map<u32, (TileIndex, Vec<TileIndex>)>) -> bool {
    if !w.vehicles@.contains_key(vid) {
        w2 == w && routes2 == routes
    } else {
        let v = w.vehicles@[vid];
        if v.state == VehicleState::Loading || not_heading_to_station(w, v) {
            routes2 == routes.remove(vid) && waypoint_set(w, vid, None, w2)
        } else {
            match route_target(w, v) {
                None => w2 == w && routes2 == routes,
                Some(target) => if v.position == target {
                    routes2 == routes.remove(vid) && waypoint_set(w, vid, None, w2)
                } else {
                    let cached = routes.contains_key(vid) && routes[vid].0 == target && routes[vid].1@.len() > 0;
                    let trimmed = trim_reached(routes[vid].1@, v.position);
                    &&& other_routes_kept(routes, routes2, vid)
                    &&& if cached && trimmed.len() > 0 && adjacent(v.position, trimmed[0]) {
                        route_cached(routes2, vid, target, trimmed) && waypoint_set(w, vid, Some(trimmed[0]), w2)
                    } else if !(w.map.wf() && w.map.dims().contains(v.position)) {
                        route_after_cache(routes, routes2, vid, target, v.position) && waypoint_set(w, vid, None, w2)
                    } else {
                        exists|res: PathResult| #[trigger] search_outcome(mode, &w.map, v.position, target, budget as int, res)
                            && match res {
                            PathResult::Found(p) => route_cached(routes2, vid, target, p@) && waypoint_set(
                                w,
                                vid,
                                Some(p@[0]),
                                w2,
                            ),
                            _ => route_after_cache(routes, routes2, vid, target, v.position) && waypoint_set(
                                w,
                                vid,
                                None,
                                w2,
                            ),
                        }
                    }
                },
            }
        }
    }
}

/// The solver's planning step for each vehicle of `ids`, in order.
pub open spec fn routes_planned(mode: PassabilityMode, budget: usize, w: World, routes: Map<u32, (TileIndex, Vec<TileIndex>)>, ids: Seq<VehicleID>, w2: World, routes2: Map<u32, (TileIndex, Vec<TileIndex>)>) -> bool {
    exists|ws: Seq<World>, rs: Seq<Map<u32, (TileIndex, Vec<TileIndex>)>>| #![trigger ws.len(), rs.len()]
        ws.len() == ids.len() + 1 && rs.len() == ids.len() + 1
        && ws[0] == w && rs[0] == routes && ws[ids.len() as int] == w2 && rs[ids.len() as int] == routes2
        && forall|i: int| 0 <= i < ids.len() ==> route_planned(mode, budget, #[trigger] ws[i], rs[i], ids[i].0, ws[i + 1], rs[i + 1])
}

/// Set the waypoint of vehicle `vid`, which exists.
fn set_waypoint(w: &mut World, vid: u32, wp: Option<TileIndex>)
    requires
        old(w).vehicles@.contains_key(vid),
    ensures
        waypoint_set(*old(w), vid, wp, *final(w)),
{
    let ghost w0 = *w;
    let mut v = w.vehicles.remove(&vid).unwrap();
    v.next_waypoint = wp;
    w.vehicles.insert(vid, v);
    proof {
        assert(w.vehicles@ =~= w0.vehicles@.insert(vid, Vehicle { next_waypoint: wp, ..w0.vehicles@[vid] }));
    }
}

impl WaterPathSolver {
    /// The destination tile of vehicle `v` per `route_target`, or whether its current
    /// order is something other than going to a station (`Err`).
    fn target_of(w: &World, v: &Vehicle) -> (r: Result<Option<TileIndex>, ()>)
        ensures
            r is Err <==> not_heading_to_station(*w, *v),
            r matches Ok(t) ==> t == route_target(*w, *v),
    {
        let orders = match w.order_lists.get(&v.orders.0) {
            Some(list) => list,
            None => {
                return Ok(None);
            },
        };
        if orders.len() == 0 {
            return Ok(None);
        }
        let raw: usize = match v.current_order {
            Some(i) => i.0 as usize,
            None => 0,
        };
        let idx = raw % orders.len();
        match &orders[idx] {
            OrderType::GoToStation { station_id, .. } => match w.stations.get(&station_id.0) {
                Some(s) => if s.tiles.len() > 0 {
                    Ok(Some(s.tiles[0]))
                } else {
                    Ok(None)
                },
                None => Ok(None),
            },
            _ => Err(()),
        }
    }

    /// The planning step of vehicle `vid`.
    fn plan_route(&mut self, w: &mut World, vid: VehicleID, map_ok: bool)
        requires
            old(self).inv(),
            map_ok == old(w).map.wf(),
        ensures
            final(self).inv(),
            final(self).mode() == old(self).mode(),
            final(self).budget() == old(self).budget(),
            final(w).map == old(w).map,
            final(w).tick == old(w).tick,
            route_planned(old(self).mode(), old(self).budget(), *old(w), old(self).routes(), vid.0, *final(w), final(self).routes()),
    {
        broadcast use vstd::std_specs::btree::group_btree_axioms;
        let v = match w.vehicles.get(&vid.0) {
            Some(v) => v,
            None => {
                return;
            },
        };
        let pos = v.position;
        let loading = match v.state {
            VehicleState::Loading => true,
            _ => false,
        };
        if loading {
            self.cached_routes.remove(&vid.0);
            set_waypoint(w, vid.0, None);
            return;
        }
        let target = match Self::target_of(w, v) {
            Err(()) => {
                self.cached_routes.remove(&vid.0);
                set_waypoint(w, vid.0, None);
                return;
            },
            Ok(None) => {
                return;
            },
            Ok(Some(t)) => t,
        };
        if pos.x == target.x && pos.y == target.y {
            self.cached_routes.remove(&vid.0);
            set_waypoint(w, vid.0, None);
            return;
        }
        let ghost r0 = self.cached_routes@;
        let mut reuse: Option<TileIndex> = None;
        let cached = match self.cached_routes.get(&vid.0) {
            Some(entry) => entry.0.x == target.x && entry.0.y == target.y && entry.1.len() > 0,
            None => false,
        };
        if cached {
            let (t, mut route) = self.cached_routes.remove(&vid.0).unwrap();
            let ghost full = route@;
            while route.len() > 0 && route[0].x == pos.x && route[0].y == pos.y
                invariant
                    trim_reached(route@, pos) == trim_reached(full, pos),
                decreases route@.len(),
            {
                proof {
                    assert(route@.drop_first() =~= route@.remove(0));
                }
                route.remove(0);
            }
            proof {
                assert(trim_reached(route@, pos) == route@);
            }
            if route.len() > 0 && is_cardinal_adjacent(pos, route[0]) {
                reuse = Some(route[0]);
            }
            self.cached_routes.insert(vid.0, (t, route));
        }
        match reuse {
            Some(next) => {
                set_waypoint(w, vid.0, Some(next));
                return;
            },
            None => {},
        }
        let ghost r1 = self.cached_routes@;
        if map_ok && w.map.size().is_valid_index(pos) {
            let budget = self.budget_per_vehicle;
            let res = self.find_path(pos, target, &w.map, budget);
            match res {
                PathResult::Found(path) => {
                    if path.len() > 0 {
                        let first = path[0];
                        set_waypoint(w, vid.0, Some(first));
                        self.cached_routes.insert(vid.0, (target, path));
                        return;
                    }
                },
                _ => {},
            }
        }
        set_waypoint(w, vid.0, None);
    }
}

impl SubsystemDriver for WaterPathSolver {
    fn id(&self) -> (r: ServiceId)
        ensures
            r == ServiceId::Pathfinding,
    {
        ServiceId::Pathfinding
    }

    fn priority(&self) -> (r: ServicePriority)
        ensures
            r.0 == 10,
    {
        ServicePriority::high()
    }

    /// In the solver phase: the planning step of each vehicle of the vehicle order
    /// buffer, in order, under this solver's passability mode and budget.
    fn execute_phase(&mut self, phase: Phase, ctx: &mut KernelContext) -> (r: Result<(), DriverError>)
        ensures
            r is Ok,
            final(self).mode() == old(self).mode(),
            final(self).budget() == old(self).budget(),
            final(ctx).tick == old(ctx).tick,
            final(ctx).events@ == old(ctx).events@,
            final(ctx).intents@ == old(ctx).intents@,
            final(ctx).vehicle_order_buffer@ == old(ctx).vehicle_order_buffer@,
            phase != Phase::Solvers ==> *final(ctx).world == *old(ctx).world && final(self).routes() == old(self).routes(),
            phase == Phase::Solvers ==> routes_planned(
                old(self).mode(),
                old(self).budget(),
                *old(ctx).world,
                old(self).routes(),
                old(ctx).vehicle_order_buffer@,
                *final(ctx).world,
                final(self).routes(),
            ),
    {
        match phase {
            Phase::Solvers => {},
            _ => {
                return Ok(());
            },
        }
        proof {
            use_type_invariant(&self.buffers);
        }
        let map_ok = ctx.world.map.validate().is_ok();
        let ghost mut ws: Seq<World> = seq![*ctx.world];
        let ghost mut rs: Seq<Map<u32, (TileIndex, Vec<TileIndex>)>> = seq![self.cached_routes@];
        let n = ctx.vehicle_order_buffer.len();
        let mut i: usize = 0;
        while i < n
            invariant
                i <= n,
                n == ctx.vehicle_order_buffer@.len(),
                ctx.vehicle_order_buffer@ == old(ctx).vehicle_order_buffer@,
                ctx.tick == old(ctx).tick,
                ctx.events@ == old(ctx).events@,
                ctx.intents@ == old(ctx).intents@,
                self.inv(),
                self.mode() == old(self).mode(),
                self.budget() == old(self).budget(),
                ctx.world.map == old(ctx).world.map,
                map_ok == ctx.world.map.wf(),
                ws.len() == i + 1,
                rs.len() == i + 1,
                ws[0] == *old(ctx).world,
                rs[0] == old(self).routes(),
                ws[i as int] == *ctx.world,
                rs[i as int] == self.routes(),
                forall|j: int| 0 <= j < i ==> route_planned(old(self).mode(), old(self).budget(), #[trigger] ws[j], rs[j], ctx.vehicle_order_buffer@[j].0, ws[j + 1], rs[j + 1]),
            decreases n - i,
        {
            let vid = ctx.vehicle_order_buffer[i];
            self.plan_route(ctx.world, vid, map_ok);
            proof {
                ws = ws.push(*ctx.world);
                rs = rs.push(self.routes());
            }
            i = i + 1;
        }
        Ok(())
    }
}

} // verus!

verus! {

/// A step of a search from `b0`/`open0` to `b1`/`open1` that appends at most `k`
/// frontier entries, each estimated at least `f`, keeps the earlier entries and the
/// reached tiles, and lowers a tile's cost only to one whose estimate is at least `f`.
#[verifier::opaque]
pub open spec fn grew(
    b0: &SearchBuffers,
    b1: &SearchBuffers,
    open0: Seq<OpenEntry>,
    open1: Seq<OpenEntry>,
    map: &TileMap,
    target: TileIndex,
    f: int,
    k: int,
) -> bool {
    &&& open0.len() <= open1.len() <= open0.len() + k
    &&& forall|i: int| 0 <= i < open0.len() ==> #[trigger] open1[i] == open0[i]
    &&& forall|i: int| open0.len() <= i < open1.len() ==> #[trigger] open1[i].0 >= f
    &&& forall|t: TileIndex|
        map.dims().contains(t) && #[trigger] b0.visited(t) ==> {
            &&& b1.visited(t)
            &&& b1.cost(t) <= b0.cost(t)
            &&& b1.cost(t) < b0.cost(t) ==> b1.cost(t) + manhattan(t, target) >= f
        }
}

/// A step that changes nothing grows by nothing.
proof fn lemma_grew_refl(b: &SearchBuffers, open: Seq<OpenEntry>, map: &TileMap, target: TileIndex, f: int, k: int)
    requires
        k >= 0,
    ensures
        grew(b, b, open, open, map, target, f, k),
{
    reveal(grew);
}

/// Two steps make one, their bounds on new entries added up.
proof fn lemma_grew_trans(
    b0: &SearchBuffers,
    b1: &SearchBuffers,
    b2: &SearchBuffers,
    open0: Seq<OpenEntry>,
    open1: Seq<OpenEntry>,
    open2: Seq<OpenEntry>,
    map: &TileMap,
    target: TileIndex,
    f: int,
    k1: int,
    k2: int,
)
    requires
        grew(b0, b1, open0, open1, map, target, f, k1),
        grew(b1, b2, open1, open2, map, target, f, k2),
    ensures
        grew(b0, b2, open0, open2, map, target, f, k1 + k2),
{
    reveal(grew);
    assert forall|i: int| 0 <= i < open0.len() implies #[trigger] open2[i] == open0[i] by {
        assert(open1[i] == open0[i]);
    }
    assert forall|i: int| open0.len() <= i < open2.len() implies #[trigger] open2[i].0 >= f by {
        if i < open1.len() {
            assert(open2[i] == open1[i]);
        }
    }
    assert forall|t: TileIndex| map.dims().contains(t) && #[trigger] b0.visited(t) implies {
        &&& b2.visited(t)
        &&& b2.cost(t) <= b0.cost(t)
        &&& b2.cost(t) < b0.cost(t) ==> b2.cost(t) + manhattan(t, target) >= f
    } by {
        assert(b1.visited(t));
    }
}

/// A settled tile stays settled while its cost stays and the others only drop.
proof fn lemma_settled_kept(
    b0: &SearchBuffers,
    b1: &SearchBuffers,
    open0: Seq<OpenEntry>,
    open1: Seq<OpenEntry>,
    map: &TileMap,
    mode: PassabilityMode,
    target: TileIndex,
    f: int,
    k: int,
    w: TileIndex,
)
    requires
        grew(b0, b1, open0, open1, map, target, f, k),
        settled(b0, map, mode, target, w),
        b1.cost(w) == b0.cost(w),
    ensures
        settled(b1, map, mode, target, w),
{
    reveal(grew);
    assert forall|n: TileIndex|
        map.dims().contains(n) && adjacent(w, n) && passable(mode, map, n, target) implies #[trigger] b1.visited(n)
            && b1.cost(n) <= b1.cost(w) + 1 by {
        assert(b0.visited(n));
        assert(b0.cost(n) <= b0.cost(w) + 1);
        assert(b1.visited(n));
        assert(b1.cost(n) <= b0.cost(n));
    }
}




/// What one relaxation adds: at most one frontier entry, estimated no lower than the
/// tile under expansion, and a lowered cost only for the candidate, at its new entry's
/// estimate; nothing when the tile under expansion is settled.
proof fn lemma_relax_grew(
    b0: &SearchBuffers,
    b1: &SearchBuffers,
    o0: Seq<OpenEntry>,
    o1: Seq<OpenEntry>,
    map: &TileMap,
    mode: PassabilityMode,
    target: TileIndex,
    current_tile: TileIndex,
    current_g: u32,
    next_g: u32,
    cand: TileIndex,
)
    requires
        b0.inv(),
        b0.dims() == map.dims(),
        b1.dims() == b0.dims(),
        b1.generation() == b0.generation(),
        map.dims().contains(cand),
        map.dims().contains(current_tile),
        adjacent(current_tile, cand),
        b0.visited(current_tile),
        b0.cost(current_tile) <= current_g,
        current_g < MAX_TILES,
        next_g == current_g + 1,
        ({
            let lin = map.dims().linear(cand);
            if passable(mode, map, cand, target) && next_g < b0.current_cost(cand) {
                &&& b1.stamps() == b0.stamps().update(lin, b0.generation())
                &&& b1.costs() == b0.costs().update(lin, next_g)
                &&& b1.parents() == b0.parents().update(lin, current_tile)
                &&& o1.len() == o0.len() + 1
                &&& o1.subrange(0, o0.len() as int) == o0
                &&& o1.last().1 == next_g
                &&& o1.last().0 == (if next_g + manhattan(cand, target) > u32::MAX {
                    u32::MAX as int
                } else {
                    next_g + manhattan(cand, target)
                })
            } else {
                &&& *b1 == *b0
                &&& o1 == o0
            }
        }),
    ensures
        grew(b0, b1, o0, o1, map, target, current_g + manhattan(current_tile, target), 1),
        settled(b0, map, mode, target, current_tile) ==> o1.len() == o0.len(),
        near_done(b0, map, mode, target, current_tile, current_g as int) ==> near_done(b1, map, mode, target, current_tile, current_g as int)
            && fresh_growth(b0, b1, o0, o1, map, current_tile, current_g as int),
{
    reveal(grew);
    reveal(fresh_growth);
    let f = current_g + manhattan(current_tile, target);
    if passable(mode, map, cand, target) && next_g < b0.current_cost(cand) {
        lemma_linear_in_range(map.dims(), cand);
        assert(o1.last() == o1[o0.len() as int]);
        assert forall|i: int| 0 <= i < o0.len() implies #[trigger] o1[i] == o0[i] by {
            assert(o1.subrange(0, o0.len() as int)[i] == o1[i]);
        }
        assert forall|t: TileIndex| map.dims().contains(t) && #[trigger] b0.visited(t) implies {
            &&& b1.visited(t)
            &&& b1.cost(t) <= b0.cost(t)
            &&& b1.cost(t) < b0.cost(t) ==> b1.cost(t) + manhattan(t, target) >= f
        } by {
            lemma_linear_in_range(map.dims(), t);
            if t != cand {
                if map.dims().linear(t) == map.dims().linear(cand) {
                    lemma_linear_injective(map.dims(), t, cand);
                }
            }
        }
        if settled(b0, map, mode, target, current_tile) {
            assert(b0.visited(cand));
        }
        if near_done(b0, map, mode, target, current_tile, current_g as int) {
            let lin = map.dims().linear(cand);
            assert(!b0.visited(cand));
            lemma_stamp_count_update(b0.stamps(), b0.generation(), lin, b0.generation());
            assert(visited_count(b1) == visited_count(b0) + 1);
            assert forall|t: TileIndex| map.dims().contains(t) && #[trigger] b0.visited(t) implies b1.visited(t) && b1.cost(t)
                == b0.cost(t) && b1.parent(t) == b0.parent(t) by {
                lemma_linear_in_range(map.dims(), t);
                if map.dims().linear(t) == lin {
                    lemma_linear_injective(map.dims(), t, cand);
                }
            }
            assert forall|t: TileIndex| map.dims().contains(t) && #[trigger] b1.visited(t) && !b0.visited(t) implies b1.cost(
                t,
            ) == current_g + 1 && b1.parent(t) == current_tile by {
                lemma_linear_in_range(map.dims(), t);
                if map.dims().linear(t) != lin {
                    assert(b1.stamps()[map.dims().linear(t)] == b0.stamps()[map.dims().linear(t)]);
                }
            }
            assert forall|i: int| o0.len() <= i < o1.len() implies #[trigger] o1[i].1 == current_g + 1 by {
                assert(i == o0.len());
            }
            assert forall|n: TileIndex|
                map.dims().contains(n) && adjacent(current_tile, n) && passable(mode, map, n, target) && #[trigger] b1.visited(n)
                implies b1.cost(n) <= current_g + 1 by {
                lemma_linear_in_range(map.dims(), n);
                if n != cand {
                    if map.dims().linear(n) == lin {
                        lemma_linear_injective(map.dims(), n, cand);
                    }
                    assert(b1.stamps()[map.dims().linear(n)] == b0.stamps()[map.dims().linear(n)]);
                    assert(b0.visited(n));
                }
            }
        }
    } else {
        lemma_grew_refl(b0, o0, map, target, f, 1);
    }
}


/// One relaxation within an expansion of `w` estimated at `f`: it grows by at most one
/// entry, keeps `w`'s cost, and adds nothing while `w` is settled.
#[verifier::opaque]
pub open spec fn side_grew(
    b0: &SearchBuffers,
    b1: &SearchBuffers,
    open0: Seq<OpenEntry>,
    open1: Seq<OpenEntry>,
    map: &TileMap,
    mode: PassabilityMode,
    target: TileIndex,
    f: int,
    g: int,
    w: TileIndex,
) -> bool {
    &&& grew(b0, b1, open0, open1, map, target, f, 1)
    &&& b1.cost(w) == b0.cost(w)
    &&& settled(b0, map, mode, target, w) ==> open1.len() == open0.len()
    &&& near_done(b0, map, mode, target, w, g) ==> near_done(b1, map, mode, target, w, g)
        && fresh_growth(b0, b1, open0, open1, map, w, g)
}

/// Every reached passable neighbour of `w` costs at most `g + 1`.
pub open spec fn near_done(b: &SearchBuffers, map: &TileMap, mode: PassabilityMode, target: TileIndex, w: TileIndex, g: int) -> bool {
    forall|n: TileIndex|
        map.dims().contains(n) && adjacent(w, n) && passable(mode, map, n, target) && #[trigger] b.visited(n)
            ==> b.cost(n) <= g + 1
}

/// A growth step of the expansion of `w` at cost `g` that only reaches new tiles: one
/// new frontier entry, at cost `g + 1`, per newly reached tile; reached tiles keep
/// their cost and parent; newly reached ones cost `g + 1` with parent `w`.
#[verifier::opaque]
pub open spec fn fresh_growth(
    b0: &SearchBuffers,
    b1: &SearchBuffers,
    open0: Seq<OpenEntry>,
    open1: Seq<OpenEntry>,
    map: &TileMap,
    w: TileIndex,
    g: int,
) -> bool {
    &&& open1.len() + visited_count(b0) == open0.len() + visited_count(b1)
    &&& open0.len() <= open1.len()
    &&& forall|i: int| 0 <= i < open0.len() ==> #[trigger] open1[i] == open0[i]
    &&& forall|i: int| open0.len() <= i < open1.len() ==> #[trigger] open1[i].1 == g + 1
    &&& forall|t: TileIndex|
        map.dims().contains(t) && #[trigger] b0.visited(t) ==> b1.visited(t) && b1.cost(t) == b0.cost(t) && b1.parent(t)
            == b0.parent(t)
    &&& forall|t: TileIndex|
        map.dims().contains(t) && #[trigger] b1.visited(t) && !b0.visited(t) ==> b1.cost(t) == g + 1 && b1.parent(t)
            == w
}

/// Growth steps compose.
proof fn lemma_fresh_growth_trans(
    b0: &SearchBuffers,
    b1: &SearchBuffers,
    b2: &SearchBuffers,
    o0: Seq<OpenEntry>,
    o1: Seq<OpenEntry>,
    o2: Seq<OpenEntry>,
    map: &TileMap,
    w: TileIndex,
    g: int,
)
    requires
        fresh_growth(b0, b1, o0, o1, map, w, g),
        fresh_growth(b1, b2, o1, o2, map, w, g),
    ensures
        fresh_growth(b0, b2, o0, o2, map, w, g),
{
    reveal(fresh_growth);
    assert forall|i: int| 0 <= i < o0.len() implies #[trigger] o2[i] == o0[i] by {
        assert(o1[i] == o0[i]);
    }
    assert forall|i: int| o0.len() <= i < o2.len() implies #[trigger] o2[i].1 == g + 1 by {
        if i < o1.len() {
            assert(o2[i] == o1[i]);
        }
    }
    assert forall|t: TileIndex| map.dims().contains(t) && #[trigger] b0.visited(t) implies b2.visited(t) && b2.cost(t)
        == b0.cost(t) && b2.parent(t) == b0.parent(t) by {
        assert(b1.visited(t));
    }
    assert forall|t: TileIndex| map.dims().contains(t) && #[trigger] b2.visited(t) && !b0.visited(t) implies b2.cost(
        t,
    ) == g + 1 && b2.parent(t) == w by {
        if b1.visited(t) {
            assert(b1.cost(t) == g + 1);
        }
    }
}

/// The four relaxations of an expansion together grow by at most four entries, keep
/// the expanded tile's cost, and add nothing if it was settled.
proof fn lemma_four_sides(
    b0: &SearchBuffers,
    b1: &SearchBuffers,
    b2: &SearchBuffers,
    b3: &SearchBuffers,
    b4: &SearchBuffers,
    o0: Seq<OpenEntry>,
    o1: Seq<OpenEntry>,
    o2: Seq<OpenEntry>,
    o3: Seq<OpenEntry>,
    o4: Seq<OpenEntry>,
    map: &TileMap,
    mode: PassabilityMode,
    target: TileIndex,
    f: int,
    g: int,
    w: TileIndex,
)
    requires
        side_grew(b0, b1, o0, o1, map, mode, target, f, g, w) || (*b1 == *b0 && o1 == o0),
        side_grew(b1, b2, o1, o2, map, mode, target, f, g, w) || (*b2 == *b1 && o2 == o1),
        side_grew(b2, b3, o2, o3, map, mode, target, f, g, w) || (*b3 == *b2 && o3 == o2),
        side_grew(b3, b4, o3, o4, map, mode, target, f, g, w) || (*b4 == *b3 && o4 == o3),
    ensures
        grew(b0, b4, o0, o4, map, target, f, 4),
        b4.cost(w) == b0.cost(w),
        settled(b0, map, mode, target, w) ==> o4.len() == o0.len(),
        near_done(b0, map, mode, target, w, g) ==> fresh_growth(b0, b4, o0, o4, map, w, g),
{
    lemma_side_skip(b0, o0, map, mode, target, f, g, w);
    lemma_side_skip(b1, o1, map, mode, target, f, g, w);
    lemma_side_skip(b2, o2, map, mode, target, f, g, w);
    lemma_side_skip(b3, o3, map, mode, target, f, g, w);
    reveal(side_grew);
    lemma_grew_trans(b0, b1, b2, o0, o1, o2, map, target, f, 1, 1);
    lemma_grew_trans(b0, b2, b3, o0, o2, o3, map, target, f, 2, 1);
    lemma_grew_trans(b0, b3, b4, o0, o3, o4, map, target, f, 3, 1);
    if settled(b0, map, mode, target, w) {
        lemma_settled_kept(b0, b1, o0, o1, map, mode, target, f, 1, w);
        lemma_settled_kept(b1, b2, o1, o2, map, mode, target, f, 1, w);
        lemma_settled_kept(b2, b3, o2, o3, map, mode, target, f, 1, w);
    }
    if near_done(b0, map, mode, target, w, g) {
        lemma_fresh_growth_trans(b0, b1, b2, o0, o1, o2, map, w, g);
        lemma_fresh_growth_trans(b0, b2, b3, o0, o2, o3, map, w, g);
        lemma_fresh_growth_trans(b0, b3, b4, o0, o3, o4, map, w, g);
    }
}

/// A side without a neighbour changes nothing.
proof fn lemma_side_skip(b: &SearchBuffers, open: Seq<OpenEntry>, map: &TileMap, mode: PassabilityMode, target: TileIndex, f: int, g: int, w: TileIndex)
    ensures
        side_grew(b, b, open, open, map, mode, target, f, g, w),
{
    reveal(side_grew);
    reveal(fresh_growth);
    lemma_grew_refl(b, open, map, target, f, 1);
}


/// A tile popped at an entry while not settled is popped at its cost: its entry at its
/// cost was in the frontier, and the popped entry was a least one.
proof fn lemma_fresh_pop(
    b: &SearchBuffers,
    map: &TileMap,
    mode: PassabilityMode,
    target: TileIndex,
    open0: Seq<OpenEntry>,
    e: OpenEntry,
    i: int,
)
    requires
        frontier_ok(b, map, mode, target, open0, None),
        0 <= i < open0.len(),
        e == open0[i],
        map.dims().contains(e.2),
        b.visited(e.2),
        e.1 >= b.cost(e.2),
        forall|j: int| 0 <= j < open0.len() ==> !entry_lt(#[trigger] open0[j], e),
        !settled(b, map, mode, target, e.2),
    ensures
        e.1 == b.cost(e.2),
{
    assert(open_has(open0, e.2, b.cost(e.2)));
    let j = choose|j: int| 0 <= j < open0.len() && (#[trigger] open0[j]).2 == e.2 && open0[j].1 == b.cost(e.2);
    assert(!entry_lt(open0[j], e));
    assert(open0[j].0 == open0[j].1 + manhattan(e.2, target));
    assert(open0[i].0 == open0[i].1 + manhattan(e.2, target));
}



/// `(f1, g1)` is at most `(f2, g2)`, estimate first, then cost.
pub open spec fn key_le(f1: int, g1: int, f2: int, g2: int) -> bool {
    f1 < f2 || (f1 == f2 && g1 <= g2)
}

/// Every frontier entry's (estimate, cost) is at least `(lf, lg)`.
#[verifier::opaque]
pub open spec fn open_above(open: Seq<OpenEntry>, lf: int, lg: int) -> bool {
    forall|j: int| 0 <= j < open.len() ==> key_le(lf, lg, #[trigger] open[j].0 as int, open[j].1 as int)
}

/// The search tree: each reached tile's cost has the parity of its distance from the
/// start, and each reached tile other than the start costs one more than its parent,
/// which was expanded at an (estimate, cost) of at most `(lf, lg)`.
#[verifier::opaque]
pub open spec fn tree_ok(b: &SearchBuffers, map: &TileMap, start: TileIndex, target: TileIndex, lf: int, lg: int) -> bool {
    forall|t: TileIndex|
        map.dims().contains(t) && #[trigger] b.visited(t) ==> {
            &&& (b.cost(t) + manhattan(start, t)) % 2 == 0
            &&& t != start ==> {
                &&& b.cost(t) == b.cost(b.parent(t)) + 1
                &&& key_le(
                    b.cost(b.parent(t)) + manhattan(b.parent(t), target),
                    b.cost(b.parent(t)) as int,
                    lf,
                    lg,
                )
            }
        }
}

/// Popping a least entry: the rest of the frontier is keyed at least as high, the
/// popped key is at least the last one, and a popped tile that is not settled is popped
/// at its cost.
proof fn lemma_pop_above(
    b: &SearchBuffers,
    map: &TileMap,
    mode: PassabilityMode,
    target: TileIndex,
    open0: Seq<OpenEntry>,
    open1: Seq<OpenEntry>,
    e: OpenEntry,
    i: int,
    lf: int,
    lg: int,
)
    requires
        frontier_ok(b, map, mode, target, open0, None),
        open_above(open0, lf, lg),
        0 <= i < open0.len(),
        e == open0[i],
        open1 == open0.remove(i),
        map.dims().contains(e.2),
        b.visited(e.2),
        e.1 >= b.cost(e.2),
        forall|j: int| 0 <= j < open0.len() ==> !entry_lt(#[trigger] open0[j], e),
    ensures
        open_above(open1, e.0 as int, e.1 as int),
        key_le(lf, lg, e.0 as int, e.1 as int),
        e.0 == e.1 + manhattan(e.2, target),
        !settled(b, map, mode, target, e.2) ==> e.1 == b.cost(e.2),
{
    reveal(open_above);
    assert(key_le(lf, lg, open0[i].0 as int, open0[i].1 as int));
    assert forall|j: int| 0 <= j < open1.len() implies key_le(e.0 as int, e.1 as int, #[trigger] open1[j].0 as int, open1[j].1 as int) by {
        if j < i {
            assert(open1[j] == open0[j]);
            assert(!entry_lt(open0[j], e));
        } else {
            assert(open1[j] == open0[j + 1]);
            assert(!entry_lt(open0[j + 1], e));
        }
    }
    if !settled(b, map, mode, target, e.2) {
        lemma_fresh_pop(b, map, mode, target, open0, e, i);
    }
}

/// What the search tree says of one reached tile.
proof fn lemma_tree_at(b: &SearchBuffers, map: &TileMap, start: TileIndex, target: TileIndex, lf: int, lg: int, t: TileIndex)
    requires
        tree_ok(b, map, start, target, lf, lg),
        map.dims().contains(t),
        b.visited(t),
    ensures
        (b.cost(t) + manhattan(start, t)) % 2 == 0,
        t != start ==> b.cost(t) == b.cost(b.parent(t)) + 1,
        t != start ==> key_le(
            b.cost(b.parent(t)) + manhattan(b.parent(t), target),
            b.cost(b.parent(t)) as int,
            lf,
            lg,
        ),
{
    reveal(tree_ok);
}

/// Two neighbours of one tile lie at distances of equal parity from any tile, and
/// their distances to any tile differ by at most two.
proof fn lemma_two_neighbours(a: TileIndex, p: TileIndex, u: TileIndex, n: TileIndex)
    requires
        adjacent(p, n),
        adjacent(u, n),
    ensures
        (manhattan(a, p) - manhattan(a, u)) % 2 == 0,
        -2 <= manhattan(p, a) - manhattan(u, a) <= 2,
        manhattan(a, p) == manhattan(p, a),
        manhattan(a, u) == manhattan(u, a),
{
}

/// A tile expanded at cost `cu` with estimate `hu` to go cannot see, behind it, a
/// dearer same-parity tile `cp` (estimate `hp`, at most two below `hu`) keyed no higher:
/// such a tile is keyed higher.
proof fn lemma_key_parity(cp: int, hp: int, cu: int, hu: int, mp: int, mu: int)
    requires
        (cp + mp) % 2 == 0,
        (cu + mu) % 2 == 0,
        (mp - mu) % 2 == 0,
        hu - hp <= 2,
        cp > cu,
    ensures
        !key_le(cp + hp, cp, cu + hu, cu),
{
    assert((cp - cu) % 2 == 0);
    assert(cp >= cu + 2);
}

/// The tile popped at key `(e.0, e.1)`, either settled or popped at its cost, has every
/// reached passable neighbour at cost at most `e.1 + 1`: a neighbour reached dearer
/// would have a parent expanded at a key below the popped one, which the parity of
/// costs and the unit steps of the estimate rule out.
proof fn lemma_near_done(
    b: &SearchBuffers,
    map: &TileMap,
    mode: PassabilityMode,
    start: TileIndex,
    target: TileIndex,
    e: OpenEntry,
    lf: int,
    lg: int,
)
    requires
        chain_ok(b, map, mode, start, target),
        tree_ok(b, map, start, target, lf, lg),
        b.visited(start),
        b.cost(start) == 0,
        map.dims().contains(start),
        map.dims().contains(e.2),
        b.visited(e.2),
        key_le(lf, lg, e.0 as int, e.1 as int),
        e.0 == e.1 + manhattan(e.2, target),
        settled(b, map, mode, target, e.2) && b.cost(e.2) <= e.1 || e.1 == b.cost(e.2),
    ensures
        near_done(b, map, mode, target, e.2, e.1 as int),
{
    let u = e.2;
    assert forall|n: TileIndex|
        map.dims().contains(n) && adjacent(u, n) && passable(mode, map, n, target) && #[trigger] b.visited(n)
        implies b.cost(n) <= e.1 + 1 by {
        if settled(b, map, mode, target, u) && b.cost(u) <= e.1 {
            assert(b.cost(n) <= b.cost(u) + 1);
        } else if n != start {
            let p = b.parent(n);
            assert(map.dims().contains(p) && b.visited(p) && adjacent(p, n));
            lemma_tree_at(b, map, start, target, lf, lg, n);
            lemma_tree_at(b, map, start, target, lf, lg, p);
            lemma_tree_at(b, map, start, target, lf, lg, u);
            lemma_two_neighbours(start, p, u, n);
            lemma_two_neighbours(target, p, u, n);
            if b.cost(n) > e.1 + 1 {
                lemma_key_parity(
                    b.cost(p) as int,
                    manhattan(p, target),
                    e.1 as int,
                    manhattan(u, target),
                    manhattan(start, p),
                    manhattan(start, u),
                );
            }
        }
    }
}

/// After expanding the popped tile at key `(e.0, e.1)`, reaching only new tiles, the
/// search tree holds up to that key, the frontier stays keyed at least as high, and it
/// grew by exactly the newly reached tiles.
proof fn lemma_tree_step(
    b0: &SearchBuffers,
    b1: &SearchBuffers,
    open0: Seq<OpenEntry>,
    open1: Seq<OpenEntry>,
    map: &TileMap,
    mode: PassabilityMode,
    start: TileIndex,
    target: TileIndex,
    e: OpenEntry,
    lf: int,
    lg: int,
)
    requires
        fresh_growth(b0, b1, open0, open1, map, e.2, e.1 as int),
        grew(b0, b1, open0, open1, map, target, e.0 as int, 4),
        chain_ok(b1, map, mode, start, target),
        tree_ok(b0, map, start, target, lf, lg),
        open_above(open0, e.0 as int, e.1 as int),
        key_le(lf, lg, e.0 as int, e.1 as int),
        e.0 == e.1 + manhattan(e.2, target),
        b0.visited(start),
        map.dims().contains(start),
        map.dims().contains(e.2),
        b0.visited(e.2),
        !settled(b0, map, mode, target, e.2) ==> e.1 == b0.cost(e.2),
    ensures
        tree_ok(b1, map, start, target, e.0 as int, e.1 as int),
        open_above(open1, e.0 as int, e.1 as int),
        open1.len() + visited_count(b0) == open0.len() + visited_count(b1),
{
    reveal(fresh_growth);
    reveal(open_above);
    let u = e.2;
    assert forall|j: int| 0 <= j < open1.len() implies key_le(e.0 as int, e.1 as int, #[trigger] open1[j].0 as int, open1[j].1 as int) by {
        reveal(grew);
        if j < open0.len() {
            assert(open1[j] == open0[j]);
        } else {
            assert(open1[j].0 >= e.0);
            assert(open1[j].1 == e.1 + 1);
        }
    }
    assert(tree_ok(b1, map, start, target, e.0 as int, e.1 as int)) by {
        reveal(tree_ok);
        assert forall|t: TileIndex| map.dims().contains(t) && #[trigger] b1.visited(t) implies {
            &&& (b1.cost(t) + manhattan(start, t)) % 2 == 0
            &&& t != start ==> {
                &&& b1.cost(t) == b1.cost(b1.parent(t)) + 1
                &&& key_le(
                    b1.cost(b1.parent(t)) + manhattan(b1.parent(t), target),
                    b1.cost(b1.parent(t)) as int,
                    e.0 as int,
                    e.1 as int,
                )
            }
        } by {
            lemma_tree_step_at(b0, b1, open0, open1, map, mode, start, target, e, lf, lg, t);
        }
    }
}

/// One tile of the tree after an expansion (see `lemma_tree_step`).
#[verifier::rlimit(40)]
#[verifier::spinoff_prover]
proof fn lemma_tree_step_at(
    b0: &SearchBuffers,
    b1: &SearchBuffers,
    open0: Seq<OpenEntry>,
    open1: Seq<OpenEntry>,
    map: &TileMap,
    mode: PassabilityMode,
    start: TileIndex,
    target: TileIndex,
    e: OpenEntry,
    lf: int,
    lg: int,
    t: TileIndex,
)
    requires
        fresh_growth(b0, b1, open0, open1, map, e.2, e.1 as int),
        chain_ok(b1, map, mode, start, target),
        tree_ok(b0, map, start, target, lf, lg),
        key_le(lf, lg, e.0 as int, e.1 as int),
        e.0 == e.1 + manhattan(e.2, target),
        b0.visited(start),
        map.dims().contains(start),
        map.dims().contains(e.2),
        b0.visited(e.2),
        !settled(b0, map, mode, target, e.2) ==> e.1 == b0.cost(e.2),
        map.dims().contains(t),
        b1.visited(t),
    ensures
        (b1.cost(t) + manhattan(start, t)) % 2 == 0,
        t != start ==> b1.cost(t) == b1.cost(b1.parent(t)) + 1,
        t != start ==> key_le(
            b1.cost(b1.parent(t)) + manhattan(b1.parent(t), target),
            b1.cost(b1.parent(t)) as int,
            e.0 as int,
            e.1 as int,
        ),
{
    let u = e.2;
    lemma_fresh_growth_at(b0, b1, open0, open1, map, u, e.1 as int, u);
    lemma_fresh_growth_at(b0, b1, open0, open1, map, u, e.1 as int, t);
    if b0.visited(t) {
        lemma_tree_at(b0, map, start, target, lf, lg, t);
        if t != start {
            let p = b0.parent(t);
            assert(b1.parent(t) == p);
            assert(map.dims().contains(p) && b1.visited(p) && adjacent(p, t));
            lemma_fresh_growth_at(b0, b1, open0, open1, map, u, e.1 as int, p);
            if !b0.visited(p) {
                assert(false);
            }
        }
    } else {
        assert(t != start);
        assert(b1.parent(t) == u);
        assert(adjacent(u, t) && passable(mode, map, t, target));
        if settled(b0, map, mode, target, u) {
            assert(b0.visited(t));
        }
        lemma_tree_at(b0, map, start, target, lf, lg, u);
        lemma_two_neighbours(start, u, u, t);
    }
}


/// What a growth step says of one tile.
proof fn lemma_fresh_growth_at(
    b0: &SearchBuffers,
    b1: &SearchBuffers,
    open0: Seq<OpenEntry>,
    open1: Seq<OpenEntry>,
    map: &TileMap,
    w: TileIndex,
    g: int,
    t: TileIndex,
)
    requires
        fresh_growth(b0, b1, open0, open1, map, w, g),
        map.dims().contains(t),
    ensures
        b0.visited(t) ==> b1.visited(t) && b1.cost(t) == b0.cost(t) && b1.parent(t) == b0.parent(t),
        b1.visited(t) && !b0.visited(t) ==> b1.cost(t) == g + 1 && b1.parent(t) == w,
{
    reveal(fresh_growth);
}


/// The order a vehicle's schedule names at its current order (0 without one), counted
/// modulo the schedule's length.
pub open spec fn scheduled_order(w: World, v: Vehicle) -> OrderType {
    let orders = w.order_lists@[v.orders.0]@;
    let raw: int = match v.current_order {
        Some(i) => i.0 as int,
        None => 0,
    };
    orders[raw % (orders.len() as int)]
}

/// The planning step steers a vehicle whose scheduled order is to go to station `sid`
/// (and that has no cached route) towards that station's first tile: a waypoint it
/// gets is the first tile of a cached shortest route to that tile, and it gets one
/// whenever such a route exists and the budget exceeds the map's area.
pub proof fn lemma_planning_steers_to_scheduled_station(
    mode: PassabilityMode,
    budget: usize,
    w: World,
    routes: Map<u32, (TileIndex, Vec<TileIndex>)>,
    vid: u32,
    w2: World,
    routes2: Map<u32, (TileIndex, Vec<TileIndex>)>,
    sid: StationID,
)
    requires
        route_planned(mode, budget, w, routes, vid, w2, routes2),
        w.vehicles@.contains_key(vid),
        w.vehicles@[vid].state != VehicleState::Loading,
        w.order_lists@.contains_key(w.vehicles@[vid].orders.0),
        w.order_lists@[w.vehicles@[vid].orders.0]@.len() > 0,
        scheduled_order(w, w.vehicles@[vid]) matches OrderType::GoToStation { station_id, .. } && station_id == sid,
        w.stations@.contains_key(sid.0),
        w.stations@[sid.0].tiles@.len() > 0,
        w.vehicles@[vid].position != w.stations@[sid.0].tiles@[0],
        !routes.contains_key(vid),
        w.map.wf(),
        w.map.dims().contains(w.vehicles@[vid].position),
    ensures
        ({
            let pos = w.vehicles@[vid].position;
            let goal = w.stations@[sid.0].tiles@[0];
            &&& w2.vehicles@.contains_key(vid)
            &&& w2.vehicles@[vid].next_waypoint matches Some(wp) ==> {
                &&& routes2.contains_key(vid)
                &&& routes2[vid].0 == goal
                &&& is_route(mode, &w.map, pos, goal, routes2[vid].1@)
                &&& wp == routes2[vid].1@[0]
                &&& forall|q: Seq<TileIndex>| #[trigger] is_route(mode, &w.map, pos, goal, q) ==> routes2[vid].1@.len() <= q.len()
            }
            &&& (exists|q: Seq<TileIndex>| is_route(mode, &w.map, pos, goal, q)) && budget > w.map.dims().spec_area()
                ==> w2.vehicles@[vid].next_waypoint is Some
        }),
{
    let v = w.vehicles@[vid];
    assert(!not_heading_to_station(w, v));
    assert(route_target(w, v) == Some(w.stations@[sid.0].tiles@[0]));
}

} // verus!
