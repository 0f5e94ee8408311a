//! Dry-run validation of placements, and station catchment areas.
use vstd::prelude::*;
use std::collections::{HashMap, HashSet};
use crate::types::enums::TileKind;
use crate::types::id::{CompanyID, EngineID, TileIndex, TownID};
use crate::types::unit::Money;
use crate::world::town::{Building, BuildingKind};
use crate::sim::command::MAX_STATION_TILES;
use crate::sim::commands::{STATION_TILE_COST, engine_cost, tile_free};
use crate::sim::keys::key_list;
use crate::sim::water_path::manhattan;
use crate::sim::world::{World, spec_tile_key, tile_key, lemma_tile_key_injective};
use crate::world::map::MapSize;

verus! {

broadcast use vstd::std_specs::hash::group_hash_axioms;

/// Result of a dry-run placement validation.
#[derive(Debug, Clone, Copy, PartialEq, Eq, Structural)]
pub enum PlacementValidity {
    /// Valid placement with its construction or purchase cost
    Valid { cost: Money },
    /// The tile is outside the map
    OutOfBounds(TileIndex),
    /// The tile is already occupied by a station
    TileOccupied(TileIndex),
    /// The terrain is not suitable for the structure
    InvalidTerrain { tile: TileIndex, kind: TileKind },
    /// The company cannot afford the operation
    InsufficientFunds { cost: Money, available: Money },
    /// The company does not exist
    CompanyNotFound(CompanyID),
}

impl PlacementValidity {
    pub fn is_valid(&self) -> (r: bool)
        ensures
            r == (*self is Valid),
    {
        match self {
            PlacementValidity::Valid { .. } => true,
            _ => false,
        }
    }

    /// The cost of a valid or unaffordable placement; 0 otherwise.
    pub fn cost(&self) -> (c: Money)
        ensures
            c == (match *self {
                PlacementValidity::Valid { cost } => cost,
                PlacementValidity::InsufficientFunds { cost, .. } => cost,
                _ => Money(0),
            }),
    {
        match self {
            PlacementValidity::Valid { cost } => *cost,
            PlacementValidity::InsufficientFunds { cost, .. } => *cost,
            _ => Money(0),
        }
    }
}

/// Whether a station may be placed on `t`: a free tile of buildable terrain.
pub open spec fn placeable(w: World, t: TileIndex) -> bool {
    tile_free(w, t) && w.map.tile_at(t).buildable()
}

/// The tile at `i` is the first of `tiles` on which no station may be placed.
pub open spec fn first_unplaceable(w: World, tiles: Seq<TileIndex>, i: int) -> bool {
    &&& 0 <= i < tiles.len()
    &&& !placeable(w, tiles[i])
    &&& forall|j: int| 0 <= j < i ==> placeable(w, #[trigger] tiles[j])
}

/// Why a station cannot be placed on `t`: outside the map, occupied, or unsuitable
/// terrain, checked in that order.
pub open spec fn unplaceable_reason(w: World, t: TileIndex) -> PlacementValidity {
    if !w.map.dims().contains(t) {
        PlacementValidity::OutOfBounds(t)
    } else if !tile_free(w, t) {
        PlacementValidity::TileOccupied(t)
    } else {
        PlacementValidity::InvalidTerrain { tile: t, kind: w.map.tile_at(t).base.kind }
    }
}

/// The dry-run verdict on building a station for `company_id` on `tiles`: the company
/// must exist, the list be non-empty (an empty list is reported out of bounds at tile
/// (0, 0)), every tile placeable (the first that is not is reported) and the company
/// able to pay 1000 per tile.
pub open spec fn station_placement(w: World, company_id: CompanyID, tiles: Seq<TileIndex>) -> PlacementValidity {
    if !w.companies@.contains_key(company_id.0) {
        PlacementValidity::CompanyNotFound(company_id)
    } else if tiles.len() == 0 {
        PlacementValidity::OutOfBounds(TileIndex { x: 0, y: 0 })
    } else if exists|i: int| first_unplaceable(w, tiles, i) {
        unplaceable_reason(w, tiles[choose|i: int| first_unplaceable(w, tiles, i)])
    } else {
        let cost = Money((STATION_TILE_COST * tiles.len()) as i64);
        let money = w.companies@[company_id.0].money;
        if money.0 < cost.0 {
            PlacementValidity::InsufficientFunds { cost, available: money }
        } else {
            PlacementValidity::Valid { cost }
        }
    }
}

/// The dry-run verdict on buying a vehicle of engine `engine_id` at `position`.
pub open spec fn vehicle_placement(w: World, company_id: CompanyID, engine_id: EngineID, position: TileIndex) -> PlacementValidity {
    if !w.companies@.contains_key(company_id.0) {
        PlacementValidity::CompanyNotFound(company_id)
    } else if !w.map.dims().contains(position) {
        PlacementValidity::OutOfBounds(position)
    } else {
        let cost = engine_cost(w, engine_id);
        let money = w.companies@[company_id.0].money;
        if money.0 < cost.0 {
            PlacementValidity::InsufficientFunds { cost, available: money }
        } else {
            PlacementValidity::Valid { cost }
        }
    }
}

/// Walking distance of a station catchment.
pub const CATCHMENT_RADIUS: i32 = 3i32;

/// Whether `t` lies inside the map within walking distance (Manhattan distance 3) of
/// one of `station_tiles`.
pub open spec fn in_catchment(dims: MapSize, station_tiles: Seq<TileIndex>, t: TileIndex) -> bool {
    dims.contains(t) && exists|i: int| 0 <= i < station_tiles.len() && manhattan(#[trigger] station_tiles[i], t) <= 3
}

/// Catchment of a station: the tiles in walking distance, the residential and workplace
/// capacity of the buildings on them, and the towns those buildings belong to.
#[derive(Debug, Clone, PartialEq, Eq)]
pub struct CatchmentSummary {
    /// Tiles of the catchment, each once
    pub catchment_tiles: Vec<TileIndex>,
    pub residential_capacity: u32,
    pub workplace_capacity: u32,
    /// Towns served, in increasing ID order
    pub towns_served: Vec<TownID>,
}

/// `a + b`, saturating at the maximum of `u32`.
pub open spec fn add_capped(a: int, b: int) -> int {
    if a + b > u32::MAX {
        u32::MAX as int
    } else {
        a + b
    }
}

/// The capacity of the buildings under the keys `ks` that stand in the catchment and
/// are of a kind selected by `residential` (residences, else workplaces), summed
/// saturating.
pub open spec fn capacity_sum(buildings: Map<u32, Building>, ks: Seq<u32>, dims: MapSize, st: Seq<TileIndex>, residential: bool) -> int
    decreases ks.len(),
{
    if ks.len() == 0 {
        0
    } else {
        let b = buildings[ks.last()];
        let prev = capacity_sum(buildings, ks.drop_last(), dims, st, residential);
        let counts = in_catchment(dims, st, b.tile) && if residential {
            b.kind == BuildingKind::Residential
        } else {
            b.kind == BuildingKind::Commercial || b.kind == BuildingKind::Industrial
        };
        if counts {
            add_capped(prev, b.capacity as int)
        } else {
            prev
        }
    }
}

/// Whether some building in the catchment belongs to town `town`.
pub open spec fn serves(buildings: Map<u32, Building>, dims: MapSize, st: Seq<TileIndex>, town: TownID) -> bool {
    exists|k: u32| #[trigger] buildings.contains_key(k) && in_catchment(dims, st, buildings[k].tile) && buildings[k].town_id == town
}

/// Dry-run validation engine: placement checks and catchment overlays.
pub struct DryRunValidator;

impl DryRunValidator {
    /// Validate building a station on `tiles` for `company_id`.
    pub fn validate_station_placement(world: &World, company_id: CompanyID, tiles: &[TileIndex]) -> (r: PlacementValidity)
        requires
            world.inv(),
            tiles@.len() <= MAX_STATION_TILES,
        ensures
            r == station_placement(*world, company_id, tiles@),
    {
        let money = match world.companies.get(&company_id.0) {
            Some(c) => c.money,
            None => {
                return PlacementValidity::CompanyNotFound(company_id);
            },
        };
        if tiles.len() == 0 {
            return PlacementValidity::OutOfBounds(TileIndex::new(0, 0));
        }
        let size = world.map.size();
        let mut i: usize = 0;
        while i < tiles.len()
            invariant
                i <= tiles@.len(),
                world.inv(),
                size == world.map.dims(),
                world.companies@.contains_key(company_id.0),
                tiles@.len() > 0,
                forall|j: int| 0 <= j < i ==> placeable(*world, #[trigger] tiles@[j]),
            decreases tiles@.len() - i,
        {
            let t = tiles[i];
            let reason = if !size.is_valid_index(t) {
                Some(PlacementValidity::OutOfBounds(t))
            } else if world.tile_to_station.contains_key(&tile_key(t)) || world.map.station_at(t).is_some() {
                Some(PlacementValidity::TileOccupied(t))
            } else {
                match world.map.get(t) {
                    Some(tile) => if !tile.is_buildable() {
                        Some(PlacementValidity::InvalidTerrain { tile: t, kind: tile.base.kind })
                    } else {
                        None
                    },
                    None => None,
                }
            };
            match reason {
                Some(v) => {
                    proof {
                        assert(first_unplaceable(*world, tiles@, i as int));
                        let k = choose|k: int| first_unplaceable(*world, tiles@, k);
                        assert(k == i) by {
                            if k < i {
                                assert(placeable(*world, tiles@[k]));
                            }
                            if i < k {
                                assert(placeable(*world, tiles@[i as int]));
                            }
                        }
                    }
                    return v;
                },
                None => {},
            }
            i = i + 1;
        }
        proof {
            assert(!exists|k: int| first_unplaceable(*world, tiles@, k));
        }
        let cost = Money(STATION_TILE_COST * (tiles.len() as i64));
        if money.0 < cost.0 {
            return PlacementValidity::InsufficientFunds { cost, available: money };
        }
        PlacementValidity::Valid { cost }
    }

    /// Validate buying a vehicle of `engine_id` at `position` for `company_id`.
    pub fn validate_vehicle_placement(world: &World, company_id: CompanyID, engine_id: EngineID, position: TileIndex) -> (r: PlacementValidity)
        ensures
            r == vehicle_placement(*world, company_id, engine_id, position),
    {
        let money = match world.companies.get(&company_id.0) {
            Some(c) => c.money,
            None => {
                return PlacementValidity::CompanyNotFound(company_id);
            },
        };
        if !world.map.size().is_valid_index(position) {
            return PlacementValidity::OutOfBounds(position);
        }
        let cost = match world.engines.get(&engine_id.0) {
            Some(e) => e.cost,
            None => Money(5000),
        };
        if money.0 < cost.0 {
            return PlacementValidity::InsufficientFunds { cost, available: money };
        }
        PlacementValidity::Valid { cost }
    }
}

/// Whether `t` is within walking distance of `c` and inside the map.
pub open spec fn near(dims: MapSize, c: TileIndex, t: TileIndex) -> bool {
    dims.contains(t) && manhattan(c, t) <= 3
}

/// `t` comes before column `x` of row `y` in row-major order.
pub open spec fn row_major_before(t: TileIndex, x: int, y: int) -> bool {
    t.y < y || (t.y == y && t.x < x)
}

/// Add `t` to the catchment list unless already there.
fn add_tile(tiles: &mut Vec<TileIndex>, seen: &mut HashSet<u32>, t: TileIndex)
    requires
        old(tiles)@.no_duplicates(),
        forall|u: TileIndex| #[trigger] old(seen)@.contains(spec_tile_key(u)) <==> old(tiles)@.contains(u),
    ensures
        final(tiles)@.no_duplicates(),
        forall|u: TileIndex| #[trigger] final(seen)@.contains(spec_tile_key(u)) <==> final(tiles)@.contains(u),
        forall|u: TileIndex| #[trigger] final(tiles)@.contains(u) <==> (old(tiles)@.contains(u) || u == t),
{
    let ghost t0 = tiles@;
    if seen.insert(tile_key(t)) {
        tiles.push(t);
        proof {
            assert forall|u: TileIndex| #[trigger] tiles@.contains(u) <==> (t0.contains(u) || u == t) by {
                if tiles@.contains(u) && u != t {
                    let j = choose|j: int| 0 <= j < tiles@.len() && tiles@[j] == u;
                    assert(t0[j] == u);
                }
                if t0.contains(u) {
                    let j = choose|j: int| 0 <= j < t0.len() && t0[j] == u;
                    assert(tiles@[j] == u);
                }
                if u == t {
                    assert(tiles@[t0.len() as int] == u);
                }
            }
            assert forall|u: TileIndex| #[trigger] seen@.contains(spec_tile_key(u)) <==> tiles@.contains(u) by {
                lemma_tile_key_injective(u, t);
            }
            assert(!t0.contains(t));
            assert forall|a: int, b: int| 0 <= a < tiles@.len() && 0 <= b < tiles@.len() && a != b implies tiles@[a] != tiles@[b] by {
                if a == t0.len() {
                    assert(t0.contains(tiles@[b]));
                } else if b == t0.len() {
                    assert(t0.contains(tiles@[a]));
                }
            }
        }
    } else {
        proof {
            lemma_tile_key_injective(t, t);
        }
    }
}

/// Add the tiles within walking distance of `c` to the catchment list.
fn add_near_tiles(tiles: &mut Vec<TileIndex>, seen: &mut HashSet<u32>, c: TileIndex, dims: MapSize)
    requires
        old(tiles)@.no_duplicates(),
        forall|u: TileIndex| #[trigger] old(seen)@.contains(spec_tile_key(u)) <==> old(tiles)@.contains(u),
    ensures
        final(tiles)@.no_duplicates(),
        forall|u: TileIndex| #[trigger] final(seen)@.contains(spec_tile_key(u)) <==> final(tiles)@.contains(u),
        forall|u: TileIndex| #[trigger] final(tiles)@.contains(u) <==> (old(tiles)@.contains(u) || near(dims, c, u)),
{
    let ghost t0 = tiles@;
    let y0: u32 = if c.y >= 3 { (c.y - 3) as u32 } else { 0 };
    let y1: u32 = c.y as u32 + 3;
    let x0: u32 = if c.x >= 3 { (c.x - 3) as u32 } else { 0 };
    let x1: u32 = c.x as u32 + 3;
    let mut y: u32 = y0;
    while y <= y1
        invariant
            y0 <= y <= y1 + 1,
            y0 == (if c.y >= 3 { c.y - 3 } else { 0 }),
            y1 == c.y + 3,
            x0 == (if c.x >= 3 { c.x - 3 } else { 0 }),
            x1 == c.x + 3,
            tiles@.no_duplicates(),
            forall|u: TileIndex| #[trigger] seen@.contains(spec_tile_key(u)) <==> tiles@.contains(u),
            forall|u: TileIndex| #[trigger] tiles@.contains(u) <==> (t0.contains(u) || (near(dims, c, u) && u.y < y)),
        decreases y1 + 1 - y,
    {
        let mut x: u32 = x0;
        while x <= x1
            invariant
                y0 <= y <= y1,
                x0 <= x <= x1 + 1,
                x0 == (if c.x >= 3 { c.x - 3 } else { 0 }),
                x1 == c.x + 3,
                tiles@.no_duplicates(),
                forall|u: TileIndex| #[trigger] seen@.contains(spec_tile_key(u)) <==> tiles@.contains(u),
                forall|u: TileIndex| #[trigger] tiles@.contains(u) <==> (t0.contains(u) || (near(dims, c, u) && row_major_before(u, x as int, y as int))),
            decreases x1 + 1 - x,
        {
            if x < dims.width as u32 && y < dims.height as u32 {
                let t = TileIndex::new(x as u16, y as u16);
                if crate::sim::water_path::manhattan_distance(c, t) <= 3 {
                    add_tile(tiles, seen, t);
                }
            }
            proof {
                assert forall|u: TileIndex| #[trigger] tiles@.contains(u) <==> (t0.contains(u) || (near(dims, c, u) && row_major_before(u, x + 1, y as int))) by {
                    if u.y == y && u.x == x {
                    }
                }
            }
            x = x + 1;
        }
        proof {
            assert forall|u: TileIndex| #[trigger] tiles@.contains(u) <==> (t0.contains(u) || (near(dims, c, u) && u.y < y + 1)) by {
                if near(dims, c, u) && u.y == y {
                    assert(u.x <= c.x + 3);
                    assert(row_major_before(u, x as int, y as int));
                }
            }
        }
        y = y + 1;
    }
    proof {
        assert forall|u: TileIndex| #[trigger] tiles@.contains(u) <==> (t0.contains(u) || near(dims, c, u)) by {
            if near(dims, c, u) {
                assert(u.y <= c.y + 3);
            }
        }
    }
}

/// Insert `x` into a strictly increasing list unless present.
fn insert_sorted_unique(v: &mut Vec<u32>, x: u32)
    requires
        forall|i: int, j: int| 0 <= i < j < old(v)@.len() ==> old(v)@[i] < old(v)@[j],
    ensures
        forall|i: int, j: int| 0 <= i < j < final(v)@.len() ==> final(v)@[i] < final(v)@[j],
        forall|u: u32| #[trigger] final(v)@.contains(u) <==> (old(v)@.contains(u) || u == x),
{
    let mut pos: usize = 0;
    while pos < v.len()
        invariant
            pos <= v@.len(),
            v@ == old(v)@,
            forall|j: int| 0 <= j < pos ==> v@[j] < x,
        ensures
            pos <= v@.len(),
            v@ == old(v)@,
            forall|j: int| 0 <= j < pos ==> v@[j] < x,
            pos < v@.len() ==> v@[pos as int] >= x,
        decreases v@.len() - pos,
    {
        if v[pos] >= x {
            break;
        }
        pos = pos + 1;
    }
    if pos < v.len() && v[pos] == x {
        proof {
            assert(v@[pos as int] == x);
        }
        return;
    }
    let ghost v0 = v@;
    v.insert(pos, x);
    proof {
        assert forall|i: int, j: int| 0 <= i < j < v@.len() implies v@[i] < v@[j] by {
            if j < pos {
                assert(v@[i] == v0[i] && v@[j] == v0[j]);
            } else if i < pos && j == pos {
            } else if i < pos {
                assert(v@[j] == v0[j - 1]);
            } else if i == pos {
                assert(v@[j] == v0[j - 1]);
                if j - 1 > pos {
                    assert(v0[pos as int] < v0[j - 1]);
                }
            } else {
                assert(v@[i] == v0[i - 1] && v@[j] == v0[j - 1]);
            }
        }
        assert forall|u: u32| #[trigger] v@.contains(u) <==> (v0.contains(u) || u == x) by {
            if v@.contains(u) {
                let j = choose|j: int| 0 <= j < v@.len() && v@[j] == u;
                if j < pos {
                    assert(v0[j] == u);
                } else if j > pos {
                    assert(v0[j - 1] == u);
                }
            }
            if v0.contains(u) {
                let j = choose|j: int| 0 <= j < v0.len() && v0[j] == u;
                if j < pos {
                    assert(v@[j] == u);
                } else {
                    assert(v@[j + 1] == u);
                }
            }
            if u == x {
                assert(v@[pos as int] == u);
            }
        }
    }
}

impl DryRunValidator {
    /// The catchment of a station on `station_tiles`: the map tiles within Manhattan
    /// distance 3 of one of them (each listed once), the capacity of the residences and
    /// of the workplaces on those tiles (each summed saturating), and the towns of the
    /// buildings on them, in increasing ID order.
    pub fn calculate_catchment(world: &World, station_tiles: &[TileIndex]) -> (c: CatchmentSummary)
        ensures
            c.catchment_tiles@.no_duplicates(),
            forall|t: TileIndex| #[trigger] c.catchment_tiles@.contains(t) <==> in_catchment(world.map.dims(), station_tiles@, t),
            exists|ks: Seq<u32>| #![trigger ks.len()] {
                &&& ks.no_duplicates()
                &&& forall|k: u32| #[trigger] ks.contains(k) <==> world.buildings@.contains_key(k)
                &&& c.residential_capacity == capacity_sum(world.buildings@, ks, world.map.dims(), station_tiles@, true)
                &&& c.workplace_capacity == capacity_sum(world.buildings@, ks, world.map.dims(), station_tiles@, false)
            },
            forall|i: int, j: int| 0 <= i < j < c.towns_served@.len() ==> (#[trigger] c.towns_served@[i]).0 < (#[trigger] c.towns_served@[j]).0,
            forall|town: TownID| #[trigger] c.towns_served@.contains(town) <==> serves(world.buildings@, world.map.dims(), station_tiles@, town),
    {
        let dims = world.map.size();
        let ghost st = station_tiles@;
        let mut tiles: Vec<TileIndex> = Vec::new();
        let mut seen: HashSet<u32> = HashSet::new();
        let mut s: usize = 0;
        while s < station_tiles.len()
            invariant
                s <= st.len(),
                st == station_tiles@,
                dims == world.map.dims(),
                tiles@.no_duplicates(),
                forall|u: TileIndex| #[trigger] seen@.contains(spec_tile_key(u)) <==> tiles@.contains(u),
                forall|u: TileIndex| #[trigger] tiles@.contains(u) <==> in_catchment(dims, st.subrange(0, s as int), u),
            decreases st.len() - s,
        {
            let ghost before = tiles@;
            add_near_tiles(&mut tiles, &mut seen, station_tiles[s], dims);
            proof {
                let p0 = st.subrange(0, s as int);
                let p1 = st.subrange(0, s + 1);
                assert forall|u: TileIndex| #[trigger] tiles@.contains(u) <==> in_catchment(dims, p1, u) by {
                    if in_catchment(dims, p1, u) {
                        let i = choose|i: int| 0 <= i < p1.len() && manhattan(#[trigger] p1[i], u) <= 3;
                        if i < s {
                            assert(p0[i] == p1[i]);
                            assert(in_catchment(dims, p0, u));
                        }
                    }
                    if in_catchment(dims, p0, u) {
                        let i = choose|i: int| 0 <= i < p0.len() && manhattan(#[trigger] p0[i], u) <= 3;
                        assert(p1[i] == p0[i]);
                    }
                    if near(dims, st[s as int], u) {
                        assert(p1[s as int] == st[s as int]);
                    }
                }
            }
            s = s + 1;
        }
        proof {
            assert(st.subrange(0, s as int) =~= st);
        }
        let keys = key_list(&world.buildings);
        let mut residential: u32 = 0;
        let mut workplace: u32 = 0;
        let mut towns: Vec<u32> = Vec::new();
        let mut i: usize = 0;
        while i < keys.len()
            invariant
                i <= keys@.len(),
                dims == world.map.dims(),
                st == station_tiles@,
                forall|k: u32| keys@.contains(k) <==> world.buildings@.contains_key(k),
                forall|u: TileIndex| #[trigger] seen@.contains(spec_tile_key(u)) <==> tiles@.contains(u),
                forall|u: TileIndex| #[trigger] tiles@.contains(u) <==> in_catchment(dims, st, u),
                residential == capacity_sum(world.buildings@, keys@.subrange(0, i as int), dims, st, true),
                workplace == capacity_sum(world.buildings@, keys@.subrange(0, i as int), dims, st, false),
                forall|a: int, b: int| 0 <= a < b < towns@.len() ==> towns@[a] < towns@[b],
                forall|t: u32| #[trigger] towns@.contains(t) <==> exists|j: int| 0 <= j < i
                    && in_catchment(dims, st, world.buildings@[#[trigger] keys@[j]].tile) && world.buildings@[keys@[j]].town_id.0 == t,
            decreases keys@.len() - i,
        {
            let k = keys[i];
            assert(keys@.contains(k));
            let b = world.buildings.get(&k).unwrap();
            let ghost towns0 = towns@;
            let inside = seen.contains(&tile_key(b.tile));
            if inside {
                insert_sorted_unique(&mut towns, b.town_id.0);
                if b.is_residence() {
                    residential = if residential > u32::MAX - b.capacity as u32 {
                        u32::MAX
                    } else {
                        residential + b.capacity as u32
                    };
                } else if b.is_workplace() {
                    workplace = if workplace > u32::MAX - b.capacity as u32 {
                        u32::MAX
                    } else {
                        workplace + b.capacity as u32
                    };
                }
            }
            proof {
                let sub = keys@.subrange(0, i + 1);
                assert(sub.drop_last() =~= keys@.subrange(0, i as int));
                assert(sub.last() == k);
                assert(inside == in_catchment(dims, st, b.tile));
                assert forall|t: u32| #[trigger] towns@.contains(t) <==> exists|j: int| 0 <= j < i + 1
                    && in_catchment(dims, st, world.buildings@[#[trigger] keys@[j]].tile) && world.buildings@[keys@[j]].town_id.0 == t by {
                    if exists|j: int| 0 <= j < i + 1 && in_catchment(dims, st, world.buildings@[#[trigger] keys@[j]].tile) && world.buildings@[keys@[j]].town_id.0 == t {
                        let j = choose|j: int| 0 <= j < i + 1 && in_catchment(dims, st, world.buildings@[#[trigger] keys@[j]].tile) && world.buildings@[keys@[j]].town_id.0 == t;
                        if j < i {
                            assert(towns0.contains(t));
                        }
                    }
                    if towns0.contains(t) {
                        let j = choose|j: int| 0 <= j < i && in_catchment(dims, st, world.buildings@[#[trigger] keys@[j]].tile) && world.buildings@[keys@[j]].town_id.0 == t;
                        assert(0 <= j < i + 1);
                    }
                }
            }
            i = i + 1;
        }
        let mut towns_served: Vec<TownID> = Vec::new();
        let mut m: usize = 0;
        while m < towns.len()
            invariant
                m <= towns@.len(),
                towns_served@.len() == m,
                forall|j: int| 0 <= j < m ==> (#[trigger] towns_served@[j]).0 == towns@[j],
            decreases towns@.len() - m,
        {
            towns_served.push(TownID(towns[m]));
            m = m + 1;
        }
        proof {
            assert(keys@.subrange(0, i as int) =~= keys@);
            let bs = world.buildings@;
            assert forall|town: TownID| #[trigger] towns_served@.contains(town) <==> serves(bs, dims, st, town) by {
                if towns_served@.contains(town) {
                    let j = choose|j: int| 0 <= j < towns_served@.len() && towns_served@[j] == town;
                    assert(towns@.contains(towns@[j]));
                    let a = choose|a: int| 0 <= a < i && in_catchment(dims, st, bs[#[trigger] keys@[a]].tile) && bs[keys@[a]].town_id.0 == towns@[j];
                    assert(keys@.contains(keys@[a]));
                    assert(bs.contains_key(keys@[a]));
                }
                if serves(bs, dims, st, town) {
                    let k = choose|k: u32| #[trigger] bs.contains_key(k) && in_catchment(dims, st, bs[k].tile) && bs[k].town_id == town;
                    assert(keys@.contains(k));
                    let a = choose|a: int| 0 <= a < keys@.len() && keys@[a] == k;
                    assert(towns@.contains(town.0));
                    let j = choose|j: int| 0 <= j < towns@.len() && towns@[j] == town.0;
                    assert(towns_served@[j] == town);
                }
            }
            assert(keys@.len() == keys@.len());
        }
        CatchmentSummary {
            catchment_tiles: tiles,
            residential_capacity: residential,
            workplace_capacity: workplace,
            towns_served,
        }
    }
}

} // verus!
