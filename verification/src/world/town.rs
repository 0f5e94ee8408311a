//! Towns, their buildings, commute bookkeeping and growth pulses.
use vstd::prelude::*;
use vstd::std_specs::iter::IteratorSpec;
use std::collections::HashMap;
use crate::types::enums::TileKind;
use crate::types::id::{BuildingID, TileIndex, TownID};
use crate::world::map::TileMap;

verus! {

/// Functional classification of an urban building.
#[derive(Debug, Copy, Clone, PartialEq, Eq, Structural, Hash)]
pub enum BuildingKind {
    /// Housing where residents live and generate commute trips
    Residential,
    /// Office or retail destination providing service employment
    Commercial,
    /// Factory or processing facility providing production employment
    Industrial,
}

/// A physical building in a town.
#[derive(Debug, Copy, Clone, PartialEq, Eq, Structural)]
pub struct Building {
    pub id: BuildingID,
    pub town_id: TownID,
    pub tile: TileIndex,
    pub kind: BuildingKind,
    pub capacity: u16,
    pub occupancy: u16,
}

impl Building {
    /// A new building starts fully occupied.
    pub fn new(id: BuildingID, town_id: TownID, tile: TileIndex, kind: BuildingKind, capacity: u16) -> (b: Building)
        ensures
            b == (Building { id, town_id, tile, kind, capacity, occupancy: capacity }),
    {
        Building { id, town_id, tile, kind, capacity, occupancy: capacity }
    }

    /// Whether the building accepts worker commuters (commercial or industrial).
    pub fn is_workplace(&self) -> (r: bool)
        ensures
            r == (self.kind == BuildingKind::Commercial || self.kind == BuildingKind::Industrial),
    {
        match self.kind {
            BuildingKind::Commercial | BuildingKind::Industrial => true,
            _ => false,
        }
    }

    /// Whether the building generates home commuters (residential).
    pub fn is_residence(&self) -> (r: bool)
        ensures
            r == (self.kind == BuildingKind::Residential),
    {
        match self.kind {
            BuildingKind::Residential => true,
            _ => false,
        }
    }
}

/// Urban centre governing population, buildings and growth pulses.
#[derive(Debug, Clone, PartialEq, Eq)]
pub struct Town {
    pub id: TownID,
    pub name: String,
    pub center: TileIndex,
    /// Total population residing in this town
    pub census_population: u32,
    /// Average satisfaction score (0 = furious, 100 = delighted)
    pub satisfaction_score: u8,
    /// Cumulative commute trips requested by residents
    pub demanded_commutes: u64,
    /// Cumulative commute trips completed
    pub fulfilled_commutes: u64,
    /// Buildings belonging to this town
    pub building_ids: Vec<BuildingID>,
    /// Accumulated growth momentum
    pub growth_counter: u32,
}

/// Fulfilment ratio of at least 60% (a town with no demand counts as fully served).
pub open spec fn ratio_at_least_60(fulfilled: u64, demanded: u64) -> bool {
    demanded == 0 || fulfilled * 5 >= demanded * 3
}

/// Fulfilment ratio below 20%.
pub open spec fn ratio_below_20(fulfilled: u64, demanded: u64) -> bool {
    demanded != 0 && fulfilled * 5 < demanded
}

/// Whether `t` lies within Chebyshev distance `r` of `c`.
pub open spec fn in_square(c: TileIndex, t: TileIndex, r: int) -> bool {
    -r <= t.x - c.x <= r && -r <= t.y - c.y <= r
}

/// Row-major order: `a` comes before `b`.
pub open spec fn row_major_before(a: TileIndex, b: TileIndex) -> bool {
    a.y < b.y || (a.y == b.y && a.x < b.x)
}

/// Whether some building in `buildings` stands on `t`.
pub open spec fn occupied(buildings: Map<u32, Building>, t: TileIndex) -> bool {
    exists|b: Building| buildings.values().contains(b) && b.tile == t
}

/// A tile where a town may expand: inside the map, not built on, and clear or grass.
pub open spec fn expansion_candidate(map: &TileMap, buildings: Map<u32, Building>, t: TileIndex) -> bool {
    &&& map.dims().contains(t)
    &&& !occupied(buildings, t)
    &&& (map.tile_at(t).base.kind == TileKind::Clear || map.tile_at(t).base.kind == TileKind::Grass)
}

/// No expansion candidate lies within Chebyshev distance `r` of the centre.
pub open spec fn none_within(map: &TileMap, buildings: Map<u32, Building>, c: TileIndex, r: int) -> bool {
    forall|t: TileIndex| in_square(c, t, r) ==> !#[trigger] expansion_candidate(map, buildings, t)
}

/// The kind of the next building of a town that already has `n` buildings:
/// residential for even counts, then alternating commercial and industrial.
pub open spec fn next_building_kind(n: nat) -> BuildingKind {
    if n % 2 == 0 {
        BuildingKind::Residential
    } else if n % 4 == 1 {
        BuildingKind::Commercial
    } else {
        BuildingKind::Industrial
    }
}

/// Capacity of a newly grown building of the given kind.
pub open spec fn grown_capacity(kind: BuildingKind) -> u16 {
    match kind {
        BuildingKind::Residential => 20,
        BuildingKind::Commercial => 15,
        BuildingKind::Industrial => 25,
    }
}

/// Tile kind painted on the map for a grown building.
pub open spec fn grown_tile_kind(kind: BuildingKind) -> TileKind {
    match kind {
        BuildingKind::Industrial => TileKind::Industry,
        _ => TileKind::House,
    }
}

/// The growth counter after one evaluation, before a pulse resets it.
pub open spec fn bumped_counter(t: &Town) -> u32 {
    if ratio_at_least_60(t.fulfilled_commutes, t.demanded_commutes) && t.satisfaction_score >= 70 {
        (t.growth_counter + 1) as u32
    } else if ratio_below_20(t.fulfilled_commutes, t.demanded_commutes) {
        if t.growth_counter > 0 { (t.growth_counter - 1) as u32 } else { 0 }
    } else {
        t.growth_counter
    }
}

/// The tile a growth pulse picks: the nearest candidate ring first (radius 1 to 8,
/// the centre counting as radius 1), then row-major within that square.
pub open spec fn is_chosen_expansion(map: &TileMap, buildings: Map<u32, Building>, c: TileIndex, t: TileIndex) -> bool {
    exists|r: int|
        #![trigger in_square(c, t, r)]
        1 <= r <= 8 && in_square(c, t, r) && expansion_candidate(map, buildings, t) && (r == 1
            || none_within(map, buildings, c, r - 1)) && forall|t2: TileIndex|
            in_square(c, t2, r) && expansion_candidate(map, buildings, t2) ==> !row_major_before(t2, t)
}

fn tiles_contain(occ: &Vec<TileIndex>, t: TileIndex) -> (r: bool)
    ensures
        r == occ@.contains(t),
{
    let mut i: usize = 0;
    while i < occ.len()
        invariant
            i <= occ@.len(),
            forall|j: int| 0 <= j < i ==> occ@[j] != t,
        decreases occ@.len() - i,
    {
        if occ[i].x == t.x && occ[i].y == t.y {
            return true;
        }
        i = i + 1;
    }
    false
}

/// The tiles of all buildings in the map, in some order.
fn occupied_tiles(buildings: &HashMap<u32, Building>) -> (occ: Vec<TileIndex>)
    ensures
        forall|t: TileIndex| occ@.contains(t) <==> occupied(buildings@, t),
{
    broadcast use vstd::std_specs::hash::group_hash_axioms;
    let mut occ: Vec<TileIndex> = Vec::new();
    let ghost vs = vstd::std_specs::hash::spec_values_iter(buildings).remaining();
    let ghost mut count: int = 0;
    for b in it: buildings.values()
        invariant
            count == it.index(),
            vs == vstd::std_specs::hash::spec_values_iter(buildings).remaining(),
            occ@.len() == count,
            forall|j: int| 0 <= j < count ==> occ@[j] == (*vs[j]).tile,
    {
        occ.push(b.tile);
        proof {
            count = count + 1;
        }
    }
    proof {
        let us = vs.unref();
        assert(us.to_set() == buildings@.values());
        assert forall|t: TileIndex| occ@.contains(t) <==> occupied(buildings@, t) by {
            if occ@.contains(t) {
                let j = choose|j: int| 0 <= j < occ@.len() && occ@[j] == t;
                assert(us[j] == *vs[j]);
                assert(us.contains(us[j]));
                assert(buildings@.values().contains(us[j]));
            }
            if occupied(buildings@, t) {
                let b = choose|b: Building| buildings@.values().contains(b) && b.tile == t;
                assert(us.to_set().contains(b));
                let j = choose|j: int| 0 <= j < us.len() && us[j] == b;
                assert(occ@[j] == t);
            }
        }
    }
    occ
}

impl Town {
    pub fn new(id: TownID, name: String, center: TileIndex) -> (t: Town)
        ensures
            t.id == id,
            t.name == name,
            t.center == center,
            t.census_population == 0,
            t.satisfaction_score == 80,
            t.demanded_commutes == 0,
            t.fulfilled_commutes == 0,
            t.building_ids@.len() == 0,
            t.growth_counter == 0,
    {
        Town {
            id,
            name,
            center,
            census_population: 0,
            satisfaction_score: 80,
            demanded_commutes: 0,
            fulfilled_commutes: 0,
            building_ids: Vec::new(),
            growth_counter: 0,
        }
    }

    /// Record one commute trip and fold the traveller's satisfaction into the town's
    /// score as a 90% / 10% moving average, capped at 100.
    pub fn record_commute(&mut self, fulfilled: bool, peep_satisfaction: u8)
        requires
            old(self).demanded_commutes < u64::MAX,
            fulfilled ==> old(self).fulfilled_commutes < u64::MAX,
        ensures
            final(self).demanded_commutes == old(self).demanded_commutes + 1,
            final(self).fulfilled_commutes == old(self).fulfilled_commutes + if fulfilled { 1int } else { 0 },
            final(self).satisfaction_score == (if (old(self).satisfaction_score * 9 + peep_satisfaction) / 10 > 100 {
                100
            } else {
                (old(self).satisfaction_score * 9 + peep_satisfaction) / 10
            }),
            final(self).id == old(self).id,
            final(self).name == old(self).name,
            final(self).center == old(self).center,
            final(self).census_population == old(self).census_population,
            final(self).building_ids == old(self).building_ids,
            final(self).growth_counter == old(self).growth_counter,
    {
        self.demanded_commutes = self.demanded_commutes + 1;
        if fulfilled {
            self.fulfilled_commutes = self.fulfilled_commutes + 1;
        }
        let old_score = self.satisfaction_score as u32;
        let incoming = peep_satisfaction as u32;
        let avg = (old_score * 9 + incoming) / 10;
        self.satisfaction_score = if avg > 100 { 100 } else { avg as u8 };
    }

    /// Search for an expansion tile: radii 1 to 8 around the centre, each square scanned
    /// row by row; the first clear or grass tile inside the map without a building wins.
    pub fn find_expansion_tile(&self, map: &TileMap, existing_buildings: &HashMap<u32, Building>) -> (r: Option<TileIndex>)
        requires
            map.wf(),
        ensures
            r matches Some(t) ==> is_chosen_expansion(map, existing_buildings@, self.center, t),
            r is None ==> none_within(map, existing_buildings@, self.center, 8),
    {
        let occ = occupied_tiles(existing_buildings);
        let ghost bs = existing_buildings@;
        let c = self.center;
        let cx = c.x as i32;
        let cy = c.y as i32;
        let mut r: i32 = 1;
        while r <= 8
            invariant
                1 <= r <= 9,
                map.wf(),
                cx == c.x,
                c == self.center,
                cy == c.y,
                bs == existing_buildings@,
                forall|t: TileIndex| occ@.contains(t) <==> occupied(bs, t),
                r == 1 || none_within(map, bs, c, r - 1),
            decreases 9 - r,
        {
            let mut dy: i32 = -r;
            while dy <= r
                invariant
                    1 <= r <= 8,
                    -r <= dy <= r + 1,
                    map.wf(),
                    cx == c.x,
                    c == self.center,
                    cy == c.y,
                    bs == existing_buildings@,
                    forall|t: TileIndex| occ@.contains(t) <==> occupied(bs, t),
                    r == 1 || none_within(map, bs, c, r - 1),
                    forall|t: TileIndex|
                        in_square(c, t, r as int) && t.y < cy + dy ==> !#[trigger] expansion_candidate(map, bs, t),
                decreases r + 1 - dy,
            {
                let mut dx: i32 = -r;
                while dx <= r
                    invariant
                        1 <= r <= 8,
                        -r <= dy <= r,
                        -r <= dx <= r + 1,
                        map.wf(),
                        cx == c.x,
                        c == self.center,
                        cy == c.y,
                        bs == existing_buildings@,
                        forall|t: TileIndex| occ@.contains(t) <==> occupied(bs, t),
                        r == 1 || none_within(map, bs, c, r - 1),
                        forall|t: TileIndex|
                            in_square(c, t, r as int) && t.y < cy + dy ==> !#[trigger] expansion_candidate(map, bs, t),
                        forall|t: TileIndex|
                            in_square(c, t, r as int) && t.y == cy + dy && t.x < cx + dx ==> !#[trigger] expansion_candidate(map, bs, t),
                    decreases r + 1 - dx,
                {
                    let nx = cx + dx;
                    let ny = cy + dy;
                    if nx >= 0 && ny >= 0 && nx <= 65535 && ny <= 65535 {
                        let candidate = TileIndex { x: nx as u16, y: ny as u16 };
                        if map.size().is_valid_index(candidate) && !tiles_contain(&occ, candidate) {
                            match map.get(candidate) {
                                Some(tile) => match tile.base.kind {
                                    TileKind::Clear | TileKind::Grass => {
                                        proof {
                                            assert(expansion_candidate(map, bs, candidate));
                                            assert(in_square(c, candidate, r as int));
                                            assert forall|t2: TileIndex|
                                                in_square(c, t2, r as int) && expansion_candidate(map, bs, t2)
                                                implies !row_major_before(t2, candidate) by {}
                                            let ri = r as int;
                                            assert(1 <= ri <= 8 && in_square(c, candidate, ri)
                                                && expansion_candidate(map, bs, candidate)
                                                && (ri == 1 || none_within(map, bs, c, ri - 1)));
                                            assert(is_chosen_expansion(map, bs, c, candidate));
                                            assert(is_chosen_expansion(map, existing_buildings@, self.center, candidate));
                                        }
                                        return Some(candidate);
                                    },
                                    _ => {},
                                },
                                None => {},
                            }
                        }
                    }
                    dx = dx + 1;
                }
                dy = dy + 1;
            }
            r = r + 1;
        }
        None
    }

    /// Evaluate a growth pulse. The counter rises when at least 60% of commutes are
    /// fulfilled and satisfaction is at least 70, falls (not below zero) when fewer than
    /// 20% are fulfilled; on reaching 5 it resets and, if an expansion tile exists, a new
    /// building is placed there and returned.
    pub fn evaluate_growth(
        &mut self,
        map: &mut TileMap,
        next_building_id: BuildingID,
        existing_buildings: &HashMap<u32, Building>,
    ) -> (result: Option<Building>)
        requires
            old(map).wf(),
            old(self).growth_counter < u32::MAX,
            old(self).census_population <= u32::MAX - 25,
        ensures
            final(map).wf(),
            final(map).dims() == old(map).dims(),
            final(self).id == old(self).id,
            final(self).name == old(self).name,
            final(self).center == old(self).center,
            final(self).satisfaction_score == old(self).satisfaction_score,
            final(self).demanded_commutes == old(self).demanded_commutes,
            final(self).fulfilled_commutes == old(self).fulfilled_commutes,
            bumped_counter(old(self)) < 5 ==> {
                &&& result is None
                &&& final(self).growth_counter == bumped_counter(old(self))
                &&& final(self).building_ids@ == old(self).building_ids@
                &&& final(self).census_population == old(self).census_population
                &&& final(map).cells() == old(map).cells()
            },
            bumped_counter(old(self)) >= 5 ==> final(self).growth_counter == 0,
            old(self).demanded_commutes != 0 && old(self).fulfilled_commutes * 5 < old(self).demanded_commutes
                ==> final(self).growth_counter <= (if old(self).growth_counter > 0 {
                old(self).growth_counter - 1
            } else {
                0
            }),
            bumped_counter(old(self)) >= 5 && none_within(old(map), existing_buildings@, old(self).center, 8) ==> {
                &&& result is None
                &&& final(self).building_ids@ == old(self).building_ids@
                &&& final(self).census_population == old(self).census_population
                &&& final(map).cells() == old(map).cells()
            },
            result matches Some(b) ==> {
                let kind = next_building_kind(old(self).building_ids@.len());
                &&& bumped_counter(old(self)) >= 5
                &&& is_chosen_expansion(old(map), existing_buildings@, old(self).center, b.tile)
                &&& b == (Building {
                    id: next_building_id,
                    town_id: old(self).id,
                    tile: b.tile,
                    kind: kind,
                    capacity: grown_capacity(kind),
                    occupancy: grown_capacity(kind),
                })
                &&& final(self).building_ids@ == old(self).building_ids@.push(next_building_id)
                &&& final(self).census_population == old(self).census_population + grown_capacity(kind)
                &&& final(map).cells() == old(map).cells().update(
                    old(map).dims().linear(b.tile),
                    crate::world::map::Tile {
                        base: crate::world::map::TileBase {
                            kind: grown_tile_kind(kind),
                            owner: old(map).tile_at(b.tile).base.owner,
                            height: old(map).tile_at(b.tile).base.height,
                            water_height: old(map).tile_at(b.tile).base.water_height,
                        },
                        extension: old(map).tile_at(b.tile).extension,
                    },
                )
            },
    {
        let f = self.fulfilled_commutes as u128;
        let d = self.demanded_commutes as u128;
        let ratio_high = d == 0 || f * 5 >= d * 3;
        let ratio_low = d != 0 && f * 5 < d;
        if ratio_high && self.satisfaction_score >= 70 {
            self.growth_counter = self.growth_counter + 1;
        } else if ratio_low {
            self.growth_counter = if self.growth_counter > 0 { self.growth_counter - 1 } else { 0 };
        }
        if self.growth_counter >= 5 {
            self.growth_counter = 0;
            match self.find_expansion_tile(map, existing_buildings) {
                Some(candidate_tile) => {
                    let n = self.building_ids.len();
                    let building_kind = if n % 2 == 0 {
                        BuildingKind::Residential
                    } else if n % 4 == 1 {
                        BuildingKind::Commercial
                    } else {
                        BuildingKind::Industrial
                    };
                    let capacity: u16 = match building_kind {
                        BuildingKind::Residential => 20,
                        BuildingKind::Commercial => 15,
                        BuildingKind::Industrial => 25,
                    };
                    proof {
                        crate::world::map::lemma_linear_in_range(map.dims(), candidate_tile);
                    }
                    match map.get_mut(candidate_tile) {
                        Some(tile) => {
                            tile.base.kind = match building_kind {
                                BuildingKind::Residential | BuildingKind::Commercial => TileKind::House,
                                BuildingKind::Industrial => TileKind::Industry,
                            };
                        },
                        None => {},
                    }
                    let new_building = Building::new(
                        next_building_id,
                        self.id,
                        candidate_tile,
                        building_kind,
                        capacity,
                    );
                    self.building_ids.push(next_building_id);
                    self.census_population = self.census_population + capacity as u32;
                    return Some(new_building);
                },
                None => {},
            }
        }
        None
    }
}


/// The growth counter after an evaluation, before any pulse: a town with fewer than
/// 20% of its commutes fulfilled loses one point of momentum (not below 0); one with
/// at least 60% fulfilled (or no demand) and satisfaction of at least 70 gains one;
/// any other town keeps its counter.
pub proof fn lemma_growth_momentum(t: &Town)
    requires
        t.growth_counter < u32::MAX,
    ensures
        t.demanded_commutes != 0 && t.fulfilled_commutes * 5 < t.demanded_commutes ==> bumped_counter(t) == (if t.growth_counter
            > 0 {
            t.growth_counter - 1
        } else {
            0
        }),
        (t.demanded_commutes == 0 || t.fulfilled_commutes * 5 >= t.demanded_commutes * 3) && t.satisfaction_score >= 70
            ==> bumped_counter(t) == t.growth_counter + 1,
        t.demanded_commutes != 0 && t.fulfilled_commutes * 5 >= t.demanded_commutes && !(t.fulfilled_commutes * 5
            >= t.demanded_commutes * 3 && t.satisfaction_score >= 70) ==> bumped_counter(t) == t.growth_counter,
{
}

} // verus!
