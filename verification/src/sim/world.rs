//! The world state of the simulation: map, entities, definitions and derived indexes.
use vstd::prelude::*;
use std::collections::HashMap;
use crate::types::enums::{CargoClass, OrderType, VehicleKind};
use crate::types::id::{CargoType, CompanyID, EngineID, StationID, TileIndex};
use crate::types::unit::{Money, Speed, Ticks};
use crate::world::definitions::{Cargo, Engine, Station};
use crate::world::entities::{Company, Vehicle};
use crate::world::map::{MapSize, TileMap, empty_tile};
use crate::world::town::{Building, Town};
use crate::sim::keys::key_list;

verus! {

broadcast use vstd::std_specs::hash::group_hash_axioms;

/// The key under which a tile is stored in the tile-to-station index.
pub open spec fn spec_tile_key(t: TileIndex) -> u32 {
    (t.x as int * 65536 + t.y as int) as u32
}

/// Distinct tiles have distinct index keys.
pub proof fn lemma_tile_key_injective(a: TileIndex, b: TileIndex)
    ensures
        spec_tile_key(a) == spec_tile_key(b) ==> a == b,
{
    assert(a.x as int * 65536 + a.y as int <= u32::MAX);
    assert(b.x as int * 65536 + b.y as int <= u32::MAX);
}

/// The key under which `t` is stored in the tile-to-station index.
pub fn tile_key(t: TileIndex) -> (k: u32)
    ensures
        k == spec_tile_key(t),
{
    (t.x as u32) * 65536 + (t.y as u32)
}

/// Whether `tiles` contains `t`.
pub fn tiles_contain(tiles: &Vec<TileIndex>, t: TileIndex) -> (r: bool)
    ensures
        r == tiles@.contains(t),
{
    let mut i: usize = 0;
    while i < tiles.len()
        invariant
            i <= tiles@.len(),
            forall|j: int| 0 <= j < i ==> tiles@[j] != t,
        decreases tiles@.len() - i,
    {
        if tiles[i].x == t.x && tiles[i].y == t.y {
            return true;
        }
        i = i + 1;
    }
    false
}

/// An element-wise copy of a tile list.
pub fn copy_tiles(tiles: &Vec<TileIndex>) -> (r: Vec<TileIndex>)
    ensures
        r@ == tiles@,
{
    let mut r: Vec<TileIndex> = Vec::new();
    let mut i: usize = 0;
    while i < tiles.len()
        invariant
            i <= tiles@.len(),
            r@ == tiles@.subrange(0, i as int),
        decreases tiles@.len() - i,
    {
        r.push(tiles[i]);
        i = i + 1;
    }
    r
}

/// The main world state of the simulation. Entity tables are keyed by the raw value
/// of the entity's identifier; the tile-to-station index is keyed by `tile_key`.
#[derive(Debug)]
pub struct World {
    pub map: TileMap,
    pub companies: HashMap<u32, Company>,
    pub vehicles: HashMap<u32, Vehicle>,
    pub stations: HashMap<u32, Station>,
    pub engines: HashMap<u32, Engine>,
    pub cargo_types: HashMap<u16, Cargo>,
    /// Order schedules, each a list of orders
    pub order_lists: HashMap<u32, Vec<OrderType>>,
    pub towns: HashMap<u32, Town>,
    pub buildings: HashMap<u32, Building>,
    /// The first company created (invalid until then)
    pub current_company_id: CompanyID,
    pub tick: Ticks,
    /// Money scale in hundredths (100 = 1.00), for inflation
    pub money_scale: u32,
    /// Derived spatial lookup from tile keys to station IDs
    pub tile_to_station: HashMap<u32, StationID>,
}

/// Whether some station lists tile `t`.
pub open spec fn station_covers(stations: Map<u32, Station>, t: TileIndex) -> bool {
    exists|k: u32| stations.contains_key(k) && (#[trigger] stations[k]).tiles@.contains(t)
}

/// The tile-to-station index agrees with the station table: a tile is indexed exactly
/// when some station lists it, and it points to a station that lists it.
pub open spec fn index_consistent(stations: Map<u32, Station>, index: Map<u32, StationID>) -> bool {
    &&& forall|t: TileIndex| #[trigger] index.contains_key(spec_tile_key(t)) <==> station_covers(stations, t)
    &&& forall|t: TileIndex| #[trigger] index.contains_key(spec_tile_key(t)) ==> {
        let sid = index[spec_tile_key(t)];
        stations.contains_key(sid.0) && stations[sid.0].tiles@.contains(t)
    }
}

/// `w` is a newly created world for a map of `map_size`: an empty map of that size
/// (one tile if the size cannot hold a map), no companies, vehicles, stations, order
/// lists, towns or buildings, one engine (the coastal cargo vessel, ID 1, cost 5000)
/// and one cargo type (grain, ID 1, bulk), no current company, tick 0, money scale 100.
pub open spec fn is_new_world(w: World, map_size: MapSize) -> bool {
    &&& w.inv()
    &&& w.map.all_cells(empty_tile())
    &&& TileMap::size_ok(map_size) ==> w.map.dims() == map_size
    &&& !TileMap::size_ok(map_size) ==> w.map.dims() == (MapSize { width: 1, height: 1 })
    &&& w.companies@ == Map::<u32, Company>::empty()
    &&& w.vehicles@ == Map::<u32, Vehicle>::empty()
    &&& w.stations@ == Map::<u32, Station>::empty()
    &&& w.order_lists@ == Map::<u32, Vec<OrderType>>::empty()
    &&& w.towns@ == Map::<u32, Town>::empty()
    &&& w.buildings@ == Map::<u32, Building>::empty()
    &&& w.tile_to_station@ == Map::<u32, StationID>::empty()
    &&& w.engines@.dom() == set![1u32]
    &&& w.engines@[1].id == EngineID(1)
    &&& w.engines@[1].name@ == "Coastal Cargo Vessel"@
    &&& w.engines@[1].kind == VehicleKind::Ship
    &&& w.engines@[1].power == 200
    &&& w.engines@[1].tractive_effort == 100
    &&& w.engines@[1].weight == 50
    &&& w.engines@[1].speed == Speed(1092616192)
    &&& w.engines@[1].cost == Money(5000)
    &&& w.engines@[1].running_cost == Money(20)
    &&& w.engines@[1].cargo_classes@ == seq![CargoClass::Bulk, CargoClass::Passenger]
    &&& w.engines@[1].introduction_date == 1930
    &&& w.engines@[1].retirement_date is None
    &&& w.cargo_types@.dom() == set![1u16]
    &&& w.cargo_types@[1].id == CargoType(1)
    &&& w.cargo_types@[1].name@ == "Grain"@
    &&& w.cargo_types@[1].class == CargoClass::Bulk
    &&& w.current_company_id == CompanyID(CompanyID::INVALID_RAW)
    &&& w.tick == Ticks(0)
    &&& w.money_scale == 100
}

impl World {
    /// The world's well-formedness: the map is well formed.
    pub open spec fn inv(&self) -> bool {
        self.map.wf()
    }

    /// A new world for a map of the given size.
    pub fn new(map_size: MapSize) -> (w: World)
        ensures
            is_new_world(w, map_size),
    {
        broadcast use vstd::string::to_string_from_display_ensures_for_str;
        let mut engines: HashMap<u32, Engine> = HashMap::new();
        let classes: Vec<CargoClass> = vec![CargoClass::Bulk, CargoClass::Passenger];
        // Speed 10.0, stored as its f32 bit pattern.
        engines.insert(
            1u32,
            Engine::new(
                EngineID(1),
                "Coastal Cargo Vessel".to_string(),
                VehicleKind::Ship,
                200,
                100,
                50,
                Speed(1092616192u32),
                Money(5000),
                Money(20),
                classes,
                1930,
                None,
            ),
        );
        let mut cargo_types: HashMap<u16, Cargo> = HashMap::new();
        cargo_types.insert(1u16, Cargo::new(CargoType(1), "Grain".to_string(), CargoClass::Bulk));
        proof {
            assert(engines@.dom() =~= set![1u32]);
            assert(cargo_types@.dom() =~= set![1u16]);
        }
        World {
            map: TileMap::new(map_size),
            companies: HashMap::new(),
            vehicles: HashMap::new(),
            stations: HashMap::new(),
            engines,
            cargo_types,
            order_lists: HashMap::new(),
            towns: HashMap::new(),
            buildings: HashMap::new(),
            current_company_id: CompanyID(CompanyID::INVALID_RAW),
            tick: Ticks(0),
            money_scale: 100,
            tile_to_station: HashMap::new(),
        }
    }

    /// The company with the given ID, if any.
    pub fn get_company(&self, id: &CompanyID) -> (r: Option<&Company>)
        ensures
            r == (if self.companies@.contains_key(id.0) {
                Some(&self.companies@[id.0])
            } else {
                None
            }),
    {
        self.companies.get(&id.0)
    }

    /// The company with the given ID, for changing it in place; `None` if there is none.
    pub fn get_company_mut(&mut self, id: &CompanyID) -> (r: Option<&mut Company>)
        ensures
            (r is Some) == old(self).companies@.contains_key(id.0),
            r matches Some(c) ==> *c == old(self).companies@[id.0] && final(self).companies@ == old(
                self,
            ).companies@.insert(id.0, *final(c)),
            r is None ==> final(self).companies@ == old(self).companies@,
            *final(self) == (World { companies: final(self).companies, ..*old(self) }),
    {
        match self.companies.entry(id.0) {
            std::collections::hash_map::Entry::Occupied(o) => Some(o.into_mut()),
            std::collections::hash_map::Entry::Vacant(_) => None,
        }
    }

    /// The station with the given ID, if any.
    pub fn get_station(&self, id: &StationID) -> (r: Option<&Station>)
        ensures
            r == (if self.stations@.contains_key(id.0) {
                Some(&self.stations@[id.0])
            } else {
                None
            }),
    {
        self.stations.get(&id.0)
    }

    /// Advance the tick counter by one.
    pub fn advance_tick(&mut self)
        requires
            old(self).tick.0 < u32::MAX,
        ensures
            *final(self) == (World { tick: Ticks((old(self).tick.0 + 1) as u32), ..*old(self) }),
    {
        self.tick = Ticks(self.tick.0 + 1);
    }

    /// The station indexed at `tile`, if the index has the tile and the station exists.
    pub fn get_station_at_tile(&self, tile: &TileIndex) -> (r: Option<&Station>)
        ensures
            r == (if self.tile_to_station@.contains_key(spec_tile_key(*tile))
                && self.stations@.contains_key(self.tile_to_station@[spec_tile_key(*tile)].0) {
                Some(&self.stations@[self.tile_to_station@[spec_tile_key(*tile)].0])
            } else {
                None
            }),
    {
        match self.tile_to_station.get(&tile_key(*tile)) {
            Some(id) => self.stations.get(&id.0),
            None => None,
        }
    }

    /// Rebuild the tile-to-station index from the station table; every other part of
    /// the world is left as it was.
    pub fn rebuild_derived_indexes(&mut self)
        ensures
            index_consistent(final(self).stations@, final(self).tile_to_station@),
            *final(self) == (World { tile_to_station: final(self).tile_to_station, ..*old(self) }),
    {
        self.tile_to_station.clear();
        let ids = key_list(&self.stations);
        let ghost st = self.stations@;
        let mut i: usize = 0;
        while i < ids.len()
            invariant
                i <= ids@.len(),
                st == self.stations@,
                forall|k: u32| ids@.contains(k) <==> st.contains_key(k),
                *self == (World { tile_to_station: self.tile_to_station, ..*old(self) }),
                forall|t: TileIndex| #[trigger] self.tile_to_station@.contains_key(spec_tile_key(t))
                    <==> exists|j: int| 0 <= j < i && (#[trigger] st[ids@[j]]).tiles@.contains(t),
                forall|t: TileIndex| #[trigger] self.tile_to_station@.contains_key(spec_tile_key(t)) ==> {
                    let sid = self.tile_to_station@[spec_tile_key(t)];
                    st.contains_key(sid.0) && st[sid.0].tiles@.contains(t)
                },
            decreases ids@.len() - i,
        {
            let sid = ids[i];
            assert(ids@.contains(sid));
            let station = self.stations.get(&sid).unwrap();
            let mut j: usize = 0;
            let ghost before = self.tile_to_station@;
            while j < station.tiles.len()
                invariant
                    j <= station.tiles@.len(),
                    i < ids@.len(),
                    sid == ids@[i as int],
                    st == self.stations@,
                    st.contains_key(sid),
                    *station == st[sid],
                    *self == (World { tile_to_station: self.tile_to_station, ..*old(self) }),
                    forall|t: TileIndex| #[trigger] self.tile_to_station@.contains_key(spec_tile_key(t))
                        <==> (before.contains_key(spec_tile_key(t)) || station.tiles@.subrange(0, j as int).contains(t)),
                    forall|t: TileIndex| #[trigger] self.tile_to_station@.contains_key(spec_tile_key(t)) ==> {
                        let s2 = self.tile_to_station@[spec_tile_key(t)];
                        st.contains_key(s2.0) && st[s2.0].tiles@.contains(t)
                    },
                decreases station.tiles@.len() - j,
            {
                let t = station.tiles[j];
                let ghost pre = self.tile_to_station@;
                self.tile_to_station.insert(tile_key(t), StationID(sid));
                proof {
                    let s0 = station.tiles@.subrange(0, j as int);
                    let s1 = station.tiles@.subrange(0, j + 1);
                    assert(s1 =~= s0.push(t));
                    assert forall|u: TileIndex| #[trigger] self.tile_to_station@.contains_key(spec_tile_key(u))
                        <==> (before.contains_key(spec_tile_key(u)) || s1.contains(u)) by {
                        lemma_tile_key_injective(u, t);
                        if s0.contains(u) {
                            let w = choose|w: int| 0 <= w < s0.len() && #[trigger] s0[w] == u;
                            assert(s1[w] == u);
                        }
                        if s1.contains(u) && u != t {
                            let w = choose|w: int| 0 <= w < s1.len() && #[trigger] s1[w] == u;
                            assert(s0[w] == u);
                        }
                        if u == t {
                            assert(s1[j as int] == u);
                        }
                    }
                    assert forall|u: TileIndex| #[trigger] self.tile_to_station@.contains_key(spec_tile_key(u)) implies {
                        let s2 = self.tile_to_station@[spec_tile_key(u)];
                        st.contains_key(s2.0) && st[s2.0].tiles@.contains(u)
                    } by {
                        lemma_tile_key_injective(u, t);
                        if u == t {
                            assert(station.tiles@[j as int] == t);
                        }
                    }
                }
                j = j + 1;
            }
            proof {
                assert(station.tiles@.subrange(0, j as int) =~= station.tiles@);
                assert forall|t: TileIndex| #[trigger] self.tile_to_station@.contains_key(spec_tile_key(t))
                    <==> exists|j2: int| 0 <= j2 < i + 1 && (#[trigger] st[ids@[j2]]).tiles@.contains(t) by {
                    if station.tiles@.contains(t) {
                        assert(st[ids@[i as int]].tiles@.contains(t));
                    }
                    if exists|j2: int| 0 <= j2 < i + 1 && (#[trigger] st[ids@[j2]]).tiles@.contains(t) {
                        let j2 = choose|j2: int| 0 <= j2 < i + 1 && (#[trigger] st[ids@[j2]]).tiles@.contains(t);
                        if j2 < i {
                            assert(before.contains_key(spec_tile_key(t)));
                        }
                    }
                }
            }
            i = i + 1;
        }
        proof {
            assert forall|t: TileIndex| #[trigger] self.tile_to_station@.contains_key(spec_tile_key(t))
                <==> station_covers(st, t) by {
                if station_covers(st, t) {
                    let k = choose|k: u32| st.contains_key(k) && (#[trigger] st[k]).tiles@.contains(t);
                    assert(ids@.contains(k));
                    let j2 = choose|j2: int| 0 <= j2 < ids@.len() && ids@[j2] == k;
                    assert(st[ids@[j2]].tiles@.contains(t));
                }
                if self.tile_to_station@.contains_key(spec_tile_key(t)) {
                    let j2 = choose|j2: int| 0 <= j2 < i && (#[trigger] st[ids@[j2]]).tiles@.contains(t);
                    assert(ids@.contains(ids@[j2]));
                    assert(st.contains_key(ids@[j2]));
                }
            }
        }
    }
}

} // verus!
