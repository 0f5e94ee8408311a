//! Cargo conservation: moving cargo between stations and vehicles neither creates nor
//! destroys units.
use vstd::prelude::*;
use crate::types::id::{CargoType, StationID, VehicleID};
use crate::types::unit::CargoAmount;
use crate::world::definitions::GoodsEntry;
use crate::sim::command::CommandResult;
use crate::sim::commands::{
    cargo_add_overflows, cargo_added, first_cargo_of, first_goods_of, goods_delivered,
    has_cargo_of, has_goods_of, load_cargo_effect, unload_cargo_effect,
};
use crate::sim::world::{World, spec_tile_key};
use crate::world::entities::Vehicle;
use crate::world::definitions::{Station, fresh_goods};
use crate::sim::command::{Command, QueuedCommand};
use crate::sim::commands::{fresh_goods_for, lemma_next_id_fresh, next_id_after};
use crate::sim::simulator::{command_effect, queue_run};
use crate::sim::schedule::{vehicle_advanced, vehicles_advanced};
use crate::sim::station_index::{lemma_exchange_prefix_indexed, lemma_moves_keep_stations_indexed, stations_indexed};
use crate::sim::exchange::{
    VEHICLE_CAPACITY, cargo_exchanged, cargo_exchanged_all, deliver_all, exchanges, first_waiting, goods_delivered_sat,
    has_waiting,
};

verus! {

/// Units held by a goods entry: waiting plus delivered.
pub open spec fn goods_units(g: GoodsEntry) -> int {
    g.amount.0 + g.delivered_since_last_visit.0
}

/// Units held by a station's goods list.
pub open spec fn goods_total(goods: Seq<GoodsEntry>) -> int
    decreases goods.len(),
{
    if goods.len() == 0 {
        0
    } else {
        goods_total(goods.drop_last()) + goods_units(goods.last())
    }
}

/// Units aboard a vehicle.
pub open spec fn cargo_total(cargo: Seq<(CargoType, CargoAmount)>) -> int
    decreases cargo.len(),
{
    if cargo.len() == 0 {
        0
    } else {
        cargo_total(cargo.drop_last()) + cargo.last().1.0
    }
}

/// Replacing one goods entry changes the total by the difference of the entries.
pub proof fn lemma_goods_total_update(goods: Seq<GoodsEntry>, i: int, g: GoodsEntry)
    requires
        0 <= i < goods.len(),
    ensures
        goods_total(goods.update(i, g)) == goods_total(goods) - goods_units(goods[i]) + goods_units(g),
    decreases goods.len(),
{
    let u = goods.update(i, g);
    if i == goods.len() - 1 {
        assert(u.drop_last() =~= goods.drop_last());
    } else {
        assert(u.drop_last() =~= goods.drop_last().update(i, g));
        lemma_goods_total_update(goods.drop_last(), i, g);
    }
}

/// Appending a goods entry adds its units.
pub proof fn lemma_goods_total_push(goods: Seq<GoodsEntry>, g: GoodsEntry)
    ensures
        goods_total(goods.push(g)) == goods_total(goods) + goods_units(g),
{
    assert(goods.push(g).drop_last() =~= goods);
}

/// Replacing one cargo entry changes the total by the difference of the amounts.
pub proof fn lemma_cargo_total_update(cargo: Seq<(CargoType, CargoAmount)>, i: int, e: (CargoType, CargoAmount))
    requires
        0 <= i < cargo.len(),
    ensures
        cargo_total(cargo.update(i, e)) == cargo_total(cargo) - cargo[i].1.0 + e.1.0,
    decreases cargo.len(),
{
    let u = cargo.update(i, e);
    if i == cargo.len() - 1 {
        assert(u.drop_last() =~= cargo.drop_last());
    } else {
        assert(u.drop_last() =~= cargo.drop_last().update(i, e));
        lemma_cargo_total_update(cargo.drop_last(), i, e);
    }
}

/// Appending a cargo entry adds its amount.
pub proof fn lemma_cargo_total_push(cargo: Seq<(CargoType, CargoAmount)>, e: (CargoType, CargoAmount))
    ensures
        cargo_total(cargo.push(e)) == cargo_total(cargo) + e.1.0,
{
    assert(cargo.push(e).drop_last() =~= cargo);
}

/// Some goods entry of a cargo type means there is a first one.
pub proof fn lemma_first_goods_exists(goods: Seq<GoodsEntry>, c: CargoType, j: int)
    requires
        0 <= j < goods.len(),
        goods[j].cargo_type == c,
    ensures
        exists|i: int| first_goods_of(goods, c, i),
    decreases j,
{
    if exists|k: int| 0 <= k < j && (#[trigger] goods[k]).cargo_type == c {
        let k = choose|k: int| 0 <= k < j && (#[trigger] goods[k]).cargo_type == c;
        lemma_first_goods_exists(goods, c, k);
    } else {
        assert(first_goods_of(goods, c, j));
    }
}

/// Some cargo entry of a type means there is a first one.
pub proof fn lemma_first_cargo_exists(cargo: Seq<(CargoType, CargoAmount)>, c: CargoType, j: int)
    requires
        0 <= j < cargo.len(),
        cargo[j].0 == c,
    ensures
        exists|i: int| first_cargo_of(cargo, c, i),
    decreases j,
{
    if exists|k: int| 0 <= k < j && (#[trigger] cargo[k]).0 == c {
        let k = choose|k: int| 0 <= k < j && (#[trigger] cargo[k]).0 == c;
        lemma_first_cargo_exists(cargo, c, k);
    } else {
        assert(first_cargo_of(cargo, c, j));
    }
}

/// Loading conserves cargo: what leaves the station's waiting cargo arrives aboard
/// the vehicle, so the units of the station plus those of the vehicle are unchanged.
pub proof fn lemma_load_conserves_cargo(
    w: World,
    vehicle_id: VehicleID,
    station_id: StationID,
    c: CargoType,
    amount: CargoAmount,
    w2: World,
    r: CommandResult,
)
    requires
        load_cargo_effect(w, vehicle_id, station_id, c, amount, w2, r),
    ensures
        goods_total(w2.stations@[station_id.0].goods@) + cargo_total(w2.vehicles@[vehicle_id.0].cargo@)
            == goods_total(w.stations@[station_id.0].goods@) + cargo_total(w.vehicles@[vehicle_id.0].cargo@),
{
    if r is Success {
        let v = w.vehicles@[vehicle_id.0];
        let s = w.stations@[station_id.0];
        let j = choose|j: int| 0 <= j < s.goods@.len() && (#[trigger] s.goods@[j]).cargo_type == c;
        lemma_first_goods_exists(s.goods@, c, j);
        let gi = choose|i: int| first_goods_of(s.goods@, c, i);
        let g = s.goods@[gi];
        let n = crate::sim::commands::min_u32(g.amount.0, amount.0);
        lemma_goods_total_update(s.goods@, gi, GoodsEntry { amount: CargoAmount((g.amount.0 - n) as u32), ..g });
        if has_cargo_of(v.cargo@, c) {
            let j = choose|j: int| 0 <= j < v.cargo@.len() && (#[trigger] v.cargo@[j]).0 == c;
            lemma_first_cargo_exists(v.cargo@, c, j);
            let ci = choose|i: int| first_cargo_of(v.cargo@, c, i);
            lemma_cargo_total_update(v.cargo@, ci, (c, CargoAmount((v.cargo@[ci].1.0 + n) as u32)));
        } else {
            lemma_cargo_total_push(v.cargo@, (c, CargoAmount(n)));
        }
    } else {
        assert(w2 == w);
    }
}

/// Unloading conserves cargo: what leaves the vehicle is recorded as delivered at the
/// station, so the units of the station plus those of the vehicle are unchanged.
pub proof fn lemma_unload_conserves_cargo(
    w: World,
    vehicle_id: VehicleID,
    station_id: StationID,
    c: CargoType,
    amount: CargoAmount,
    w2: World,
    r: CommandResult,
)
    requires
        unload_cargo_effect(w, vehicle_id, station_id, c, amount, w2, r),
    ensures
        goods_total(w2.stations@[station_id.0].goods@) + cargo_total(w2.vehicles@[vehicle_id.0].cargo@)
            == goods_total(w.stations@[station_id.0].goods@) + cargo_total(w.vehicles@[vehicle_id.0].cargo@),
{
    if r is Success {
        let v = w.vehicles@[vehicle_id.0];
        let s = w.stations@[station_id.0];
        let j = choose|j: int| 0 <= j < v.cargo@.len() && (#[trigger] v.cargo@[j]).0 == c;
        lemma_first_cargo_exists(v.cargo@, c, j);
        let ci = choose|i: int| first_cargo_of(v.cargo@, c, i);
        let n = crate::sim::commands::min_u32(v.cargo@[ci].1.0, amount.0);
        lemma_cargo_total_update(v.cargo@, ci, (c, CargoAmount((v.cargo@[ci].1.0 - n) as u32)));
        if has_goods_of(s.goods@, c) {
            let j2 = choose|j: int| 0 <= j < s.goods@.len() && (#[trigger] s.goods@[j]).cargo_type == c;
            lemma_first_goods_exists(s.goods@, c, j2);
            let gi = choose|i: int| first_goods_of(s.goods@, c, i);
            let g = s.goods@[gi];
            lemma_goods_total_update(
                s.goods@,
                gi,
                GoodsEntry { delivered_since_last_visit: CargoAmount((g.delivered_since_last_visit.0 + n) as u32), ..g },
            );
        } else {
            lemma_goods_total_push(
                s.goods@,
                GoodsEntry { delivered_since_last_visit: CargoAmount(n), ..crate::world::definitions::fresh_goods(c) },
            );
        }
    } else {
        assert(w2 == w);
    }
}

/// Delivering `cargo` onto `goods`, entry by entry, never clips a delivery counter at
/// its maximum.
pub open spec fn deliveries_fit(goods: Seq<GoodsEntry>, cargo: Seq<(CargoType, CargoAmount)>) -> bool
    decreases cargo.len(),
{
    if cargo.len() == 0 {
        true
    } else {
        let g = deliver_all(goods, cargo.drop_last());
        let e = cargo.last();
        &&& deliveries_fit(goods, cargo.drop_last())
        &&& (e.1.0 > 0 && has_goods_of(g, e.0)) ==> g[choose|i: int| first_goods_of(g, e.0, i)].delivered_since_last_visit.0
            + e.1.0 <= u32::MAX
    }
}

/// Delivering a vehicle's cargo moves all of it into the station's delivered counters
/// when none of them clips.
pub proof fn lemma_deliver_all_conserves(goods: Seq<GoodsEntry>, cargo: Seq<(CargoType, CargoAmount)>)
    requires
        deliveries_fit(goods, cargo),
    ensures
        goods_total(deliver_all(goods, cargo)) == goods_total(goods) + cargo_total(cargo),
    decreases cargo.len(),
{
    if cargo.len() > 0 {
        let prefix = cargo.drop_last();
        lemma_deliver_all_conserves(goods, prefix);
        let g = deliver_all(goods, prefix);
        let e = cargo.last();
        if e.1.0 > 0 {
            if has_goods_of(g, e.0) {
                let i = choose|i: int| first_goods_of(g, e.0, i);
                let j = choose|j: int| 0 <= j < g.len() && (#[trigger] g[j]).cargo_type == e.0;
                lemma_first_goods_exists(g, e.0, j);
                lemma_goods_total_update(
                    g,
                    i,
                    GoodsEntry {
                        delivered_since_last_visit: CargoAmount(
                            crate::sim::exchange::sat_add_u32(g[i].delivered_since_last_visit.0, e.1.0),
                        ),
                        ..g[i]
                    },
                );
            } else {
                lemma_goods_total_push(
                    g,
                    GoodsEntry { delivered_since_last_visit: CargoAmount(e.1.0), ..crate::world::definitions::fresh_goods(e.0) },
                );
            }
            assert(goods_total(goods_delivered_sat(g, e.0, e.1.0)) == goods_total(g) + e.1.0);
        }
    }
}

/// The cargo exchange of a tick conserves cargo: a loading vehicle's cargo is recorded
/// as delivered at its station and what it takes on leaves the station's waiting cargo,
/// so the units of that station plus those aboard are unchanged (a vehicle that does not
/// exchange changes nothing). This holds when the indexed station is filed under its own
/// ID and no delivery counter clips.
pub proof fn lemma_exchange_conserves_cargo(w: World, vid: u32, w2: World)
    requires
        cargo_exchanged(w, vid, w2),
        exchange_fits(w, vid),
    ensures
        ({
            let sid = w.stations@[w.tile_to_station@[spec_tile_key(w.vehicles@[vid].position)].0].id;
            goods_total(w2.stations@[sid.0].goods@) + cargo_total(w2.vehicles@[vid].cargo@)
                == goods_total(w.stations@[sid.0].goods@) + cargo_total(w.vehicles@[vid].cargo@)
        }),
{
    if exchanges(w, vid) {
        let v = w.vehicles@[vid];
        let sid = w.stations@[w.tile_to_station@[spec_tile_key(v.position)].0].id;
        let goods1 = deliver_all(w.stations@[sid.0].goods@, v.cargo@);
        lemma_deliver_all_conserves(w.stations@[sid.0].goods@, v.cargo@);
        let v2 = w2.vehicles@[vid];
        let s2 = w2.stations@[sid.0];
        if has_waiting(goods1) {
            let k = choose|k: int| 0 <= k < goods1.len() && (#[trigger] goods1[k]).amount.0 > 0;
            lemma_first_waiting_exists(goods1, k);
            let gi = choose|i: int| first_waiting(goods1, i);
            let n = crate::sim::commands::min_u32(goods1[gi].amount.0, VEHICLE_CAPACITY);
            let g2 = GoodsEntry { amount: CargoAmount((goods1[gi].amount.0 - n) as u32), ..goods1[gi] };
            lemma_goods_total_update(goods1, gi, g2);
            assert(s2.goods@ == goods1.update(gi, g2));
            assert(v2.cargo@ == seq![(goods1[gi].cargo_type, CargoAmount(n))]);
            assert(v2.cargo@.drop_last() =~= Seq::<(CargoType, CargoAmount)>::empty());
            assert(cargo_total(Seq::<(CargoType, CargoAmount)>::empty()) == 0);
            assert(cargo_total(v2.cargo@) == n);
        } else {
            assert(s2.goods@ == goods1);
            assert(v2.cargo@ =~= Seq::<(CargoType, CargoAmount)>::empty());
        }
    } else {
        assert(w2 == w);
    }
}

/// Some goods entry with cargo waiting means there is a first one.
pub proof fn lemma_first_waiting_exists(goods: Seq<GoodsEntry>, j: int)
    requires
        0 <= j < goods.len(),
        goods[j].amount.0 > 0,
    ensures
        exists|i: int| first_waiting(goods, i),
    decreases j,
{
    if exists|k: int| 0 <= k < j && (#[trigger] goods[k]).amount.0 > 0 {
        let k = choose|k: int| 0 <= k < j && (#[trigger] goods[k]).amount.0 > 0;
        lemma_first_waiting_exists(goods, k);
    } else {
        assert(first_waiting(goods, j));
    }
}


/// The sum of the values of a map; 0 for a map with infinitely many keys.
pub open spec fn map_sum(m: Map<u32, int>) -> int
    decreases m.dom().len(),
{
    if m.dom().finite() && m.dom().len() > 0 {
        let k = m.dom().choose();
        proof {
            assert(m.dom().contains(k));
            assert(m.remove(k).dom() =~= m.dom().remove(k));
        }
        m[k] + map_sum(m.remove(k))
    } else {
        0
    }
}

/// A finite map sums to one of its values plus the sum of the rest.
pub proof fn lemma_map_sum_remove(m: Map<u32, int>, k: u32)
    requires
        m.dom().finite(),
        m.dom().contains(k),
    ensures
        map_sum(m) == m[k] + map_sum(m.remove(k)),
    decreases m.dom().len(),
{
    let j = m.dom().choose();
    assert(m.dom().contains(j));
    assert(m.remove(j).dom() =~= m.dom().remove(j));
    if j != k {
        assert(m.remove(k).dom() =~= m.dom().remove(k));
        lemma_map_sum_remove(m.remove(j), k);
        lemma_map_sum_remove(m.remove(k), j);
        assert(m.remove(j).remove(k) =~= m.remove(k).remove(j));
    }
}

/// Replacing one value of a finite map changes its sum by the difference.
pub proof fn lemma_map_sum_insert(m: Map<u32, int>, k: u32, v: int)
    requires
        m.dom().finite(),
        m.dom().contains(k),
    ensures
        map_sum(m.insert(k, v)) == map_sum(m) - m[k] + v,
{
    let m2 = m.insert(k, v);
    assert(m2.dom() =~= m.dom());
    lemma_map_sum_remove(m, k);
    lemma_map_sum_remove(m2, k);
    assert(m2.remove(k) =~= m.remove(k));
}

/// Adding a value under a new key adds it to the sum.
pub proof fn lemma_map_sum_add(m: Map<u32, int>, k: u32, v: int)
    requires
        m.dom().finite(),
        !m.dom().contains(k),
    ensures
        map_sum(m.insert(k, v)) == map_sum(m) + v,
{
    let m2 = m.insert(k, v);
    assert(m2.dom() =~= m.dom().insert(k));
    lemma_map_sum_remove(m2, k);
    assert(m2.remove(k) =~= m);
}

/// Units held at all stations, waiting and delivered.
pub open spec fn station_units(stations: Map<u32, Station>) -> int {
    map_sum(stations.map_values(|s: Station| goods_total(s.goods@)))
}

/// Units aboard all vehicles.
pub open spec fn vehicle_units(vehicles: Map<u32, Vehicle>) -> int {
    map_sum(vehicles.map_values(|v: Vehicle| cargo_total(v.cargo@)))
}

/// Units of cargo in the world: at stations (waiting or delivered) and aboard vehicles.
pub open spec fn world_cargo(w: World) -> int {
    station_units(w.stations@) + vehicle_units(w.vehicles@)
}

/// Replacing one station changes the station units by the difference of its goods.
proof fn lemma_station_units_insert(st: Map<u32, Station>, k: u32, s2: Station)
    requires
        st.dom().finite(),
        st.dom().contains(k),
    ensures
        station_units(st.insert(k, s2)) == station_units(st) - goods_total(st[k].goods@) + goods_total(s2.goods@),
{
    let f = |s: Station| goods_total(s.goods@);
    assert(st.map_values(f).dom() =~= st.dom());
    assert(st.insert(k, s2).map_values(f) =~= st.map_values(f).insert(k, f(s2)));
    lemma_map_sum_insert(st.map_values(f), k, f(s2));
}

/// Adding a station under a new key adds its goods to the station units.
proof fn lemma_station_units_add(st: Map<u32, Station>, k: u32, s2: Station)
    requires
        st.dom().finite(),
        !st.dom().contains(k),
    ensures
        station_units(st.insert(k, s2)) == station_units(st) + goods_total(s2.goods@),
{
    let f = |s: Station| goods_total(s.goods@);
    assert(st.map_values(f).dom() =~= st.dom());
    assert(st.insert(k, s2).map_values(f) =~= st.map_values(f).insert(k, f(s2)));
    lemma_map_sum_add(st.map_values(f), k, f(s2));
}

/// Adding a vehicle under a new key adds its cargo to the vehicle units.
proof fn lemma_vehicle_units_add(vs: Map<u32, Vehicle>, k: u32, v2: Vehicle)
    requires
        vs.dom().finite(),
        !vs.dom().contains(k),
    ensures
        vehicle_units(vs.insert(k, v2)) == vehicle_units(vs) + cargo_total(v2.cargo@),
{
    let f = |v: Vehicle| cargo_total(v.cargo@);
    assert(vs.map_values(f).dom() =~= vs.dom());
    assert(vs.insert(k, v2).map_values(f) =~= vs.map_values(f).insert(k, f(v2)));
    lemma_map_sum_add(vs.map_values(f), k, f(v2));
}

/// Replacing one vehicle changes the vehicle units by the difference of its cargo.
proof fn lemma_vehicle_units_insert(vs: Map<u32, Vehicle>, k: u32, v2: Vehicle)
    requires
        vs.dom().finite(),
        vs.dom().contains(k),
    ensures
        vehicle_units(vs.insert(k, v2)) == vehicle_units(vs) - cargo_total(vs[k].cargo@) + cargo_total(v2.cargo@),
{
    let f = |v: Vehicle| cargo_total(v.cargo@);
    assert(vs.map_values(f).dom() =~= vs.dom());
    assert(vs.insert(k, v2).map_values(f) =~= vs.map_values(f).insert(k, f(v2)));
    lemma_map_sum_insert(vs.map_values(f), k, f(v2));
}

/// A step that replaces one station and one vehicle, keeping their joint units, keeps
/// the units of the world.
proof fn lemma_pair_step_keeps_world_cargo(w: World, sid: u32, vid: u32, w2: World)
    requires
        w.stations@.contains_key(sid),
        w.vehicles@.contains_key(vid),
        w2.stations@ == w.stations@.insert(sid, w2.stations@[sid]),
        w2.vehicles@ == w.vehicles@.insert(vid, w2.vehicles@[vid]),
        goods_total(w2.stations@[sid].goods@) + cargo_total(w2.vehicles@[vid].cargo@)
            == goods_total(w.stations@[sid].goods@) + cargo_total(w.vehicles@[vid].cargo@),
    ensures
        world_cargo(w2) == world_cargo(w),
{
    broadcast use vstd::std_specs::hash::axiom_hashmap_view_finite_dom;
    assert(w.stations@.dom().finite());
    assert(w.vehicles@.dom().finite());
    lemma_station_units_insert(w.stations@, sid, w2.stations@[sid]);
    lemma_vehicle_units_insert(w.vehicles@, vid, w2.vehicles@[vid]);
}

/// Loading keeps the cargo of the world: the units at all stations plus those aboard
/// all vehicles are the same after a `LoadCargo` command, whatever its outcome.
pub proof fn lemma_load_conserves_world_cargo(
    w: World,
    vehicle_id: VehicleID,
    station_id: StationID,
    c: CargoType,
    amount: CargoAmount,
    w2: World,
    r: CommandResult,
)
    requires
        load_cargo_effect(w, vehicle_id, station_id, c, amount, w2, r),
    ensures
        world_cargo(w2) == world_cargo(w),
{
    lemma_load_conserves_cargo(w, vehicle_id, station_id, c, amount, w2, r);
    if w2 != w {
        lemma_pair_step_keeps_world_cargo(w, station_id.0, vehicle_id.0, w2);
    }
}

/// Unloading keeps the cargo of the world: the units at all stations plus those aboard
/// all vehicles are the same after an `UnloadCargo` command, whatever its outcome.
pub proof fn lemma_unload_conserves_world_cargo(
    w: World,
    vehicle_id: VehicleID,
    station_id: StationID,
    c: CargoType,
    amount: CargoAmount,
    w2: World,
    r: CommandResult,
)
    requires
        unload_cargo_effect(w, vehicle_id, station_id, c, amount, w2, r),
    ensures
        world_cargo(w2) == world_cargo(w),
{
    lemma_unload_conserves_cargo(w, vehicle_id, station_id, c, amount, w2, r);
    if w2 != w {
        lemma_pair_step_keeps_world_cargo(w, station_id.0, vehicle_id.0, w2);
    }
}

/// One vehicle's cargo exchange keeps the cargo of the world, when the indexed station
/// is filed under its own ID and no delivery counter clips.
pub proof fn lemma_exchange_conserves_world_cargo(w: World, vid: u32, w2: World)
    requires
        cargo_exchanged(w, vid, w2),
        exchange_fits(w, vid),
    ensures
        world_cargo(w2) == world_cargo(w),
{
    lemma_exchange_conserves_cargo(w, vid, w2);
    if exchanges(w, vid) {
        let sid = w.stations@[w.tile_to_station@[spec_tile_key(w.vehicles@[vid].position)].0].id;
        lemma_pair_step_keeps_world_cargo(w, sid.0, vid, w2);
    }
}

/// Delivering the vehicle's cargo at the station indexed at its tile clips no counter.
pub open spec fn delivery_fits(w: World, vid: u32) -> bool {
    deliveries_fit(
        w.stations@[w.stations@[w.tile_to_station@[spec_tile_key(w.vehicles@[vid].position)].0].id.0].goods@,
        w.vehicles@[vid].cargo@,
    )
}

/// The conditions under which a vehicle's exchange keeps the cargo: if it exchanges,
/// the station indexed at its tile is filed under its own ID, and delivering its cargo
/// there clips no counter.
pub open spec fn exchange_fits(w: World, vid: u32) -> bool {
    exchanges(w, vid) ==> {
        &&& w.stations@.contains_key(w.stations@[w.tile_to_station@[spec_tile_key(w.vehicles@[vid].position)].0].id.0)
        &&& delivery_fits(w, vid)
    }
}

/// The cargo exchange of a tick, vehicle after vehicle, keeps the cargo of the world,
/// when each exchange along the way fits.
pub proof fn lemma_exchange_all_conserves_world_cargo(w: World, ids: Seq<VehicleID>, ws: Seq<World>)
    requires
        ws.len() == ids.len() + 1,
        ws[0] == w,
        forall|i: int| 0 <= i < ids.len() ==> cargo_exchanged(#[trigger] ws[i], ids[i].0, ws[i + 1]),
        forall|i: int| 0 <= i < ids.len() ==> exchange_fits(#[trigger] ws[i], ids[i].0),
    ensures
        world_cargo(ws[ids.len() as int]) == world_cargo(w),
    decreases ids.len(),
{
    if ids.len() > 0 {
        let n = ids.len() - 1;
        lemma_exchange_all_conserves_world_cargo(w, ids.take(n), ws.take(n + 1));
        assert(ws.take(n + 1)[n] == ws[n]);
        lemma_exchange_conserves_world_cargo(ws[n], ids[n].0, ws[n + 1]);
    }
}


/// A goods list of fresh entries holds no units.
proof fn lemma_fresh_goods_total(goods: Seq<GoodsEntry>)
    requires
        forall|i: int| 0 <= i < goods.len() ==> #[trigger] goods[i] == fresh_goods(goods[i].cargo_type),
    ensures
        goods_total(goods) == 0,
    decreases goods.len(),
{
    if goods.len() > 0 {
        let g = goods.drop_last();
        assert forall|i: int| 0 <= i < g.len() implies #[trigger] g[i] == fresh_goods(g[i].cargo_type) by {
            assert(g[i] == goods[i]);
        }
        lemma_fresh_goods_total(g);
        assert(goods.last() == goods[goods.len() - 1]);
    }
}

/// Every command keeps the cargo of the world: commands other than loading and
/// unloading leave the stations' goods and the vehicles' cargo alone, a new station
/// starts with fresh goods and a new vehicle empty, and loading and unloading move
/// units between a station and a vehicle.
pub proof fn lemma_command_conserves_world_cargo(w: World, cmd: Command, w2: World, r: CommandResult)
    requires
        command_effect(w, cmd, w2, r),
    ensures
        world_cargo(w2) == world_cargo(w),
{
    broadcast use vstd::std_specs::hash::axiom_hashmap_view_finite_dom;
    assert(w.stations@.dom().finite());
    assert(w.vehicles@.dom().finite());
    match cmd {
        Command::BuildStation { company_id, name, tiles } => {
            lemma_next_id_fresh(w.stations@.dom());
            if let Some(sid) = next_id_after(w.stations@.dom()) {
                if w2 != w {
                    let s2 = w2.stations@[sid];
                    assert(forall|i: int| 0 <= i < s2.goods@.len() ==> #[trigger] s2.goods@[i] == fresh_goods(s2.goods@[i].cargo_type));
                    lemma_fresh_goods_total(s2.goods@);
                    lemma_station_units_add(w.stations@, sid, s2);
                }
            }
        },
        Command::PurchaseVehicle { company_id, engine_id, kind, position, order_list_id } => {
            lemma_next_id_fresh(w.vehicles@.dom());
            if let Some(vid) = next_id_after(w.vehicles@.dom()) {
                if w2 != w {
                    let v2 = w2.vehicles@[vid];
                    assert(v2.cargo@ =~= Seq::<(CargoType, CargoAmount)>::empty());
                    lemma_vehicle_units_add(w.vehicles@, vid, v2);
                }
            }
        },
        Command::LoadCargo { vehicle_id, station_id, cargo_type, amount } => {
            lemma_load_conserves_world_cargo(w, vehicle_id, station_id, cargo_type, amount, w2, r);
        },
        Command::UnloadCargo { vehicle_id, station_id, cargo_type, amount } => {
            lemma_unload_conserves_world_cargo(w, vehicle_id, station_id, cargo_type, amount, w2, r);
        },
        _ => {},
    }
}

/// Running a command queue keeps the cargo of the world.
pub proof fn lemma_queue_conserves_world_cargo(w0: World, q: Seq<QueuedCommand>, ws: Seq<World>, rs: Seq<CommandResult>)
    requires
        queue_run(w0, q, ws, rs),
    ensures
        world_cargo(ws.last()) == world_cargo(w0),
    decreases q.len(),
{
    if q.len() > 0 {
        let n = q.len() - 1;
        assert(queue_run(w0, q.take(n), ws.take(n + 1), rs.take(n))) by {
            assert forall|i: int| 0 <= i < n implies command_effect(#[trigger] ws.take(n + 1)[i], q.take(n)[i].entry.command, ws.take(n + 1)[i + 1], rs.take(n)[i]) by {
                assert(command_effect(ws[i], q[i].entry.command, ws[i + 1], rs[i]));
            }
        }
        lemma_queue_conserves_world_cargo(w0, q.take(n), ws.take(n + 1), rs.take(n));
        lemma_command_conserves_world_cargo(ws[n], q[n].entry.command, ws[n + 1], rs[n]);
    }
}

/// Advancing one vehicle along its schedule keeps the cargo of the world.
proof fn lemma_advance_keeps_world_cargo(w: World, vid: u32, w2: World)
    requires
        vehicle_advanced(w, vid, w2),
    ensures
        world_cargo(w2) == world_cargo(w),
{
    broadcast use vstd::std_specs::hash::axiom_hashmap_view_finite_dom;
    if w.vehicles@.contains_key(vid) {
        assert(w.vehicles@.dom().finite());
        lemma_vehicle_units_insert(w.vehicles@, vid, w2.vehicles@[vid]);
    }
}

/// Advancing the vehicles of a tick keeps the cargo of the world.
pub proof fn lemma_advance_all_keeps_world_cargo(w: World, ids: Seq<VehicleID>, w2: World)
    requires
        vehicles_advanced(w, ids, w2),
    ensures
        world_cargo(w2) == world_cargo(w),
{
    let ws = choose|ws: Seq<World>| #![trigger ws.len()]
        ws.len() == ids.len() + 1 && ws[0] == w && ws[ids.len() as int] == w2
        && forall|i: int| 0 <= i < ids.len() ==> vehicle_advanced(#[trigger] ws[i], ids[i].0, ws[i + 1]);
    assert forall|k: int| 0 <= k <= ids.len() implies world_cargo(#[trigger] ws[k]) == world_cargo(w) by {
        lemma_advance_prefix(ws, ids, k);
    }
}

/// Along a chain of vehicle advances, each world holds the cargo of the first.
proof fn lemma_advance_prefix(ws: Seq<World>, ids: Seq<VehicleID>, k: int)
    requires
        ws.len() == ids.len() + 1,
        0 <= k <= ids.len(),
        forall|i: int| 0 <= i < ids.len() ==> vehicle_advanced(#[trigger] ws[i], ids[i].0, ws[i + 1]),
    ensures
        world_cargo(ws[k]) == world_cargo(ws[0]),
    decreases k,
{
    if k > 0 {
        lemma_advance_prefix(ws, ids, k - 1);
        lemma_advance_keeps_world_cargo(ws[k - 1], ids[k - 1].0, ws[k]);
    }
}

/// A chain of cargo exchanges from `w` along `ids`.
pub open spec fn exchange_chain(w: World, ids: Seq<VehicleID>, es: Seq<World>) -> bool {
    &&& es.len() == ids.len() + 1
    &&& es[0] == w
    &&& forall|i: int| 0 <= i < ids.len() ==> cargo_exchanged(#[trigger] es[i], ids[i].0, es[i + 1])
}

/// A tick keeps the cargo of the world: its commands, the vehicles' moves and the
/// cargo exchange only move units between stations and vehicles. This holds from a
/// world whose station records agree, when no delivery counter clips during the
/// exchange.
pub proof fn lemma_tick_conserves_world_cargo(
    w0: World,
    q: Seq<QueuedCommand>,
    ws: Seq<World>,
    rs: Seq<CommandResult>,
    ids: Seq<VehicleID>,
    w2: World,
    w3: World,
)
    requires
        stations_indexed(w0),
        queue_run(w0, q, ws, rs),
        vehicles_advanced(ws.last(), ids, w2),
        cargo_exchanged_all(w2, ids, w3),
        forall|es: Seq<World>| #[trigger] exchange_chain(w2, ids, es) ==> forall|i: int|
            0 <= i < ids.len() && exchanges(#[trigger] es[i], ids[i].0) ==> delivery_fits(es[i], ids[i].0),
    ensures
        world_cargo(w3) == world_cargo(w0),
{
    lemma_queue_conserves_world_cargo(w0, q, ws, rs);
    lemma_advance_all_keeps_world_cargo(ws.last(), ids, w2);
    lemma_moves_keep_stations_indexed(w0, q, ws, rs, ids, w2);
    let es = choose|es: Seq<World>| #![trigger es.len()]
        es.len() == ids.len() + 1 && es[0] == w2 && es[ids.len() as int] == w3
        && forall|i: int| 0 <= i < ids.len() ==> cargo_exchanged(#[trigger] es[i], ids[i].0, es[i + 1]);
    assert(exchange_chain(w2, ids, es));
    assert forall|i: int| 0 <= i < ids.len() implies exchange_fits(#[trigger] es[i], ids[i].0) by {
        lemma_exchange_prefix_indexed(es, ids, i);
        let w = es[i];
        let vid = ids[i].0;
        if exchanges(w, vid) {
            let key = spec_tile_key(w.vehicles@[vid].position);
            let t = w.vehicles@[vid].position;
            assert(w.tile_to_station@.contains_key(spec_tile_key(t)));
            let sid = w.tile_to_station@[key];
            assert(w.stations@.contains_key(sid.0));
            assert(w.stations@[sid.0].id == StationID(sid.0));
        }
    }
    lemma_exchange_all_conserves_world_cargo(w2, ids, es);
}


/// Units waiting at a station (not counting those delivered).
pub open spec fn waiting_total(goods: Seq<GoodsEntry>) -> int
    decreases goods.len(),
{
    if goods.len() == 0 {
        0
    } else {
        waiting_total(goods.drop_last()) + goods.last().amount.0
    }
}

/// Replacing one goods entry changes the waiting units by the difference.
proof fn lemma_waiting_total_update(goods: Seq<GoodsEntry>, i: int, g: GoodsEntry)
    requires
        0 <= i < goods.len(),
    ensures
        waiting_total(goods.update(i, g)) == waiting_total(goods) - goods[i].amount.0 + g.amount.0,
    decreases goods.len(),
{
    let u = goods.update(i, g);
    if i == goods.len() - 1 {
        assert(u.drop_last() =~= goods.drop_last());
    } else {
        assert(u.drop_last() =~= goods.drop_last().update(i, g));
        lemma_waiting_total_update(goods.drop_last(), i, g);
    }
}

/// Delivering cargo onto a station's goods leaves the waiting units as they were.
proof fn lemma_deliver_all_keeps_waiting(goods: Seq<GoodsEntry>, cargo: Seq<(CargoType, CargoAmount)>)
    ensures
        waiting_total(deliver_all(goods, cargo)) == waiting_total(goods),
    decreases cargo.len(),
{
    if cargo.len() > 0 {
        lemma_deliver_all_keeps_waiting(goods, cargo.drop_last());
        let g = deliver_all(goods, cargo.drop_last());
        let e = cargo.last();
        if e.1.0 > 0 {
            if has_goods_of(g, e.0) {
                let i = choose|i: int| first_goods_of(g, e.0, i);
                let j = choose|j: int| 0 <= j < g.len() && (#[trigger] g[j]).cargo_type == e.0;
                lemma_first_goods_exists(g, e.0, j);
                lemma_waiting_total_update(
                    g,
                    i,
                    GoodsEntry {
                        delivered_since_last_visit: CargoAmount(
                            crate::sim::exchange::sat_add_u32(g[i].delivered_since_last_visit.0, e.1.0),
                        ),
                        ..g[i]
                    },
                );
            } else {
                let f = GoodsEntry { delivered_since_last_visit: CargoAmount(e.1.0), ..fresh_goods(e.0) };
                assert(g.push(f).drop_last() =~= g);
            }
        }
    }
}

/// What a vehicle takes on in its cargo exchange is exactly what leaves the station's
/// waiting cargo: the cargo it has aboard afterwards plus the units still waiting equal
/// the units waiting before (its earlier cargo is all handed over as delivered).
pub proof fn lemma_exchange_load_from_waiting(w: World, vid: u32, w2: World)
    requires
        cargo_exchanged(w, vid, w2),
        exchanges(w, vid),
        w.stations@.contains_key(w.stations@[w.tile_to_station@[spec_tile_key(w.vehicles@[vid].position)].0].id.0),
    ensures
        ({
            let sid = w.stations@[w.tile_to_station@[spec_tile_key(w.vehicles@[vid].position)].0].id;
            waiting_total(w2.stations@[sid.0].goods@) + cargo_total(w2.vehicles@[vid].cargo@) == waiting_total(
                w.stations@[sid.0].goods@,
            )
        }),
{
    let v = w.vehicles@[vid];
    let sid = w.stations@[w.tile_to_station@[spec_tile_key(v.position)].0].id;
    let goods1 = deliver_all(w.stations@[sid.0].goods@, v.cargo@);
    lemma_deliver_all_keeps_waiting(w.stations@[sid.0].goods@, v.cargo@);
    let v2 = w2.vehicles@[vid];
    let s2 = w2.stations@[sid.0];
    if has_waiting(goods1) {
        let k = choose|k: int| 0 <= k < goods1.len() && (#[trigger] goods1[k]).amount.0 > 0;
        lemma_first_waiting_exists(goods1, k);
        let gi = choose|i: int| first_waiting(goods1, i);
        let n = crate::sim::commands::min_u32(goods1[gi].amount.0, VEHICLE_CAPACITY);
        let g2 = GoodsEntry { amount: CargoAmount((goods1[gi].amount.0 - n) as u32), ..goods1[gi] };
        lemma_waiting_total_update(goods1, gi, g2);
        assert(s2.goods@ == goods1.update(gi, g2));
        assert(v2.cargo@ == seq![(goods1[gi].cargo_type, CargoAmount(n))]);
        assert(v2.cargo@.drop_last() =~= Seq::<(CargoType, CargoAmount)>::empty());
        assert(cargo_total(Seq::<(CargoType, CargoAmount)>::empty()) == 0);
        assert(cargo_total(v2.cargo@) == n);
    } else {
        assert(s2.goods@ == goods1);
        assert(v2.cargo@ =~= Seq::<(CargoType, CargoAmount)>::empty());
    }
}

} // verus!
