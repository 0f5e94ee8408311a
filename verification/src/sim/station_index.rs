//! The station records: the tile-to-station index, the stations' tile lists and the
//! station marks on the map agree, and every command and every tick keeps them so.
use vstd::prelude::*;
use crate::types::enums::TileKind;
use crate::types::id::{StationID, TileIndex, VehicleID};
use crate::sim::command::{Command, CommandResult, QueuedCommand};
use crate::sim::commands::{first_blocked, lemma_next_id_fresh, next_id_after, tile_free};
use crate::sim::simulator::{command_effect, queue_run};
use crate::sim::schedule::{vehicle_advanced, vehicles_advanced};
use crate::sim::exchange::{cargo_exchanged, cargo_exchanged_all};
use crate::sim::world::{World, index_consistent, is_new_world, spec_tile_key, station_covers, lemma_tile_key_injective};
use crate::world::map::MapSize;

verus! {

/// The station records agree: a tile is indexed exactly when a station lists it, under
/// a station that lists it; each station is filed under its own ID; and each tile a
/// station lists lies on the map, marked as a station tile of that station.
pub open spec fn stations_indexed(w: World) -> bool {
    &&& index_consistent(w.stations@, w.tile_to_station@)
    &&& forall|k: u32| #[trigger] w.stations@.contains_key(k) ==> w.stations@[k].id == StationID(k)
    &&& forall|k: u32, t: TileIndex|
        w.stations@.contains_key(k) && #[trigger] w.stations@[k].tiles@.contains(t) ==> {
            &&& w.map.dims().contains(t)
            &&& w.map.tile_at(t).base.kind == TileKind::Station
            &&& w.map.tile_at(t).extension.data == k
        }
}

/// A new world's station records agree: it has no stations and nothing indexed.
pub proof fn lemma_new_world_stations_indexed(w: World, size: MapSize)
    requires
        is_new_world(w, size),
    ensures
        stations_indexed(w),
{
}

/// Without a first blocked tile, every tile of the list is free.
proof fn lemma_all_free(w: World, tiles: Seq<TileIndex>, k: int)
    requires
        !exists|i: int| first_blocked(w, tiles, i),
        0 <= k <= tiles.len(),
    ensures
        forall|j: int| 0 <= j < k ==> tile_free(w, #[trigger] tiles[j]),
    decreases k,
{
    if k > 0 {
        lemma_all_free(w, tiles, k - 1);
        if !tile_free(w, tiles[k - 1]) {
            assert(first_blocked(w, tiles, k - 1));
        }
    }
}

/// Every command keeps the station records in agreement: building a station indexes
/// and marks exactly its new tiles, which were free; no other command touches the
/// index, the map or the stations' tiles.
pub proof fn lemma_command_keeps_stations_indexed(w: World, cmd: Command, w2: World, r: CommandResult)
    requires
        stations_indexed(w),
        command_effect(w, cmd, w2, r),
    ensures
        stations_indexed(w2),
{
    broadcast use vstd::std_specs::hash::axiom_hashmap_view_finite_dom;
    match cmd {
        Command::BuildStation { company_id, name, tiles } => {
            let tiles = tiles@;
            assert(w.stations@.dom().finite());
            lemma_next_id_fresh(w.stations@.dom());
            if w2 != w {
                let sid = next_id_after(w.stations@.dom())->0;
                let s = w2.stations@[sid];
                lemma_all_free(w, tiles, tiles.len() as int);
                assert forall|t: TileIndex| tiles.contains(t) implies tile_free(w, t) by {
                    let j = choose|j: int| 0 <= j < tiles.len() && tiles[j] == t;
                    assert(tile_free(w, tiles[j]));
                }
                // Tiles of the earlier stations are indexed, so none is a new tile.
                assert forall|k: u32, t: TileIndex| w.stations@.contains_key(k) && #[trigger] w.stations@[k].tiles@.contains(t)
                    implies !tiles.contains(t) by {
                    assert(station_covers(w.stations@, t));
                    assert(w.tile_to_station@.contains_key(spec_tile_key(t)));
                }
                assert forall|t: TileIndex| #[trigger] w2.tile_to_station@.contains_key(spec_tile_key(t))
                    <==> station_covers(w2.stations@, t) by {
                    if w2.tile_to_station@.contains_key(spec_tile_key(t)) {
                        if tiles.contains(t) {
                            assert(w2.stations@.contains_key(sid) && w2.stations@[sid].tiles@.contains(t));
                        } else {
                            assert(w.tile_to_station@.contains_key(spec_tile_key(t)));
                            let k = choose|k: u32| w.stations@.contains_key(k) && (#[trigger] w.stations@[k]).tiles@.contains(t);
                            assert(w2.stations@.contains_key(k) && w2.stations@[k] == w.stations@[k]);
                        }
                    }
                    if station_covers(w2.stations@, t) {
                        let k = choose|k: u32| w2.stations@.contains_key(k) && (#[trigger] w2.stations@[k]).tiles@.contains(t);
                        if k != sid {
                            assert(w.stations@.contains_key(k) && w.stations@[k].tiles@.contains(t));
                            assert(station_covers(w.stations@, t));
                        }
                    }
                }
                assert forall|t: TileIndex| #[trigger] w2.tile_to_station@.contains_key(spec_tile_key(t)) implies {
                    let i = w2.tile_to_station@[spec_tile_key(t)];
                    w2.stations@.contains_key(i.0) && w2.stations@[i.0].tiles@.contains(t)
                } by {
                    if !tiles.contains(t) {
                        let i = w.tile_to_station@[spec_tile_key(t)];
                        assert(w.stations@.contains_key(i.0) && w.stations@[i.0].tiles@.contains(t));
                        assert(i.0 != sid);
                    }
                }
                assert forall|k: u32| #[trigger] w2.stations@.contains_key(k) implies w2.stations@[k].id == StationID(k) by {
                    if k != sid {
                        assert(w.stations@.contains_key(k));
                    }
                }
                assert forall|k: u32, t: TileIndex|
                    w2.stations@.contains_key(k) && #[trigger] w2.stations@[k].tiles@.contains(t) implies {
                        &&& w2.map.dims().contains(t)
                        &&& w2.map.tile_at(t).base.kind == TileKind::Station
                        &&& w2.map.tile_at(t).extension.data == k
                    } by {
                    if k == sid {
                        assert(tile_free(w, t));
                        assert(w2.map.tile_at(t) == crate::world::map::station_tile(w.map.tile_at(t), StationID(sid), Some(company_id)));
                    } else {
                        assert(w.stations@.contains_key(k) && w.stations@[k].tiles@.contains(t));
                        assert(!tiles.contains(t));
                    }
                }
            }
        },
        Command::LoadCargo { .. } | Command::UnloadCargo { .. } => {
            if w2 != w {
                assert(w2.stations@.dom() =~= w.stations@.dom());
                lemma_goods_only_keeps_stations_indexed(w, w2);
            }
        },
        _ => {
            assert(w2.map == w.map && w2.stations == w.stations && w2.tile_to_station == w.tile_to_station);
        },
    }
}

/// A step that changes only the goods of stations (and other records than the map,
/// the index and the stations' tiles) keeps the station records in agreement.
proof fn lemma_goods_only_keeps_stations_indexed(w: World, w2: World)
    requires
        stations_indexed(w),
        w2.map == w.map,
        w2.tile_to_station == w.tile_to_station,
        w2.stations@.dom() == w.stations@.dom(),
        forall|k: u32| #[trigger] w2.stations@.contains_key(k) ==> w2.stations@[k].tiles == w.stations@[k].tiles
            && w2.stations@[k].id == w.stations@[k].id,
    ensures
        stations_indexed(w2),
{
    assert forall|t: TileIndex| station_covers(w2.stations@, t) <==> station_covers(w.stations@, t) by {
        if station_covers(w2.stations@, t) {
            let k = choose|k: u32| w2.stations@.contains_key(k) && (#[trigger] w2.stations@[k]).tiles@.contains(t);
            assert(w.stations@.contains_key(k) && w.stations@[k].tiles@.contains(t));
        }
        if station_covers(w.stations@, t) {
            let k = choose|k: u32| w.stations@.contains_key(k) && (#[trigger] w.stations@[k]).tiles@.contains(t);
            assert(w2.stations@.contains_key(k) && w2.stations@[k].tiles@.contains(t));
        }
    }
    assert forall|k: u32, t: TileIndex|
        w2.stations@.contains_key(k) && #[trigger] w2.stations@[k].tiles@.contains(t) implies {
            &&& w2.map.dims().contains(t)
            &&& w2.map.tile_at(t).base.kind == TileKind::Station
            &&& w2.map.tile_at(t).extension.data == k
        } by {
        assert(w.stations@[k].tiles@.contains(t));
    }
    assert forall|t: TileIndex| #[trigger] w2.tile_to_station@.contains_key(spec_tile_key(t)) implies {
        let i = w2.tile_to_station@[spec_tile_key(t)];
        w2.stations@.contains_key(i.0) && w2.stations@[i.0].tiles@.contains(t)
    } by {
        let i = w.tile_to_station@[spec_tile_key(t)];
        assert(w.stations@.contains_key(i.0) && w.stations@[i.0].tiles@.contains(t));
        assert(w2.stations@[i.0].tiles == w.stations@[i.0].tiles);
    }
}

/// A tick keeps the station records in agreement: its commands do, and moving the
/// vehicles and exchanging cargo change only vehicles, companies and stations' goods.
pub proof fn lemma_tick_keeps_stations_indexed(
    w0: World,
    q: Seq<QueuedCommand>,
    ws: Seq<World>,
    rs: Seq<CommandResult>,
    ids: Seq<VehicleID>,
    w2: World,
    w3: World,
)
    requires
        stations_indexed(w0),
        queue_run(w0, q, ws, rs),
        vehicles_advanced(ws.last(), ids, w2),
        cargo_exchanged_all(w2, ids, w3),
    ensures
        stations_indexed(w3),
{
    assert forall|k: int| 0 <= k <= q.len() implies stations_indexed(#[trigger] ws[k]) by {
        lemma_queue_prefix(w0, q, ws, rs, k);
    }
    let vs = choose|vs: Seq<World>| #![trigger vs.len()]
        vs.len() == ids.len() + 1 && vs[0] == ws.last() && vs[ids.len() as int] == w2
        && forall|i: int| 0 <= i < ids.len() ==> vehicle_advanced(#[trigger] vs[i], ids[i].0, vs[i + 1]);
    assert forall|k: int| 0 <= k <= ids.len() implies stations_indexed(#[trigger] vs[k]) by {
        lemma_advance_prefix_indexed(vs, ids, k);
    }
    let es = choose|es: Seq<World>| #![trigger es.len()]
        es.len() == ids.len() + 1 && es[0] == w2 && es[ids.len() as int] == w3
        && forall|i: int| 0 <= i < ids.len() ==> cargo_exchanged(#[trigger] es[i], ids[i].0, es[i + 1]);
    assert forall|k: int| 0 <= k <= ids.len() implies stations_indexed(#[trigger] es[k]) by {
        lemma_exchange_prefix_indexed(es, ids, k);
    }
}

/// The commands and vehicle moves of a tick keep the station records in agreement.
pub proof fn lemma_moves_keep_stations_indexed(
    w0: World,
    q: Seq<QueuedCommand>,
    ws: Seq<World>,
    rs: Seq<CommandResult>,
    ids: Seq<VehicleID>,
    w2: World,
)
    requires
        stations_indexed(w0),
        queue_run(w0, q, ws, rs),
        vehicles_advanced(ws.last(), ids, w2),
    ensures
        stations_indexed(w2),
{
    lemma_queue_prefix(w0, q, ws, rs, q.len() as int);
    let vs = choose|vs: Seq<World>| #![trigger vs.len()]
        vs.len() == ids.len() + 1 && vs[0] == ws.last() && vs[ids.len() as int] == w2
        && forall|i: int| 0 <= i < ids.len() ==> vehicle_advanced(#[trigger] vs[i], ids[i].0, vs[i + 1]);
    lemma_advance_prefix_indexed(vs, ids, ids.len() as int);
}

/// Along a command queue, every world keeps the station records in agreement.
proof fn lemma_queue_prefix(w0: World, q: Seq<QueuedCommand>, ws: Seq<World>, rs: Seq<CommandResult>, k: int)
    requires
        stations_indexed(w0),
        queue_run(w0, q, ws, rs),
        0 <= k <= q.len(),
    ensures
        stations_indexed(ws[k]),
    decreases k,
{
    if k > 0 {
        lemma_queue_prefix(w0, q, ws, rs, k - 1);
        lemma_command_keeps_stations_indexed(ws[k - 1], q[k - 1].entry.command, ws[k], rs[k - 1]);
    }
}

/// Along the vehicle moves of a tick, every world keeps the station records in agreement.
proof fn lemma_advance_prefix_indexed(vs: Seq<World>, ids: Seq<VehicleID>, k: int)
    requires
        vs.len() == ids.len() + 1,
        stations_indexed(vs[0]),
        forall|i: int| 0 <= i < ids.len() ==> vehicle_advanced(#[trigger] vs[i], ids[i].0, vs[i + 1]),
        0 <= k <= ids.len(),
    ensures
        stations_indexed(vs[k]),
    decreases k,
{
    if k > 0 {
        lemma_advance_prefix_indexed(vs, ids, k - 1);
        assert(vehicle_advanced(vs[k - 1], ids[k - 1].0, vs[k]));
    }
}

/// Along the cargo exchanges of a tick, every world keeps the station records in
/// agreement.
pub proof fn lemma_exchange_prefix_indexed(es: Seq<World>, ids: Seq<VehicleID>, k: int)
    requires
        es.len() == ids.len() + 1,
        stations_indexed(es[0]),
        forall|i: int| 0 <= i < ids.len() ==> cargo_exchanged(#[trigger] es[i], ids[i].0, es[i + 1]),
        0 <= k <= ids.len(),
    ensures
        stations_indexed(es[k]),
    decreases k,
{
    if k > 0 {
        lemma_exchange_prefix_indexed(es, ids, k - 1);
        let w = es[k - 1];
        let w2 = es[k];
        assert(cargo_exchanged(w, ids[k - 1].0, w2));
        if w2 != w {
            assert(w2.stations@.dom() =~= w.stations@.dom());
            lemma_goods_only_keeps_stations_indexed(w, w2);
        }
    }
}

} // verus!
