//! The effect of each command on the world, stated as relations between the world
//! before, the world after and the result, and the functions that carry them out.
//! A failed command leaves the world exactly as it was.
use vstd::prelude::*;
use std::collections::HashMap;
use crate::types::enums::{OrderType, TileKind, VehicleKind, VehicleState, same_order};
use crate::types::id::{CargoType, CompanyID, EngineID, OrderListID, StationID, TileIndex, VehicleID};
use crate::types::unit::{CargoAmount, Money};
use crate::world::definitions::{GoodsEntry, Station, fresh_goods};
use crate::world::entities::{Company, Vehicle};
use crate::world::map::station_tile;
use crate::sim::command::{CommandFailure, CommandResult, CommandSuccess};
use crate::sim::keys::key_list;
use crate::sim::world::{World, spec_tile_key, tile_key, tiles_contain, copy_tiles, lemma_tile_key_injective};

verus! {

broadcast use vstd::std_specs::hash::group_hash_axioms;

/// `m` is the largest element of `keys`.
pub open spec fn is_max_key(keys: Set<u32>, m: u32) -> bool {
    keys.contains(m) && forall|k: u32| #[trigger] keys.contains(k) ==> k <= m
}

/// The identifier the next entity of a table gets: 0 for an empty table, otherwise one
/// more than the largest key, unless that is the reserved invalid value or overflows.
pub open spec fn next_id_after(keys: Set<u32>) -> Option<u32> {
    if keys == Set::<u32>::empty() {
        Some(0u32)
    } else {
        let m = choose|m: u32| is_max_key(keys, m);
        if m < u32::MAX - 1 {
            Some((m + 1) as u32)
        } else {
            None
        }
    }
}

/// A finite non-empty set of keys has a largest element.
pub proof fn lemma_max_key_exists(keys: Set<u32>)
    requires
        keys.finite(),
        keys != Set::<u32>::empty(),
    ensures
        exists|m: u32| is_max_key(keys, m),
    decreases keys.len(),
{
    let x = keys.choose();
    assert(keys.contains(x)) by {
        if !keys.contains(x) {
            assert forall|k: u32| !keys.contains(k) by {}
            assert(keys =~= Set::<u32>::empty());
        }
    }
    let rest = keys.remove(x);
    if rest == Set::<u32>::empty() {
        assert forall|k: u32| #[trigger] keys.contains(k) implies k <= x by {
            if k != x {
                assert(rest.contains(k));
            }
        }
        assert(is_max_key(keys, x));
    } else {
        lemma_max_key_exists(rest);
        let m = choose|m: u32| is_max_key(rest, m);
        let top = if m >= x { m } else { x };
        assert forall|k: u32| #[trigger] keys.contains(k) implies k <= top by {
            if k != x {
                assert(rest.contains(k));
            }
        }
        assert(is_max_key(keys, top));
    }
}

/// Identifiers handed out are fresh and valid: the next identifier of a table is not a
/// key of it and is not the reserved invalid value; none is handed out only once the
/// largest key has reached the value just below the reserved one.
pub proof fn lemma_next_id_fresh(keys: Set<u32>)
    requires
        keys.finite(),
    ensures
        next_id_after(keys) matches Some(id) ==> !keys.contains(id) && id != u32::MAX,
        next_id_after(keys) is None ==> exists|m: u32| is_max_key(keys, m) && m >= u32::MAX - 1,
{
    if keys != Set::<u32>::empty() {
        lemma_max_key_exists(keys);
        let m = choose|m: u32| is_max_key(keys, m);
        if m < u32::MAX - 1 {
            assert(!keys.contains((m + 1) as u32)) by {
                if keys.contains((m + 1) as u32) {
                    assert((m + 1) as u32 <= m);
                }
            }
        }
    }
}

/// The next identifier for the table `m`, per `next_id_after`.
pub fn next_raw_id<V>(m: &HashMap<u32, V>) -> (r: Option<u32>)
    ensures
        r == next_id_after(m@.dom()),
{
    let ks = key_list(m);
    if ks.len() == 0 {
        proof {
            assert forall|k: u32| !m@.dom().contains(k) by {
                if m@.dom().contains(k) {
                    assert(ks@.contains(k));
                }
            }
            assert(m@.dom() =~= Set::<u32>::empty());
        }
        return Some(0);
    }
    let mut best: u32 = ks[0];
    let mut i: usize = 1;
    while i < ks.len()
        invariant
            1 <= i <= ks@.len(),
            ks@.contains(best),
            forall|j: int| 0 <= j < i ==> ks@[j] <= best,
        decreases ks@.len() - i,
    {
        if ks[i] > best {
            best = ks[i];
        }
        i = i + 1;
    }
    proof {
        assert(is_max_key(m@.dom(), best)) by {
            assert forall|k: u32| #[trigger] m@.dom().contains(k) implies k <= best by {
                assert(ks@.contains(k));
                let j = choose|j: int| 0 <= j < ks@.len() && ks@[j] == k;
            }
        }
        assert(m@.dom() != Set::<u32>::empty()) by {
            assert(m@.dom().contains(best));
        }
        let c = choose|c: u32| is_max_key(m@.dom(), c);
        assert(c <= best && best <= c);
    }
    if best < u32::MAX - 1 {
        Some(best + 1)
    } else {
        None
    }
}

// ---------------------------------------------------------------------------
// Creating companies and order lists
// ---------------------------------------------------------------------------

/// The effect of `CreateCompany`: the company gets the next company ID, with the given
/// name, money and colour, and becomes the current company if there was none;
/// exhaustion of IDs fails.
pub open spec fn create_company_effect(w: World, name: String, money: Money, color: u32, w2: World, r: CommandResult) -> bool {
    match next_id_after(w.companies@.dom()) {
        None => r == CommandResult::Failure(CommandFailure::CompanyIdExhausted) && w2 == w,
        Some(id) => {
            &&& r == CommandResult::Success(CommandSuccess::CompanyCreated(CompanyID(id)))
            &&& w2.companies@ == w.companies@.insert(id, Company { id: CompanyID(id), name, money, color })
            &&& w2 == (World {
                companies: w2.companies,
                current_company_id: if w.current_company_id.0 == CompanyID::INVALID_RAW {
                    CompanyID(id)
                } else {
                    w.current_company_id
                },
                ..w
            })
        },
    }
}

pub fn exec_create_company(w: &mut World, name: &String, money: Money, color: u32) -> (r: CommandResult)
    ensures
        create_company_effect(*old(w), *name, money, color, *final(w), r),
{
    match next_raw_id(&w.companies) {
        Some(id) => {
            let company = Company::new(CompanyID(id), name.clone(), money, color);
            w.companies.insert(id, company);
            if w.current_company_id.0 == CompanyID::INVALID_RAW {
                w.current_company_id = CompanyID(id);
            }
            CommandResult::Success(CommandSuccess::CompanyCreated(CompanyID(id)))
        },
        None => CommandResult::Failure(CommandFailure::CompanyIdExhausted),
    }
}

/// The effect of `CreateOrderList`: an empty order list under the next order list ID;
/// exhaustion of IDs fails.
pub open spec fn create_order_list_effect(w: World, w2: World, r: CommandResult) -> bool {
    match next_id_after(w.order_lists@.dom()) {
        None => r == CommandResult::Failure(CommandFailure::OrderListIdExhausted) && w2 == w,
        Some(id) => {
            &&& r == CommandResult::Success(CommandSuccess::OrderListCreated(OrderListID(id)))
            &&& w2.order_lists@ == w.order_lists@.insert(id, w2.order_lists@[id])
            &&& w2.order_lists@[id]@.len() == 0
            &&& w2 == (World { order_lists: w2.order_lists, ..w })
        },
    }
}

pub fn exec_create_order_list(w: &mut World) -> (r: CommandResult)
    ensures
        create_order_list_effect(*old(w), *final(w), r),
{
    match next_raw_id(&w.order_lists) {
        Some(id) => {
            w.order_lists.insert(id, Vec::new());
            CommandResult::Success(CommandSuccess::OrderListCreated(OrderListID(id)))
        },
        None => CommandResult::Failure(CommandFailure::OrderListIdExhausted),
    }
}

/// The effect of `AddOrderToList`: the order is appended to the list; a missing list fails.
pub open spec fn add_order_effect(w: World, list: OrderListID, order: OrderType, w2: World, r: CommandResult) -> bool {
    if !w.order_lists@.contains_key(list.0) {
        r == CommandResult::Failure(CommandFailure::OrderListNotFound(list)) && w2 == w
    } else {
        let before = w.order_lists@[list.0]@;
        let after = w2.order_lists@[list.0]@;
        &&& r == CommandResult::Success(CommandSuccess::OrderAdded)
        &&& w2.order_lists@ == w.order_lists@.insert(list.0, w2.order_lists@[list.0])
        &&& after.len() == before.len() + 1
        &&& after.subrange(0, before.len() as int) == before
        &&& same_order(after[before.len() as int], order)
        &&& w2 == (World { order_lists: w2.order_lists, ..w })
    }
}

pub fn exec_add_order(w: &mut World, list: OrderListID, order: &OrderType) -> (r: CommandResult)
    ensures
        add_order_effect(*old(w), list, *order, *final(w), r),
{
    if !w.order_lists.contains_key(&list.0) {
        return CommandResult::Failure(CommandFailure::OrderListNotFound(list));
    }
    let mut orders = w.order_lists.remove(&list.0).unwrap();
    let ghost before = orders@;
    orders.push(order.clone());
    proof {
        assert(orders@.subrange(0, before.len() as int) =~= before);
    }
    w.order_lists.insert(list.0, orders);
    proof {
        assert(w.order_lists@ =~= old(w).order_lists@.insert(list.0, w.order_lists@[list.0]));
    }
    CommandResult::Success(CommandSuccess::OrderAdded)
}

} // verus!

verus! {

// ---------------------------------------------------------------------------
// Building stations
// ---------------------------------------------------------------------------

/// Construction cost of a station, per tile.
pub const STATION_TILE_COST: i64 = 1000i64;

/// Whether a station may be built on `t`: inside the map, not in the tile-to-station
/// index and not marked as a station tile on the map.
pub open spec fn tile_free(w: World, t: TileIndex) -> bool {
    &&& w.map.dims().contains(t)
    &&& !w.tile_to_station@.contains_key(spec_tile_key(t))
    &&& w.map.tile_at(t).base.kind != TileKind::Station
}

/// The tile at `i` is the first of `tiles` on which no station may be built.
pub open spec fn first_blocked(w: World, tiles: Seq<TileIndex>, i: int) -> bool {
    &&& 0 <= i < tiles.len()
    &&& !tile_free(w, tiles[i])
    &&& forall|j: int| 0 <= j < i ==> tile_free(w, #[trigger] tiles[j])
}

/// The failure reported for a blocked tile: out of bounds, or else occupied.
pub open spec fn blocked_failure(w: World, t: TileIndex) -> CommandFailure {
    if !w.map.dims().contains(t) {
        CommandFailure::OutOfBounds(t)
    } else {
        CommandFailure::TileOccupied(t)
    }
}

/// The goods of a new station: one fresh entry for each cargo type key, each once.
pub open spec fn fresh_goods_for(goods: Seq<GoodsEntry>, cargo_keys: Set<u16>) -> bool {
    &&& goods.len() == cargo_keys.len()
    &&& forall|i: int| 0 <= i < goods.len() ==> cargo_keys.contains((#[trigger] goods[i]).cargo_type.0)
        && goods[i] == fresh_goods(goods[i].cargo_type)
    &&& forall|k: u16| #[trigger] cargo_keys.contains(k) ==> exists|i: int| 0 <= i < goods.len()
        && (#[trigger] goods[i]).cargo_type == CargoType(k)
    &&& forall|i: int, j: int| 0 <= i < j < goods.len() ==> (#[trigger] goods[i]).cargo_type != (#[trigger] goods[j]).cargo_type
}

/// The map after marking `tiles` as tiles of station `sid` owned by `owner`.
pub open spec fn tiles_marked(w: World, w2: World, tiles: Seq<TileIndex>, sid: StationID, owner: Option<CompanyID>) -> bool {
    &&& w2.map.dims() == w.map.dims()
    &&& w2.map.wf()
    &&& forall|t: TileIndex| #[trigger] w.map.dims().contains(t) ==> w2.map.tile_at(t) == (if tiles.contains(t) {
        station_tile(w.map.tile_at(t), sid, owner)
    } else {
        w.map.tile_at(t)
    })
}

/// The tile-to-station index after adding `tiles` for station `sid`.
pub open spec fn tiles_indexed(w: World, w2: World, tiles: Seq<TileIndex>, sid: StationID) -> bool {
    &&& forall|t: TileIndex| #[trigger] w2.tile_to_station@.contains_key(spec_tile_key(t))
        <==> (w.tile_to_station@.contains_key(spec_tile_key(t)) || tiles.contains(t))
    &&& forall|t: TileIndex| #[trigger] w2.tile_to_station@.contains_key(spec_tile_key(t)) ==>
        w2.tile_to_station@[spec_tile_key(t)] == (if tiles.contains(t) {
            sid
        } else {
            w.tile_to_station@[spec_tile_key(t)]
        })
}

/// The effect of `BuildStation`: the company must exist, the tile list be non-empty,
/// each tile free (the first blocked tile is reported), and the company able to pay
/// 1000 per tile. The station gets the next station ID, the company's owner rating
/// of 100 and a fresh goods entry per cargo type; its tiles are marked on the map and
/// indexed; the company pays.
pub open spec fn build_station_effect(w: World, company_id: CompanyID, name: String, tiles: Seq<TileIndex>, w2: World, r: CommandResult) -> bool {
    if !w.companies@.contains_key(company_id.0) {
        r == CommandResult::Failure(CommandFailure::CompanyNotFound(company_id)) && w2 == w
    } else if tiles.len() == 0 {
        &&& r matches CommandResult::Failure(CommandFailure::InvalidPlacement(msg))
        &&& msg@ == "Station must contain at least one tile"@
        &&& w2 == w
    } else if exists|i: int| first_blocked(w, tiles, i) {
        let i = choose|i: int| first_blocked(w, tiles, i);
        r == CommandResult::Failure(blocked_failure(w, tiles[i])) && w2 == w
    } else {
        let company = w.companies@[company_id.0];
        let cost = STATION_TILE_COST * tiles.len();
        if company.money.0 < cost {
            &&& r == CommandResult::Failure(CommandFailure::InsufficientFunds {
                required: Money(cost as i64),
                available: company.money,
            })
            &&& w2 == w
        } else {
            match next_id_after(w.stations@.dom()) {
                None => r == CommandResult::Failure(CommandFailure::StationIdExhausted) && w2 == w,
                Some(sid) => {
                    let s = w2.stations@[sid];
                    &&& r == CommandResult::Success(CommandSuccess::StationBuilt(StationID(sid)))
                    &&& w2.companies@ == w.companies@.insert(
                        company_id.0,
                        Company { money: Money((company.money.0 - cost) as i64), ..company },
                    )
                    &&& w2.stations@ == w.stations@.insert(sid, s)
                    &&& s.id == StationID(sid)
                    &&& s.company_id == Some(company_id)
                    &&& s.name == name
                    &&& s.tiles@ == tiles
                    &&& s.operator_rating == 100
                    &&& fresh_goods_for(s.goods@, w.cargo_types@.dom())
                    &&& tiles_marked(w, w2, tiles, StationID(sid), Some(company_id))
                    &&& tiles_indexed(w, w2, tiles, StationID(sid))
                    &&& w2 == (World {
                        companies: w2.companies,
                        stations: w2.stations,
                        map: w2.map,
                        tile_to_station: w2.tile_to_station,
                        ..w
                    })
                },
            }
        }
    }
}

/// One fresh goods entry per cargo type of `cargo_types`.
fn goods_for_cargo<V>(cargo_types: &HashMap<u16, V>) -> (g: Vec<GoodsEntry>)
    ensures
        fresh_goods_for(g@, cargo_types@.dom()),
{
    let keys = key_list(cargo_types);
    let mut g: Vec<GoodsEntry> = Vec::new();
    let mut i: usize = 0;
    while i < keys.len()
        invariant
            i <= keys@.len(),
            g@.len() == i,
            forall|j: int| 0 <= j < i ==> (#[trigger] g@[j]) == fresh_goods(CargoType(keys@[j])),
        decreases keys@.len() - i,
    {
        g.push(GoodsEntry::new(CargoType(keys[i])));
        i = i + 1;
    }
    proof {
        let d = cargo_types@.dom();
        assert forall|j: int| 0 <= j < g@.len() implies d.contains((#[trigger] g@[j]).cargo_type.0)
            && g@[j] == fresh_goods(g@[j].cargo_type) by {
            assert(keys@.contains(keys@[j]));
        }
        assert forall|k: u16| #[trigger] d.contains(k) implies exists|j: int| 0 <= j < g@.len()
            && (#[trigger] g@[j]).cargo_type == CargoType(k) by {
            assert(keys@.contains(k));
            let j = choose|j: int| 0 <= j < keys@.len() && keys@[j] == k;
            assert(g@[j].cargo_type == CargoType(k));
        }
        assert forall|a: int, b: int| 0 <= a < b < g@.len() implies (#[trigger] g@[a]).cargo_type != (#[trigger] g@[b]).cargo_type by {
            assert(keys@[a] != keys@[b]);
        }
    }
    g
}

/// Mark `tiles` on the map as tiles of station `sid` and add them to the index.
fn mark_station_tiles(w: &mut World, tiles: &Vec<TileIndex>, sid: StationID, owner: Option<CompanyID>)
    requires
        old(w).inv(),
        forall|j: int| 0 <= j < tiles@.len() ==> tile_free(*old(w), #[trigger] tiles@[j]),
    ensures
        final(w).inv(),
        tiles_marked(*old(w), *final(w), tiles@, sid, owner),
        tiles_indexed(*old(w), *final(w), tiles@, sid),
        *final(w) == (World { map: final(w).map, tile_to_station: final(w).tile_to_station, ..*old(w) }),
{
    let ghost w0 = *w;
    let mut i: usize = 0;
    while i < tiles.len()
        invariant
            i <= tiles@.len(),
            w.inv(),
            forall|j: int| 0 <= j < tiles@.len() ==> tile_free(w0, #[trigger] tiles@[j]),
            tiles_marked(w0, *w, tiles@.subrange(0, i as int), sid, owner),
            tiles_indexed(w0, *w, tiles@.subrange(0, i as int), sid),
            *w == (World { map: w.map, tile_to_station: w.tile_to_station, ..w0 }),
        decreases tiles@.len() - i,
    {
        let t = tiles[i];
        assert(tile_free(w0, tiles@[i as int]));
        assert(w.map.dims().contains(t));
        let ghost m1 = w.map;
        let ghost x1 = w.tile_to_station@;
        let res = w.map.set_station_at(t, sid, owner);
        w.tile_to_station.insert(tile_key(t), sid);
        proof {
            crate::world::map::lemma_linear_in_range(m1.dims(), t);
            assert(res is Ok);
            assert(w.map.cells().len() == m1.cells().len());
            let s0 = tiles@.subrange(0, i as int);
            let s1 = tiles@.subrange(0, i + 1);
            assert(s1 =~= s0.push(t));
            assert forall|u: TileIndex| s1.contains(u) <==> (s0.contains(u) || u == t) by {
                if s0.contains(u) {
                    let k = choose|k: int| 0 <= k < s0.len() && #[trigger] s0[k] == u;
                    assert(s1[k] == u);
                }
                if s1.contains(u) && u != t {
                    let k = choose|k: int| 0 <= k < s1.len() && #[trigger] s1[k] == u;
                    assert(s0[k] == u);
                }
                if u == t {
                    assert(s1[i as int] == u);
                }
            }
            assert forall|u: TileIndex| #[trigger] w0.map.dims().contains(u) implies w.map.tile_at(u) == (if s1.contains(u) {
                station_tile(w0.map.tile_at(u), sid, owner)
            } else {
                w0.map.tile_at(u)
            }) by {
                crate::world::map::lemma_linear_in_range(w0.map.dims(), u);
                crate::world::map::lemma_linear_in_range(w0.map.dims(), t);
                if u != t && w0.map.dims().linear(u) == w0.map.dims().linear(t) {
                    crate::world::map::lemma_linear_injective(w0.map.dims(), u, t);
                }
            }
            assert forall|u: TileIndex| #[trigger] w.tile_to_station@.contains_key(spec_tile_key(u))
                <==> (w0.tile_to_station@.contains_key(spec_tile_key(u)) || s1.contains(u)) by {
                lemma_tile_key_injective(u, t);
            }
            assert forall|u: TileIndex| #[trigger] w.tile_to_station@.contains_key(spec_tile_key(u)) implies
                w.tile_to_station@[spec_tile_key(u)] == (if s1.contains(u) {
                    sid
                } else {
                    w0.tile_to_station@[spec_tile_key(u)]
                }) by {
                lemma_tile_key_injective(u, t);
                if s0.contains(u) {
                    let k = choose|k: int| 0 <= k < s0.len() && #[trigger] s0[k] == u;
                    assert(tiles@[k] == u);
                }
            }
        }
        i = i + 1;
    }
    proof {
        assert(tiles@.subrange(0, tiles@.len() as int) =~= tiles@);
    }
}

pub fn exec_build_station(w: &mut World, company_id: CompanyID, name: &String, tiles: &Vec<TileIndex>) -> (r: CommandResult)
    requires
        old(w).inv(),
        tiles@.len() <= crate::sim::command::MAX_STATION_TILES,
    ensures
        final(w).inv(),
        build_station_effect(*old(w), company_id, *name, tiles@, *final(w), r),
{
    broadcast use vstd::string::to_string_from_display_ensures_for_str;
    if !w.companies.contains_key(&company_id.0) {
        return CommandResult::Failure(CommandFailure::CompanyNotFound(company_id));
    }
    if tiles.len() == 0 {
        return CommandResult::Failure(
            CommandFailure::InvalidPlacement("Station must contain at least one tile".to_string()),
        );
    }
    let size = w.map.size();
    let mut i: usize = 0;
    while i < tiles.len()
        invariant
            i <= tiles@.len(),
            w.inv(),
            size == w.map.dims(),
            *w == *old(w),
            old(w).companies@.contains_key(company_id.0),
            tiles@.len() > 0,
            forall|j: int| 0 <= j < i ==> tile_free(*w, #[trigger] tiles@[j]),
        decreases tiles@.len() - i,
    {
        let t = tiles[i];
        if !size.is_valid_index(t) {
            proof {
                assert(first_blocked(*w, tiles@, i as int));
                let k = choose|k: int| first_blocked(*w, tiles@, k);
                assert(k == i) by {
                    if k < i {
                        assert(tile_free(*w, tiles@[k]));
                    }
                    if i < k {
                        assert(tile_free(*w, tiles@[i as int]));
                    }
                }
            }
            return CommandResult::Failure(CommandFailure::OutOfBounds(t));
        }
        if w.tile_to_station.contains_key(&tile_key(t)) || w.map.station_at(t).is_some() {
            proof {
                assert(first_blocked(*w, tiles@, i as int));
                let k = choose|k: int| first_blocked(*w, tiles@, k);
                assert(k == i) by {
                    if k < i {
                        assert(tile_free(*w, tiles@[k]));
                    }
                    if i < k {
                        assert(tile_free(*w, tiles@[i as int]));
                    }
                }
            }
            return CommandResult::Failure(CommandFailure::TileOccupied(t));
        }
        i = i + 1;
    }
    proof {
        assert(!exists|k: int| first_blocked(*w, tiles@, k));
    }
    let cost = Money(STATION_TILE_COST * (tiles.len() as i64));
    let money = w.companies.get(&company_id.0).unwrap().money;
    if money.0 < cost.0 {
        return CommandResult::Failure(CommandFailure::InsufficientFunds { required: cost, available: money });
    }
    let sid = match next_raw_id(&w.stations) {
        Some(s) => s,
        None => {
            return CommandResult::Failure(CommandFailure::StationIdExhausted);
        },
    };
    let ghost w0 = *w;
    let mut company = w.companies.remove(&company_id.0).unwrap();
    company.money = Money(money.0 - cost.0);
    w.companies.insert(company_id.0, company);
    proof {
        assert(w.companies@ =~= w0.companies@.insert(
            company_id.0,
            Company { money: Money((w0.companies@[company_id.0].money.0 - cost.0) as i64), ..w0.companies@[company_id.0] },
        ));
    }
    let mut station = Station::new(StationID(sid), name.clone(), copy_tiles(tiles));
    station.company_id = Some(company_id);
    station.operator_rating = 100;
    station.goods = goods_for_cargo(&w.cargo_types);
    let ghost w1 = *w;
    mark_station_tiles(w, tiles, StationID(sid), Some(company_id));
    w.stations.insert(sid, station);
    CommandResult::Success(CommandSuccess::StationBuilt(StationID(sid)))
}

} // verus!

verus! {

// ---------------------------------------------------------------------------
// Purchasing vehicles
// ---------------------------------------------------------------------------

/// Price of an engine model; 5000 for a model the world does not define.
pub open spec fn engine_cost(w: World, engine: EngineID) -> Money {
    if w.engines@.contains_key(engine.0) {
        w.engines@[engine.0].cost
    } else {
        Money(5000)
    }
}

/// A vehicle as purchased: at rest at `position`, idle, empty, with no current order.
pub open spec fn purchased_vehicle(v: Vehicle, id: VehicleID, company_id: CompanyID, engine_id: EngineID, kind: VehicleKind, position: TileIndex, orders: OrderListID) -> bool {
    &&& v.id == id
    &&& v.company_id == company_id
    &&& v.engine_id == engine_id
    &&& v.kind == kind
    &&& v.position == position
    &&& v.velocity == 0
    &&& v.sub_tile_position == (0i16, 0i16)
    &&& v.current_order is None
    &&& v.state == VehicleState::Idle
    &&& v.cargo@.len() == 0
    &&& v.orders == orders
    &&& v.next_waypoint is None
}

/// The effect of `PurchaseVehicle`: the company and the order list must exist, the
/// position lie inside the map and the company be able to pay the engine's price. The
/// vehicle gets the next vehicle ID; the company pays.
pub open spec fn purchase_vehicle_effect(w: World, company_id: CompanyID, engine_id: EngineID, kind: VehicleKind, position: TileIndex, orders: OrderListID, w2: World, r: CommandResult) -> bool {
    if !w.companies@.contains_key(company_id.0) {
        r == CommandResult::Failure(CommandFailure::CompanyNotFound(company_id)) && w2 == w
    } else if !w.order_lists@.contains_key(orders.0) {
        r == CommandResult::Failure(CommandFailure::OrderListNotFound(orders)) && w2 == w
    } else if !w.map.dims().contains(position) {
        r == CommandResult::Failure(CommandFailure::OutOfBounds(position)) && w2 == w
    } else {
        let company = w.companies@[company_id.0];
        let cost = engine_cost(w, engine_id);
        if company.money.0 < cost.0 || company.money.0 - cost.0 > i64::MAX {
            &&& r == CommandResult::Failure(CommandFailure::InsufficientFunds {
                required: cost,
                available: company.money,
            })
            &&& w2 == w
        } else {
            match next_id_after(w.vehicles@.dom()) {
                None => r == CommandResult::Failure(CommandFailure::VehicleIdExhausted) && w2 == w,
                Some(vid) => {
                    &&& r == CommandResult::Success(CommandSuccess::VehiclePurchased(VehicleID(vid)))
                    &&& w2.companies@ == w.companies@.insert(
                        company_id.0,
                        Company { money: Money((company.money.0 - cost.0) as i64), ..company },
                    )
                    &&& w2.vehicles@ == w.vehicles@.insert(vid, w2.vehicles@[vid])
                    &&& purchased_vehicle(w2.vehicles@[vid], VehicleID(vid), company_id, engine_id, kind, position, orders)
                    &&& w2 == (World { companies: w2.companies, vehicles: w2.vehicles, ..w })
                },
            }
        }
    }
}

pub fn exec_purchase_vehicle(
    w: &mut World,
    company_id: CompanyID,
    engine_id: EngineID,
    kind: VehicleKind,
    position: TileIndex,
    orders: OrderListID,
) -> (r: CommandResult)
    requires
        old(w).inv(),
    ensures
        final(w).inv(),
        purchase_vehicle_effect(*old(w), company_id, engine_id, kind, position, orders, *final(w), r),
{
    if !w.companies.contains_key(&company_id.0) {
        return CommandResult::Failure(CommandFailure::CompanyNotFound(company_id));
    }
    if !w.order_lists.contains_key(&orders.0) {
        return CommandResult::Failure(CommandFailure::OrderListNotFound(orders));
    }
    if !w.map.size().is_valid_index(position) {
        return CommandResult::Failure(CommandFailure::OutOfBounds(position));
    }
    let cost = match w.engines.get(&engine_id.0) {
        Some(e) => e.cost,
        None => Money(5000),
    };
    let money = w.companies.get(&company_id.0).unwrap().money;
    if money.0 < cost.0 {
        return CommandResult::Failure(CommandFailure::InsufficientFunds { required: cost, available: money });
    }
    let remaining = match money.sub_checked(cost) {
        Ok(m) => m,
        Err(_) => {
            return CommandResult::Failure(CommandFailure::InsufficientFunds { required: cost, available: money });
        },
    };
    let vid = match next_raw_id(&w.vehicles) {
        Some(v) => v,
        None => {
            return CommandResult::Failure(CommandFailure::VehicleIdExhausted);
        },
    };
    let ghost w0 = *w;
    let mut company = w.companies.remove(&company_id.0).unwrap();
    company.money = remaining;
    w.companies.insert(company_id.0, company);
    proof {
        assert(w.companies@ =~= w0.companies@.insert(
            company_id.0,
            Company { money: Money((w0.companies@[company_id.0].money.0 - cost.0) as i64), ..w0.companies@[company_id.0] },
        ));
    }
    let vehicle = Vehicle::new(VehicleID(vid), company_id, engine_id, kind, position, orders);
    w.vehicles.insert(vid, vehicle);
    CommandResult::Success(CommandSuccess::VehiclePurchased(VehicleID(vid)))
}

// ---------------------------------------------------------------------------
// Loading and unloading cargo
// ---------------------------------------------------------------------------

/// Income per unit of cargo delivered.
pub const REVENUE_PER_UNIT: i64 = 10i64;

/// The entry at `i` is the first goods entry of cargo type `c`.
pub open spec fn first_goods_of(goods: Seq<GoodsEntry>, c: CargoType, i: int) -> bool {
    &&& 0 <= i < goods.len()
    &&& goods[i].cargo_type == c
    &&& forall|j: int| 0 <= j < i ==> (#[trigger] goods[j]).cargo_type != c
}

/// Whether some goods entry is of cargo type `c`.
pub open spec fn has_goods_of(goods: Seq<GoodsEntry>, c: CargoType) -> bool {
    exists|i: int| 0 <= i < goods.len() && (#[trigger] goods[i]).cargo_type == c
}

/// The entry at `i` is the first cargo entry of type `c`.
pub open spec fn first_cargo_of(cargo: Seq<(CargoType, CargoAmount)>, c: CargoType, i: int) -> bool {
    &&& 0 <= i < cargo.len()
    &&& cargo[i].0 == c
    &&& forall|j: int| 0 <= j < i ==> (#[trigger] cargo[j]).0 != c
}

/// Whether some cargo entry is of type `c`.
pub open spec fn has_cargo_of(cargo: Seq<(CargoType, CargoAmount)>, c: CargoType) -> bool {
    exists|i: int| 0 <= i < cargo.len() && (#[trigger] cargo[i]).0 == c
}

/// The index of the first goods entry of `c`, if any.
pub fn find_goods(goods: &Vec<GoodsEntry>, c: CargoType) -> (r: Option<usize>)
    ensures
        r matches Some(i) ==> first_goods_of(goods@, c, i as int),
        r is None ==> !has_goods_of(goods@, c),
{
    let mut i: usize = 0;
    while i < goods.len()
        invariant
            i <= goods@.len(),
            forall|j: int| 0 <= j < i ==> (#[trigger] goods@[j]).cargo_type != c,
        decreases goods@.len() - i,
    {
        if goods[i].cargo_type.0 == c.0 {
            return Some(i);
        }
        i = i + 1;
    }
    None
}

/// The index of the first cargo entry of `c`, if any.
pub fn find_cargo(cargo: &Vec<(CargoType, CargoAmount)>, c: CargoType) -> (r: Option<usize>)
    ensures
        r matches Some(i) ==> first_cargo_of(cargo@, c, i as int),
        r is None ==> !has_cargo_of(cargo@, c),
{
    let mut i: usize = 0;
    while i < cargo.len()
        invariant
            i <= cargo@.len(),
            forall|j: int| 0 <= j < i ==> (#[trigger] cargo@[j]).0 != c,
        decreases cargo@.len() - i,
    {
        if cargo[i].0.0 == c.0 {
            return Some(i);
        }
        i = i + 1;
    }
    None
}

/// The smaller of two amounts.
pub open spec fn min_u32(a: u32, b: u32) -> u32 {
    if a <= b {
        a
    } else {
        b
    }
}

/// `m + d`, saturating at the bounds of `i64`.
pub open spec fn money_plus(m: Money, d: Money) -> Money {
    Money(
        (if m.0 + d.0 > i64::MAX {
            i64::MAX as int
        } else if m.0 + d.0 < i64::MIN {
            i64::MIN as int
        } else {
            m.0 + d.0
        }) as i64,
    )
}

/// The cargo list after adding `n` units of `c`: to the first entry of `c`, or as a
/// new entry at the end.
pub open spec fn cargo_added(cargo: Seq<(CargoType, CargoAmount)>, c: CargoType, n: u32) -> Seq<(CargoType, CargoAmount)> {
    if has_cargo_of(cargo, c) {
        let i = choose|i: int| first_cargo_of(cargo, c, i);
        cargo.update(i, (c, CargoAmount((cargo[i].1.0 + n) as u32)))
    } else {
        cargo.push((c, CargoAmount(n)))
    }
}

/// Whether adding `n` units of `c` to the cargo list overflows its entry.
pub open spec fn cargo_add_overflows(cargo: Seq<(CargoType, CargoAmount)>, c: CargoType, n: u32) -> bool {
    has_cargo_of(cargo, c) && {
        let i = choose|i: int| first_cargo_of(cargo, c, i);
        cargo[i].1.0 + n > u32::MAX
    }
}

/// The goods list after recording `n` units of `c` delivered: on the first entry of
/// `c`, or on a new fresh entry at the end.
pub open spec fn goods_delivered(goods: Seq<GoodsEntry>, c: CargoType, n: u32) -> Seq<GoodsEntry> {
    if has_goods_of(goods, c) {
        let i = choose|i: int| first_goods_of(goods, c, i);
        goods.update(
            i,
            GoodsEntry {
                delivered_since_last_visit: CargoAmount((goods[i].delivered_since_last_visit.0 + n) as u32),
                ..goods[i]
            },
        )
    } else {
        goods.push(GoodsEntry { delivered_since_last_visit: CargoAmount(n), ..fresh_goods(c) })
    }
}

/// Whether recording `n` delivered units of `c` overflows its goods entry.
pub open spec fn delivery_overflows(goods: Seq<GoodsEntry>, c: CargoType, n: u32) -> bool {
    has_goods_of(goods, c) && {
        let i = choose|i: int| first_goods_of(goods, c, i);
        goods[i].delivered_since_last_visit.0 + n > u32::MAX
    }
}

/// The checks shared by loading and unloading pass: the vehicle and the station exist
/// and the vehicle stands on one of the station's tiles.
pub open spec fn transfer_ready(w: World, vehicle_id: VehicleID, station_id: StationID) -> bool {
    &&& w.vehicles@.contains_key(vehicle_id.0)
    &&& w.stations@.contains_key(station_id.0)
    &&& w.stations@[station_id.0].tiles@.contains(w.vehicles@[vehicle_id.0].position)
}

/// The failure reported when those checks do not pass, for the first that fails.
pub open spec fn transfer_refusal(w: World, vehicle_id: VehicleID, station_id: StationID, r: CommandResult) -> bool {
    if !w.vehicles@.contains_key(vehicle_id.0) {
        r == CommandResult::Failure(CommandFailure::VehicleNotFound(vehicle_id))
    } else if !w.stations@.contains_key(station_id.0) {
        r == CommandResult::Failure(CommandFailure::StationNotFound(station_id))
    } else {
        &&& r matches CommandResult::Failure(CommandFailure::InvalidPlacement(msg))
        &&& msg@ == "Vehicle is not positioned at station"@
    }
}

} // verus!

verus! {

/// The first goods entry of a cargo type is unique.
pub proof fn lemma_first_goods_unique(goods: Seq<GoodsEntry>, c: CargoType, i: int)
    requires
        first_goods_of(goods, c, i),
    ensures
        has_goods_of(goods, c),
        (choose|k: int| first_goods_of(goods, c, k)) == i,
{
    assert(goods[i].cargo_type == c);
    let k = choose|k: int| first_goods_of(goods, c, k);
    assert(first_goods_of(goods, c, k));
    if k < i {
        assert(goods[k].cargo_type != c);
    }
    if i < k {
        assert(goods[i].cargo_type != c);
    }
}

/// The first cargo entry of a type is unique.
pub proof fn lemma_first_cargo_unique(cargo: Seq<(CargoType, CargoAmount)>, c: CargoType, i: int)
    requires
        first_cargo_of(cargo, c, i),
    ensures
        has_cargo_of(cargo, c),
        (choose|k: int| first_cargo_of(cargo, c, k)) == i,
{
    assert(cargo[i].0 == c);
    let k = choose|k: int| first_cargo_of(cargo, c, k);
    assert(first_cargo_of(cargo, c, k));
    if k < i {
        assert(cargo[k].0 != c);
    }
    if i < k {
        assert(cargo[i].0 != c);
    }
}

/// The effect of `LoadCargo`: the vehicle must stand at the station and the station
/// hold some of the cargo; the smaller of the amount asked for and the amount waiting
/// moves from the station's first entry of that cargo to the vehicle's. A vehicle
/// entry that would exceed its maximum fails.
pub open spec fn load_cargo_effect(w: World, vehicle_id: VehicleID, station_id: StationID, c: CargoType, amount: CargoAmount, w2: World, r: CommandResult) -> bool {
    if !transfer_ready(w, vehicle_id, station_id) {
        transfer_refusal(w, vehicle_id, station_id, r) && w2 == w
    } else {
        let v = w.vehicles@[vehicle_id.0];
        let s = w.stations@[station_id.0];
        if !has_goods_of(s.goods@, c) {
            r == CommandResult::Failure(CommandFailure::NoCargoAvailable) && w2 == w
        } else {
            let gi = choose|i: int| first_goods_of(s.goods@, c, i);
            let g = s.goods@[gi];
            let n = min_u32(g.amount.0, amount.0);
            if n == 0 {
                r == CommandResult::Failure(CommandFailure::NoCargoAvailable) && w2 == w
            } else if cargo_add_overflows(v.cargo@, c, n) {
                r == CommandResult::Failure(CommandFailure::CapacityExceeded) && w2 == w
            } else {
                let v2 = w2.vehicles@[vehicle_id.0];
                let s2 = w2.stations@[station_id.0];
                &&& r == CommandResult::Success(CommandSuccess::CargoLoaded { transferred: CargoAmount(n) })
                &&& w2.vehicles@ == w.vehicles@.insert(vehicle_id.0, v2)
                &&& v2 == (Vehicle { cargo: v2.cargo, ..v })
                &&& v2.cargo@ == cargo_added(v.cargo@, c, n)
                &&& w2.stations@ == w.stations@.insert(station_id.0, s2)
                &&& s2 == (Station { goods: s2.goods, ..s })
                &&& s2.goods@ == s.goods@.update(gi, GoodsEntry { amount: CargoAmount((g.amount.0 - n) as u32), ..g })
                &&& w2 == (World { vehicles: w2.vehicles, stations: w2.stations, ..w })
            }
        }
    }
}

pub fn exec_load_cargo(w: &mut World, vehicle_id: VehicleID, station_id: StationID, c: CargoType, amount: CargoAmount) -> (r: CommandResult)
    ensures
        load_cargo_effect(*old(w), vehicle_id, station_id, c, amount, *final(w), r),
{
    broadcast use vstd::string::to_string_from_display_ensures_for_str;
    if !w.vehicles.contains_key(&vehicle_id.0) {
        return CommandResult::Failure(CommandFailure::VehicleNotFound(vehicle_id));
    }
    if !w.stations.contains_key(&station_id.0) {
        return CommandResult::Failure(CommandFailure::StationNotFound(station_id));
    }
    let pos = w.vehicles.get(&vehicle_id.0).unwrap().position;
    let station = w.stations.get(&station_id.0).unwrap();
    if !tiles_contain(&station.tiles, pos) {
        return CommandResult::Failure(
            CommandFailure::InvalidPlacement("Vehicle is not positioned at station".to_string()),
        );
    }
    let gi = match find_goods(&station.goods, c) {
        Some(i) => i,
        None => {
            return CommandResult::Failure(CommandFailure::NoCargoAvailable);
        },
    };
    proof {
        lemma_first_goods_unique(station.goods@, c, gi as int);
    }
    let waiting = station.goods[gi].amount.0;
    let n = if waiting <= amount.0 {
        waiting
    } else {
        amount.0
    };
    if n == 0 {
        return CommandResult::Failure(CommandFailure::NoCargoAvailable);
    }
    let vehicle = w.vehicles.get(&vehicle_id.0).unwrap();
    let ci = find_cargo(&vehicle.cargo, c);
    match ci {
        Some(i) => {
            proof {
                lemma_first_cargo_unique(vehicle.cargo@, c, i as int);
            }
            if vehicle.cargo[i].1.0 > u32::MAX - n {
                return CommandResult::Failure(CommandFailure::CapacityExceeded);
            }
        },
        None => {},
    }
    let ghost w0 = *w;
    let mut station = w.stations.remove(&station_id.0).unwrap();
    let mut g = station.goods[gi];
    g.amount = CargoAmount(g.amount.0 - n);
    station.goods.set(gi, g);
    w.stations.insert(station_id.0, station);
    let mut vehicle = w.vehicles.remove(&vehicle_id.0).unwrap();
    match ci {
        Some(i) => {
            let e = vehicle.cargo[i];
            vehicle.cargo.set(i, (c, CargoAmount(e.1.0 + n)));
        },
        None => {
            vehicle.cargo.push((c, CargoAmount(n)));
        },
    }
    w.vehicles.insert(vehicle_id.0, vehicle);
    proof {
        assert(w.stations@ =~= w0.stations@.insert(station_id.0, w.stations@[station_id.0]));
        assert(w.vehicles@ =~= w0.vehicles@.insert(vehicle_id.0, w.vehicles@[vehicle_id.0]));
    }
    CommandResult::Success(CommandSuccess::CargoLoaded { transferred: CargoAmount(n) })
}

} // verus!

verus! {

/// The effect of `UnloadCargo`: the vehicle must stand at the station and carry some
/// of the cargo; the smaller of the amount asked for and the amount aboard leaves the
/// vehicle's first entry of that cargo and is recorded as delivered at the station;
/// the vehicle's company, if it exists, earns 10 per unit (saturating). A delivery
/// counter that would exceed its maximum fails.
pub open spec fn unload_cargo_effect(w: World, vehicle_id: VehicleID, station_id: StationID, c: CargoType, amount: CargoAmount, w2: World, r: CommandResult) -> bool {
    if !transfer_ready(w, vehicle_id, station_id) {
        transfer_refusal(w, vehicle_id, station_id, r) && w2 == w
    } else {
        let v = w.vehicles@[vehicle_id.0];
        let s = w.stations@[station_id.0];
        if !has_cargo_of(v.cargo@, c) {
            r == CommandResult::Failure(CommandFailure::NoCargoAvailable) && w2 == w
        } else {
            let ci = choose|i: int| first_cargo_of(v.cargo@, c, i);
            let n = min_u32(v.cargo@[ci].1.0, amount.0);
            let revenue = Money((n * REVENUE_PER_UNIT) as i64);
            if n == 0 {
                r == CommandResult::Failure(CommandFailure::NoCargoAvailable) && w2 == w
            } else if delivery_overflows(s.goods@, c, n) {
                r == CommandResult::Failure(CommandFailure::CapacityExceeded) && w2 == w
            } else {
                let v2 = w2.vehicles@[vehicle_id.0];
                let s2 = w2.stations@[station_id.0];
                &&& r == CommandResult::Success(CommandSuccess::CargoUnloaded {
                    transferred: CargoAmount(n),
                    revenue,
                })
                &&& w2.vehicles@ == w.vehicles@.insert(vehicle_id.0, v2)
                &&& v2 == (Vehicle { cargo: v2.cargo, ..v })
                &&& v2.cargo@ == v.cargo@.update(ci, (c, CargoAmount((v.cargo@[ci].1.0 - n) as u32)))
                &&& w2.stations@ == w.stations@.insert(station_id.0, s2)
                &&& s2 == (Station { goods: s2.goods, ..s })
                &&& s2.goods@ == goods_delivered(s.goods@, c, n)
                &&& w2.companies@ == (if w.companies@.contains_key(v.company_id.0) {
                    w.companies@.insert(
                        v.company_id.0,
                        Company {
                            money: money_plus(w.companies@[v.company_id.0].money, revenue),
                            ..w.companies@[v.company_id.0]
                        },
                    )
                } else {
                    w.companies@
                })
                &&& w2 == (World {
                    vehicles: w2.vehicles,
                    stations: w2.stations,
                    companies: w2.companies,
                    ..w
                })
            }
        }
    }
}

/// Credit `revenue` (saturating) to the company `company_id` if it exists.
pub fn credit_company(companies: &mut HashMap<u32, Company>, company_id: CompanyID, revenue: Money)
    ensures
        final(companies)@ == (if old(companies)@.contains_key(company_id.0) {
            old(companies)@.insert(
                company_id.0,
                Company {
                    money: money_plus(old(companies)@[company_id.0].money, revenue),
                    ..old(companies)@[company_id.0]
                },
            )
        } else {
            old(companies)@
        }),
{
    if companies.contains_key(&company_id.0) {
        let ghost c0 = companies@;
        let mut company = companies.remove(&company_id.0).unwrap();
        company.money = company.money.saturating_add(revenue);
        companies.insert(company_id.0, company);
        proof {
            assert(companies@ =~= c0.insert(
                company_id.0,
                Company { money: money_plus(c0[company_id.0].money, revenue), ..c0[company_id.0] },
            ));
        }
    }
}

/// Record `n` units of `c` delivered on the goods list.
pub fn record_delivery(goods: &mut Vec<GoodsEntry>, c: CargoType, n: u32)
    requires
        !delivery_overflows(old(goods)@, c, n),
    ensures
        final(goods)@ == goods_delivered(old(goods)@, c, n),
{
    match find_goods(goods, c) {
        Some(i) => {
            proof {
                lemma_first_goods_unique(goods@, c, i as int);
            }
            let mut g = goods[i];
            g.delivered_since_last_visit = CargoAmount(g.delivered_since_last_visit.0 + n);
            goods.set(i, g);
        },
        None => {
            let mut g = GoodsEntry::new(c);
            g.delivered_since_last_visit = CargoAmount(n);
            goods.push(g);
        },
    }
}

pub fn exec_unload_cargo(w: &mut World, vehicle_id: VehicleID, station_id: StationID, c: CargoType, amount: CargoAmount) -> (r: CommandResult)
    ensures
        unload_cargo_effect(*old(w), vehicle_id, station_id, c, amount, *final(w), r),
{
    broadcast use vstd::string::to_string_from_display_ensures_for_str;
    if !w.vehicles.contains_key(&vehicle_id.0) {
        return CommandResult::Failure(CommandFailure::VehicleNotFound(vehicle_id));
    }
    if !w.stations.contains_key(&station_id.0) {
        return CommandResult::Failure(CommandFailure::StationNotFound(station_id));
    }
    let vehicle = w.vehicles.get(&vehicle_id.0).unwrap();
    let pos = vehicle.position;
    let owner = vehicle.company_id;
    let station = w.stations.get(&station_id.0).unwrap();
    if !tiles_contain(&station.tiles, pos) {
        return CommandResult::Failure(
            CommandFailure::InvalidPlacement("Vehicle is not positioned at station".to_string()),
        );
    }
    let ci = match find_cargo(&vehicle.cargo, c) {
        Some(i) => i,
        None => {
            return CommandResult::Failure(CommandFailure::NoCargoAvailable);
        },
    };
    proof {
        lemma_first_cargo_unique(vehicle.cargo@, c, ci as int);
    }
    let aboard = vehicle.cargo[ci].1.0;
    let n = if aboard <= amount.0 {
        aboard
    } else {
        amount.0
    };
    if n == 0 {
        return CommandResult::Failure(CommandFailure::NoCargoAvailable);
    }
    match find_goods(&station.goods, c) {
        Some(i) => {
            proof {
                lemma_first_goods_unique(station.goods@, c, i as int);
            }
            if station.goods[i].delivered_since_last_visit.0 > u32::MAX - n {
                return CommandResult::Failure(CommandFailure::CapacityExceeded);
            }
        },
        None => {},
    }
    let ghost w0 = *w;
    let mut vehicle = w.vehicles.remove(&vehicle_id.0).unwrap();
    vehicle.cargo.set(ci, (c, CargoAmount(aboard - n)));
    w.vehicles.insert(vehicle_id.0, vehicle);
    let mut station = w.stations.remove(&station_id.0).unwrap();
    record_delivery(&mut station.goods, c, n);
    w.stations.insert(station_id.0, station);
    let revenue = Money((n as i64) * REVENUE_PER_UNIT);
    credit_company(&mut w.companies, owner, revenue);
    proof {
        assert(w.stations@ =~= w0.stations@.insert(station_id.0, w.stations@[station_id.0]));
        assert(w.vehicles@ =~= w0.vehicles@.insert(vehicle_id.0, w.vehicles@[vehicle_id.0]));
    }
    CommandResult::Success(CommandSuccess::CargoUnloaded { transferred: CargoAmount(n), revenue })
}

} // verus!
