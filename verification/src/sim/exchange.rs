//! Cargo exchange between loading vehicles and the stations they stand at.
use vstd::prelude::*;
use crate::types::enums::VehicleState;
use crate::types::id::{CargoType, CompanyID, VehicleID};
use crate::types::unit::{CargoAmount, Money};
use crate::world::definitions::{GoodsEntry, Station, fresh_goods};
use crate::world::entities::{Company, Vehicle};
use crate::sim::commands::{
    REVENUE_PER_UNIT, credit_company, find_goods, first_goods_of, has_goods_of,
    lemma_first_goods_unique, min_u32, money_plus,
};
use crate::sim::world::{World, spec_tile_key};

verus! {

broadcast use vstd::std_specs::hash::group_hash_axioms;

/// Cargo units a vehicle takes on when loading at a station.
pub const VEHICLE_CAPACITY: u32 = 50u32;

/// `a + b`, saturating at the maximum of `u32`.
pub open spec fn sat_add_u32(a: u32, b: u32) -> u32 {
    if a + b > u32::MAX {
        u32::MAX
    } else {
        (a + b) as u32
    }
}

/// The goods list after recording `n` units of `c` delivered (saturating): on the
/// first entry of `c`, or on a new fresh entry at the end.
pub open spec fn goods_delivered_sat(goods: Seq<GoodsEntry>, c: CargoType, n: u32) -> Seq<GoodsEntry> {
    if has_goods_of(goods, c) {
        let i = choose|i: int| first_goods_of(goods, c, i);
        goods.update(
            i,
            GoodsEntry {
                delivered_since_last_visit: CargoAmount(sat_add_u32(goods[i].delivered_since_last_visit.0, n)),
                ..goods[i]
            },
        )
    } else {
        goods.push(GoodsEntry { delivered_since_last_visit: CargoAmount(n), ..fresh_goods(c) })
    }
}

/// The goods list after delivering every non-empty entry of `cargo`, in order.
pub open spec fn deliver_all(goods: Seq<GoodsEntry>, cargo: Seq<(CargoType, CargoAmount)>) -> Seq<GoodsEntry>
    decreases cargo.len(),
{
    if cargo.len() == 0 {
        goods
    } else {
        let g = deliver_all(goods, cargo.drop_last());
        let e = cargo.last();
        if e.1.0 > 0 {
            goods_delivered_sat(g, e.0, e.1.0)
        } else {
            g
        }
    }
}

/// The company table after crediting company `cid` with the revenue of every
/// non-empty entry of `cargo`, in order (saturating; nothing if it does not exist).
pub open spec fn credit_all(companies: Map<u32, Company>, cid: CompanyID, cargo: Seq<(CargoType, CargoAmount)>) -> Map<u32, Company>
    decreases cargo.len(),
{
    if cargo.len() == 0 {
        companies
    } else {
        let m = credit_all(companies, cid, cargo.drop_last());
        let e = cargo.last();
        if e.1.0 > 0 && m.contains_key(cid.0) {
            m.insert(
                cid.0,
                Company { money: money_plus(m[cid.0].money, Money((e.1.0 * REVENUE_PER_UNIT) as i64)), ..m[cid.0] },
            )
        } else {
            m
        }
    }
}

/// The entry at `i` is the first goods entry with cargo waiting.
pub open spec fn first_waiting(goods: Seq<GoodsEntry>, i: int) -> bool {
    &&& 0 <= i < goods.len()
    &&& goods[i].amount.0 > 0
    &&& forall|j: int| 0 <= j < i ==> (#[trigger] goods[j]).amount.0 == 0
}

/// Whether some goods entry has cargo waiting.
pub open spec fn has_waiting(goods: Seq<GoodsEntry>) -> bool {
    exists|i: int| 0 <= i < goods.len() && (#[trigger] goods[i]).amount.0 > 0
}

/// Whether vehicle `vid` exchanges cargo this tick: it exists, is loading, and the
/// tile-to-station index maps its tile to an existing station.
pub open spec fn exchanges(w: World, vid: u32) -> bool {
    &&& w.vehicles@.contains_key(vid)
    &&& w.vehicles@[vid].state == VehicleState::Loading
    &&& w.tile_to_station@.contains_key(spec_tile_key(w.vehicles@[vid].position))
    &&& w.stations@.contains_key(w.tile_to_station@[spec_tile_key(w.vehicles@[vid].position)].0)
}

/// The world after the cargo exchange of vehicle `vid`. A loading vehicle at a station
/// unloads everything: each non-empty entry is recorded as delivered at the station
/// (named by the indexed station's own ID; saturating) and earns its company 10 per unit;
/// then, from the station's first goods entry with cargo waiting, it loads up to its
/// capacity into a new entry.
pub open spec fn cargo_exchanged(w: World, vid: u32, w2: World) -> bool {
    if !exchanges(w, vid) {
        w2 == w
    } else {
        let v = w.vehicles@[vid];
        let sid = w.stations@[w.tile_to_station@[spec_tile_key(v.position)].0].id;
        let has_st = w.stations@.contains_key(sid.0);
        let goods1 = deliver_all(w.stations@[sid.0].goods@, v.cargo@);
        let loads = has_st && has_waiting(goods1);
        let gi = choose|i: int| first_waiting(goods1, i);
        let n = min_u32(goods1[gi].amount.0, VEHICLE_CAPACITY);
        let v2 = w2.vehicles@[vid];
        &&& w2.vehicles@ == w.vehicles@.insert(vid, v2)
        &&& v2 == (Vehicle { cargo: v2.cargo, ..v })
        &&& v2.cargo@ == (if loads {
            seq![(goods1[gi].cargo_type, CargoAmount(n))]
        } else {
            Seq::<(CargoType, CargoAmount)>::empty()
        })
        &&& has_st ==> {
            let s2 = w2.stations@[sid.0];
            &&& w2.stations@ == w.stations@.insert(sid.0, s2)
            &&& s2 == (Station { goods: s2.goods, ..w.stations@[sid.0] })
            &&& s2.goods@ == (if loads {
                goods1.update(gi, GoodsEntry { amount: CargoAmount((goods1[gi].amount.0 - n) as u32), ..goods1[gi] })
            } else {
                goods1
            })
        }
        &&& !has_st ==> w2.stations == w.stations
        &&& w2.companies@ == credit_all(w.companies@, v.company_id, v.cargo@)
        &&& w2 == (World { vehicles: w2.vehicles, stations: w2.stations, companies: w2.companies, ..w })
    }
}

/// The world after the cargo exchange of each vehicle of `ids`, in that order.
pub open spec fn cargo_exchanged_all(w: World, ids: Seq<VehicleID>, w2: World) -> bool {
    exists|ws: Seq<World>| #![trigger ws.len()]
        ws.len() == ids.len() + 1 && ws[0] == w && ws[ids.len() as int] == w2
        && forall|i: int| 0 <= i < ids.len() ==> cargo_exchanged(#[trigger] ws[i], ids[i].0, ws[i + 1])
}

/// Record `n` units of `c` delivered on the goods list, saturating.
pub fn record_delivery_saturating(goods: &mut Vec<GoodsEntry>, c: CargoType, n: u32)
    ensures
        final(goods)@ == goods_delivered_sat(old(goods)@, c, n),
{
    match find_goods(goods, c) {
        Some(i) => {
            proof {
                lemma_first_goods_unique(goods@, c, i as int);
            }
            let mut g = goods[i];
            let d = g.delivered_since_last_visit.0;
            g.delivered_since_last_visit = CargoAmount(if d > u32::MAX - n { u32::MAX } else { d + n });
            goods.set(i, g);
        },
        None => {
            let mut g = GoodsEntry::new(c);
            g.delivered_since_last_visit = CargoAmount(n);
            goods.push(g);
        },
    }
}

/// The index of the first goods entry with cargo waiting, if any.
pub fn find_waiting(goods: &Vec<GoodsEntry>) -> (r: Option<usize>)
    ensures
        r matches Some(i) ==> first_waiting(goods@, i as int),
        r is None ==> !has_waiting(goods@),
{
    let mut i: usize = 0;
    while i < goods.len()
        invariant
            i <= goods@.len(),
            forall|j: int| 0 <= j < i ==> (#[trigger] goods@[j]).amount.0 == 0,
        decreases goods@.len() - i,
    {
        if goods[i].amount.0 > 0 {
            return Some(i);
        }
        i = i + 1;
    }
    None
}

/// The cargo exchange of vehicle `vid`.
pub fn exchange_cargo(w: &mut World, vid: VehicleID)
    ensures
        cargo_exchanged(*old(w), vid.0, *final(w)),
{
    if !w.vehicles.contains_key(&vid.0) {
        return;
    }
    let v = w.vehicles.get(&vid.0).unwrap();
    let loading = match v.state {
        VehicleState::Loading => true,
        _ => false,
    };
    if !loading {
        return;
    }
    let pos = v.position;
    let company_id = v.company_id;
    let sid = match w.get_station_at_tile(&pos) {
        Some(s) => s.id,
        None => {
            return;
        },
    };
    let ghost w0 = *w;
    let ghost v0 = w0.vehicles@[vid.0];
    let mut vehicle = w.vehicles.remove(&vid.0).unwrap();
    let mut cargo: Vec<(CargoType, CargoAmount)> = Vec::new();
    std::mem::swap(&mut cargo, &mut vehicle.cargo);
    let has_st = w.stations.contains_key(&sid.0);
    let mut goods: Vec<GoodsEntry> = Vec::new();
    let mut station_opt: Option<Station> = None;
    if has_st {
        let mut st = w.stations.remove(&sid.0).unwrap();
        std::mem::swap(&mut goods, &mut st.goods);
        station_opt = Some(st);
    }
    let ghost g0 = goods@;
    let mut i: usize = 0;
    while i < cargo.len()
        invariant
            i <= cargo@.len(),
            cargo@ == v0.cargo@,
            has_st ==> goods@ == deliver_all(g0, cargo@.subrange(0, i as int)),
            w.companies@ == credit_all(w0.companies@, company_id, cargo@.subrange(0, i as int)),
            w.vehicles@ == w0.vehicles@.remove(vid.0),
            has_st ==> w.stations@ == w0.stations@.remove(sid.0),
            !has_st ==> w.stations == w0.stations,
            *w == (World { vehicles: w.vehicles, stations: w.stations, companies: w.companies, ..w0 }),
        decreases cargo@.len() - i,
    {
        let (c, a) = cargo[i];
        proof {
            assert(cargo@.subrange(0, i + 1).drop_last() =~= cargo@.subrange(0, i as int));
            assert(cargo@.subrange(0, i + 1).last() == cargo@[i as int]);
        }
        if a.0 > 0 {
            if has_st {
                record_delivery_saturating(&mut goods, c, a.0);
            }
            credit_company(&mut w.companies, company_id, Money((a.0 as i64) * REVENUE_PER_UNIT));
        }
        i = i + 1;
    }
    proof {
        assert(cargo@.subrange(0, i as int) =~= cargo@);
    }
    let ghost goods1 = goods@;
    if has_st {
        match find_waiting(&goods) {
            Some(gi) => {
                let mut g = goods[gi];
                let n = if g.amount.0 <= VEHICLE_CAPACITY {
                    g.amount.0
                } else {
                    VEHICLE_CAPACITY
                };
                proof {
                    let k = choose|k: int| first_waiting(goods1, k);
                    assert(first_waiting(goods1, k));
                    if k < gi {
                        assert(goods1[k].amount.0 == 0);
                    }
                    if gi < k {
                        assert(goods1[gi as int].amount.0 == 0);
                    }
                }
                g.amount = CargoAmount(g.amount.0 - n);
                goods.set(gi, g);
                vehicle.cargo.push((g.cargo_type, CargoAmount(n)));
            },
            None => {},
        }
        let mut st = station_opt.unwrap();
        std::mem::swap(&mut goods, &mut st.goods);
        w.stations.insert(sid.0, st);
    }
    w.vehicles.insert(vid.0, vehicle);
    proof {
        assert(w.vehicles@ =~= w0.vehicles@.insert(vid.0, w.vehicles@[vid.0]));
        if has_st {
            assert(w.stations@ =~= w0.stations@.insert(sid.0, w.stations@[sid.0]));
        }
    }
}

/// The cargo exchange of each vehicle of `ids`, in order.
pub fn exchange_all_cargo(w: &mut World, ids: &Vec<VehicleID>)
    ensures
        cargo_exchanged_all(*old(w), ids@, *final(w)),
        final(w).map == old(w).map,
        final(w).tick == old(w).tick,
{
    let ghost mut ws: Seq<World> = seq![*w];
    let mut i: usize = 0;
    while i < ids.len()
        invariant
            i <= ids@.len(),
            ws.len() == i + 1,
            ws[0] == *old(w),
            ws[i as int] == *w,
            w.map == old(w).map,
            w.tick == old(w).tick,
            forall|j: int| 0 <= j < i ==> cargo_exchanged(#[trigger] ws[j], ids@[j].0, ws[j + 1]),
        decreases ids@.len() - i,
    {
        exchange_cargo(w, ids[i]);
        proof {
            ws = ws.push(*w);
        }
        i = i + 1;
    }
}


/// A vehicle's cargo exchange takes on at most one load, of at most 50 units (the
/// vehicle's capacity), and takes less than 50 only when that empties the station's
/// entry it loads from.
pub proof fn lemma_exchange_respects_capacity(w: World, vid: u32, w2: World)
    requires
        cargo_exchanged(w, vid, w2),
        exchanges(w, vid),
    ensures
        ({
            let v2 = w2.vehicles@[vid];
            let sid = w.stations@[w.tile_to_station@[spec_tile_key(w.vehicles@[vid].position)].0].id;
            &&& v2.cargo@.len() <= 1
            &&& forall|j: int| 0 <= j < v2.cargo@.len() ==> (#[trigger] v2.cargo@[j]).1.0 <= 50
            &&& v2.cargo@.len() == 1 && w.stations@.contains_key(sid.0) ==> v2.cargo@[0].1.0 == 50 || exists|i: int|
                0 <= i < w2.stations@[sid.0].goods@.len() && (#[trigger] w2.stations@[sid.0].goods@[i]).cargo_type
                    == v2.cargo@[0].0 && w2.stations@[sid.0].goods@[i].amount.0 == 0
        }),
{
    let v = w.vehicles@[vid];
    let sid = w.stations@[w.tile_to_station@[spec_tile_key(v.position)].0].id;
    let goods1 = deliver_all(w.stations@[sid.0].goods@, v.cargo@);
    if w.stations@.contains_key(sid.0) && has_waiting(goods1) {
        let gi = choose|i: int| first_waiting(goods1, i);
        let k = choose|k: int| 0 <= k < goods1.len() && (#[trigger] goods1[k]).amount.0 > 0;
        crate::sim::conservation::lemma_first_waiting_exists(goods1, k);
        let n = min_u32(goods1[gi].amount.0, VEHICLE_CAPACITY);
        let s2 = w2.stations@[sid.0];
        assert(s2.goods@[gi].cargo_type == goods1[gi].cargo_type);
        assert(n < 50 ==> s2.goods@[gi].amount.0 == 0);
    }
}

} // verus!
