//! Validation and application of staged intents.
use vstd::prelude::*;
use crate::types::capability::CapabilityToken;
use crate::types::id::{CargoType, CompanyID, StationID, TileIndex, VehicleID};
use crate::types::unit::{CargoAmount, Money};
use crate::world::definitions::Station;
use crate::world::entities::{Company, Vehicle};
use crate::sim::commands::{
    REVENUE_PER_UNIT, credit_company, find_cargo, find_goods, first_cargo_of, first_goods_of,
    has_cargo_of, has_goods_of, lemma_first_cargo_unique, lemma_first_goods_unique, min_u32,
    money_plus,
};
use crate::sim::exchange::{goods_delivered_sat, sat_add_u32};
use crate::sim::world::World;
use crate::kernel::event::KernelEvent;
use crate::kernel::intent::KernelIntent;

verus! {

broadcast use vstd::std_specs::hash::group_hash_axioms;

/// Whether `token` authorizes `intent` in world `w`: money intents need authority over
/// the company; vehicle intents need authority over the vehicle's company (an intent
/// for a vehicle that does not exist needs none, it does nothing); events need none.
pub open spec fn intent_authorized(w: World, token: CapabilityToken, intent: KernelIntent) -> bool {
    match intent {
        KernelIntent::CreditRevenue { company_id, .. } => token.permits(company_id),
        KernelIntent::DeductCost { company_id, .. } => token.permits(company_id),
        KernelIntent::MoveVehicle { vehicle_id, .. } => !w.vehicles@.contains_key(vehicle_id.0)
            || token.permits(w.vehicles@[vehicle_id.0].company_id),
        KernelIntent::TransferCargo { vehicle_id, .. } => !w.vehicles@.contains_key(vehicle_id.0)
            || token.permits(w.vehicles@[vehicle_id.0].company_id),
        KernelIntent::EmitEvent(_) => true,
    }
}

/// Whether every staged intent is authorized.
pub open spec fn all_authorized(w: World, intents: Seq<(CapabilityToken, KernelIntent)>) -> bool {
    forall|i: int| 0 <= i < intents.len() ==> intent_authorized(w, (#[trigger] intents[i]).0, intents[i].1)
}

/// The intent at `i` is the first unauthorized one.
pub open spec fn first_unauthorized(w: World, intents: Seq<(CapabilityToken, KernelIntent)>, i: int) -> bool {
    &&& 0 <= i < intents.len()
    &&& !intent_authorized(w, intents[i].0, intents[i].1)
    &&& forall|j: int| 0 <= j < i ==> intent_authorized(w, (#[trigger] intents[j]).0, intents[j].1)
}

/// `m - d`, saturating at the bounds of `i64`.
pub open spec fn money_minus(m: Money, d: Money) -> Money {
    Money(
        (if m.0 - d.0 > i64::MAX {
            i64::MAX as int
        } else if m.0 - d.0 < i64::MIN {
            i64::MIN as int
        } else {
            m.0 - d.0
        }) as i64,
    )
}

/// The cargo list after adding `n` units of `c` (saturating): to the first entry of
/// `c`, or as a new entry at the end.
pub open spec fn cargo_added_sat(cargo: Seq<(CargoType, CargoAmount)>, c: CargoType, n: u32) -> Seq<(CargoType, CargoAmount)> {
    if has_cargo_of(cargo, c) {
        let i = choose|i: int| first_cargo_of(cargo, c, i);
        cargo.update(i, (cargo[i].0, CargoAmount(sat_add_u32(cargo[i].1.0, n))))
    } else {
        cargo.push((c, CargoAmount(n)))
    }
}

/// The effect of committing a cargo transfer intent.
///
/// Loading takes the smaller of the amount and the amount waiting from the station's
/// first goods entry of the cargo and adds it (saturating) to the vehicle. Unloading
/// takes the smaller of the amount and the amount aboard from the vehicle's first
/// entry of the cargo, records it as delivered at the station (saturating) and credits
/// the vehicle's company 10 per unit. A missing vehicle makes it do nothing.
pub open spec fn transfer_applied(w: World, vehicle_id: VehicleID, station_id: StationID, c: CargoType, amount: CargoAmount, is_load: bool, w2: World) -> bool {
    if !w.vehicles@.contains_key(vehicle_id.0) {
        w2 == w
    } else {
        let v = w.vehicles@[vehicle_id.0];
        let s = w.stations@[station_id.0];
        let has_st = w.stations@.contains_key(station_id.0);
        if is_load {
            let found = has_st && has_goods_of(s.goods@, c);
            let gi = choose|i: int| first_goods_of(s.goods@, c, i);
            let n: u32 = if found { min_u32(s.goods@[gi].amount.0, amount.0) } else { 0 };
            &&& found ==> {
                let s2 = w2.stations@[station_id.0];
                &&& w2.stations@ == w.stations@.insert(station_id.0, s2)
                &&& s2 == (Station { goods: s2.goods, ..s })
                &&& s2.goods@ == s.goods@.update(
                    gi,
                    crate::world::definitions::GoodsEntry {
                        amount: CargoAmount((s.goods@[gi].amount.0 - n) as u32),
                        ..s.goods@[gi]
                    },
                )
            }
            &&& !found ==> w2.stations == w.stations
            &&& n > 0 ==> {
                let v2 = w2.vehicles@[vehicle_id.0];
                &&& w2.vehicles@ == w.vehicles@.insert(vehicle_id.0, v2)
                &&& v2 == (Vehicle { cargo: v2.cargo, ..v })
                &&& v2.cargo@ == cargo_added_sat(v.cargo@, c, n)
            }
            &&& n == 0 ==> w2.vehicles == w.vehicles
            &&& w2 == (World { vehicles: w2.vehicles, stations: w2.stations, ..w })
        } else {
            let found = has_cargo_of(v.cargo@, c);
            let ci = choose|i: int| first_cargo_of(v.cargo@, c, i);
            let n: u32 = if found { min_u32(v.cargo@[ci].1.0, amount.0) } else { 0 };
            &&& found ==> {
                let v2 = w2.vehicles@[vehicle_id.0];
                &&& w2.vehicles@ == w.vehicles@.insert(vehicle_id.0, v2)
                &&& v2 == (Vehicle { cargo: v2.cargo, ..v })
                &&& v2.cargo@ == v.cargo@.update(ci, (v.cargo@[ci].0, CargoAmount((v.cargo@[ci].1.0 - n) as u32)))
            }
            &&& !found ==> w2.vehicles == w.vehicles
            &&& (n > 0 && has_st) ==> {
                let s2 = w2.stations@[station_id.0];
                &&& w2.stations@ == w.stations@.insert(station_id.0, s2)
                &&& s2 == (Station { goods: s2.goods, ..s })
                &&& s2.goods@ == goods_delivered_sat(s.goods@, c, n)
            }
            &&& !(n > 0 && has_st) ==> w2.stations == w.stations
            &&& w2.companies@ == (if n > 0 && w.companies@.contains_key(v.company_id.0) {
                w.companies@.insert(
                    v.company_id.0,
                    Company {
                        money: money_plus(w.companies@[v.company_id.0].money, Money((n * REVENUE_PER_UNIT) as i64)),
                        ..w.companies@[v.company_id.0]
                    },
                )
            } else {
                w.companies@
            })
            &&& w2 == (World { vehicles: w2.vehicles, stations: w2.stations, companies: w2.companies, ..w })
        }
    }
}

/// The effect of committing one intent on the world and the event buffer.
pub open spec fn intent_applied(w: World, ev: Seq<KernelEvent>, intent: KernelIntent, w2: World, ev2: Seq<KernelEvent>) -> bool {
    match intent {
        KernelIntent::CreditRevenue { company_id, amount } => {
            &&& ev2 == ev
            &&& w2.companies@ == (if w.companies@.contains_key(company_id.0) {
                w.companies@.insert(
                    company_id.0,
                    Company { money: money_plus(w.companies@[company_id.0].money, amount), ..w.companies@[company_id.0] },
                )
            } else {
                w.companies@
            })
            &&& w2 == (World { companies: w2.companies, ..w })
        },
        KernelIntent::DeductCost { company_id, amount } => {
            &&& ev2 == ev
            &&& w2.companies@ == (if w.companies@.contains_key(company_id.0) {
                w.companies@.insert(
                    company_id.0,
                    Company { money: money_minus(w.companies@[company_id.0].money, amount), ..w.companies@[company_id.0] },
                )
            } else {
                w.companies@
            })
            &&& w2 == (World { companies: w2.companies, ..w })
        },
        KernelIntent::MoveVehicle { vehicle_id, to_tile } => {
            &&& ev2 == ev
            &&& if w.vehicles@.contains_key(vehicle_id.0) && w.map.dims().contains(to_tile) {
                &&& w2.vehicles@ == w.vehicles@.insert(
                    vehicle_id.0,
                    Vehicle { position: to_tile, ..w.vehicles@[vehicle_id.0] },
                )
                &&& w2 == (World { vehicles: w2.vehicles, ..w })
            } else {
                w2 == w
            }
        },
        KernelIntent::TransferCargo { vehicle_id, station_id, cargo_type, amount, is_load } => {
            &&& ev2 == ev
            &&& transfer_applied(w, vehicle_id, station_id, cargo_type, amount, is_load, w2)
        },
        KernelIntent::EmitEvent(e) => w2 == w && ev2 == ev.push(e),
    }
}

/// The world and event buffer after committing each intent of `intents` in order.
pub open spec fn intents_applied(w: World, ev: Seq<KernelEvent>, intents: Seq<(CapabilityToken, KernelIntent)>, w2: World, ev2: Seq<KernelEvent>) -> bool {
    exists|ws: Seq<World>, evs: Seq<Seq<KernelEvent>>| #![trigger ws.len(), evs.len()]
        ws.len() == intents.len() + 1 && evs.len() == intents.len() + 1
        && ws[0] == w && evs[0] == ev
        && ws[intents.len() as int] == w2 && evs[intents.len() as int] == ev2
        && forall|i: int| 0 <= i < intents.len() ==> intent_applied(#[trigger] ws[i], evs[i], intents[i].1, ws[i + 1], evs[i + 1])
}

/// Whether `token` authorizes `intent` in world `w`.
pub fn check_intent(w: &World, token: &CapabilityToken, intent: &KernelIntent) -> (r: bool)
    ensures
        r == intent_authorized(*w, *token, *intent),
{
    match intent {
        KernelIntent::CreditRevenue { company_id, .. } => token.can_mutate_company(*company_id),
        KernelIntent::DeductCost { company_id, .. } => token.can_mutate_company(*company_id),
        KernelIntent::MoveVehicle { vehicle_id, .. } => match w.vehicles.get(&vehicle_id.0) {
            Some(v) => token.can_mutate_company(v.company_id),
            None => true,
        },
        KernelIntent::TransferCargo { vehicle_id, .. } => match w.vehicles.get(&vehicle_id.0) {
            Some(v) => token.can_mutate_company(v.company_id),
            None => true,
        },
        KernelIntent::EmitEvent(_) => true,
    }
}

/// Charge `amount` (saturating) to the company `company_id` if it exists.
fn debit_company(companies: &mut std::collections::HashMap<u32, Company>, company_id: CompanyID, amount: Money)
    ensures
        final(companies)@ == (if old(companies)@.contains_key(company_id.0) {
            old(companies)@.insert(
                company_id.0,
                Company {
                    money: money_minus(old(companies)@[company_id.0].money, amount),
                    ..old(companies)@[company_id.0]
                },
            )
        } else {
            old(companies)@
        }),
{
    if companies.contains_key(&company_id.0) {
        let ghost c0 = companies@;
        let mut company = companies.remove(&company_id.0).unwrap();
        company.money = company.money.saturating_sub(amount);
        companies.insert(company_id.0, company);
        proof {
            assert(companies@ =~= c0.insert(
                company_id.0,
                Company { money: money_minus(c0[company_id.0].money, amount), ..c0[company_id.0] },
            ));
        }
    }
}

/// Add `n` units of `c` (saturating) to the cargo list.
fn add_cargo_saturating(cargo: &mut Vec<(CargoType, CargoAmount)>, c: CargoType, n: u32)
    ensures
        final(cargo)@ == cargo_added_sat(old(cargo)@, c, n),
{
    match find_cargo(cargo, c) {
        Some(i) => {
            proof {
                lemma_first_cargo_unique(cargo@, c, i as int);
            }
            let e = cargo[i];
            let total = if e.1.0 > u32::MAX - n { u32::MAX } else { e.1.0 + n };
            cargo.set(i, (e.0, CargoAmount(total)));
        },
        None => {
            cargo.push((c, CargoAmount(n)));
        },
    }
}

/// Commit a cargo transfer intent.
fn apply_transfer(w: &mut World, vehicle_id: VehicleID, station_id: StationID, c: CargoType, amount: CargoAmount, is_load: bool)
    ensures
        transfer_applied(*old(w), vehicle_id, station_id, c, amount, is_load, *final(w)),
{
    if !w.vehicles.contains_key(&vehicle_id.0) {
        return;
    }
    let ghost w0 = *w;
    let company_id = w.vehicles.get(&vehicle_id.0).unwrap().company_id;
    if is_load {
        let mut n: u32 = 0;
        if w.stations.contains_key(&station_id.0) {
            match find_goods(&w.stations.get(&station_id.0).unwrap().goods, c) {
                Some(gi) => {
                    proof {
                        lemma_first_goods_unique(w.stations@[station_id.0].goods@, c, gi as int);
                    }
                    let mut station = w.stations.remove(&station_id.0).unwrap();
                    let mut g = station.goods[gi];
                    n = if g.amount.0 <= amount.0 { g.amount.0 } else { amount.0 };
                    g.amount = CargoAmount(g.amount.0 - n);
                    station.goods.set(gi, g);
                    w.stations.insert(station_id.0, station);
                    proof {
                        assert(w.stations@ =~= w0.stations@.insert(station_id.0, w.stations@[station_id.0]));
                    }
                },
                None => {},
            }
        }
        if n > 0 {
            let mut vehicle = w.vehicles.remove(&vehicle_id.0).unwrap();
            add_cargo_saturating(&mut vehicle.cargo, c, n);
            w.vehicles.insert(vehicle_id.0, vehicle);
            proof {
                assert(w.vehicles@ =~= w0.vehicles@.insert(vehicle_id.0, w.vehicles@[vehicle_id.0]));
            }
        }
    } else {
        let mut n: u32 = 0;
        match find_cargo(&w.vehicles.get(&vehicle_id.0).unwrap().cargo, c) {
            Some(ci) => {
                proof {
                    lemma_first_cargo_unique(w.vehicles@[vehicle_id.0].cargo@, c, ci as int);
                }
                let mut vehicle = w.vehicles.remove(&vehicle_id.0).unwrap();
                let e = vehicle.cargo[ci];
                n = if e.1.0 <= amount.0 { e.1.0 } else { amount.0 };
                vehicle.cargo.set(ci, (e.0, CargoAmount(e.1.0 - n)));
                w.vehicles.insert(vehicle_id.0, vehicle);
                proof {
                    assert(w.vehicles@ =~= w0.vehicles@.insert(vehicle_id.0, w.vehicles@[vehicle_id.0]));
                }
            },
            None => {},
        }
        if n > 0 {
            if w.stations.contains_key(&station_id.0) {
                let ghost w1 = *w;
                let mut station = w.stations.remove(&station_id.0).unwrap();
                crate::sim::exchange::record_delivery_saturating(&mut station.goods, c, n);
                w.stations.insert(station_id.0, station);
                proof {
                    assert(w.stations@ =~= w1.stations@.insert(station_id.0, w.stations@[station_id.0]));
                }
            }
            credit_company(&mut w.companies, company_id, Money((n as i64) * REVENUE_PER_UNIT));
        }
    }
}

/// Commit one intent.
pub fn apply_intent(w: &mut World, events: &mut Vec<KernelEvent>, intent: KernelIntent)
    ensures
        intent_applied(*old(w), old(events)@, intent, *final(w), final(events)@),
{
    match intent {
        KernelIntent::CreditRevenue { company_id, amount } => credit_company(&mut w.companies, company_id, amount),
        KernelIntent::DeductCost { company_id, amount } => debit_company(&mut w.companies, company_id, amount),
        KernelIntent::MoveVehicle { vehicle_id, to_tile } => {
            if w.vehicles.contains_key(&vehicle_id.0) && w.map.size().is_valid_index(to_tile) {
                let ghost w0 = *w;
                let mut v = w.vehicles.remove(&vehicle_id.0).unwrap();
                v.position = to_tile;
                w.vehicles.insert(vehicle_id.0, v);
                proof {
                    assert(w.vehicles@ =~= w0.vehicles@.insert(
                        vehicle_id.0,
                        Vehicle { position: to_tile, ..w0.vehicles@[vehicle_id.0] },
                    ));
                }
            }
        },
        KernelIntent::TransferCargo { vehicle_id, station_id, cargo_type, amount, is_load } =>
            apply_transfer(w, vehicle_id, station_id, cargo_type, amount, is_load),
        KernelIntent::EmitEvent(e) => events.push(e),
    }
}

} // verus!
