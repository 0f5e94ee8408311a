//! The logistics driver: cargo loading and unloading at stations.
use vstd::prelude::*;
use crate::types::capability::CapabilityToken;
use crate::types::enums::VehicleState;
use crate::types::id::{CargoType, CompanyID, VehicleID};
use crate::types::service::{ServiceId, ServicePriority};
use crate::types::unit::{CargoAmount, Money};
use crate::world::definitions::{GoodsEntry, Station};
use crate::world::entities::Vehicle;
use crate::sim::commands::{REVENUE_PER_UNIT, min_u32};
use crate::sim::exchange::{
    VEHICLE_CAPACITY, deliver_all, exchanges, find_waiting, first_waiting, has_waiting,
    record_delivery_saturating,
};
use crate::sim::world::{World, spec_tile_key};
use crate::kernel::context::KernelContext;
use crate::kernel::driver::{DriverError, SubsystemDriver};
use crate::kernel::intent::KernelIntent;
use crate::kernel::phase::Phase;

verus! {

broadcast use vstd::std_specs::hash::group_hash_axioms;

/// The revenue intents staged for the non-empty entries of `cargo`, in order: 10 per
/// unit, credited to company `cid` under its own capability.
pub open spec fn credit_intents(cid: CompanyID, cargo: Seq<(CargoType, CargoAmount)>) -> Seq<(CapabilityToken, KernelIntent)>
    decreases cargo.len(),
{
    if cargo.len() == 0 {
        Seq::empty()
    } else {
        let prev = credit_intents(cid, cargo.drop_last());
        let e = cargo.last();
        if e.1.0 > 0 {
            prev.push((
                CapabilityToken::Company(cid),
                KernelIntent::CreditRevenue { company_id: cid, amount: Money((e.1.0 * REVENUE_PER_UNIT) as i64) },
            ))
        } else {
            prev
        }
    }
}

/// The world and staged intents after the logistics step of vehicle `vid`: as the
/// simulator's cargo exchange, except that revenue is staged as intents instead of
/// being credited.
pub open spec fn logistics_exchanged(w: World, vid: u32, ins: Seq<(CapabilityToken, KernelIntent)>, w2: World, ins2: Seq<(CapabilityToken, KernelIntent)>) -> bool {
    if !exchanges(w, vid) {
        w2 == w && ins2 == ins
    } else {
        let v = w.vehicles@[vid];
        let sid = w.stations@[w.tile_to_station@[spec_tile_key(v.position)].0].id;
        let has_st = w.stations@.contains_key(sid.0);
        let goods1 = deliver_all(w.stations@[sid.0].goods@, v.cargo@);
        let loads = has_st && has_waiting(goods1);
        let gi = choose|i: int| first_waiting(goods1, i);
        let n = min_u32(goods1[gi].amount.0, VEHICLE_CAPACITY);
        let v2 = w2.vehicles@[vid];
        &&& w2.vehicles@ == w.vehicles@.insert(vid, v2)
        &&& v2 == (Vehicle { cargo: v2.cargo, ..v })
        &&& v2.cargo@ == (if loads {
            seq![(goods1[gi].cargo_type, CargoAmount(n))]
        } else {
            Seq::<(CargoType, CargoAmount)>::empty()
        })
        &&& has_st ==> {
            let s2 = w2.stations@[sid.0];
            &&& w2.stations@ == w.stations@.insert(sid.0, s2)
            &&& s2 == (Station { goods: s2.goods, ..w.stations@[sid.0] })
            &&& s2.goods@ == (if loads {
                goods1.update(gi, GoodsEntry { amount: CargoAmount((goods1[gi].amount.0 - n) as u32), ..goods1[gi] })
            } else {
                goods1
            })
        }
        &&& !has_st ==> w2.stations == w.stations
        &&& ins2 == ins + credit_intents(v.company_id, v.cargo@)
        &&& w2 == (World { vehicles: w2.vehicles, stations: w2.stations, ..w })
    }
}

/// The world and staged intents after the logistics step of each vehicle of `ids`.
pub open spec fn logistics_all(w: World, ids: Seq<VehicleID>, ins: Seq<(CapabilityToken, KernelIntent)>, w2: World, ins2: Seq<(CapabilityToken, KernelIntent)>) -> bool {
    exists|ws: Seq<World>, iss: Seq<Seq<(CapabilityToken, KernelIntent)>>| #![trigger ws.len(), iss.len()]
        ws.len() == ids.len() + 1 && iss.len() == ids.len() + 1
        && ws[0] == w && iss[0] == ins && ws[ids.len() as int] == w2 && iss[ids.len() as int] == ins2
        && forall|i: int| 0 <= i < ids.len() ==> logistics_exchanged(#[trigger] ws[i], ids[i].0, iss[i], ws[i + 1], iss[i + 1])
}

/// Subsystem driver for station cargo loading, unloading and capacity limits.
pub struct LogisticsDriver;

impl LogisticsDriver {
    pub fn new() -> (d: LogisticsDriver) {
        LogisticsDriver
    }

    /// The logistics step of vehicle `vid`.
    fn exchange(vid: VehicleID, ctx: &mut KernelContext)
        ensures
            logistics_exchanged(*old(ctx).world, vid.0, old(ctx).intents@, *final(ctx).world, final(ctx).intents@),
            final(ctx).tick == old(ctx).tick,
            final(ctx).vehicle_order_buffer@ == old(ctx).vehicle_order_buffer@,
            final(ctx).events@ == old(ctx).events@,
    {
        if !ctx.world.vehicles.contains_key(&vid.0) {
            return;
        }
        let v = ctx.world.vehicles.get(&vid.0).unwrap();
        let loading = match v.state {
            VehicleState::Loading => true,
            _ => false,
        };
        if !loading {
            return;
        }
        let pos = v.position;
        let company_id = v.company_id;
        let sid = match ctx.world.get_station_at_tile(&pos) {
            Some(s) => s.id,
            None => {
                return;
            },
        };
        let ghost w0 = *ctx.world;
        let ghost i0 = ctx.intents@;
        let ghost v0 = w0.vehicles@[vid.0];
        let mut vehicle = ctx.world.vehicles.remove(&vid.0).unwrap();
        let mut cargo: Vec<(CargoType, CargoAmount)> = Vec::new();
        std::mem::swap(&mut cargo, &mut vehicle.cargo);
        let has_st = ctx.world.stations.contains_key(&sid.0);
        let mut goods: Vec<GoodsEntry> = Vec::new();
        let mut station_opt: Option<Station> = None;
        if has_st {
            let mut st = ctx.world.stations.remove(&sid.0).unwrap();
            std::mem::swap(&mut goods, &mut st.goods);
            station_opt = Some(st);
        }
        let ghost g0 = goods@;
        let mut i: usize = 0;
        while i < cargo.len()
            invariant
                i <= cargo@.len(),
                cargo@ == v0.cargo@,
                has_st ==> goods@ == deliver_all(g0, cargo@.subrange(0, i as int)),
                ctx.intents@ == i0 + credit_intents(company_id, cargo@.subrange(0, i as int)),
                ctx.world.vehicles@ == w0.vehicles@.remove(vid.0),
                has_st ==> ctx.world.stations@ == w0.stations@.remove(sid.0),
                !has_st ==> ctx.world.stations == w0.stations,
                *ctx.world == (World { vehicles: ctx.world.vehicles, stations: ctx.world.stations, ..w0 }),
                ctx.tick == old(ctx).tick,
                ctx.vehicle_order_buffer@ == old(ctx).vehicle_order_buffer@,
                ctx.events@ == old(ctx).events@,
            decreases cargo@.len() - i,
        {
            let (c, a) = cargo[i];
            proof {
                assert(cargo@.subrange(0, i + 1).drop_last() =~= cargo@.subrange(0, i as int));
                assert(cargo@.subrange(0, i + 1).last() == cargo@[i as int]);
            }
            if a.0 > 0 {
                if has_st {
                    record_delivery_saturating(&mut goods, c, a.0);
                }
                let ghost before = ctx.intents@;
                ctx.stage_intent(
                    CapabilityToken::Company(company_id),
                    KernelIntent::CreditRevenue { company_id, amount: Money((a.0 as i64) * REVENUE_PER_UNIT) },
                );
                proof {
                    assert(ctx.intents@ =~= i0 + credit_intents(company_id, cargo@.subrange(0, i + 1)));
                }
            }
            i = i + 1;
        }
        proof {
            assert(cargo@.subrange(0, i as int) =~= cargo@);
        }
        let ghost goods1 = goods@;
        if has_st {
            match find_waiting(&goods) {
                Some(gi) => {
                    let mut g = goods[gi];
                    let n = if g.amount.0 <= VEHICLE_CAPACITY {
                        g.amount.0
                    } else {
                        VEHICLE_CAPACITY
                    };
                    proof {
                        let k = choose|k: int| first_waiting(goods1, k);
                        assert(first_waiting(goods1, k));
                        if k < gi {
                            assert(goods1[k].amount.0 == 0);
                        }
                        if gi < k {
                            assert(goods1[gi as int].amount.0 == 0);
                        }
                    }
                    g.amount = CargoAmount(g.amount.0 - n);
                    goods.set(gi, g);
                    vehicle.cargo.push((g.cargo_type, CargoAmount(n)));
                },
                None => {},
            }
            let mut st = station_opt.unwrap();
            std::mem::swap(&mut goods, &mut st.goods);
            ctx.world.stations.insert(sid.0, st);
        }
        ctx.world.vehicles.insert(vid.0, vehicle);
        proof {
            assert(ctx.world.vehicles@ =~= w0.vehicles@.insert(vid.0, ctx.world.vehicles@[vid.0]));
            if has_st {
                assert(ctx.world.stations@ =~= w0.stations@.insert(sid.0, ctx.world.stations@[sid.0]));
            }
        }
    }
}

impl Default for LogisticsDriver {
    fn default() -> (d: LogisticsDriver) {
        LogisticsDriver
    }
}

impl SubsystemDriver for LogisticsDriver {
    fn id(&self) -> (r: ServiceId)
        ensures
            r == ServiceId::Logistics,
    {
        ServiceId::Logistics
    }

    fn priority(&self) -> (r: ServicePriority)
        ensures
            r.0 == 20,
    {
        ServicePriority::normal()
    }

    /// In the driver phase: the logistics step of each vehicle of the vehicle order
    /// buffer, in order.
    fn execute_phase(&mut self, phase: Phase, ctx: &mut KernelContext) -> (r: Result<(), DriverError>)
        ensures
            r is Ok,
            final(ctx).tick == old(ctx).tick,
            final(ctx).events@ == old(ctx).events@,
            final(ctx).vehicle_order_buffer@ == old(ctx).vehicle_order_buffer@,
            phase != Phase::Drivers ==> *final(ctx).world == *old(ctx).world && final(ctx).intents@ == old(ctx).intents@,
            phase == Phase::Drivers ==> logistics_all(
                *old(ctx).world,
                old(ctx).vehicle_order_buffer@,
                old(ctx).intents@,
                *final(ctx).world,
                final(ctx).intents@,
            ),
    {
        match phase {
            Phase::Drivers => {},
            _ => {
                return Ok(());
            },
        }
        let ghost mut ws: Seq<World> = seq![*ctx.world];
        let ghost mut iss: Seq<Seq<(CapabilityToken, KernelIntent)>> = seq![ctx.intents@];
        let n = ctx.vehicle_order_buffer.len();
        let mut i: usize = 0;
        while i < n
            invariant
                i <= n,
                n == ctx.vehicle_order_buffer@.len(),
                ctx.vehicle_order_buffer@ == old(ctx).vehicle_order_buffer@,
                ctx.tick == old(ctx).tick,
                ctx.events@ == old(ctx).events@,
                ws.len() == i + 1,
                iss.len() == i + 1,
                ws[0] == *old(ctx).world,
                iss[0] == old(ctx).intents@,
                ws[i as int] == *ctx.world,
                iss[i as int] == ctx.intents@,
                forall|j: int| 0 <= j < i ==> logistics_exchanged(#[trigger] ws[j], ctx.vehicle_order_buffer@[j].0, iss[j], ws[j + 1], iss[j + 1]),
            decreases n - i,
        {
            let vid = ctx.vehicle_order_buffer[i];
            Self::exchange(vid, ctx);
            proof {
                ws = ws.push(*ctx.world);
                iss = iss.push(ctx.intents@);
            }
            i = i + 1;
        }
        Ok(())
    }
}

} // verus!
