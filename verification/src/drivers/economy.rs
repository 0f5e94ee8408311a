//! The economy driver: periodic running costs.
use vstd::prelude::*;
use crate::types::capability::CapabilityToken;
use crate::types::id::CompanyID;
use crate::types::service::{ServiceId, ServicePriority};
use crate::types::unit::Money;
use crate::sim::keys::key_list;
use crate::sim::world::World;
use crate::kernel::context::KernelContext;
use crate::kernel::driver::{DriverError, SubsystemDriver};
use crate::kernel::intent::KernelIntent;
use crate::kernel::phase::Phase;

verus! {

broadcast use vstd::std_specs::hash::group_hash_axioms;

/// Ticks between two running-cost charges.
pub const RUNNING_COST_PERIOD: u32 = 100u32;

/// The running-cost charge staged for a vehicle owned by `c`: one unit of money,
/// under the company's own capability.
pub open spec fn running_cost_intent(c: CompanyID) -> (CapabilityToken, KernelIntent) {
    (CapabilityToken::Company(c), KernelIntent::DeductCost { company_id: c, amount: Money(1) })
}

/// `staged` charges one running cost per vehicle of `w`: it lists the charges for the
/// owners of the vehicles under the keys `ks`, which name every vehicle once.
pub open spec fn running_costs_for(w: World, staged: Seq<(CapabilityToken, KernelIntent)>) -> bool {
    exists|ks: Seq<u32>| #![trigger ks.len()]
        ks.no_duplicates() && ks.len() == w.vehicles@.dom().len()
        && (forall|k: u32| #[trigger] ks.contains(k) <==> w.vehicles@.contains_key(k))
        && staged.len() == ks.len()
        && forall|i: int| 0 <= i < ks.len() ==> #[trigger] staged[i] == running_cost_intent(w.vehicles@[ks[i]].company_id)
}

/// Subsystem driver for company finances: every 100 ticks it charges each vehicle's
/// company one unit of running cost.
pub struct EconomyDriver;

impl EconomyDriver {
    pub fn new() -> (d: EconomyDriver) {
        EconomyDriver
    }
}

impl Default for EconomyDriver {
    fn default() -> (d: EconomyDriver) {
        EconomyDriver
    }
}

impl SubsystemDriver for EconomyDriver {
    fn id(&self) -> (r: ServiceId)
        ensures
            r == ServiceId::Economy,
    {
        ServiceId::Economy
    }

    fn priority(&self) -> (r: ServicePriority)
        ensures
            r.0 == 30,
    {
        ServicePriority::low()
    }

    /// In the driver phase of a tick that is a positive multiple of 100, stage a
    /// running-cost charge per vehicle; otherwise do nothing.
    fn execute_phase(&mut self, phase: Phase, ctx: &mut KernelContext) -> (r: Result<(), DriverError>)
        ensures
            r is Ok,
            *final(ctx).world == *old(ctx).world,
            final(ctx).tick == old(ctx).tick,
            final(ctx).vehicle_order_buffer@ == old(ctx).vehicle_order_buffer@,
            final(ctx).events@ == old(ctx).events@,
            (phase == Phase::Drivers && old(ctx).tick.0 > 0 && old(ctx).tick.0 % RUNNING_COST_PERIOD == 0) ==> {
                &&& final(ctx).intents@.subrange(0, old(ctx).intents@.len() as int) == old(ctx).intents@
                &&& running_costs_for(*old(ctx).world, final(ctx).intents@.subrange(old(ctx).intents@.len() as int, final(ctx).intents@.len() as int))
            },
            !(phase == Phase::Drivers && old(ctx).tick.0 > 0 && old(ctx).tick.0 % RUNNING_COST_PERIOD == 0)
                ==> final(ctx).intents@ == old(ctx).intents@,
    {
        match phase {
            Phase::Drivers => {},
            _ => {
                return Ok(());
            },
        }
        if !(ctx.tick.0 > 0 && ctx.tick.0 % RUNNING_COST_PERIOD == 0) {
            return Ok(());
        }
        let ks = key_list(&ctx.world.vehicles);
        let ghost i0 = ctx.intents@;
        let ghost w0 = *ctx.world;
        let mut i: usize = 0;
        while i < ks.len()
            invariant
                i <= ks@.len(),
                *ctx.world == w0,
                forall|k: u32| ks@.contains(k) <==> w0.vehicles@.contains_key(k),
                ctx.tick == old(ctx).tick,
                ctx.vehicle_order_buffer@ == old(ctx).vehicle_order_buffer@,
                ctx.events@ == old(ctx).events@,
                ctx.intents@.len() == i0.len() + i,
                ctx.intents@.subrange(0, i0.len() as int) == i0,
                forall|j: int| 0 <= j < i ==> #[trigger] ctx.intents@[i0.len() + j] == running_cost_intent(w0.vehicles@[ks@[j]].company_id),
            decreases ks@.len() - i,
        {
            assert(ks@.contains(ks@[i as int]));
            let company_id = ctx.world.vehicles.get(&ks[i]).unwrap().company_id;
            ctx.stage_intent(CapabilityToken::Company(company_id), KernelIntent::DeductCost { company_id, amount: Money(1) });
            proof {
                assert(ctx.intents@.subrange(0, i0.len() as int) =~= i0);
            }
            i = i + 1;
        }
        proof {
            let staged = ctx.intents@.subrange(i0.len() as int, ctx.intents@.len() as int);
            assert forall|j: int| 0 <= j < ks@.len() implies #[trigger] staged[j] == running_cost_intent(w0.vehicles@[ks@[j]].company_id) by {
                assert(staged[j] == ctx.intents@[i0.len() + j]);
            }
            assert(ks@.len() == ks@.len());
        }
        Ok(())
    }
}

} // verus!
