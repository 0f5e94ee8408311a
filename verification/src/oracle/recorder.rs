//! Projection of the world into trace frames, and the recording driver.
use vstd::prelude::*;
use std::collections::BTreeMap;
use crate::types::id::{CargoType, TileIndex};
use crate::types::service::{ServiceId, ServicePriority};
use crate::types::unit::{CargoAmount, Money};
use crate::world::definitions::GoodsEntry;
use crate::sim::keys::key_list;
use crate::sim::world::World;
use crate::kernel::context::KernelContext;
use crate::kernel::driver::{DriverError, SubsystemDriver};
use crate::kernel::phase::Phase;
use crate::oracle::schema::{OracleTraceFrame, VehicleTrace};

verus! {

broadcast use {vstd::std_specs::hash::group_hash_axioms, vstd::std_specs::btree::group_btree_axioms};

/// The delivered amount per cargo type of a goods list (a later entry of a type
/// replaces an earlier one).
pub open spec fn delivered_by_type(goods: Seq<GoodsEntry>) -> Map<u16, CargoAmount>
    decreases goods.len(),
{
    if goods.len() == 0 {
        Map::empty()
    } else {
        delivered_by_type(goods.drop_last()).insert(goods.last().cargo_type.0, goods.last().delivered_since_last_visit)
    }
}

/// `f` is the projection of world `w`: its tick, every company's money, every
/// vehicle's position, state and cargo, and every station's deliveries by cargo type.
pub open spec fn is_projection(w: World, f: OracleTraceFrame) -> bool {
    &&& f.tick == w.tick.0
    &&& f.companies@.dom() == w.companies@.dom()
    &&& forall|k: u32| #[trigger] w.companies@.contains_key(k) ==> f.companies@[k] == w.companies@[k].money
    &&& f.vehicles@.dom() == w.vehicles@.dom()
    &&& forall|k: u32| #[trigger] w.vehicles@.contains_key(k) ==> {
        &&& f.vehicles@[k].position == w.vehicles@[k].position
        &&& f.vehicles@[k].state == w.vehicles@[k].state
        &&& f.vehicles@[k].cargo@ == w.vehicles@[k].cargo@
    }
    &&& f.stations@.dom() == w.stations@.dom()
    &&& forall|k: u32| #[trigger] w.stations@.contains_key(k) ==> f.stations@[k]@ == delivered_by_type(w.stations@[k].goods@)
}

/// The deliveries by cargo type of a goods list.
fn project_goods(goods: &Vec<GoodsEntry>) -> (m: BTreeMap<u16, CargoAmount>)
    ensures
        m@ == delivered_by_type(goods@),
{
    let mut m: BTreeMap<u16, CargoAmount> = BTreeMap::new();
    let mut i: usize = 0;
    while i < goods.len()
        invariant
            i <= goods@.len(),
            m@ == delivered_by_type(goods@.subrange(0, i as int)),
        decreases goods@.len() - i,
    {
        m.insert(goods[i].cargo_type.0, goods[i].delivered_since_last_visit);
        proof {
            let sub = goods@.subrange(0, i + 1);
            assert(sub.drop_last() =~= goods@.subrange(0, i as int));
            assert(sub.last() == goods@[i as int]);
        }
        i = i + 1;
    }
    proof {
        assert(goods@.subrange(0, i as int) =~= goods@);
    }
    m
}

/// An element-wise copy of a cargo list.
fn copy_cargo(c: &Vec<(CargoType, CargoAmount)>) -> (r: Vec<(CargoType, CargoAmount)>)
    ensures
        r@ == c@,
{
    let mut r: Vec<(CargoType, CargoAmount)> = Vec::new();
    let mut i: usize = 0;
    while i < c.len()
        invariant
            i <= c@.len(),
            r@ == c@.subrange(0, i as int),
        decreases c@.len() - i,
    {
        r.push(c[i]);
        i = i + 1;
    }
    r
}

/// Project the world into a canonical trace frame.
pub fn project_state_slice(world: &World) -> (f: OracleTraceFrame)
    ensures
        is_projection(*world, f),
{
    let mut companies: BTreeMap<u32, Money> = BTreeMap::new();
    let cks = key_list(&world.companies);
    let mut i: usize = 0;
    while i < cks.len()
        invariant
            i <= cks@.len(),
            forall|k: u32| cks@.contains(k) <==> world.companies@.contains_key(k),
            forall|k: u32| #[trigger] companies@.contains_key(k) <==> cks@.subrange(0, i as int).contains(k),
            forall|k: u32| #[trigger] companies@.contains_key(k) ==> companies@[k] == world.companies@[k].money,
        decreases cks@.len() - i,
    {
        let k = cks[i];
        assert(cks@.contains(k));
        companies.insert(k, world.companies.get(&k).unwrap().money);
        proof {
            lemma_prefix_grows(cks@, i as int);
        }
        i = i + 1;
    }
    let mut vehicles: BTreeMap<u32, VehicleTrace> = BTreeMap::new();
    let vks = key_list(&world.vehicles);
    let mut j: usize = 0;
    while j < vks.len()
        invariant
            j <= vks@.len(),
            forall|k: u32| vks@.contains(k) <==> world.vehicles@.contains_key(k),
            forall|k: u32| #[trigger] vehicles@.contains_key(k) <==> vks@.subrange(0, j as int).contains(k),
            forall|k: u32| #[trigger] vehicles@.contains_key(k) ==> {
                &&& vehicles@[k].position == world.vehicles@[k].position
                &&& vehicles@[k].state == world.vehicles@[k].state
                &&& vehicles@[k].cargo@ == world.vehicles@[k].cargo@
            },
        decreases vks@.len() - j,
    {
        let k = vks[j];
        assert(vks@.contains(k));
        let v = world.vehicles.get(&k).unwrap();
        vehicles.insert(k, VehicleTrace { position: v.position, state: v.state, cargo: copy_cargo(&v.cargo) });
        proof {
            lemma_prefix_grows(vks@, j as int);
        }
        j = j + 1;
    }
    let mut stations: BTreeMap<u32, BTreeMap<u16, CargoAmount>> = BTreeMap::new();
    let sks = key_list(&world.stations);
    let mut m: usize = 0;
    while m < sks.len()
        invariant
            m <= sks@.len(),
            forall|k: u32| sks@.contains(k) <==> world.stations@.contains_key(k),
            forall|k: u32| #[trigger] stations@.contains_key(k) <==> sks@.subrange(0, m as int).contains(k),
            forall|k: u32| #[trigger] stations@.contains_key(k) ==> stations@[k]@ == delivered_by_type(world.stations@[k].goods@),
        decreases sks@.len() - m,
    {
        let k = sks[m];
        assert(sks@.contains(k));
        let st = world.stations.get(&k).unwrap();
        stations.insert(k, project_goods(&st.goods));
        proof {
            lemma_prefix_grows(sks@, m as int);
        }
        m = m + 1;
    }
    proof {
        assert(cks@.subrange(0, i as int) =~= cks@);
        assert(vks@.subrange(0, j as int) =~= vks@);
        assert(sks@.subrange(0, m as int) =~= sks@);
        assert(companies@.dom() =~= world.companies@.dom());
        assert(vehicles@.dom() =~= world.vehicles@.dom());
        assert(stations@.dom() =~= world.stations@.dom());
    }
    OracleTraceFrame { tick: world.tick.0, companies, vehicles, stations }
}

/// The prefix of `s` one longer holds exactly one more element.
proof fn lemma_prefix_grows(s: Seq<u32>, i: int)
    requires
        0 <= i < s.len(),
    ensures
        forall|k: u32| #[trigger] s.subrange(0, i + 1).contains(k) <==> (s.subrange(0, i).contains(k) || k == s[i]),
{
    let s0 = s.subrange(0, i);
    let s1 = s.subrange(0, i + 1);
    assert(s1 =~= s0.push(s[i]));
    assert forall|k: u32| #[trigger] s1.contains(k) <==> (s0.contains(k) || k == s[i]) by {
        if s0.contains(k) {
            let a = choose|a: int| 0 <= a < s0.len() && #[trigger] s0[a] == k;
            assert(s1[a] == k);
        }
        if s1.contains(k) && k != s[i] {
            let a = choose|a: int| 0 <= a < s1.len() && #[trigger] s1[a] == k;
            assert(s0[a] == k);
        }
        if k == s[i] {
            assert(s1[i] == k);
        }
    }
}

/// Trace recorder driver: records a frame of the world in each egress phase while
/// recording.
pub struct TraceRecorder {
    pub frames: Vec<OracleTraceFrame>,
    pub recording: bool,
}

impl TraceRecorder {
    pub fn new() -> (r: TraceRecorder)
        ensures
            r.frames@.len() == 0,
            r.recording,
    {
        TraceRecorder { frames: Vec::new(), recording: true }
    }

    /// Record a frame of `world`.
    pub fn record_current_world(&mut self, world: &World)
        ensures
            final(self).frames@.len() == old(self).frames@.len() + 1,
            final(self).frames@.subrange(0, old(self).frames@.len() as int) == old(self).frames@,
            is_projection(*world, final(self).frames@.last()),
            final(self).recording == old(self).recording,
    {
        self.frames.push(project_state_slice(world));
        proof {
            assert(self.frames@.subrange(0, old(self).frames@.len() as int) =~= old(self).frames@);
        }
    }
}

impl Default for TraceRecorder {
    fn default() -> (r: TraceRecorder)
        ensures
            r.frames@.len() == 0,
            r.recording,
    {
        TraceRecorder::new()
    }
}

impl SubsystemDriver for TraceRecorder {
    fn id(&self) -> (r: ServiceId)
        ensures
            r == ServiceId::Custom(99),
    {
        ServiceId::Custom(99)
    }

    fn priority(&self) -> (r: ServicePriority)
        ensures
            r.0 == 30,
    {
        ServicePriority::low()
    }

    /// In the egress phase, while recording, record a frame of the world; the world
    /// and the rest of the context are not changed.
    fn execute_phase(&mut self, phase: Phase, ctx: &mut KernelContext) -> (r: Result<(), DriverError>)
        ensures
            r is Ok,
            *final(ctx).world == *old(ctx).world,
            final(ctx).tick == old(ctx).tick,
            final(ctx).intents@ == old(ctx).intents@,
            final(ctx).events@ == old(ctx).events@,
            final(ctx).vehicle_order_buffer@ == old(ctx).vehicle_order_buffer@,
            final(self).recording == old(self).recording,
            (phase == Phase::Egress && old(self).recording) ==> {
                &&& final(self).frames@.len() == old(self).frames@.len() + 1
                &&& final(self).frames@.subrange(0, old(self).frames@.len() as int) == old(self).frames@
                &&& is_projection(*old(ctx).world, final(self).frames@.last())
            },
            !(phase == Phase::Egress && old(self).recording) ==> final(self).frames@ == old(self).frames@,
    {
        let egress = match phase {
            Phase::Egress => true,
            _ => false,
        };
        if egress && self.recording {
            self.record_current_world(ctx.world);
        }
        Ok(())
    }
}

} // verus!
