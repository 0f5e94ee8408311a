//! The microkernel coordinator.
use vstd::prelude::*;
use crate::types::capability::CapabilityToken;
use crate::types::id::VehicleID;
use crate::types::service::ServicePriority;
use crate::types::unit::Ticks;
use crate::world::map::MapSize;
use crate::sim::world::{World, is_new_world};
use crate::kernel::commit::{
    all_authorized, apply_intent, check_intent, first_unauthorized, intent_applied, intents_applied,
};
use crate::kernel::context::KernelContext;
use crate::kernel::driver::{DriverError, SubsystemDriver};
use crate::kernel::event::KernelEvent;
use crate::kernel::intent::KernelIntent;
use crate::kernel::phase::Phase;

verus! {

/// Priorities in non-decreasing order (lower values run earlier).
pub open spec fn priorities_sorted(p: Seq<ServicePriority>) -> bool {
    forall|i: int, j: int| 0 <= i < j < p.len() ==> (#[trigger] p[i]).0 <= (#[trigger] p[j]).0
}

/// `pos` is where a driver of priority `p` is registered: after every driver of lower
/// or equal priority value, before the first of a higher one.
pub open spec fn driver_position(ps: Seq<ServicePriority>, p: ServicePriority, pos: int) -> bool {
    &&& 0 <= pos <= ps.len()
    &&& forall|j: int| 0 <= j < pos ==> (#[trigger] ps[j]).0 <= p.0
    &&& pos < ps.len() ==> ps[pos].0 > p.0
}

/// Registering keeps the drivers in priority order, and a new driver runs after every
/// driver registered earlier with the same priority.
pub proof fn lemma_register_keeps_priority_order(ps: Seq<ServicePriority>, p: ServicePriority, pos: int)
    requires
        priorities_sorted(ps),
        driver_position(ps, p, pos),
    ensures
        priorities_sorted(ps.insert(pos, p)),
        forall|j: int| 0 <= j < ps.len() && (#[trigger] ps[j]).0 <= p.0 ==> j < pos,
{
    let q = ps.insert(pos, p);
    assert forall|i: int, j: int| 0 <= i < j < q.len() implies (#[trigger] q[i]).0 <= (#[trigger] q[j]).0 by {
        if j < pos {
            assert(q[i] == ps[i] && q[j] == ps[j]);
        } else if i < pos && j == pos {
        } else if i < pos && j > pos {
            assert(q[j] == ps[j - 1]);
        } else if i == pos && j > pos {
            assert(q[j] == ps[j - 1]);
            if j - 1 > pos {
                assert(ps[pos].0 <= ps[j - 1].0);
            }
        } else {
            assert(q[i] == ps[i - 1] && q[j] == ps[j - 1]);
        }
    }
    assert forall|j: int| 0 <= j < ps.len() && (#[trigger] ps[j]).0 <= p.0 implies j < pos by {
        if j >= pos && pos < ps.len() {
            assert(ps[pos].0 <= ps[j].0 || j == pos);
        }
    }
}

/// A registered driver with the priority it had when registered.
pub struct RegisteredDriver {
    pub priority: ServicePriority,
    pub driver: Box<dyn SubsystemDriver>,
}

/// The priorities of registered drivers, in order.
pub open spec fn priorities_of(ds: Seq<RegisteredDriver>) -> Seq<ServicePriority> {
    ds.map_values(|d: RegisteredDriver| d.priority)
}

/// A driver call: the phase, the driver's position in execution order, and the tick
/// handed to it in its context.
pub type DriverCall = (Phase, int, Ticks);

/// The calls of one phase over the first `m` drivers, each handed tick `t`.
pub open spec fn phase_calls(phase: Phase, m: int, t: Ticks) -> Seq<DriverCall> {
    Seq::new(m as nat, |j: int| (phase, j, t))
}

/// The driver calls of a full tick over `n` drivers: ingress, solvers, drivers and
/// egress phases in that order, each over the drivers in execution order; the phases
/// are handed ticks `t0` to `t3`.
pub open spec fn tick_schedule(n: int, t0: Ticks, t1: Ticks, t2: Ticks, t3: Ticks) -> Seq<DriverCall> {
    phase_calls(Phase::Ingress, n, t0) + phase_calls(Phase::Solvers, n, t1) + phase_calls(Phase::Drivers, n, t2)
        + phase_calls(Phase::Egress, n, t3)
}

/// Deterministic capability-based microkernel coordinator.
pub struct Microkernel {
    pub world: World,
    /// Registered drivers, in execution order
    pub drivers: Vec<RegisteredDriver>,
    pub vehicle_order_buffer: Vec<VehicleID>,
    /// Intents staged in the current tick
    pub intent_buffer: Vec<(CapabilityToken, KernelIntent)>,
    /// Events emitted in the current tick
    pub event_buffer: Vec<KernelEvent>,
    /// Every driver call made so far
    pub calls: Ghost<Seq<DriverCall>>,
}

impl Microkernel {
    /// The priority of each registered driver, in execution order.
    pub open spec fn priorities(&self) -> Seq<ServicePriority> {
        priorities_of(self.drivers@)
    }

    /// One priority per driver, in non-decreasing order.
    pub open spec fn inv(&self) -> bool {
        priorities_sorted(self.priorities())
    }

    /// A microkernel with a new world of the given size and no drivers.
    pub fn new(size: MapSize) -> (k: Microkernel)
        ensures
            k.inv(),
            is_new_world(k.world, size),
            k.drivers@.len() == 0,
            k.priorities().len() == 0,
            k.vehicle_order_buffer@.len() == 0,
            k.intent_buffer@.len() == 0,
            k.event_buffer@.len() == 0,
            k.calls@.len() == 0,
    {
        Microkernel {
            world: World::new(size),
            drivers: Vec::new(),
            vehicle_order_buffer: Vec::new(),
            intent_buffer: Vec::new(),
            event_buffer: Vec::new(),
            calls: Ghost(Seq::empty()),
        }
    }

    /// Register a driver. Drivers execute in order of priority (lower value first);
    /// among equal priorities, in order of registration.
    pub fn register_driver<D: SubsystemDriver + 'static>(&mut self, driver: D)
        requires
            old(self).inv(),
        ensures
            final(self).inv(),
            final(self).drivers@.len() == old(self).drivers@.len() + 1,
            exists|pos: int, p: ServicePriority| #![trigger driver_position(old(self).priorities(), p, pos)]
                driver_position(old(self).priorities(), p, pos)
                && final(self).priorities() == old(self).priorities().insert(pos, p)
                && final(self).drivers@.remove(pos) == old(self).drivers@
                && final(self).drivers@[pos].priority == p,
            final(self).world == old(self).world,
            final(self).vehicle_order_buffer == old(self).vehicle_order_buffer,
            final(self).intent_buffer == old(self).intent_buffer,
            final(self).event_buffer == old(self).event_buffer,
    {
        let p = driver.priority();
        let mut pos: usize = 0;
        while pos < self.drivers.len()
            invariant
                pos <= self.drivers@.len(),
                *self == *old(self),
                forall|j: int| 0 <= j < pos ==> (#[trigger] self.drivers@[j]).priority.0 <= p.0,
            ensures
                pos <= self.drivers@.len(),
                *self == *old(self),
                forall|j: int| 0 <= j < pos ==> (#[trigger] self.drivers@[j]).priority.0 <= p.0,
                pos < self.drivers@.len() ==> self.drivers@[pos as int].priority.0 > p.0,
            decreases self.drivers@.len() - pos,
        {
            if self.drivers[pos].priority.0 > p.0 {
                break;
            }
            pos = pos + 1;
        }
        place_driver(&mut self.drivers, pos, RegisteredDriver { priority: p, driver: Box::new(driver) });
        proof {
            let ps = priorities_of(old(self).drivers@);
            assert(driver_position(ps, p, pos as int));
            lemma_register_keeps_priority_order(ps, p, pos as int);
            assert(priorities_of(self.drivers@) =~= ps.insert(pos as int, p));
        }
    }

    /// Run `phase` on every driver, in execution order; the first error stops it.
    /// Without drivers nothing happens and the phase succeeds.
    fn dispatch_phase(&mut self, phase: Phase) -> (r: Result<(), DriverError>)
        requires
            old(self).inv(),
        ensures
            final(self).inv(),
            final(self).priorities() == old(self).priorities(),
            final(self).drivers@.len() == old(self).drivers@.len(),
            old(self).drivers@.len() == 0 ==> r is Ok && *final(self) == *old(self),
            r is Ok ==> final(self).calls@ == old(self).calls@ + phase_calls(
                phase,
                old(self).drivers@.len() as int,
                old(self).world.tick,
            ),
            r is Err ==> exists|m: int| #![trigger phase_calls(phase, m, old(self).world.tick)]
                1 <= m <= old(self).drivers@.len() && final(self).calls@ == old(self).calls@ + phase_calls(
                    phase,
                    m,
                    old(self).world.tick,
                ),
    {
        let current_tick = self.world.tick;
        let n = self.drivers.len();
        let mut i: usize = 0;
        while i < n
            invariant
                i <= n,
                n == self.drivers@.len(),
                self.inv(),
                old(self).inv(),
                self.priorities() == old(self).priorities(),
                self.drivers@.len() == old(self).drivers@.len(),
                i == 0 ==> *self == *old(self),
                current_tick == old(self).world.tick,
                self.calls@ == old(self).calls@ + phase_calls(phase, i as int, current_tick),
            decreases n - i,
        {
            proof {
                assert(phase_calls(phase, i + 1, current_tick) =~= phase_calls(phase, i as int, current_tick).push(
                    (phase, i as int, current_tick),
                ));
            }
            self.calls = Ghost(self.calls@.push((phase, i as int, current_tick)));
            let mut ctx = KernelContext {
                world: &mut self.world,
                tick: current_tick,
                vehicle_order_buffer: &mut self.vehicle_order_buffer,
                intents: &mut self.intent_buffer,
                events: &mut self.event_buffer,
            };
            let mut entry = self.drivers.remove(i);
            let r = entry.driver.execute_phase(phase, &mut ctx);
            self.drivers.insert(i, entry);
            proof {
                assert(priorities_of(self.drivers@) =~= old(self).priorities());
                assert(self.drivers@.len() == priorities_of(self.drivers@).len());
                assert(old(self).drivers@.len() == old(self).priorities().len());
            }
            match r {
                Ok(()) => {},
                Err(e) => {
                    proof {
                        assert(self.calls@ == old(self).calls@ + phase_calls(phase, i + 1, current_tick));
                    }
                    return Err(e);
                },
            }
            i = i + 1;
        }
        Ok(())
    }

    /// Validate every staged intent against the current world and then commit them all
    /// in order, or, if any is unauthorized, commit none and report the first. The
    /// staged intents are consumed either way.
    pub fn commit_intents(&mut self) -> (r: Result<(), DriverError>)
        ensures
            final(self).intent_buffer@.len() == 0,
            all_authorized(old(self).world, old(self).intent_buffer@) ==> r is Ok && intents_applied(
                old(self).world,
                old(self).event_buffer@,
                old(self).intent_buffer@,
                final(self).world,
                final(self).event_buffer@,
            ),
            !all_authorized(old(self).world, old(self).intent_buffer@) ==> {
                &&& final(self).world == old(self).world
                &&& final(self).event_buffer == old(self).event_buffer
                &&& exists|i: int| #![trigger first_unauthorized(old(self).world, old(self).intent_buffer@, i)]
                    first_unauthorized(old(self).world, old(self).intent_buffer@, i)
                    && r == Err::<(), DriverError>(DriverError::Unauthorized(old(self).intent_buffer@[i].0))
            },
            final(self).drivers == old(self).drivers,
            final(self).priorities() == old(self).priorities(),
            final(self).vehicle_order_buffer == old(self).vehicle_order_buffer,
            final(self).calls == old(self).calls,
    {
        let n = self.intent_buffer.len();
        let mut i: usize = 0;
        while i < n
            invariant
                i <= n,
                n == self.intent_buffer@.len(),
                *self == *old(self),
                forall|j: int| 0 <= j < i ==> intent_authorized_at(self.world, self.intent_buffer@, j),
            decreases n - i,
        {
            let (token, intent) = self.intent_buffer[i];
            if !check_intent(&self.world, &token, &intent) {
                proof {
                    assert forall|j: int| 0 <= j < i implies crate::kernel::commit::intent_authorized(
                        old(self).world,
                        (#[trigger] old(self).intent_buffer@[j]).0,
                        old(self).intent_buffer@[j].1,
                    ) by {
                        assert(intent_authorized_at(self.world, self.intent_buffer@, j));
                    }
                    assert(first_unauthorized(old(self).world, old(self).intent_buffer@, i as int));
                }
                self.intent_buffer.clear();
                return Err(DriverError::Unauthorized(token));
            }
            i = i + 1;
        }
        let ghost intents = self.intent_buffer@;
        let ghost mut ws: Seq<World> = seq![self.world];
        let ghost mut evs: Seq<Seq<KernelEvent>> = seq![self.event_buffer@];
        let mut k: usize = 0;
        while k < n
            invariant
                k <= n,
                n == intents.len(),
                self.intent_buffer@ == intents,
                ws.len() == k + 1,
                evs.len() == k + 1,
                ws[0] == old(self).world,
                evs[0] == old(self).event_buffer@,
                ws[k as int] == self.world,
                evs[k as int] == self.event_buffer@,
                forall|j: int| 0 <= j < k ==> intent_applied(#[trigger] ws[j], evs[j], intents[j].1, ws[j + 1], evs[j + 1]),
                self.drivers == old(self).drivers,
                self.vehicle_order_buffer == old(self).vehicle_order_buffer,
                self.calls == old(self).calls,
            decreases n - k,
        {
            let (_, intent) = self.intent_buffer[k];
            apply_intent(&mut self.world, &mut self.event_buffer, intent);
            proof {
                ws = ws.push(self.world);
                evs = evs.push(self.event_buffer@);
            }
            k = k + 1;
        }
        proof {
            assert(all_authorized(old(self).world, old(self).intent_buffer@)) by {
                assert forall|j: int| 0 <= j < intents.len() implies crate::kernel::commit::intent_authorized(
                    old(self).world,
                    (#[trigger] intents[j]).0,
                    intents[j].1,
                ) by {
                    assert(intent_authorized_at(old(self).world, intents, j));
                }
            }
            assert(ws.len() == intents.len() + 1 && evs.len() == intents.len() + 1);
        }
        self.intent_buffer.clear();
        Ok(())
    }

    /// One tick: clear the staged intents and events; run the ingress, solver and
    /// driver phases; commit the staged intents; run the egress phase; advance the tick
    /// counter. The first error stops the tick; so does a tick counter at its maximum.
    ///
    /// A successful tick ends by advancing the tick counter of the world the phases
    /// left. Without drivers, a tick only advances the counter, or reports it exhausted
    /// and leaves the world as it was.
    pub fn tick(&mut self) -> (r: Result<(), DriverError>)
        requires
            old(self).inv(),
        ensures
            final(self).inv(),
            final(self).priorities() == old(self).priorities(),
            final(self).drivers@.len() == old(self).drivers@.len(),
            r is Ok ==> exists|w: World|
                w.tick.0 < u32::MAX && #[trigger] final(self).world == (World { tick: Ticks((w.tick.0 + 1) as u32), ..w }),
            r is Ok ==> exists|t1: Ticks, t2: Ticks, t3: Ticks|
                #![trigger tick_schedule(old(self).drivers@.len() as int, old(self).world.tick, t1, t2, t3)]
                final(self).calls@ == old(self).calls@ + tick_schedule(
                    old(self).drivers@.len() as int,
                    old(self).world.tick,
                    t1,
                    t2,
                    t3,
                ),
            r is Err ==> exists|t1: Ticks, t2: Ticks, t3: Ticks, k: int|
                #![trigger tick_schedule(old(self).drivers@.len() as int, old(self).world.tick, t1, t2, t3).take(k)]
                0 <= k <= 4 * old(self).drivers@.len() && (old(self).drivers@.len() > 0 ==> k >= 1)
                    && final(self).calls@ == old(self).calls@ + tick_schedule(
                    old(self).drivers@.len() as int,
                    old(self).world.tick,
                    t1,
                    t2,
                    t3,
                ).take(k),
            old(self).drivers@.len() == 0 ==> {
                &&& final(self).intent_buffer@.len() == 0
                &&& final(self).event_buffer@.len() == 0
                &&& final(self).vehicle_order_buffer == old(self).vehicle_order_buffer
                &&& if old(self).world.tick.0 < u32::MAX {
                    &&& r is Ok
                    &&& final(self).world == (World { tick: Ticks((old(self).world.tick.0 + 1) as u32), ..old(self).world })
                } else {
                    &&& r matches Err(DriverError::Internal(msg)) && msg@ == "Tick counter exhausted"@
                    &&& final(self).world == old(self).world
                }
            },
    {
        self.intent_buffer.clear();
        self.event_buffer.clear();
        let ghost s0 = *self;
        let ghost n = self.drivers@.len() as int;
        let ghost c0 = self.calls@;
        let ghost t0 = self.world.tick;
        match self.dispatch_phase(Phase::Ingress) {
            Ok(()) => {},
            Err(e) => {
                proof {
                    let m = choose|m: int| 1 <= m <= n && self.calls@ == c0 + phase_calls(Phase::Ingress, m, t0);
                    assert(tick_schedule(n, t0, t0, t0, t0).take(m) =~= phase_calls(Phase::Ingress, m, t0));
                }
                return Err(e);
            },
        }
        let ghost t1 = self.world.tick;
        match self.dispatch_phase(Phase::Solvers) {
            Ok(()) => {},
            Err(e) => {
                proof {
                    let m = choose|m: int| 1 <= m <= n && self.calls@ == c0 + phase_calls(Phase::Ingress, n, t0)
                        + phase_calls(Phase::Solvers, m, t1);
                    assert(tick_schedule(n, t0, t1, t1, t1).take(n + m) =~= phase_calls(Phase::Ingress, n, t0)
                        + phase_calls(Phase::Solvers, m, t1));
                    assert(self.calls@ =~= c0 + tick_schedule(n, t0, t1, t1, t1).take(n + m));
                }
                return Err(e);
            },
        }
        let ghost t2 = self.world.tick;
        match self.dispatch_phase(Phase::Drivers) {
            Ok(()) => {},
            Err(e) => {
                proof {
                    let m = choose|m: int| 1 <= m <= n && self.calls@ == c0 + phase_calls(Phase::Ingress, n, t0)
                        + phase_calls(Phase::Solvers, n, t1) + phase_calls(Phase::Drivers, m, t2);
                    assert(tick_schedule(n, t0, t1, t2, t2).take(2 * n + m) =~= phase_calls(Phase::Ingress, n, t0)
                        + phase_calls(Phase::Solvers, n, t1) + phase_calls(Phase::Drivers, m, t2));
                    assert(self.calls@ =~= c0 + tick_schedule(n, t0, t1, t2, t2).take(2 * n + m));
                }
                return Err(e);
            },
        }
        let ghost s1 = *self;
        let ghost c3 = self.calls@;
        proof {
            assert(c3 =~= c0 + phase_calls(Phase::Ingress, n, t0) + phase_calls(Phase::Solvers, n, t1) + phase_calls(
                Phase::Drivers,
                n,
                t2,
            ));
        }
        match self.commit_intents() {
            Ok(()) => {},
            Err(e) => {
                proof {
                    assert(tick_schedule(n, t0, t1, t2, t2).take(3 * n) =~= phase_calls(Phase::Ingress, n, t0)
                        + phase_calls(Phase::Solvers, n, t1) + phase_calls(Phase::Drivers, n, t2));
                    assert(self.calls@ =~= c0 + tick_schedule(n, t0, t1, t2, t2).take(3 * n));
                }
                return Err(e);
            },
        }
        proof {
            if old(self).drivers@.len() == 0 {
                assert(s1 == s0);
                assert(s1.intent_buffer@.len() == 0);
                assert(all_authorized(s1.world, s1.intent_buffer@));
                let (ws, evs) = choose|ws: Seq<World>, evs: Seq<Seq<KernelEvent>>|
                    ws.len() == s1.intent_buffer@.len() + 1 && evs.len() == s1.intent_buffer@.len() + 1
                    && ws[0] == s1.world && evs[0] == s1.event_buffer@
                    && ws[s1.intent_buffer@.len() as int] == self.world
                    && evs[s1.intent_buffer@.len() as int] == self.event_buffer@
                    && forall|i: int| 0 <= i < s1.intent_buffer@.len() ==> intent_applied(
                        #[trigger] ws[i],
                        evs[i],
                        s1.intent_buffer@[i].1,
                        ws[i + 1],
                        evs[i + 1],
                    );
                assert(self.world == old(self).world);
                assert(self.event_buffer@ == s1.event_buffer@);
            }
        }
        let ghost t3 = self.world.tick;
        match self.dispatch_phase(Phase::Egress) {
            Ok(()) => {},
            Err(e) => {
                proof {
                    let m = choose|m: int| 1 <= m <= n && self.calls@ == c3 + phase_calls(Phase::Egress, m, t3);
                    assert(tick_schedule(n, t0, t1, t2, t3).take(3 * n + m) =~= phase_calls(Phase::Ingress, n, t0)
                        + phase_calls(Phase::Solvers, n, t1) + phase_calls(Phase::Drivers, n, t2) + phase_calls(
                        Phase::Egress,
                        m,
                        t3,
                    ));
                    assert(self.calls@ =~= c0 + tick_schedule(n, t0, t1, t2, t3).take(3 * n + m));
                }
                return Err(e);
            },
        }
        proof {
            assert(self.calls@ =~= c0 + tick_schedule(n, t0, t1, t2, t3));
            assert(tick_schedule(n, t0, t1, t2, t3).take(4 * n) =~= tick_schedule(n, t0, t1, t2, t3));
        }
        if self.world.tick.0 == u32::MAX {
            return Err(DriverError::Internal(tick_exhausted_message()));
        }
        let ghost w_pre = self.world;
        self.world.advance_tick();
        proof {
            assert(self.world == (World { tick: Ticks((w_pre.tick.0 + 1) as u32), ..w_pre }));
        }
        Ok(())
    }
}

/// Insert a registered driver at `pos`.
fn place_driver(drivers: &mut Vec<RegisteredDriver>, pos: usize, d: RegisteredDriver)
    requires
        pos <= old(drivers)@.len(),
    ensures
        final(drivers)@.len() == old(drivers)@.len() + 1,
        final(drivers)@.remove(pos as int) == old(drivers)@,
        final(drivers)@[pos as int].priority == d.priority,
        priorities_of(final(drivers)@) == priorities_of(old(drivers)@).insert(pos as int, d.priority),
{
    let ghost d0 = drivers@;
    let ghost p = d.priority;
    drivers.insert(pos, d);
    proof {
        let d1 = drivers@;
        assert(d1.remove(pos as int) =~= d0);
        assert(priorities_of(d1) =~= priorities_of(d0).insert(pos as int, p));
    }
}

/// Whether the intent at `j` of `intents` is authorized in `w`.
pub open spec fn intent_authorized_at(w: World, intents: Seq<(CapabilityToken, KernelIntent)>, j: int) -> bool {
    crate::kernel::commit::intent_authorized(w, intents[j].0, intents[j].1)
}

/// The message of the error reported when the tick counter is exhausted.
fn tick_exhausted_message() -> (s: String)
    ensures
        s@ == "Tick counter exhausted"@,
{
    broadcast use vstd::string::to_string_from_display_ensures_for_str;
    "Tick counter exhausted".to_string()
}

} // verus!
