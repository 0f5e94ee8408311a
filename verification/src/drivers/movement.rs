//! The movement driver: order traversal and single-tile stepping of vehicles.
use vstd::prelude::*;
use crate::types::capability::CapabilityToken;
use crate::types::enums::{OrderType, VehicleState};
use crate::types::id::{OrderIndex, TileIndex, VehicleID};
use crate::types::service::{ServiceId, ServicePriority};
use crate::types::unit::Ticks;
use crate::world::entities::Vehicle;
use crate::sim::schedule::{
    current_index, following_order, order_in_range, sorted_ids_of, sorted_vehicle_ids, step_toward,
    step_towards,
};
use crate::sim::world::{World, tiles_contain};
use crate::kernel::context::KernelContext;
use crate::kernel::driver::{DriverError, SubsystemDriver};
use crate::kernel::event::KernelEvent;
use crate::kernel::intent::KernelIntent;
use crate::kernel::phase::Phase;

verus! {

broadcast use vstd::std_specs::hash::group_hash_axioms;

/// The vehicle after one movement step, and the intents staged for it.
///
/// Without a schedule the vehicle becomes idle with no order. A current order outside
/// the schedule restarts it at order 0, idle. Then, by the order: waiting counts down
/// from the vehicle's state before the restart (moving on, idle, when done, else
/// keeping the order it had); going to a station moves on and starts loading when the
/// vehicle stands on one of its tiles, else moves to the planned waypoint or one step
/// towards the station's first tile, starting to load (moving on) if that tile belongs
/// to the station and travelling (keeping the order it had) otherwise, clears the
/// waypoint, and stages the move and a moved event under the owner's capability; a
/// station that does not exist leaves the vehicle idle; other orders change nothing
/// more.
pub open spec fn movement_step(w: World, vid: VehicleID, v: Vehicle, tick: Ticks) -> (Vehicle, Seq<(CapabilityToken, KernelIntent)>) {
    let none = Seq::<(CapabilityToken, KernelIntent)>::empty();
    if !w.order_lists@.contains_key(v.orders.0) || w.order_lists@[v.orders.0]@.len() == 0 {
        (Vehicle { current_order: None, state: VehicleState::Idle, ..v }, none)
    } else {
        let orders = w.order_lists@[v.orders.0]@;
        let len = orders.len() as int;
        let valid = order_in_range(v, len);
        let idx: int = if valid { current_index(v) } else { 0 };
        let v1 = if valid {
            v
        } else {
            Vehicle { current_order: Some(OrderIndex(0)), state: VehicleState::Idle, ..v }
        };
        let next = following_order(idx, len);
        match orders[idx] {
            OrderType::WaitTime(t) => {
                let (co, st) = match v.state {
                    VehicleState::Waiting(rem) => if rem <= 1 {
                        (next, VehicleState::Idle)
                    } else {
                        (v.current_order, VehicleState::Waiting((rem - 1) as u16))
                    },
                    _ => if t <= 1 {
                        (next, VehicleState::Idle)
                    } else {
                        (v.current_order, VehicleState::Waiting((t - 1) as u16))
                    },
                };
                (Vehicle { current_order: co, state: st, ..v1 }, none)
            },
            OrderType::GoToStation { station_id, .. } => if !w.stations@.contains_key(station_id.0) {
                (Vehicle { state: VehicleState::Idle, ..v1 }, none)
            } else {
                let tiles = w.stations@[station_id.0].tiles@;
                if tiles.contains(v.position) {
                    (Vehicle { current_order: next, state: VehicleState::Loading, ..v1 }, none)
                } else if tiles.len() > 0 {
                    let np = match v.next_waypoint {
                        Some(wp) => wp,
                        None => step_toward(v.position, tiles[0], w.map.dims()),
                    };
                    let arrived = tiles.contains(np);
                    let token = CapabilityToken::Company(v.company_id);
                    (
                        Vehicle {
                            position: np,
                            current_order: if arrived { next } else { v.current_order },
                            state: if arrived { VehicleState::Loading } else { VehicleState::Traveling },
                            next_waypoint: None,
                            ..v1
                        },
                        seq![
                            (token, KernelIntent::MoveVehicle { vehicle_id: vid, to_tile: np }),
                            (token, KernelIntent::EmitEvent(KernelEvent::VehicleMoved {
                                vehicle_id: vid,
                                old_tile: v.position,
                                new_tile: np,
                                tick,
                            })),
                        ],
                    )
                } else {
                    (v1, none)
                }
            },
            _ => (v1, none),
        }
    }
}

/// The world and staged intents after the movement step of vehicle `vid` (nothing
/// happens if there is no such vehicle).
pub open spec fn vehicle_moved(w: World, vid: VehicleID, tick: Ticks, ins: Seq<(CapabilityToken, KernelIntent)>, w2: World, ins2: Seq<(CapabilityToken, KernelIntent)>) -> bool {
    if !w.vehicles@.contains_key(vid.0) {
        w2 == w && ins2 == ins
    } else {
        let step = movement_step(w, vid, w.vehicles@[vid.0], tick);
        &&& w2.vehicles@ == w.vehicles@.insert(vid.0, step.0)
        &&& w2 == (World { vehicles: w2.vehicles, ..w })
        &&& ins2 == ins + step.1
    }
}

/// The world and staged intents after the movement step of each vehicle of `ids`, in
/// order.
pub open spec fn vehicles_moved(w: World, ids: Seq<VehicleID>, tick: Ticks, ins: Seq<(CapabilityToken, KernelIntent)>, w2: World, ins2: Seq<(CapabilityToken, KernelIntent)>) -> bool {
    exists|ws: Seq<World>, iss: Seq<Seq<(CapabilityToken, KernelIntent)>>| #![trigger ws.len(), iss.len()]
        ws.len() == ids.len() + 1 && iss.len() == ids.len() + 1
        && ws[0] == w && iss[0] == ins && ws[ids.len() as int] == w2 && iss[ids.len() as int] == ins2
        && forall|i: int| 0 <= i < ids.len() ==> vehicle_moved(#[trigger] ws[i], ids[i], tick, iss[i], ws[i + 1], iss[i + 1])
}

/// Subsystem driver for vehicle movement, order traversal and single-tile stepping.
pub struct MovementDriver;

impl MovementDriver {
    pub fn new() -> (d: MovementDriver) {
        MovementDriver
    }

    /// The movement step of vehicle `vid`.
    pub fn advance_vehicle(vid: VehicleID, ctx: &mut KernelContext)
        ensures
            vehicle_moved(*old(ctx).world, vid, old(ctx).tick, old(ctx).intents@, *final(ctx).world, final(ctx).intents@),
            final(ctx).tick == old(ctx).tick,
            final(ctx).vehicle_order_buffer@ == old(ctx).vehicle_order_buffer@,
            final(ctx).events@ == old(ctx).events@,
    {
        let v = match ctx.world.vehicles.get(&vid.0) {
            Some(v) => v,
            None => {
                return;
            },
        };
        let (nv, staged) = Self::step(ctx.world, vid, v, ctx.tick);
        let ghost w0 = *ctx.world;
        let mut slot = ctx.world.vehicles.remove(&vid.0).unwrap();
        slot.current_order = nv.current_order;
        slot.state = nv.state;
        slot.position = nv.position;
        slot.next_waypoint = nv.next_waypoint;
        ctx.world.vehicles.insert(vid.0, slot);
        let ghost i0 = ctx.intents@;
        let mut k: usize = 0;
        while k < staged.len()
            invariant
                k <= staged@.len(),
                ctx.intents@ == i0 + staged@.subrange(0, k as int),
                ctx.tick == old(ctx).tick,
                ctx.vehicle_order_buffer@ == old(ctx).vehicle_order_buffer@,
                ctx.events@ == old(ctx).events@,
                *ctx.world == (World { vehicles: ctx.world.vehicles, ..w0 }),
                ctx.world.vehicles@ == w0.vehicles@.insert(vid.0, Vehicle { current_order: nv.current_order, state: nv.state, position: nv.position, next_waypoint: nv.next_waypoint, ..w0.vehicles@[vid.0] }),
            decreases staged@.len() - k,
        {
            let (t, intent) = staged[k];
            ctx.stage_intent(t, intent);
            proof {
                assert(staged@.subrange(0, k + 1) =~= staged@.subrange(0, k as int).push(staged@[k as int]));
                assert(i0 + staged@.subrange(0, k + 1) =~= (i0 + staged@.subrange(0, k as int)).push(staged@[k as int]));
            }
            k = k + 1;
        }
        proof {
            assert(staged@.subrange(0, k as int) =~= staged@);
        }
    }

    /// The movement step of vehicle `v` (stored under `vid`), per `movement_step`; the
    /// vehicle's cargo and identity are not part of the result.
    fn step(w: &World, vid: VehicleID, v: &Vehicle, tick: Ticks) -> (r: (Vehicle, Vec<(CapabilityToken, KernelIntent)>))
        ensures
            r.0.current_order == movement_step(*w, vid, *v, tick).0.current_order,
            r.0.state == movement_step(*w, vid, *v, tick).0.state,
            r.0.position == movement_step(*w, vid, *v, tick).0.position,
            r.0.next_waypoint == movement_step(*w, vid, *v, tick).0.next_waypoint,
            r.1@ == movement_step(*w, vid, *v, tick).1,
    {
        let mut nv = Vehicle::new(v.id, v.company_id, v.engine_id, v.kind, v.position, v.orders);
        nv.current_order = v.current_order;
        nv.state = v.state;
        nv.next_waypoint = v.next_waypoint;
        let mut staged: Vec<(CapabilityToken, KernelIntent)> = Vec::new();
        let orders = match w.order_lists.get(&v.orders.0) {
            Some(list) => list,
            None => {
                nv.current_order = None;
                nv.state = VehicleState::Idle;
                return (nv, staged);
            },
        };
        let len = orders.len();
        if len == 0 {
            nv.current_order = None;
            nv.state = VehicleState::Idle;
            return (nv, staged);
        }
        let idx: usize = match v.current_order {
            Some(i) => if (i.0 as usize) < len {
                i.0 as usize
            } else {
                nv.current_order = Some(OrderIndex(0));
                nv.state = VehicleState::Idle;
                0
            },
            None => {
                nv.current_order = Some(OrderIndex(0));
                nv.state = VehicleState::Idle;
                0
            },
        };
        let next = Some(OrderIndex(((idx + 1) % len) as u16));
        match &orders[idx] {
            OrderType::WaitTime(t) => {
                let (co, st) = match v.state {
                    VehicleState::Waiting(rem) => if rem <= 1 {
                        (next, VehicleState::Idle)
                    } else {
                        (v.current_order, VehicleState::Waiting(rem - 1))
                    },
                    _ => if *t <= 1 {
                        (next, VehicleState::Idle)
                    } else {
                        (v.current_order, VehicleState::Waiting(*t - 1))
                    },
                };
                nv.current_order = co;
                nv.state = st;
            },
            OrderType::GoToStation { station_id, .. } => match w.stations.get(&station_id.0) {
                None => {
                    nv.state = VehicleState::Idle;
                },
                Some(s) => if tiles_contain(&s.tiles, v.position) {
                    nv.current_order = next;
                    nv.state = VehicleState::Loading;
                } else if s.tiles.len() > 0 {
                    let np = match v.next_waypoint {
                        Some(wp) => wp,
                        None => step_towards(v.position, s.tiles[0], &w.map),
                    };
                    let arrived = tiles_contain(&s.tiles, np);
                    nv.position = np;
                    nv.current_order = if arrived { next } else { v.current_order };
                    nv.state = if arrived { VehicleState::Loading } else { VehicleState::Traveling };
                    nv.next_waypoint = None;
                    let token = CapabilityToken::Company(v.company_id);
                    staged.push((token, KernelIntent::MoveVehicle { vehicle_id: vid, to_tile: np }));
                    staged.push((
                        token,
                        KernelIntent::EmitEvent(KernelEvent::VehicleMoved {
                            vehicle_id: vid,
                            old_tile: v.position,
                            new_tile: np,
                            tick,
                        }),
                    ));
                },
            },
            _ => {},
        }
        (nv, staged)
    }
}

impl Default for MovementDriver {
    fn default() -> (d: MovementDriver) {
        MovementDriver
    }
}

impl SubsystemDriver for MovementDriver {
    fn id(&self) -> (r: ServiceId)
        ensures
            r == ServiceId::Movement,
    {
        ServiceId::Movement
    }

    fn priority(&self) -> (r: ServicePriority)
        ensures
            r.0 == 10,
    {
        ServicePriority::high()
    }

    /// In the driver phase: fill the vehicle order buffer with the vehicle IDs in
    /// increasing order and take the movement step of each, in that order.
    fn execute_phase(&mut self, phase: Phase, ctx: &mut KernelContext) -> (r: Result<(), DriverError>)
        ensures
            r is Ok,
            final(ctx).tick == old(ctx).tick,
            final(ctx).events@ == old(ctx).events@,
            phase != Phase::Drivers ==> {
                &&& *final(ctx).world == *old(ctx).world
                &&& final(ctx).vehicle_order_buffer@ == old(ctx).vehicle_order_buffer@
                &&& final(ctx).intents@ == old(ctx).intents@
            },
            phase == Phase::Drivers ==> {
                &&& sorted_ids_of(final(ctx).vehicle_order_buffer@, old(ctx).world.vehicles@.dom())
                &&& vehicles_moved(
                    *old(ctx).world,
                    final(ctx).vehicle_order_buffer@,
                    old(ctx).tick,
                    old(ctx).intents@,
                    *final(ctx).world,
                    final(ctx).intents@,
                )
            },
    {
        match phase {
            Phase::Drivers => {},
            _ => {
                return Ok(());
            },
        }
        let ids = sorted_vehicle_ids(ctx.world);
        *ctx.vehicle_order_buffer = ids;
        let ghost w0 = *ctx.world;
        let ghost mut ws: Seq<World> = seq![*ctx.world];
        let ghost mut iss: Seq<Seq<(CapabilityToken, KernelIntent)>> = seq![ctx.intents@];
        let n = ctx.vehicle_order_buffer.len();
        let mut i: usize = 0;
        while i < n
            invariant
                i <= n,
                n == ctx.vehicle_order_buffer@.len(),
                sorted_ids_of(ctx.vehicle_order_buffer@, w0.vehicles@.dom()),
                ctx.tick == old(ctx).tick,
                ctx.events@ == old(ctx).events@,
                ws.len() == i + 1,
                iss.len() == i + 1,
                ws[0] == w0,
                iss[0] == old(ctx).intents@,
                ws[i as int] == *ctx.world,
                iss[i as int] == ctx.intents@,
                forall|j: int| 0 <= j < i ==> vehicle_moved(#[trigger] ws[j], ctx.vehicle_order_buffer@[j], old(ctx).tick, iss[j], ws[j + 1], iss[j + 1]),
            decreases n - i,
        {
            let vid = ctx.vehicle_order_buffer[i];
            Self::advance_vehicle(vid, ctx);
            proof {
                ws = ws.push(*ctx.world);
                iss = iss.push(ctx.intents@);
            }
            i = i + 1;
        }
        Ok(())
    }
}


/// Under the movement driver, a vehicle that finishes waiting (one tick or less left)
/// moves on, idle and in place, to the next order of its schedule (wrapping around);
/// with more left it keeps its order and counts down by one. Either way nothing is
/// staged.
pub proof fn lemma_movement_wait_done_moves_on(w: World, vid: VehicleID, v: Vehicle, tick: Ticks, rem: u16)
    requires
        w.order_lists@.contains_key(v.orders.0),
        w.order_lists@[v.orders.0]@.len() > 0,
        v.current_order matches Some(i) && (i.0 as int) < w.order_lists@[v.orders.0]@.len(),
        w.order_lists@[v.orders.0]@[v.current_order.unwrap().0 as int] is WaitTime,
        v.state == VehicleState::Waiting(rem),
    ensures
        ({
            let len = w.order_lists@[v.orders.0]@.len() as int;
            let idx = v.current_order.unwrap().0 as int;
            let r = movement_step(w, vid, v, tick);
            &&& r.1.len() == 0
            &&& r.0.position == v.position
            &&& rem <= 1 ==> r.0.current_order == Some(OrderIndex(((idx + 1) % len) as u16)) && r.0.state
                == VehicleState::Idle
            &&& rem > 1 ==> r.0.current_order == v.current_order && r.0.state == VehicleState::Waiting((rem - 1) as u16)
        }),
{
}

/// Under the movement driver, a vehicle on a go-to-station order whose step lands on a
/// tile of that station starts loading and moves on to the next order of its schedule.
pub proof fn lemma_movement_arrival_moves_on(w: World, vid: VehicleID, v: Vehicle, tick: Ticks)
    requires
        w.order_lists@.contains_key(v.orders.0),
        w.order_lists@[v.orders.0]@.len() > 0,
        v.current_order matches Some(i) && (i.0 as int) < w.order_lists@[v.orders.0]@.len(),
    ensures
        ({
            let orders = w.order_lists@[v.orders.0]@;
            let len = orders.len() as int;
            let idx = v.current_order.unwrap().0 as int;
            let r = movement_step(w, vid, v, tick);
            orders[idx] matches OrderType::GoToStation { station_id, .. } && w.stations@.contains_key(station_id.0)
                && w.stations@[station_id.0].tiles@.contains(r.0.position) ==> r.0.current_order == Some(
                OrderIndex(((idx + 1) % len) as u16),
            ) && r.0.state == VehicleState::Loading
        }),
{
}


/// Under the movement driver, a vehicle that starts a wait of `t` ticks (it is not
/// waiting yet) waits `t - 1` more ticks on the same order, in place; a wait of at most
/// one tick is over at once and the vehicle moves on, idle, to the next order.
pub proof fn lemma_movement_wait_start(w: World, vid: VehicleID, v: Vehicle, tick: Ticks, t: u16)
    requires
        w.order_lists@.contains_key(v.orders.0),
        w.order_lists@[v.orders.0]@.len() > 0,
        v.current_order matches Some(i) && (i.0 as int) < w.order_lists@[v.orders.0]@.len(),
        w.order_lists@[v.orders.0]@[v.current_order.unwrap().0 as int] == OrderType::WaitTime(t),
        !(v.state is Waiting),
    ensures
        ({
            let len = w.order_lists@[v.orders.0]@.len() as int;
            let idx = v.current_order.unwrap().0 as int;
            let r = movement_step(w, vid, v, tick);
            &&& r.1.len() == 0
            &&& r.0.position == v.position
            &&& t <= 1 ==> r.0.current_order == Some(OrderIndex(((idx + 1) % len) as u16)) && r.0.state == VehicleState::Idle
            &&& t > 1 ==> r.0.current_order == v.current_order && r.0.state == VehicleState::Waiting((t - 1) as u16)
        }),
{
}


/// Under the movement driver, a vehicle without a waypoint moves by at most one tile.
pub proof fn lemma_movement_moves_one_tile(w: World, vid: VehicleID, v: Vehicle, tick: Ticks)
    requires
        v.next_waypoint is None,
    ensures
        crate::sim::schedule::within_one_step(v.position, movement_step(w, vid, v, tick).0.position),
{
    let orders = w.order_lists@[v.orders.0]@;
    if w.order_lists@.contains_key(v.orders.0) && orders.len() > 0 {
        let idx = crate::sim::schedule::worked_index(v, orders.len() as int);
        match orders[idx] {
            OrderType::GoToStation { station_id, .. } => {
                if w.stations@.contains_key(station_id.0) && w.stations@[station_id.0].tiles@.len() > 0 {
                    crate::sim::schedule::lemma_step_toward_one(v.position, w.stations@[station_id.0].tiles@[0], w.map.dims());
                }
            },
            _ => {},
        }
    }
}

} // verus!
