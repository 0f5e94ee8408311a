//! Vehicle schedules: how a vehicle works through its order list, one tick at a time.
use vstd::prelude::*;
use crate::types::enums::{OrderType, VehicleState};
use crate::types::id::{OrderIndex, TileIndex, VehicleID};
use crate::world::entities::Vehicle;
use crate::world::map::{MapSize, TileMap};
use crate::sim::world::{World, tiles_contain};

verus! {

broadcast use vstd::std_specs::hash::group_hash_axioms;

/// One step from `from` towards `to`: along x if the x coordinates differ and the
/// neighbour lies inside the map, else along y likewise, else no move.
pub open spec fn step_toward(from: TileIndex, to: TileIndex, dims: MapSize) -> TileIndex {
    let cx = TileIndex { x: if to.x > from.x { (from.x + 1) as u16 } else { (from.x - 1) as u16 }, y: from.y };
    let cy = TileIndex { x: from.x, y: if to.y > from.y { (from.y + 1) as u16 } else { (from.y - 1) as u16 } };
    if from.x != to.x && dims.contains(cx) {
        cx
    } else if from.y != to.y && dims.contains(cy) {
        cy
    } else {
        from
    }
}

/// Discrete single-tile step towards the target coordinate within the map bounds.
pub fn step_towards(from: TileIndex, to: TileIndex, map: &TileMap) -> (r: TileIndex)
    ensures
        r == step_toward(from, to, map.dims()),
{
    let size = map.size();
    if from.x != to.x {
        let next_x = if to.x > from.x {
            from.x + 1
        } else {
            from.x - 1
        };
        let cand = TileIndex::new(next_x, from.y);
        if size.is_valid_index(cand) {
            return cand;
        }
    }
    if from.y != to.y {
        let next_y = if to.y > from.y {
            from.y + 1
        } else {
            from.y - 1
        };
        let cand = TileIndex::new(from.x, next_y);
        if size.is_valid_index(cand) {
            return cand;
        }
    }
    from
}

/// The order after the one at `idx` in a schedule of `len` orders, wrapping around.
pub open spec fn following_order(idx: int, len: int) -> Option<OrderIndex> {
    Some(OrderIndex(((idx + 1) % len) as u16))
}

/// Whether the vehicle's current order points into a schedule of `len` orders.
pub open spec fn order_in_range(v: Vehicle, len: int) -> bool {
    v.current_order matches Some(i) && (i.0 as int) < len
}

/// The position in the schedule of the vehicle's current order (0 without one).
pub open spec fn current_index(v: Vehicle) -> int {
    match v.current_order {
        Some(i) => i.0 as int,
        None => 0,
    }
}

/// What one tick does to a vehicle's current order, state and position.
///
/// Without a schedule (missing or empty), the vehicle is idle with no order. A current
/// order outside the schedule restarts it at order 0, idle. Then, by the order:
/// waiting counts down the remaining ticks (starting from the order's duration) and
/// moves on to the next order when done; going to a station moves on and starts loading
/// when the vehicle stands on one of its tiles, else steps towards the station's first
/// tile, travelling (and loading, moving on, if the step arrives); going to a tile
/// moves on, idle, at the tile, else steps towards it likewise; the end-of-list order
/// leaves the vehicle idle with no order; other orders change nothing. A station that
/// does not exist leaves the vehicle idle.
pub open spec fn order_progress(w: World, v: Vehicle) -> (Option<OrderIndex>, VehicleState, TileIndex) {
    let pos = v.position;
    if !w.order_lists@.contains_key(v.orders.0) || w.order_lists@[v.orders.0]@.len() == 0 {
        (None, VehicleState::Idle, pos)
    } else {
        let orders = w.order_lists@[v.orders.0]@;
        let len = orders.len() as int;
        let valid = order_in_range(v, len);
        let idx: int = if valid { current_index(v) } else { 0 };
        let co: Option<OrderIndex> = if valid { v.current_order } else { Some(OrderIndex(0)) };
        let st: VehicleState = if valid { v.state } else { VehicleState::Idle };
        let next = following_order(idx, len);
        match orders[idx] {
            OrderType::WaitTime(t) => match st {
                VehicleState::Waiting(rem) => if rem <= 1 {
                    (next, VehicleState::Idle, pos)
                } else {
                    (co, VehicleState::Waiting((rem - 1) as u16), pos)
                },
                _ => if t <= 1 {
                    (next, VehicleState::Idle, pos)
                } else {
                    (co, VehicleState::Waiting((t - 1) as u16), pos)
                },
            },
            OrderType::GoToStation { station_id, .. } => if !w.stations@.contains_key(station_id.0) {
                (co, VehicleState::Idle, pos)
            } else {
                let tiles = w.stations@[station_id.0].tiles@;
                if tiles.contains(pos) {
                    (next, VehicleState::Loading, pos)
                } else if tiles.len() > 0 {
                    let np = step_toward(pos, tiles[0], w.map.dims());
                    if tiles.contains(np) {
                        (next, VehicleState::Loading, np)
                    } else {
                        (co, VehicleState::Traveling, np)
                    }
                } else {
                    (co, st, pos)
                }
            },
            OrderType::GoToTile { x, y } => {
                let target = TileIndex { x: x as u16, y: y as u16 };
                if pos == target {
                    (next, VehicleState::Idle, pos)
                } else {
                    let np = step_toward(pos, target, w.map.dims());
                    if np == target {
                        (next, VehicleState::Idle, np)
                    } else {
                        (co, VehicleState::Traveling, np)
                    }
                }
            },
            OrderType::NoOrder => (None, VehicleState::Idle, pos),
            _ => (co, st, pos),
        }
    }
}

/// The world after one tick of the schedule of vehicle `vid` (unchanged if there is no
/// such vehicle).
pub open spec fn vehicle_advanced(w: World, vid: u32, w2: World) -> bool {
    if !w.vehicles@.contains_key(vid) {
        w2 == w
    } else {
        let v = w.vehicles@[vid];
        let p = order_progress(w, v);
        &&& w2.vehicles@ == w.vehicles@.insert(
            vid,
            Vehicle { current_order: p.0, state: p.1, position: p.2, ..v },
        )
        &&& w2 == (World { vehicles: w2.vehicles, ..w })
    }
}

/// The world after one schedule tick of each vehicle of `ids`, in that order.
pub open spec fn vehicles_advanced(w: World, ids: Seq<VehicleID>, w2: World) -> bool {
    exists|ws: Seq<World>| #![trigger ws.len()]
        ws.len() == ids.len() + 1 && ws[0] == w && ws[ids.len() as int] == w2
        && forall|i: int| 0 <= i < ids.len() ==> vehicle_advanced(#[trigger] ws[i], ids[i].0, ws[i + 1])
}

/// The next current order, state and position of `v`, per `order_progress`.
fn progress(w: &World, v: &Vehicle) -> (p: (Option<OrderIndex>, VehicleState, TileIndex))
    ensures
        p == order_progress(*w, *v),
{
    let pos = v.position;
    let orders = match w.order_lists.get(&v.orders.0) {
        Some(list) => list,
        None => {
            return (None, VehicleState::Idle, pos);
        },
    };
    let len = orders.len();
    if len == 0 {
        return (None, VehicleState::Idle, pos);
    }
    let (idx, co, st) = match v.current_order {
        Some(i) => if (i.0 as usize) < len {
            (i.0 as usize, v.current_order, v.state)
        } else {
            (0usize, Some(OrderIndex(0)), VehicleState::Idle)
        },
        None => (0usize, Some(OrderIndex(0)), VehicleState::Idle),
    };
    let next = Some(OrderIndex(((idx + 1) % len) as u16));
    match &orders[idx] {
        OrderType::WaitTime(t) => match st {
            VehicleState::Waiting(rem) => if rem <= 1 {
                (next, VehicleState::Idle, pos)
            } else {
                (co, VehicleState::Waiting(rem - 1), pos)
            },
            _ => if *t <= 1 {
                (next, VehicleState::Idle, pos)
            } else {
                (co, VehicleState::Waiting(*t - 1), pos)
            },
        },
        OrderType::GoToStation { station_id, .. } => match w.stations.get(&station_id.0) {
            None => (co, VehicleState::Idle, pos),
            Some(s) => if tiles_contain(&s.tiles, pos) {
                (next, VehicleState::Loading, pos)
            } else if s.tiles.len() > 0 {
                let np = step_towards(pos, s.tiles[0], &w.map);
                if tiles_contain(&s.tiles, np) {
                    (next, VehicleState::Loading, np)
                } else {
                    (co, VehicleState::Traveling, np)
                }
            } else {
                (co, st, pos)
            },
        },
        OrderType::GoToTile { x, y } => {
            let target = TileIndex::new(*x as u16, *y as u16);
            if pos.x == target.x && pos.y == target.y {
                (next, VehicleState::Idle, pos)
            } else {
                let np = step_towards(pos, target, &w.map);
                if np.x == target.x && np.y == target.y {
                    (next, VehicleState::Idle, np)
                } else {
                    (co, VehicleState::Traveling, np)
                }
            }
        },
        OrderType::NoOrder => (None, VehicleState::Idle, pos),
        _ => (co, st, pos),
    }
}

/// Advance the schedule of vehicle `vid` by one tick.
pub fn advance_vehicle_orders(w: &mut World, vid: VehicleID)
    ensures
        vehicle_advanced(*old(w), vid.0, *final(w)),
{
    if !w.vehicles.contains_key(&vid.0) {
        return;
    }
    let p = progress(w, w.vehicles.get(&vid.0).unwrap());
    let ghost w0 = *w;
    let mut v = w.vehicles.remove(&vid.0).unwrap();
    v.current_order = p.0;
    v.state = p.1;
    v.position = p.2;
    w.vehicles.insert(vid.0, v);
    proof {
        assert(w.vehicles@ =~= w0.vehicles@.insert(
            vid.0,
            Vehicle { current_order: p.0, state: p.1, position: p.2, ..w0.vehicles@[vid.0] },
        ));
    }
}

/// Advance the schedule of each vehicle of `ids`, in order.
pub fn advance_all_vehicles(w: &mut World, ids: &Vec<VehicleID>)
    ensures
        vehicles_advanced(*old(w), ids@, *final(w)),
        final(w).map == old(w).map,
        final(w).tick == old(w).tick,
{
    let ghost mut ws: Seq<World> = seq![*w];
    let mut i: usize = 0;
    while i < ids.len()
        invariant
            i <= ids@.len(),
            ws.len() == i + 1,
            ws[0] == *old(w),
            ws[i as int] == *w,
            w.map == old(w).map,
            w.tick == old(w).tick,
            forall|j: int| 0 <= j < i ==> vehicle_advanced(#[trigger] ws[j], ids@[j].0, ws[j + 1]),
        decreases ids@.len() - i,
    {
        advance_vehicle_orders(w, ids[i]);
        proof {
            ws = ws.push(*w);
        }
        i = i + 1;
    }
    proof {
        assert(ws.len() == ids@.len() + 1);
    }
}

} // verus!

verus! {

/// Vehicle IDs in strictly increasing order.
pub open spec fn strictly_increasing(ids: Seq<VehicleID>) -> bool {
    forall|i: int, j: int| 0 <= i < j < ids.len() ==> (#[trigger] ids[i]).0 < (#[trigger] ids[j]).0
}

/// `ids` lists the keys of `keys` in increasing order, each once.
pub open spec fn sorted_ids_of(ids: Seq<VehicleID>, keys: Set<u32>) -> bool {
    &&& strictly_increasing(ids)
    &&& forall|k: u32| #[trigger] keys.contains(k) <==> ids.contains(VehicleID(k))
}

/// The IDs of the world's vehicles in increasing order: the deterministic processing
/// order of vehicles.
pub fn sorted_vehicle_ids(w: &World) -> (ids: Vec<VehicleID>)
    ensures
        sorted_ids_of(ids@, w.vehicles@.dom()),
{
    let keys = crate::sim::keys::key_list(&w.vehicles);
    let mut ids: Vec<VehicleID> = Vec::new();
    let mut i: usize = 0;
    while i < keys.len()
        invariant
            i <= keys@.len(),
            keys@.no_duplicates(),
            strictly_increasing(ids@),
            forall|k: u32| #[trigger] ids@.contains(VehicleID(k)) <==> keys@.subrange(0, i as int).contains(k),
        decreases keys@.len() - i,
    {
        let k = keys[i];
        assert(!ids@.contains(VehicleID(k))) by {
            if keys@.subrange(0, i as int).contains(k) {
                let j = choose|j: int| 0 <= j < i && #[trigger] keys@.subrange(0, i as int)[j] == k;
                assert(keys@[j] == keys@[i as int]);
            }
        }
        let mut pos: usize = 0;
        while pos < ids.len()
            invariant
                pos <= ids@.len(),
                forall|j: int| 0 <= j < pos ==> (#[trigger] ids@[j]).0 < k,
            ensures
                pos <= ids@.len(),
                forall|j: int| 0 <= j < pos ==> (#[trigger] ids@[j]).0 < k,
                pos < ids@.len() ==> ids@[pos as int].0 >= k,
            decreases ids@.len() - pos,
        {
            if ids[pos].0 >= k {
                break;
            }
            pos = pos + 1;
        }
        let ghost old_ids = ids@;
        ids.insert(pos, VehicleID(k));
        proof {
            if pos < old_ids.len() {
                assert(old_ids[pos as int].0 != k) by {
                    assert(old_ids.contains(old_ids[pos as int]));
                }
            }
            assert forall|a: int, b: int| 0 <= a < b < ids@.len() implies (#[trigger] ids@[a]).0 < (#[trigger] ids@[b]).0 by {
                if b < pos {
                    assert(ids@[a] == old_ids[a]);
                    assert(ids@[b] == old_ids[b]);
                } else if a < pos && b == pos {
                } else if a < pos && b > pos {
                    assert(ids@[b] == old_ids[b - 1]);
                } else if a == pos && b > pos {
                    assert(ids@[b] == old_ids[b - 1]);
                    if b - 1 > pos {
                        assert(old_ids[pos as int].0 < old_ids[b - 1].0);
                    }
                } else {
                    assert(ids@[a] == old_ids[a - 1]);
                    assert(ids@[b] == old_ids[b - 1]);
                }
            }
            let s0 = keys@.subrange(0, i as int);
            let s1 = keys@.subrange(0, i + 1);
            assert(s1 =~= s0.push(k));
            assert forall|u: u32| #[trigger] ids@.contains(VehicleID(u)) <==> s1.contains(u) by {
                if ids@.contains(VehicleID(u)) {
                    let j = choose|j: int| 0 <= j < ids@.len() && ids@[j] == VehicleID(u);
                    if j < pos {
                        assert(old_ids[j] == VehicleID(u));
                        assert(old_ids.contains(VehicleID(u)));
                        let m = choose|m: int| 0 <= m < s0.len() && #[trigger] s0[m] == u;
                        assert(s1[m] == u);
                    } else if j > pos {
                        assert(old_ids[j - 1] == VehicleID(u));
                        assert(old_ids.contains(VehicleID(u)));
                        let m = choose|m: int| 0 <= m < s0.len() && #[trigger] s0[m] == u;
                        assert(s1[m] == u);
                    } else {
                        assert(s1[i as int] == u);
                    }
                }
                if s1.contains(u) {
                    let m = choose|m: int| 0 <= m < s1.len() && #[trigger] s1[m] == u;
                    if m < i {
                        assert(s0[m] == u);
                        assert(old_ids.contains(VehicleID(u)));
                        let j = choose|j: int| 0 <= j < old_ids.len() && old_ids[j] == VehicleID(u);
                        if j < pos {
                            assert(ids@[j] == VehicleID(u));
                        } else {
                            assert(ids@[j + 1] == VehicleID(u));
                        }
                    } else {
                        assert(ids@[pos as int] == VehicleID(u));
                    }
                }
            }
        }
        i = i + 1;
    }
    proof {
        assert(keys@.subrange(0, i as int) =~= keys@);
    }
    ids
}


/// The position in a schedule of `len` orders that a vehicle's tick works on: its
/// current order if that points into the schedule, else the first order.
pub open spec fn worked_index(v: Vehicle, len: int) -> int {
    match v.current_order {
        Some(i) => if (i.0 as int) < len { i.0 as int } else { 0 },
        None => 0,
    }
}

/// A vehicle whose go-to-tile order ends the tick on that tile moves on, idle, to the
/// next order of its schedule (wrapping around to the first).
pub proof fn lemma_tile_reached_moves_on(w: World, v: Vehicle)
    requires
        w.order_lists@.contains_key(v.orders.0),
        w.order_lists@[v.orders.0]@.len() > 0,
    ensures
        ({
            let orders = w.order_lists@[v.orders.0]@;
            let len = orders.len() as int;
            let idx = worked_index(v, len);
            let p = order_progress(w, v);
            orders[idx] matches OrderType::GoToTile { x, y } && p.2 == (TileIndex { x: x as u16, y: y as u16 })
                ==> p.0 == Some(OrderIndex(((idx + 1) % len) as u16)) && p.1 == VehicleState::Idle
        }),
{
}

/// A vehicle that finishes waiting (one tick or less left) moves on, idle and in
/// place, to the next order of its schedule; with more left it keeps its order and
/// counts down by one.
pub proof fn lemma_wait_done_moves_on(w: World, v: Vehicle, rem: u16)
    requires
        w.order_lists@.contains_key(v.orders.0),
        w.order_lists@[v.orders.0]@.len() > 0,
        v.current_order matches Some(i) && (i.0 as int) < w.order_lists@[v.orders.0]@.len(),
        w.order_lists@[v.orders.0]@[v.current_order.unwrap().0 as int] is WaitTime,
        v.state == VehicleState::Waiting(rem),
    ensures
        ({
            let len = w.order_lists@[v.orders.0]@.len() as int;
            let idx = v.current_order.unwrap().0 as int;
            &&& rem <= 1 ==> order_progress(w, v) == (Some(OrderIndex(((idx + 1) % len) as u16)), VehicleState::Idle, v.position)
            &&& rem > 1 ==> order_progress(w, v) == (v.current_order, VehicleState::Waiting((rem - 1) as u16), v.position)
        }),
{
}


/// A vehicle on a go-to-station order that ends the tick on a tile of that station
/// starts loading and moves on to the next order of its schedule (wrapping around).
pub proof fn lemma_station_reached_moves_on(w: World, v: Vehicle)
    requires
        w.order_lists@.contains_key(v.orders.0),
        w.order_lists@[v.orders.0]@.len() > 0,
    ensures
        ({
            let orders = w.order_lists@[v.orders.0]@;
            let len = orders.len() as int;
            let idx = worked_index(v, len);
            let p = order_progress(w, v);
            orders[idx] matches OrderType::GoToStation { station_id, .. } && w.stations@.contains_key(station_id.0)
                && w.stations@[station_id.0].tiles@.contains(p.2) ==> p.0 == Some(
                OrderIndex(((idx + 1) % len) as u16),
            ) && p.1 == VehicleState::Loading
        }),
{
}

/// A vehicle that starts a wait of `t` ticks (it is not waiting yet) waits `t - 1`
/// more ticks on the same order, in place; a wait of at most one tick is over at once
/// and the vehicle moves on, idle, to the next order.
pub proof fn lemma_wait_start(w: World, v: Vehicle, t: u16)
    requires
        w.order_lists@.contains_key(v.orders.0),
        w.order_lists@[v.orders.0]@.len() > 0,
        v.current_order matches Some(i) && (i.0 as int) < w.order_lists@[v.orders.0]@.len(),
        w.order_lists@[v.orders.0]@[v.current_order.unwrap().0 as int] == OrderType::WaitTime(t),
        !(v.state is Waiting),
    ensures
        ({
            let len = w.order_lists@[v.orders.0]@.len() as int;
            let idx = v.current_order.unwrap().0 as int;
            &&& t <= 1 ==> order_progress(w, v) == (Some(OrderIndex(((idx + 1) % len) as u16)), VehicleState::Idle, v.position)
            &&& t > 1 ==> order_progress(w, v) == (v.current_order, VehicleState::Waiting((t - 1) as u16), v.position)
        }),
{
}

/// `b` is `a` or one of its four neighbours.
pub open spec fn within_one_step(a: TileIndex, b: TileIndex) -> bool {
    ||| a == b
    ||| a.y == b.y && (a.x + 1 == b.x || b.x + 1 == a.x)
    ||| a.x == b.x && (a.y + 1 == b.y || b.y + 1 == a.y)
}

/// A step towards a tile moves by at most one tile.
pub proof fn lemma_step_toward_one(from: TileIndex, to: TileIndex, dims: MapSize)
    ensures
        within_one_step(from, step_toward(from, to, dims)),
{
}

/// A schedule tick moves a vehicle by at most one tile.
pub proof fn lemma_progress_moves_one_tile(w: World, v: Vehicle)
    ensures
        within_one_step(v.position, order_progress(w, v).2),
{
    let orders = w.order_lists@[v.orders.0]@;
    if w.order_lists@.contains_key(v.orders.0) && orders.len() > 0 {
        let idx = worked_index(v, orders.len() as int);
        match orders[idx] {
            OrderType::GoToStation { station_id, .. } => {
                if w.stations@.contains_key(station_id.0) && w.stations@[station_id.0].tiles@.len() > 0 {
                    lemma_step_toward_one(v.position, w.stations@[station_id.0].tiles@[0], w.map.dims());
                }
            },
            OrderType::GoToTile { x, y } => {
                lemma_step_toward_one(v.position, TileIndex { x: x as u16, y: y as u16 }, w.map.dims());
            },
            _ => {},
        }
    }
}

} // verus!
