//! The simulator: a prioritized command queue, a unified command handler, stored
//! outcomes, and the per-tick loop.
use vstd::prelude::*;
use std::collections::{HashMap, VecDeque};
use crate::types::id::{CompanyID, OrderListID, StationID, VehicleID};
use crate::world::map::MapSize;
use crate::sim::command::{
    Command, CommandEntry, CommandFailure, CommandOutcome, CommandResult, CompanyIdExhausted,
    EnqueueError, QueuedCommand,
};
use crate::sim::commands::{
    add_order_effect, build_station_effect, create_company_effect, create_order_list_effect,
    exec_add_order, exec_build_station, exec_create_company, exec_create_order_list,
    exec_load_cargo, exec_purchase_vehicle, exec_unload_cargo, load_cargo_effect, next_id_after,
    next_raw_id, purchase_vehicle_effect, unload_cargo_effect,
};
use crate::sim::keys::key_list;
use crate::sim::world::{World, is_new_world};
use crate::sim::schedule::{advance_all_vehicles, sorted_ids_of, sorted_vehicle_ids, vehicles_advanced};
use crate::sim::exchange::{cargo_exchanged_all, exchange_all_cargo};
use crate::types::unit::Ticks;

verus! {

broadcast use vstd::std_specs::hash::group_hash_axioms;

/// The effect of processing `cmd` on world `w`: the resulting world `w2` and result `r`.
pub open spec fn command_effect(w: World, cmd: Command, w2: World, r: CommandResult) -> bool {
    match cmd {
        Command::CreateCompany { name, money, color } => create_company_effect(w, name, money, color, w2, r),
        Command::BuildStation { company_id, name, tiles } => build_station_effect(w, company_id, name, tiles@, w2, r),
        Command::PurchaseVehicle { company_id, engine_id, kind, position, order_list_id } =>
            purchase_vehicle_effect(w, company_id, engine_id, kind, position, order_list_id, w2, r),
        Command::CreateOrderList {} => create_order_list_effect(w, w2, r),
        Command::AddOrderToList { order_list_id, order } => add_order_effect(w, order_list_id, order, w2, r),
        Command::LoadCargo { vehicle_id, station_id, cargo_type, amount } =>
            load_cargo_effect(w, vehicle_id, station_id, cargo_type, amount, w2, r),
        Command::UnloadCargo { vehicle_id, station_id, cargo_type, amount } =>
            unload_cargo_effect(w, vehicle_id, station_id, cargo_type, amount, w2, r),
    }
}

/// A command that fails leaves the world exactly as it was.
pub proof fn lemma_failed_command_leaves_world_unchanged(w: World, cmd: Command, w2: World, r: CommandResult)
    requires
        command_effect(w, cmd, w2, r),
        r is Failure,
    ensures
        w2 == w,
{
}

/// Running the commands of `q` in order from world `w0`: `ws` are the worlds before
/// and after each command and `rs` the results.
pub open spec fn queue_run(w0: World, q: Seq<QueuedCommand>, ws: Seq<World>, rs: Seq<CommandResult>) -> bool {
    &&& ws.len() == q.len() + 1
    &&& rs.len() == q.len()
    &&& ws[0] == w0
    &&& forall|i: int| 0 <= i < q.len() ==> command_effect(#[trigger] ws[i], q[i].entry.command, ws[i + 1], rs[i])
}

/// The outcome store after recording, in order, the results `rs` of the commands of
/// `q` under their submission IDs, numbered in execution order from `first` and stamped
/// with `tick` (a later outcome under the same ID replaces an earlier one).
pub open spec fn outcomes_recorded(o0: Map<u64, CommandOutcome>, q: Seq<QueuedCommand>, rs: Seq<CommandResult>, first: u64, tick: Ticks) -> Map<u64, CommandOutcome>
    decreases q.len(),
{
    if q.len() == 0 {
        o0
    } else {
        outcomes_recorded(o0, q.drop_last(), rs, first, tick).insert(
            q.last().submission_id,
            CommandOutcome {
                result: rs[q.len() - 1],
                execution_order: (first + q.len() - 1) as u64,
                tick,
            },
        )
    }
}

/// The queued commands carry distinct submission IDs, each below `next`.
pub open spec fn queue_ids_fresh(q: Seq<QueuedCommand>, next: u64) -> bool {
    &&& forall|a: int| 0 <= a < q.len() ==> (#[trigger] q[a]).submission_id < next
    &&& forall|a: int, b: int| 0 <= a < b < q.len() ==> (#[trigger] q[a]).submission_id != (#[trigger] q[b]).submission_id
}

/// Recording outcomes stores, for each queued command, its own result under its
/// submission ID, numbered by its place in the queue and stamped with the tick; other
/// stored outcomes stay. This holds when the queued submission IDs are distinct, as
/// they are in any queue built by `enqueue_command` (see `queue_ids_fresh`).
pub proof fn lemma_outcomes_per_command(o0: Map<u64, CommandOutcome>, q: Seq<QueuedCommand>, rs: Seq<CommandResult>, first: u64, tick: Ticks)
    requires
        forall|a: int, b: int| 0 <= a < b < q.len() ==> (#[trigger] q[a]).submission_id != (#[trigger] q[b]).submission_id,
        first + q.len() <= u64::MAX,
    ensures
        forall|k: int| 0 <= k < q.len() ==> {
            &&& outcomes_recorded(o0, q, rs, first, tick).contains_key((#[trigger] q[k]).submission_id)
            &&& outcomes_recorded(o0, q, rs, first, tick)[q[k].submission_id] == CommandOutcome {
                result: rs[k],
                execution_order: (first + k) as u64,
                tick,
            }
        },
        forall|id: u64| #![trigger outcomes_recorded(o0, q, rs, first, tick).contains_key(id)]
            o0.contains_key(id) && (forall|k: int| 0 <= k < q.len() ==> q[k].submission_id != id)
            ==> outcomes_recorded(o0, q, rs, first, tick).contains_key(id)
            && outcomes_recorded(o0, q, rs, first, tick)[id] == o0[id],
    decreases q.len(),
{
    if q.len() > 0 {
        let p = q.drop_last();
        lemma_outcomes_per_command(o0, p, rs, first, tick);
        let n = q.len() - 1;
        assert forall|k: int| 0 <= k < q.len() implies {
            &&& outcomes_recorded(o0, q, rs, first, tick).contains_key((#[trigger] q[k]).submission_id)
            &&& outcomes_recorded(o0, q, rs, first, tick)[q[k].submission_id] == CommandOutcome {
                result: rs[k],
                execution_order: (first + k) as u64,
                tick,
            }
        } by {
            if k < n {
                assert(p[k] == q[k]);
                assert(q[k].submission_id != q[n].submission_id);
            }
        }
        assert forall|id: u64| o0.contains_key(id) && (forall|k: int| 0 <= k < q.len() ==> q[k].submission_id != id) implies
            #[trigger] outcomes_recorded(o0, q, rs, first, tick).contains_key(id)
            && outcomes_recorded(o0, q, rs, first, tick)[id] == o0[id] by {
            assert forall|k: int| 0 <= k < p.len() implies p[k].submission_id != id by {
                assert(p[k] == q[k]);
            }
            assert(q[n].submission_id != id);
        }
    }
}

/// A queued command has exactly the effect it has when processed immediately.
pub proof fn lemma_queued_command_matches_immediate(w0: World, qc: QueuedCommand, ws: Seq<World>, rs: Seq<CommandResult>)
    requires
        queue_run(w0, seq![qc], ws, rs),
    ensures
        command_effect(w0, qc.entry.command, ws[1], rs[0]),
{
    assert(seq![qc][0] == qc);
}

/// A command never changes the tick and keeps the world well formed.
pub proof fn lemma_command_keeps_tick(w: World, cmd: Command, w2: World, r: CommandResult)
    requires
        command_effect(w, cmd, w2, r),
    ensures
        w2.tick == w.tick,
{
}

/// Recording depends only on the results of the recorded commands.
proof fn lemma_outcomes_prefix(o0: Map<u64, CommandOutcome>, q: Seq<QueuedCommand>, rs1: Seq<CommandResult>, rs2: Seq<CommandResult>, first: u64, tick: Ticks)
    requires
        rs1.len() >= q.len(),
        rs2.len() >= q.len(),
        forall|j: int| 0 <= j < q.len() ==> rs1[j] == rs2[j],
    ensures
        outcomes_recorded(o0, q, rs1, first, tick) == outcomes_recorded(o0, q, rs2, first, tick),
    decreases q.len(),
{
    if q.len() > 0 {
        lemma_outcomes_prefix(o0, q.drop_last(), rs1, rs2, first, tick);
    }
}

/// Commands are in non-increasing priority order.
pub open spec fn priority_sorted(q: Seq<QueuedCommand>) -> bool {
    forall|i: int, j: int| 0 <= i < j < q.len() ==> (#[trigger] q[i]).entry.priority >= (#[trigger] q[j]).entry.priority
}

/// `pos` is the first position whose command has a lower priority than `p` (the end
/// if there is none): where a command of priority `p` is queued.
pub open spec fn insert_position(q: Seq<QueuedCommand>, p: u8, pos: int) -> bool {
    &&& 0 <= pos <= q.len()
    &&& forall|j: int| 0 <= j < pos ==> (#[trigger] q[j]).entry.priority >= p
    &&& pos < q.len() ==> q[pos].entry.priority < p
}

/// Enqueuing keeps the queue in priority order, and a new command goes behind every
/// queued command of equal priority (first in, first out among equals) and ahead of
/// every command of lower priority.
pub proof fn lemma_enqueue_keeps_priority_and_fifo(q: Seq<QueuedCommand>, e: QueuedCommand, pos: int)
    requires
        priority_sorted(q),
        insert_position(q, e.entry.priority, pos),
    ensures
        priority_sorted(q.insert(pos, e)),
        q.insert(pos, e)[pos] == e,
        forall|j: int| 0 <= j < q.len() && (#[trigger] q[j]).entry.priority >= e.entry.priority ==> j < pos,
        forall|j: int| 0 <= j < q.len() && (#[trigger] q[j]).entry.priority < e.entry.priority ==> pos <= j,
{
    let q2 = q.insert(pos, e);
    assert forall|i: int, j: int| 0 <= i < j < q2.len() implies (#[trigger] q2[i]).entry.priority >= (#[trigger] q2[j]).entry.priority by {
        if i < pos && j == pos {
        } else if i < pos && j > pos {
            assert(q2[j] == q[j - 1]);
        } else if i == pos && j > pos {
            assert(q2[j] == q[j - 1]);
            if pos < q.len() {
                assert(q[pos].entry.priority >= q[j - 1].entry.priority || j - 1 == pos);
            }
        } else if i > pos {
            assert(q2[i] == q[i - 1]);
            assert(q2[j] == q[j - 1]);
        }
    }
    assert forall|j: int| 0 <= j < q.len() && (#[trigger] q[j]).entry.priority >= e.entry.priority implies j < pos by {
        if j >= pos && pos < q.len() {
            assert(q[pos].entry.priority >= q[j].entry.priority || j == pos);
        }
    }
}

/// The simulator that processes commands and advances the world.
#[derive(Debug)]
pub struct Simulator {
    pub world: World,
    /// Pending commands, priority-sorted, first in first out among equal priorities
    pub command_queue: VecDeque<QueuedCommand>,
    /// Next submission ID to assign to a queued command
    pub next_submission_id: u64,
    /// Outcomes of processed queued commands, keyed by submission ID
    pub outcomes: HashMap<u64, CommandOutcome>,
    /// Next execution order number to assign
    pub execution_order_next: u64,
    /// Reusable buffer of vehicle IDs in processing order
    pub vehicle_order_buffer: Vec<VehicleID>,
}

impl Simulator {
    /// A simulator with a new world, an empty queue and no outcomes.
    pub fn new(map_size: MapSize) -> (s: Simulator)
        ensures
            is_new_world(s.world, map_size),
            s.command_queue@.len() == 0,
            s.next_submission_id == 0,
            s.outcomes@ == Map::<u64, CommandOutcome>::empty(),
            s.execution_order_next == 0,
            s.vehicle_order_buffer@.len() == 0,
    {
        Simulator {
            world: World::new(map_size),
            command_queue: VecDeque::new(),
            next_submission_id: 0,
            outcomes: HashMap::new(),
            execution_order_next: 0,
            vehicle_order_buffer: Vec::new(),
        }
    }

    /// Queue a command under the next submission ID, behind every queued command of
    /// higher or equal priority and ahead of every command of lower priority. Fails,
    /// changing nothing, when the submission IDs are exhausted.
    pub fn enqueue_command(&mut self, command: Command, source: String, priority: u8) -> (r: Result<u64, EnqueueError>)
        ensures
            old(self).next_submission_id == u64::MAX ==> r == Err::<u64, EnqueueError>(EnqueueError::SequenceExhausted)
                && *final(self) == *old(self),
            old(self).next_submission_id < u64::MAX ==> {
                &&& r == Ok::<u64, EnqueueError>(old(self).next_submission_id)
                &&& final(self).next_submission_id == old(self).next_submission_id + 1
                &&& exists|pos: int| #![trigger insert_position(old(self).command_queue@, priority, pos)]
                    insert_position(old(self).command_queue@, priority, pos)
                    && final(self).command_queue@ == old(self).command_queue@.insert(
                        pos,
                        QueuedCommand {
                            submission_id: old(self).next_submission_id,
                            entry: CommandEntry { command, source, priority },
                        },
                    )
                &&& final(self).world == old(self).world
                &&& final(self).outcomes == old(self).outcomes
                &&& final(self).execution_order_next == old(self).execution_order_next
                &&& final(self).vehicle_order_buffer == old(self).vehicle_order_buffer
            },
            queue_ids_fresh(old(self).command_queue@, old(self).next_submission_id) ==> queue_ids_fresh(
                final(self).command_queue@,
                final(self).next_submission_id,
            ),
    {
        let submission_id = self.next_submission_id;
        if submission_id == u64::MAX {
            return Err(EnqueueError::SequenceExhausted);
        }
        self.next_submission_id = submission_id + 1;
        let queued = QueuedCommand { submission_id, entry: CommandEntry::new(command, source, priority) };
        let mut pos: usize = 0;
        while pos < self.command_queue.len()
            invariant
                pos <= self.command_queue@.len(),
                self.command_queue@ == old(self).command_queue@,
                forall|j: int| 0 <= j < pos ==> (#[trigger] self.command_queue@[j]).entry.priority >= priority,
            ensures
                pos <= self.command_queue@.len(),
                self.command_queue@ == old(self).command_queue@,
                forall|j: int| 0 <= j < pos ==> (#[trigger] self.command_queue@[j]).entry.priority >= priority,
                pos < self.command_queue@.len() ==> self.command_queue@[pos as int].entry.priority < priority,
            decreases self.command_queue@.len() - pos,
        {
            if self.command_queue[pos].entry.priority < priority {
                break;
            }
            pos = pos + 1;
        }
        proof {
            assert(insert_position(old(self).command_queue@, priority, pos as int));
        }
        let ghost q0 = self.command_queue@;
        self.command_queue.insert(pos, queued);
        proof {
            let q1 = self.command_queue@;
            if queue_ids_fresh(q0, submission_id) {
                assert forall|a: int| 0 <= a < q1.len() implies (#[trigger] q1[a]).submission_id < submission_id + 1 by {
                    if a < pos {
                        assert(q1[a] == q0[a]);
                    } else if a > pos {
                        assert(q1[a] == q0[a - 1]);
                    }
                }
                assert forall|a: int, b: int| 0 <= a < b < q1.len() implies (#[trigger] q1[a]).submission_id
                    != (#[trigger] q1[b]).submission_id by {
                    if a < pos {
                        assert(q1[a] == q0[a]);
                    } else if a > pos {
                        assert(q1[a] == q0[a - 1]);
                    }
                    if b < pos {
                        assert(q1[b] == q0[b]);
                    } else if b > pos {
                        assert(q1[b] == q0[b - 1]);
                    }
                }
            }
        }
        Ok(submission_id)
    }

    /// Process a command immediately, with the same handler as queued commands.
    pub fn process_command(&mut self, command: Command) -> (r: CommandResult)
        requires
            old(self).world.inv(),
            command.within_limits(),
        ensures
            final(self).world.inv(),
            command_effect(old(self).world, command, final(self).world, r),
            *final(self) == (Simulator { world: final(self).world, ..*old(self) }),
    {
        self.process_command_unified(&command)
    }

    /// The handler for both immediate and queued commands. A command that fails,
    /// including one the world cannot carry out, leaves the world unchanged.
    pub fn process_command_unified(&mut self, command: &Command) -> (r: CommandResult)
        requires
            old(self).world.inv(),
            command.within_limits(),
        ensures
            final(self).world.inv(),
            command_effect(old(self).world, *command, final(self).world, r),
            *final(self) == (Simulator { world: final(self).world, ..*old(self) }),
    {
        match command {
            Command::CreateCompany { name, money, color } => exec_create_company(&mut self.world, name, *money, *color),
            Command::BuildStation { company_id, name, tiles } => exec_build_station(&mut self.world, *company_id, name, tiles),
            Command::PurchaseVehicle { company_id, engine_id, kind, position, order_list_id } =>
                exec_purchase_vehicle(&mut self.world, *company_id, *engine_id, *kind, *position, *order_list_id),
            Command::CreateOrderList {} => exec_create_order_list(&mut self.world),
            Command::AddOrderToList { order_list_id, order } => exec_add_order(&mut self.world, *order_list_id, order),
            Command::LoadCargo { vehicle_id, station_id, cargo_type, amount } =>
                exec_load_cargo(&mut self.world, *vehicle_id, *station_id, *cargo_type, *amount),
            Command::UnloadCargo { vehicle_id, station_id, cargo_type, amount } =>
                exec_unload_cargo(&mut self.world, *vehicle_id, *station_id, *cargo_type, *amount),
        }
    }

    /// Process every queued command in queue order, storing each outcome; returns the
    /// worlds before and after each command and the results.
    fn run_queue(&mut self) -> (run: Ghost<(Seq<World>, Seq<CommandResult>)>)
        requires
            old(self).world.inv(),
            old(self).execution_order_next + old(self).command_queue@.len() <= u64::MAX,
            forall|i: int| 0 <= i < old(self).command_queue@.len()
                ==> (#[trigger] old(self).command_queue@[i]).entry.command.within_limits(),
        ensures
            queue_run(old(self).world, old(self).command_queue@, run@.0, run@.1),
            final(self).world == run@.0.last(),
            final(self).world.inv(),
            final(self).world.tick == old(self).world.tick,
            final(self).command_queue@.len() == 0,
            final(self).execution_order_next == old(self).execution_order_next + old(self).command_queue@.len(),
            final(self).outcomes@ == outcomes_recorded(
                old(self).outcomes@,
                old(self).command_queue@,
                run@.1,
                old(self).execution_order_next,
                old(self).world.tick,
            ),
            final(self).next_submission_id == old(self).next_submission_id,
            final(self).vehicle_order_buffer == old(self).vehicle_order_buffer,
    {
        let ghost q0 = self.command_queue@;
        let ghost w0 = self.world;
        let ghost o0 = self.outcomes@;
        let ghost first = self.execution_order_next;
        let ghost mut ws: Seq<World> = seq![self.world];
        let ghost mut rs: Seq<CommandResult> = Seq::empty();
        let ghost mut i: int = 0;
        loop
            invariant
                0 <= i <= q0.len(),
                self.command_queue@ == q0.subrange(i, q0.len() as int),
                ws.len() == i + 1,
                rs.len() == i,
                ws[0] == w0,
                ws[i] == self.world,
                forall|j: int| 0 <= j < i ==> command_effect(#[trigger] ws[j], q0[j].entry.command, ws[j + 1], rs[j]),
                forall|j: int| 0 <= j < q0.len() ==> (#[trigger] q0[j]).entry.command.within_limits(),
                self.world.inv(),
                self.world.tick == w0.tick,
                first + q0.len() <= u64::MAX,
                self.execution_order_next == first + i,
                self.outcomes@ == outcomes_recorded(o0, q0.subrange(0, i), rs, first, w0.tick),
                self.next_submission_id == old(self).next_submission_id,
                self.vehicle_order_buffer == old(self).vehicle_order_buffer,
            ensures
                i == q0.len(),
                self.command_queue@.len() == 0,
                queue_run(w0, q0, ws, rs),
                self.world == ws.last(),
                self.world.inv(),
                self.world.tick == w0.tick,
                self.execution_order_next == first + q0.len(),
                self.outcomes@ == outcomes_recorded(o0, q0, rs, first, w0.tick),
                self.next_submission_id == old(self).next_submission_id,
                self.vehicle_order_buffer == old(self).vehicle_order_buffer,
            decreases q0.len() - i,
        {
            match self.command_queue.pop_front() {
                Some(queued) => {
                    proof {
                        assert(queued == q0[i]);
                    }
                    let ghost wb = self.world;
                    let result = self.process_command_unified(&queued.entry.command);
                    proof {
                        lemma_command_keeps_tick(wb, queued.entry.command, self.world, result);
                    }
                    let ghost r = result;
                    let outcome = CommandOutcome {
                        result,
                        execution_order: self.execution_order_next,
                        tick: self.world.tick,
                    };
                    self.outcomes.insert(queued.submission_id, outcome);
                    self.execution_order_next = self.execution_order_next + 1;
                    proof {
                        let rs_old = rs;
                        ws = ws.push(self.world);
                        rs = rs.push(r);
                        let qs = q0.subrange(0, i + 1);
                        assert(qs.drop_last() =~= q0.subrange(0, i));
                        assert(qs.last() == q0[i]);
                        lemma_outcomes_prefix(o0, q0.subrange(0, i), rs_old, rs, first, w0.tick);
                        assert(outcomes_recorded(o0, qs, rs, first, w0.tick) == outcomes_recorded(
                            o0,
                            q0.subrange(0, i),
                            rs,
                            first,
                            w0.tick,
                        ).insert(
                            q0[i].submission_id,
                            CommandOutcome { result: r, execution_order: (first + i) as u64, tick: w0.tick },
                        ));
                        i = i + 1;
                        assert(self.command_queue@ =~= q0.subrange(i, q0.len() as int));
                    }
                },
                None => {
                    proof {
                        assert(q0.subrange(0, i) =~= q0);
                    }
                    break;
                },
            }
        }
        Ghost((ws, rs))
    }

    /// One tick of the simulation: process every queued command in queue order with the
    /// unified handler, storing each outcome under its submission ID; then advance the
    /// schedule of every vehicle, in increasing ID order; then exchange cargo for every
    /// such vehicle; then advance the tick counter.
    pub fn tick(&mut self)
        requires
            old(self).world.inv(),
            old(self).world.tick.0 < u32::MAX,
            old(self).execution_order_next + old(self).command_queue@.len() <= u64::MAX,
            forall|i: int| 0 <= i < old(self).command_queue@.len()
                ==> (#[trigger] old(self).command_queue@[i]).entry.command.within_limits(),
        ensures
            final(self).world.inv(),
            final(self).command_queue@.len() == 0,
            final(self).next_submission_id == old(self).next_submission_id,
            final(self).execution_order_next == old(self).execution_order_next + old(self).command_queue@.len(),
            exists|ws: Seq<World>, rs: Seq<CommandResult>, w2: World, w3: World|
                #![trigger queue_run(old(self).world, old(self).command_queue@, ws, rs), vehicles_advanced(ws.last(), final(self).vehicle_order_buffer@, w2), cargo_exchanged_all(w2, final(self).vehicle_order_buffer@, w3)]
                {
                &&& queue_run(old(self).world, old(self).command_queue@, ws, rs)
                &&& final(self).outcomes@ == outcomes_recorded(
                    old(self).outcomes@,
                    old(self).command_queue@,
                    rs,
                    old(self).execution_order_next,
                    old(self).world.tick,
                )
                &&& sorted_ids_of(final(self).vehicle_order_buffer@, ws.last().vehicles@.dom())
                &&& vehicles_advanced(ws.last(), final(self).vehicle_order_buffer@, w2)
                &&& cargo_exchanged_all(w2, final(self).vehicle_order_buffer@, w3)
                &&& final(self).world == (World { tick: Ticks((w3.tick.0 + 1) as u32), ..w3 })
            },
    {
        let run = self.run_queue();
        let ids = sorted_vehicle_ids(&self.world);
        advance_all_vehicles(&mut self.world, &ids);
        let ghost w2 = self.world;
        exchange_all_cargo(&mut self.world, &ids);
        let ghost w3 = self.world;
        self.vehicle_order_buffer = ids;
        self.world.advance_tick();
        proof {
            assert(vehicles_advanced(run@.0.last(), self.vehicle_order_buffer@, w2));
            assert(cargo_exchanged_all(w2, self.vehicle_order_buffer@, w3));
        }
    }

    /// Remove and return every stored outcome, each with its submission ID, in the
    /// store's order.
    pub fn drain_outcomes(&mut self) -> (out: Vec<(u64, CommandOutcome)>)
        ensures
            out@.len() == old(self).outcomes@.dom().len(),
            forall|i: int, j: int| 0 <= i < j < out@.len() ==> (#[trigger] out@[i]).0 != (#[trigger] out@[j]).0,
            forall|i: int| 0 <= i < out@.len() ==> old(self).outcomes@.contains_key((#[trigger] out@[i]).0)
                && out@[i].1 == old(self).outcomes@[out@[i].0],
            forall|k: u64| #[trigger] old(self).outcomes@.contains_key(k) ==> exists|i: int| 0 <= i < out@.len() && (#[trigger] out@[i]).0 == k,
            final(self).outcomes@ == Map::<u64, CommandOutcome>::empty(),
            final(self).world == old(self).world,
            final(self).command_queue == old(self).command_queue,
            final(self).next_submission_id == old(self).next_submission_id,
            final(self).execution_order_next == old(self).execution_order_next,
            final(self).vehicle_order_buffer == old(self).vehicle_order_buffer,
    {
        let keys = key_list(&self.outcomes);
        let ghost o0 = self.outcomes@;
        let mut out: Vec<(u64, CommandOutcome)> = Vec::new();
        let mut i: usize = 0;
        while i < keys.len()
            invariant
                i <= keys@.len(),
                keys@.no_duplicates(),
                forall|k: u64| keys@.contains(k) <==> o0.contains_key(k),
                out@.len() == i,
                forall|j: int| 0 <= j < i ==> (#[trigger] out@[j]).0 == keys@[j] && out@[j].1 == o0[keys@[j]],
                forall|k: u64| #[trigger] self.outcomes@.contains_key(k) <==> (o0.contains_key(k)
                    && !keys@.subrange(0, i as int).contains(k)),
                forall|k: u64| #[trigger] self.outcomes@.contains_key(k) ==> self.outcomes@[k] == o0[k],
                self.world == old(self).world,
                self.command_queue == old(self).command_queue,
                self.next_submission_id == old(self).next_submission_id,
                self.execution_order_next == old(self).execution_order_next,
                self.vehicle_order_buffer == old(self).vehicle_order_buffer,
            decreases keys@.len() - i,
        {
            let k = keys[i];
            assert(keys@.contains(k));
            assert(!keys@.subrange(0, i as int).contains(k)) by {
                if keys@.subrange(0, i as int).contains(k) {
                    let j = choose|j: int| 0 <= j < i && #[trigger] keys@.subrange(0, i as int)[j] == k;
                    assert(keys@[j] == keys@[i as int]);
                }
            }
            let v = self.outcomes.remove(&k).unwrap();
            out.push((k, v));
            proof {
                let s0 = keys@.subrange(0, i as int);
                let s1 = keys@.subrange(0, i + 1);
                assert(s1 =~= s0.push(k));
                assert forall|u: u64| #[trigger] self.outcomes@.contains_key(u) <==> (o0.contains_key(u) && !s1.contains(u)) by {
                    if s1.contains(u) && u != k {
                        let j = choose|j: int| 0 <= j < s1.len() && #[trigger] s1[j] == u;
                        assert(s0[j] == u);
                    }
                    if s0.contains(u) {
                        let j = choose|j: int| 0 <= j < s0.len() && #[trigger] s0[j] == u;
                        assert(s1[j] == u);
                    }
                    if u == k {
                        assert(s1[i as int] == u);
                    }
                }
            }
            i = i + 1;
        }
        proof {
            assert(keys@.subrange(0, i as int) =~= keys@);
            assert(self.outcomes@ =~= Map::<u64, CommandOutcome>::empty());
            assert forall|k: u64| #[trigger] o0.contains_key(k) implies exists|j: int| 0 <= j < out@.len() && (#[trigger] out@[j]).0 == k by {
                assert(keys@.contains(k));
                let j = choose|j: int| 0 <= j < keys@.len() && keys@[j] == k;
                assert(out@[j].0 == k);
            }
            assert forall|a: int, b: int| 0 <= a < b < out@.len() implies (#[trigger] out@[a]).0 != (#[trigger] out@[b]).0 by {
                assert(keys@[a] != keys@[b]);
            }
        }
        out
    }

    /// The next company ID: 0 without companies, otherwise one more than the largest;
    /// exhausted when that is the invalid ID or overflows. Never an existing company.
    pub fn next_company_id_checked(&self) -> (r: Result<CompanyID, CompanyIdExhausted>)
        ensures
            r == (match next_id_after(self.world.companies@.dom()) {
                Some(id) => Ok::<CompanyID, CompanyIdExhausted>(CompanyID(id)),
                None => Err::<CompanyID, CompanyIdExhausted>(CompanyIdExhausted::Exhausted),
            }),
    {
        match next_raw_id(&self.world.companies) {
            Some(id) => Ok(CompanyID(id)),
            None => Err(CompanyIdExhausted::Exhausted),
        }
    }

    /// The next station ID, as for companies.
    pub fn next_station_id_checked(&self) -> (r: Result<StationID, CommandFailure>)
        ensures
            r == (match next_id_after(self.world.stations@.dom()) {
                Some(id) => Ok::<StationID, CommandFailure>(StationID(id)),
                None => Err::<StationID, CommandFailure>(CommandFailure::StationIdExhausted),
            }),
    {
        match next_raw_id(&self.world.stations) {
            Some(id) => Ok(StationID(id)),
            None => Err(CommandFailure::StationIdExhausted),
        }
    }

    /// The next vehicle ID, as for companies.
    pub fn next_vehicle_id_checked(&self) -> (r: Result<VehicleID, CommandFailure>)
        ensures
            r == (match next_id_after(self.world.vehicles@.dom()) {
                Some(id) => Ok::<VehicleID, CommandFailure>(VehicleID(id)),
                None => Err::<VehicleID, CommandFailure>(CommandFailure::VehicleIdExhausted),
            }),
    {
        match next_raw_id(&self.world.vehicles) {
            Some(id) => Ok(VehicleID(id)),
            None => Err(CommandFailure::VehicleIdExhausted),
        }
    }

    /// The next order list ID, as for companies.
    pub fn next_order_list_id_checked(&self) -> (r: Result<OrderListID, CommandFailure>)
        ensures
            r == (match next_id_after(self.world.order_lists@.dom()) {
                Some(id) => Ok::<OrderListID, CommandFailure>(OrderListID(id)),
                None => Err::<OrderListID, CommandFailure>(CommandFailure::OrderListIdExhausted),
            }),
    {
        match next_raw_id(&self.world.order_lists) {
            Some(id) => Ok(OrderListID(id)),
            None => Err(CommandFailure::OrderListIdExhausted),
        }
    }

    /// The next company ID, or company 0 when the IDs are exhausted (superseded by
    /// `next_company_id_checked`).
    pub fn next_company_id(&mut self) -> (r: CompanyID)
        ensures
            r == (match next_id_after(old(self).world.companies@.dom()) {
                Some(id) => CompanyID(id),
                None => CompanyID(0),
            }),
            *final(self) == *old(self),
    {
        match self.next_company_id_checked() {
            Ok(id) => id,
            Err(_) => CompanyID(0),
        }
    }
}

} // verus!
