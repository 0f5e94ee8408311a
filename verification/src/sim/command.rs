//! Commands issued to the simulation, their queue entries and their outcomes.
use vstd::prelude::*;
use crate::types::enums::{OrderType, VehicleKind};
use crate::types::id::{CargoType, CompanyID, EngineID, OrderListID, StationID, TileIndex, VehicleID};
use crate::types::unit::{CargoAmount, Money, Ticks};

verus! {

/// Commands that can be issued to the simulation.
#[derive(Debug, Clone, PartialEq, Eq)]
pub enum Command {
    /// Create a new company
    CreateCompany { name: String, money: Money, color: u32 },
    /// Build a station (dock)
    BuildStation { company_id: CompanyID, name: String, tiles: Vec<TileIndex> },
    /// Purchase a vehicle
    PurchaseVehicle {
        company_id: CompanyID,
        engine_id: EngineID,
        kind: VehicleKind,
        position: TileIndex,
        order_list_id: OrderListID,
    },
    /// Create an order list
    CreateOrderList {},
    /// Add an order to an order list
    AddOrderToList { order_list_id: OrderListID, order: OrderType },
    /// Load cargo at a station
    LoadCargo { vehicle_id: VehicleID, station_id: StationID, cargo_type: CargoType, amount: CargoAmount },
    /// Unload cargo at a station
    UnloadCargo { vehicle_id: VehicleID, station_id: StationID, cargo_type: CargoType, amount: CargoAmount },
}

/// Largest number of tiles a station may be built with: the construction cost, 1000
/// per tile, must fit the money type.
pub const MAX_STATION_TILES: u64 = 9223372036854775u64;

impl Command {
    /// The command's sizes fit the machine: a station's construction cost fits `i64`.
    pub open spec fn within_limits(&self) -> bool {
        match self {
            Command::BuildStation { tiles, .. } => tiles@.len() <= MAX_STATION_TILES,
            _ => true,
        }
    }

    /// The variant name of the command.
    pub fn name(&self) -> (r: &'static str)
        ensures
            r@ == (match self {
                Command::CreateCompany { .. } => "CreateCompany"@,
                Command::BuildStation { .. } => "BuildStation"@,
                Command::PurchaseVehicle { .. } => "PurchaseVehicle"@,
                Command::CreateOrderList { .. } => "CreateOrderList"@,
                Command::AddOrderToList { .. } => "AddOrderToList"@,
                Command::LoadCargo { .. } => "LoadCargo"@,
                Command::UnloadCargo { .. } => "UnloadCargo"@,
            }),
    {
        match self {
            Command::CreateCompany { .. } => "CreateCompany",
            Command::BuildStation { .. } => "BuildStation",
            Command::PurchaseVehicle { .. } => "PurchaseVehicle",
            Command::CreateOrderList { .. } => "CreateOrderList",
            Command::AddOrderToList { .. } => "AddOrderToList",
            Command::LoadCargo { .. } => "LoadCargo",
            Command::UnloadCargo { .. } => "UnloadCargo",
        }
    }
}

/// Command queue entry.
#[derive(Debug, Clone, PartialEq, Eq)]
pub struct CommandEntry {
    pub command: Command,
    /// Who or what submitted this command
    pub source: String,
    /// Priority level (higher is processed first)
    pub priority: u8,
}

impl CommandEntry {
    pub fn new(command: Command, source: String, priority: u8) -> (e: CommandEntry)
        ensures
            e == (CommandEntry { command, source, priority }),
    {
        CommandEntry { command, source, priority }
    }
}

/// A command submitted to the queue under a monotonic submission ID.
#[derive(Debug, Clone, PartialEq, Eq)]
pub struct QueuedCommand {
    pub submission_id: u64,
    pub entry: CommandEntry,
}

/// A successful outcome of command processing.
#[derive(Debug, Clone, PartialEq, Eq)]
pub enum CommandSuccess {
    CompanyCreated(CompanyID),
    StationBuilt(StationID),
    VehiclePurchased(VehicleID),
    OrderListCreated(OrderListID),
    OrderAdded,
    CargoLoaded { transferred: CargoAmount },
    CargoUnloaded { transferred: CargoAmount, revenue: Money },
    Done,
}

/// A failed outcome of command processing.
#[derive(Debug, Clone, PartialEq, Eq)]
pub enum CommandFailure {
    Unsupported(String),
    CompanyIdExhausted,
    StationIdExhausted,
    VehicleIdExhausted,
    OrderListIdExhausted,
    CompanyNotFound(CompanyID),
    StationNotFound(StationID),
    VehicleNotFound(VehicleID),
    OrderListNotFound(OrderListID),
    InsufficientFunds { required: Money, available: Money },
    OutOfBounds(TileIndex),
    TileOccupied(TileIndex),
    InvalidPlacement(String),
    /// A cargo counter would exceed its maximum
    CapacityExceeded,
    NoCargoAvailable,
}

/// The result of processing a command.
#[derive(Debug, Clone, PartialEq, Eq)]
pub enum CommandResult {
    Success(CommandSuccess),
    Failure(CommandFailure),
}

impl CommandResult {
    pub fn is_success(&self) -> (r: bool)
        ensures
            r == (*self is Success),
    {
        match self {
            CommandResult::Success(_) => true,
            CommandResult::Failure(_) => false,
        }
    }

    pub fn is_failure(&self) -> (r: bool)
        ensures
            r == (*self is Failure),
    {
        match self {
            CommandResult::Success(_) => false,
            CommandResult::Failure(_) => true,
        }
    }
}

/// Error when enqueuing a command.
#[derive(Debug, Clone, Copy, PartialEq, Eq, Structural)]
pub enum EnqueueError {
    /// The submission ID sequence is exhausted
    SequenceExhausted,
}

/// Company ID generation has exhausted the valid IDs.
#[derive(Debug, Clone, Copy, PartialEq, Eq, Structural)]
pub enum CompanyIdExhausted {
    Exhausted,
}

/// The stored outcome of processing a queued command.
#[derive(Debug, Clone, PartialEq)]
pub struct CommandOutcome {
    pub result: CommandResult,
    /// Position of the command in the global processing order
    pub execution_order: u64,
    /// World tick at which the command was processed
    pub tick: Ticks,
}

} // verus!
