//! Transport simulation core: primitive types, the tile map and world entities,
//! the command simulator, the capability microkernel and its drivers, the budgeted
//! water pathfinder, trace comparison, and interaction tools.
pub mod types;
pub mod text;

pub use types::id::{
    AssignmentID, BuildingID, CargoPacketID, CargoType, CompanyID, EngineID, IsValid, JourneyID,
    OrderIndex, OrderListID, PersonID, StationID, TileIndex, TownID, VehicleID,
};
pub use types::unit::{CargoAmount, Coord, Distance, Money, Payment, Speed, Temperature, Ticks};
pub use types::enums::{
    AuthorizationEvidenceType, CargoClass, CargoPaymentFlags, JourneyLegType, LinkGraphNodeType,
    OrderType, PersonActivity, RoadType, SignalType, TileDirection, TileKind, VehicleKind,
    VehicleState, WaitConditions,
};
pub use types::error::TransportError;
pub use types::capability::CapabilityToken;
pub use types::service::{ServiceId, ServicePriority};
pub mod world;
pub mod sim;
pub mod kernel;
pub mod drivers;
pub mod oracle;
pub mod tools;

pub use world::map::{MapError, MapSize, Tile, TileBase, TileExtension, TileMap};
pub use world::definitions::{Cargo, Engine, GoodsEntry, Station};
pub use world::entities::{Company, Vehicle};
pub use world::town::{Building, BuildingKind, Town};
pub use sim::world::World;
pub use sim::command::{
    Command, CommandEntry, CommandFailure, CommandOutcome, CommandResult, CommandSuccess,
    CompanyIdExhausted, EnqueueError, QueuedCommand,
};
pub use sim::simulator::Simulator;
pub use sim::schedule::step_towards;
pub use sim::water_path::{PassabilityMode, PathResult, SearchBuffers, WaterPathSolver};
pub use kernel::context::KernelContext;
pub use kernel::driver::{DriverError, SubsystemDriver};
pub use kernel::event::KernelEvent;
pub use kernel::intent::KernelIntent;
pub use kernel::microkernel::{Microkernel, RegisteredDriver};
pub use kernel::phase::Phase;
pub use drivers::economy::EconomyDriver;
pub use drivers::logistics::LogisticsDriver;
pub use drivers::movement::MovementDriver;
pub use oracle::comparator::{ComparisonReport, DivergenceDetector, DivergencePoint};
pub use oracle::recorder::{TraceRecorder, project_state_slice};
pub use oracle::schema::{OracleTraceFrame, VehicleTrace};
pub use tools::input::InputController;
pub use tools::preview::{GhostOverlay, OverlayMark, OverlayMarker};
pub use tools::tool::{ToolMode, ToolSelection, ToolStateMachine};
pub use tools::validator::{CatchmentSummary, DryRunValidator, PlacementValidity};
