//! Primitive enumerations for domain concepts.
use vstd::prelude::*;
use crate::types::id::{CargoType, StationID};

verus! {

/// Types of terrain/infrastructure at a tile location.
#[derive(Debug, Copy, Clone, PartialEq, Eq, Structural, Hash)]
pub enum TileKind {
    Clear,
    Grass,
    Water,
    Rail,
    Road,
    House,
    Trees,
    Station,
    Industry,
    TunnelBridge,
    OilRig,
}

/// Kind of vehicle propulsion.
#[derive(Debug, Copy, Clone, PartialEq, Eq, Structural, Hash)]
pub enum VehicleKind {
    Train,
    RoadVehicle,
    Ship,
    Aircraft,
    Effect,
    Disaster,
}

/// Primary cargo classification.
#[derive(Debug, Copy, Clone, PartialEq, Eq, Structural, Hash)]
pub enum CargoClass {
    /// Passengers, mail, valuables
    Passenger,
    /// Bulk goods like coal, ore, grain
    Bulk,
    /// Liquid goods like oil, water
    Liquid,
    /// Refrigerated goods
    Refrigerated,
    /// Valuables, goods needing special handling
    Valuable,
    /// Other miscellaneous cargo
    Other,
}

/// Cargo payment modifiers; each flag's bit value is given by `bits`.
#[derive(Debug, Copy, Clone, PartialEq, Eq, Structural, Hash)]
pub enum CargoPaymentFlags {
    /// Standard payment
    NoFlags,
    /// Payment per mile/km
    Distance,
    /// Payment increases with time in transit
    Time,
    /// Payment for urgency
    Urgency,
    /// Special cargo type
    Special,
}

impl CargoPaymentFlags {
    /// The flag's bit value: NoFlags = 0, Distance = 1, Time = 2, Urgency = 4, Special = 8.
    pub fn bits(&self) -> (b: u8)
        ensures
            b == (match self {
                CargoPaymentFlags::NoFlags => 0u8,
                CargoPaymentFlags::Distance => 1u8,
                CargoPaymentFlags::Time => 2u8,
                CargoPaymentFlags::Urgency => 4u8,
                CargoPaymentFlags::Special => 8u8,
            }),
    {
        match self {
            CargoPaymentFlags::NoFlags => 0,
            CargoPaymentFlags::Distance => 1,
            CargoPaymentFlags::Time => 2,
            CargoPaymentFlags::Urgency => 4,
            CargoPaymentFlags::Special => 8,
        }
    }
}

/// Execution state of a vehicle executing its order schedule.
#[derive(Debug, Copy, Clone, PartialEq, Eq, Structural, Hash)]
pub enum VehicleState {
    /// Idle (no orders, or unassigned)
    Idle,
    /// Traveling towards current destination
    Traveling,
    /// Waiting for the given remaining number of ticks
    Waiting(u16),
    /// Loading/unloading cargo at a station
    Loading,
}

impl Default for VehicleState {
    fn default() -> (s: VehicleState)
        ensures
            s == VehicleState::Idle,
    {
        VehicleState::Idle
    }
}

/// Conditions for waiting at a station for cargo.
#[derive(Debug, PartialEq, Eq, Hash)]
pub struct WaitConditions {
    /// Minimum cargo amount to wait for
    pub min_amount: u16,
    /// Specific cargo types to wait for (None = any)
    pub cargo_types: Option<Vec<CargoType>>,
    /// Maximum time to wait (ticks)
    pub max_ticks: u32,
}

/// Order types for vehicle schedules.
#[derive(Debug, PartialEq, Eq, Hash)]
pub enum OrderType {
    /// Go to a specific station (and optionally wait for cargo)
    GoToStation { station_id: StationID, conditions: Option<WaitConditions> },
    /// Go to a specific coordinate (water/air)
    GoToTile { x: i16, y: i16 },
    /// Wait for a number of ticks
    WaitTime(u16),
    /// Wait until a date (month, day)
    WaitDate(u16, u8),
    /// Go to an oil rig
    GoToOilRig,
    /// Visit a tin mine
    VisitTinMine,
    /// No order (end of list)
    NoOrder,
}

/// Two wait conditions carry the same thresholds and the same cargo type lists.
pub open spec fn same_conditions(a: WaitConditions, b: WaitConditions) -> bool {
    &&& a.min_amount == b.min_amount
    &&& a.max_ticks == b.max_ticks
    &&& match (a.cargo_types, b.cargo_types) {
        (Some(x), Some(y)) => x@ == y@,
        (None, None) => true,
        _ => false,
    }
}

/// Two orders are the same order: the same variant with the same contents.
pub open spec fn same_order(a: OrderType, b: OrderType) -> bool {
    match (a, b) {
        (
            OrderType::GoToStation { station_id: s1, conditions: c1 },
            OrderType::GoToStation { station_id: s2, conditions: c2 },
        ) => s1 == s2 && match (c1, c2) {
            (Some(x), Some(y)) => same_conditions(x, y),
            (None, None) => true,
            _ => false,
        },
        (OrderType::GoToTile { x: x1, y: y1 }, OrderType::GoToTile { x: x2, y: y2 }) => x1 == x2
            && y1 == y2,
        (OrderType::WaitTime(t1), OrderType::WaitTime(t2)) => t1 == t2,
        (OrderType::WaitDate(m1, d1), OrderType::WaitDate(m2, d2)) => m1 == m2 && d1 == d2,
        (OrderType::GoToOilRig, OrderType::GoToOilRig) => true,
        (OrderType::VisitTinMine, OrderType::VisitTinMine) => true,
        (OrderType::NoOrder, OrderType::NoOrder) => true,
        _ => false,
    }
}

impl Clone for WaitConditions {
    fn clone(&self) -> (r: WaitConditions)
        ensures
            same_conditions(r, *self),
    {
        let cargo_types = match &self.cargo_types {
            Some(v) => {
                let mut c: Vec<CargoType> = Vec::new();
                let mut i: usize = 0;
                while i < v.len()
                    invariant
                        i <= v@.len(),
                        c@ == v@.subrange(0, i as int),
                    decreases v@.len() - i,
                {
                    c.push(v[i]);
                    i = i + 1;
                }
                proof {
                    assert(c@ =~= v@);
                }
                Some(c)
            },
            None => None,
        };
        WaitConditions { min_amount: self.min_amount, cargo_types, max_ticks: self.max_ticks }
    }
}

impl Clone for OrderType {
    fn clone(&self) -> (r: OrderType)
        ensures
            same_order(r, *self),
    {
        match self {
            OrderType::GoToStation { station_id, conditions } => {
                let c = match conditions {
                    Some(w) => Some(w.clone()),
                    None => None,
                };
                OrderType::GoToStation { station_id: *station_id, conditions: c }
            },
            OrderType::GoToTile { x, y } => OrderType::GoToTile { x: *x, y: *y },
            OrderType::WaitTime(t) => OrderType::WaitTime(*t),
            OrderType::WaitDate(m, d) => OrderType::WaitDate(*m, *d),
            OrderType::GoToOilRig => OrderType::GoToOilRig,
            OrderType::VisitTinMine => OrderType::VisitTinMine,
            OrderType::NoOrder => OrderType::NoOrder,
        }
    }
}

/// Link graph node type (for cargo routing).
#[derive(Debug, Copy, Clone, PartialEq, Eq, Structural, Hash)]
pub enum LinkGraphNodeType {
    Station,
    /// Proxy node for industries/towns not directly connected
    Proxy,
}

/// Direction of travel on a tile.
#[derive(Debug, Copy, Clone, PartialEq, Eq, Structural, Hash)]
pub enum TileDirection {
    North,
    East,
    South,
    West,
    Northeast,
    Southeast,
    Southwest,
    Northwest,
}

/// Signal types for rail.
#[derive(Debug, Copy, Clone, PartialEq, Eq, Structural, Hash)]
pub enum SignalType {
    NoSignal,
    OneWay,
    TwoWay,
    PathSignal,
    ComboSignal,
    /// Custom signal from NewGRF
    Custom(u16),
}

/// Road types.
#[derive(Debug, Copy, Clone, PartialEq, Eq, Structural, Hash)]
pub enum RoadType {
    NoRoad,
    Concrete,
    Asphalt,
    Gravel,
    /// Custom road from NewGRF
    Custom(u16),
}

/// Person activity state.
#[derive(Debug, Copy, Clone, PartialEq, Eq, Structural, Hash)]
pub enum PersonActivity {
    AtLocation,
    Walking,
    AboardVehicle,
    Waiting,
    AtDestination,
    Other,
}

/// Journey leg type.
#[derive(Debug, Copy, Clone, PartialEq, Eq, Structural, Hash)]
pub enum JourneyLegType {
    Walk,
    Transport,
    Wait,
    Transfer,
}

/// Authorization evidence type.
#[derive(Debug, Copy, Clone, PartialEq, Eq, Structural, Hash)]
pub enum AuthorizationEvidenceType {
    Ticket,
    EmployeeID,
    Document,
    Biometric,
}

} // verus!
