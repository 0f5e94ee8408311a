//! Strongly-typed identifiers for simulation entities.
use vstd::prelude::*;
use crate::text::{decimal, push_decimal, push_text};

verus! {

/// Identifier of a transport company.
#[derive(Debug, Copy, Clone, PartialEq, Eq, Structural, PartialOrd, Ord, Hash)]
pub struct CompanyID(pub u32);

impl CompanyID {
    /// The raw value reserved for the invalid identifier.
    pub const INVALID_RAW: u32 = 4294967295u32;

    /// The reserved invalid identifier.
    pub fn invalid() -> (r: CompanyID)
        ensures
            r.0 == u32::MAX,
    {
        CompanyID(u32::MAX)
    }
}

/// Identifier of a vehicle.
#[derive(Debug, Copy, Clone, PartialEq, Eq, Structural, PartialOrd, Ord, Hash)]
pub struct VehicleID(pub u32);

impl VehicleID {
    /// The raw value reserved for the invalid identifier.
    pub const INVALID_RAW: u32 = 4294967295u32;

    /// The reserved invalid identifier.
    pub fn invalid() -> (r: VehicleID)
        ensures
            r.0 == u32::MAX,
    {
        VehicleID(u32::MAX)
    }
}

/// Identifier of a station (or dock).
#[derive(Debug, Copy, Clone, PartialEq, Eq, Structural, PartialOrd, Ord, Hash)]
pub struct StationID(pub u32);

impl StationID {
    /// The raw value reserved for the invalid identifier.
    pub const INVALID_RAW: u32 = 4294967295u32;

    /// The reserved invalid identifier.
    pub fn invalid() -> (r: StationID)
        ensures
            r.0 == u32::MAX,
    {
        StationID(u32::MAX)
    }
}

/// Identifier of an order list.
#[derive(Debug, Copy, Clone, PartialEq, Eq, Structural, PartialOrd, Ord, Hash)]
pub struct OrderListID(pub u32);

impl OrderListID {
    /// The raw value reserved for the invalid identifier.
    pub const INVALID_RAW: u32 = 4294967295u32;

    /// The reserved invalid identifier.
    pub fn invalid() -> (r: OrderListID)
        ensures
            r.0 == u32::MAX,
    {
        OrderListID(u32::MAX)
    }
}

/// Index within an order list.
#[derive(Debug, Copy, Clone, PartialEq, Eq, Structural, PartialOrd, Ord, Hash)]
pub struct OrderIndex(pub u16);

impl OrderIndex {
    /// The raw value reserved for the invalid identifier.
    pub const INVALID_RAW: u16 = 65535u16;

    /// The reserved invalid identifier.
    pub fn invalid() -> (r: OrderIndex)
        ensures
            r.0 == u16::MAX,
    {
        OrderIndex(u16::MAX)
    }
}

/// Identifier of a cargo type.
#[derive(Debug, Copy, Clone, PartialEq, Eq, Structural, PartialOrd, Ord, Hash)]
pub struct CargoType(pub u16);

impl CargoType {
    /// The raw value reserved for the invalid identifier.
    pub const INVALID_RAW: u16 = 65535u16;

    /// The reserved invalid identifier.
    pub fn invalid() -> (r: CargoType)
        ensures
            r.0 == u16::MAX,
    {
        CargoType(u16::MAX)
    }
}

/// Identifier of a cargo packet.
#[derive(Debug, Copy, Clone, PartialEq, Eq, Structural, PartialOrd, Ord, Hash)]
pub struct CargoPacketID(pub u32);

impl CargoPacketID {
    /// The raw value reserved for the invalid identifier.
    pub const INVALID_RAW: u32 = 4294967295u32;

    /// The reserved invalid identifier.
    pub fn invalid() -> (r: CargoPacketID)
        ensures
            r.0 == u32::MAX,
    {
        CargoPacketID(u32::MAX)
    }
}

/// Identifier of a person (64 bits for external ID compatibility).
#[derive(Debug, Copy, Clone, PartialEq, Eq, Structural, PartialOrd, Ord, Hash)]
pub struct PersonID(pub u64);

impl PersonID {
    /// The raw value reserved for the invalid identifier.
    pub const INVALID_RAW: u64 = 18446744073709551615u64;

    /// The reserved invalid identifier.
    pub fn invalid() -> (r: PersonID)
        ensures
            r.0 == u64::MAX,
    {
        PersonID(u64::MAX)
    }
}

/// Identifier of a journey.
#[derive(Debug, Copy, Clone, PartialEq, Eq, Structural, PartialOrd, Ord, Hash)]
pub struct JourneyID(pub u64);

impl JourneyID {
    /// The raw value reserved for the invalid identifier.
    pub const INVALID_RAW: u64 = 18446744073709551615u64;

    /// The reserved invalid identifier.
    pub fn invalid() -> (r: JourneyID)
        ensures
            r.0 == u64::MAX,
    {
        JourneyID(u64::MAX)
    }
}

/// Identifier of an assignment.
#[derive(Debug, Copy, Clone, PartialEq, Eq, Structural, PartialOrd, Ord, Hash)]
pub struct AssignmentID(pub u64);

impl AssignmentID {
    /// The raw value reserved for the invalid identifier.
    pub const INVALID_RAW: u64 = 18446744073709551615u64;

    /// The reserved invalid identifier.
    pub fn invalid() -> (r: AssignmentID)
        ensures
            r.0 == u64::MAX,
    {
        AssignmentID(u64::MAX)
    }
}

/// Identifier of an engine (vehicle model).
#[derive(Debug, Copy, Clone, PartialEq, Eq, Structural, PartialOrd, Ord, Hash)]
pub struct EngineID(pub u32);

impl EngineID {
    /// The raw value reserved for the invalid identifier.
    pub const INVALID_RAW: u32 = 4294967295u32;

    /// The reserved invalid identifier.
    pub fn invalid() -> (r: EngineID)
        ensures
            r.0 == u32::MAX,
    {
        EngineID(u32::MAX)
    }
}

/// Identifier of a town.
#[derive(Debug, Copy, Clone, PartialEq, Eq, Structural, PartialOrd, Ord, Hash)]
pub struct TownID(pub u32);

/// Identifier of a town building.
#[derive(Debug, Copy, Clone, PartialEq, Eq, Structural, PartialOrd, Ord, Hash)]
pub struct BuildingID(pub u32);

/// A tile position on the simulation map.
#[derive(Debug, Copy, Clone, PartialEq, Eq, Structural, PartialOrd, Ord, Hash)]
pub struct TileIndex {
    pub x: u16,
    pub y: u16,
}

impl TileIndex {
    /// The raw coordinate reserved for the invalid tile.
    pub const INVALID_RAW: u16 = 65535u16;

    /// The reserved invalid tile (both coordinates at their maximum).
    pub fn invalid() -> (t: TileIndex)
        ensures
            t.x == u16::MAX,
            t.y == u16::MAX,
    {
        TileIndex { x: u16::MAX, y: u16::MAX }
    }

    pub fn new(x: u16, y: u16) -> (t: TileIndex)
        ensures
            t.x == x,
            t.y == y,
    {
        TileIndex { x, y }
    }

    pub fn max_value() -> (t: TileIndex)
        ensures
            t.x == u16::MAX,
            t.y == u16::MAX,
    {
        TileIndex { x: u16::MAX, y: u16::MAX }
    }

    /// The display form of the tile: `(x,y)`.
    pub fn display(&self) -> (s: String)
        ensures
            s@ == "("@ + decimal(self.x as nat) + ","@ + decimal(self.y as nat) + ")"@,
    {
        let mut s = String::new();
        push_text(&mut s, "(");
        push_decimal(&mut s, self.x as u64);
        push_text(&mut s, ",");
        push_decimal(&mut s, self.y as u64);
        push_text(&mut s, ")");
        proof {
            assert(s@ =~= "("@ + decimal(self.x as nat) + ","@ + decimal(self.y as nat) + ")"@);
        }
        s
    }
}

/// Validity of an identifier: the reserved `INVALID` value is the only invalid one.
pub trait IsValid {
    fn is_valid(&self) -> bool;
}

impl IsValid for CompanyID {
    fn is_valid(&self) -> (r: bool)
        ensures
            r == (self.0 != u32::MAX),
    {
        self.0 != CompanyID::INVALID_RAW
    }
}

impl IsValid for VehicleID {
    fn is_valid(&self) -> (r: bool)
        ensures
            r == (self.0 != u32::MAX),
    {
        self.0 != VehicleID::INVALID_RAW
    }
}

impl IsValid for StationID {
    fn is_valid(&self) -> (r: bool)
        ensures
            r == (self.0 != u32::MAX),
    {
        self.0 != StationID::INVALID_RAW
    }
}

impl IsValid for OrderListID {
    fn is_valid(&self) -> (r: bool)
        ensures
            r == (self.0 != u32::MAX),
    {
        self.0 != OrderListID::INVALID_RAW
    }
}

impl IsValid for OrderIndex {
    fn is_valid(&self) -> (r: bool)
        ensures
            r == (self.0 != u16::MAX),
    {
        self.0 != OrderIndex::INVALID_RAW
    }
}

impl IsValid for CargoType {
    fn is_valid(&self) -> (r: bool)
        ensures
            r == (self.0 != u16::MAX),
    {
        self.0 != CargoType::INVALID_RAW
    }
}

impl IsValid for CargoPacketID {
    fn is_valid(&self) -> (r: bool)
        ensures
            r == (self.0 != u32::MAX),
    {
        self.0 != CargoPacketID::INVALID_RAW
    }
}

impl IsValid for PersonID {
    fn is_valid(&self) -> (r: bool)
        ensures
            r == (self.0 != u64::MAX),
    {
        self.0 != PersonID::INVALID_RAW
    }
}

impl IsValid for JourneyID {
    fn is_valid(&self) -> (r: bool)
        ensures
            r == (self.0 != u64::MAX),
    {
        self.0 != JourneyID::INVALID_RAW
    }
}

impl IsValid for AssignmentID {
    fn is_valid(&self) -> (r: bool)
        ensures
            r == (self.0 != u64::MAX),
    {
        self.0 != AssignmentID::INVALID_RAW
    }
}

impl IsValid for EngineID {
    fn is_valid(&self) -> (r: bool)
        ensures
            r == (self.0 != u32::MAX),
    {
        self.0 != EngineID::INVALID_RAW
    }
}

impl IsValid for TileIndex {
    /// A tile is valid only when neither coordinate holds the reserved maximum.
    fn is_valid(&self) -> (r: bool)
        ensures
            r == (self.x != u16::MAX && self.y != u16::MAX),
    {
        self.x != TileIndex::INVALID_RAW && self.y != TileIndex::INVALID_RAW
    }
}

} // verus!
