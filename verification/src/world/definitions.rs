//! Definitions: engines (vehicle models), cargo types, station goods and stations.
use vstd::prelude::*;
use crate::types::enums::{CargoClass, VehicleKind};
use crate::types::id::{CargoType, CompanyID, EngineID, StationID, TileIndex};
use crate::types::unit::{CargoAmount, Money, Speed};

verus! {

/// Definition of an engine (vehicle model).
#[derive(Debug, Clone, PartialEq, Eq)]
pub struct Engine {
    pub id: EngineID,
    pub name: String,
    pub kind: VehicleKind,
    pub power: u16,
    pub tractive_effort: u16,
    pub weight: u16,
    /// Maximum speed
    pub speed: Speed,
    /// Purchase cost
    pub cost: Money,
    /// Cost per tick
    pub running_cost: Money,
    /// Cargo classes it can carry
    pub cargo_classes: Vec<CargoClass>,
    /// Year introduced
    pub introduction_date: u16,
    /// Year retired
    pub retirement_date: Option<u16>,
}

impl Engine {
    pub fn new(
        id: EngineID,
        name: String,
        kind: VehicleKind,
        power: u16,
        tractive_effort: u16,
        weight: u16,
        speed: Speed,
        cost: Money,
        running_cost: Money,
        cargo_classes: Vec<CargoClass>,
        introduction_date: u16,
        retirement_date: Option<u16>,
    ) -> (e: Engine)
        ensures
            e.id == id,
            e.name == name,
            e.kind == kind,
            e.power == power,
            e.tractive_effort == tractive_effort,
            e.weight == weight,
            e.speed == speed,
            e.cost == cost,
            e.running_cost == running_cost,
            e.cargo_classes == cargo_classes,
            e.introduction_date == introduction_date,
            e.retirement_date == retirement_date,
    {
        Engine {
            id,
            name,
            kind,
            power,
            tractive_effort,
            weight,
            speed,
            cost,
            running_cost,
            cargo_classes,
            introduction_date,
            retirement_date,
        }
    }
}

/// Definition of a cargo type.
#[derive(Debug, Clone, PartialEq, Eq, Hash)]
pub struct Cargo {
    pub id: CargoType,
    pub name: String,
    pub class: CargoClass,
    pub payment_factor: u16,
    pub payment_factor_percentage: u8,
    pub penalty_factor: u8,
}

impl Cargo {
    pub fn new(id: CargoType, name: String, class: CargoClass) -> (c: Cargo)
        ensures
            c.id == id,
            c.name == name,
            c.class == class,
            c.payment_factor == 0,
            c.payment_factor_percentage == 0,
            c.penalty_factor == 0,
    {
        Cargo { id, name, class, payment_factor: 0, payment_factor_percentage: 0, penalty_factor: 0 }
    }
}

/// Goods entry for one cargo type at a station.
#[derive(Debug, Copy, Clone, PartialEq, Eq, Structural, Hash)]
pub struct GoodsEntry {
    pub cargo_type: CargoType,
    /// Amount of cargo waiting at the station
    pub amount: CargoAmount,
    /// Rating (0-255) for this cargo type at this station
    pub rating: u8,
    /// Income from this cargo type since the last vehicle visit
    pub income_since_last_visit: i32,
    /// Amount delivered since the last visit
    pub delivered_since_last_visit: CargoAmount,
}

/// A fresh goods entry: nothing waiting, nothing delivered, no rating or income.
pub open spec fn fresh_goods(cargo_type: CargoType) -> GoodsEntry {
    GoodsEntry {
        cargo_type,
        amount: CargoAmount(0),
        rating: 0,
        income_since_last_visit: 0,
        delivered_since_last_visit: CargoAmount(0),
    }
}

impl GoodsEntry {
    pub fn new(cargo_type: CargoType) -> (g: GoodsEntry)
        ensures
            g == fresh_goods(cargo_type),
    {
        GoodsEntry {
            cargo_type,
            amount: CargoAmount(0),
            rating: 0,
            income_since_last_visit: 0,
            delivered_since_last_visit: CargoAmount(0),
        }
    }
}

/// Station (or dock) where cargo can be loaded and unloaded.
#[derive(Debug, Clone, PartialEq, Eq, Hash)]
pub struct Station {
    pub id: StationID,
    /// Owner, `None` if unowned
    pub company_id: Option<CompanyID>,
    pub name: String,
    /// Tiles that make up the station
    pub tiles: Vec<TileIndex>,
    pub operator_rating: u8,
    /// One entry per cargo type
    pub goods: Vec<GoodsEntry>,
}

impl Station {
    pub fn new(id: StationID, name: String, tiles: Vec<TileIndex>) -> (s: Station)
        ensures
            s.id == id,
            s.company_id is None,
            s.name == name,
            s.tiles == tiles,
            s.operator_rating == 0,
            s.goods@.len() == 0,
    {
        Station { id, company_id: None, name, tiles, operator_rating: 0, goods: Vec::new() }
    }
}

} // verus!
