//! World entities: companies and vehicles.
use vstd::prelude::*;
use crate::types::enums::{VehicleKind, VehicleState};
use crate::types::id::{CargoType, CompanyID, EngineID, OrderIndex, OrderListID, TileIndex, VehicleID};
use crate::types::unit::{CargoAmount, Money};

verus! {

/// A transport company.
#[derive(Debug, Clone, PartialEq, Eq, Hash)]
pub struct Company {
    pub id: CompanyID,
    pub name: String,
    pub money: Money,
    /// RGB color
    pub color: u32,
}

impl Company {
    pub fn new(id: CompanyID, name: String, money: Money, color: u32) -> (c: Company)
        ensures
            c.id == id,
            c.name == name,
            c.money == money,
            c.color == color,
    {
        Company { id, name, money, color }
    }
}

/// A vehicle in the simulation.
#[derive(Debug, PartialEq, Eq, Hash)]
pub struct Vehicle {
    pub id: VehicleID,
    pub company_id: CompanyID,
    /// Engine definition this vehicle is built from
    pub engine_id: EngineID,
    pub kind: VehicleKind,
    /// Current tile position
    pub position: TileIndex,
    pub velocity: i16,
    /// Offset within the tile
    pub sub_tile_position: (i16, i16),
    /// Index of the order being executed in the order list
    pub current_order: Option<OrderIndex>,
    /// Execution state in the order schedule
    pub state: VehicleState,
    /// Cargo carried, one entry per cargo type
    pub cargo: Vec<(CargoType, CargoAmount)>,
    /// The order list this vehicle follows
    pub orders: OrderListID,
    /// Next tile planned by the pathfinding solver, if any
    pub next_waypoint: Option<TileIndex>,
}

impl Clone for Vehicle {
    fn clone(&self) -> (v: Vehicle)
        ensures
            v.id == self.id,
            v.company_id == self.company_id,
            v.engine_id == self.engine_id,
            v.kind == self.kind,
            v.position == self.position,
            v.velocity == self.velocity,
            v.sub_tile_position == self.sub_tile_position,
            v.current_order == self.current_order,
            v.state == self.state,
            v.cargo@ == self.cargo@,
            v.orders == self.orders,
            v.next_waypoint == self.next_waypoint,
    {
        let mut cargo: Vec<(CargoType, CargoAmount)> = Vec::new();
        let mut i: usize = 0;
        while i < self.cargo.len()
            invariant
                i <= self.cargo@.len(),
                cargo@ == self.cargo@.subrange(0, i as int),
            decreases self.cargo@.len() - i,
        {
            cargo.push(self.cargo[i]);
            i = i + 1;
        }
        Vehicle {
            id: self.id,
            company_id: self.company_id,
            engine_id: self.engine_id,
            kind: self.kind,
            position: self.position,
            velocity: self.velocity,
            sub_tile_position: self.sub_tile_position,
            current_order: self.current_order,
            state: self.state,
            cargo,
            orders: self.orders,
            next_waypoint: self.next_waypoint,
        }
    }
}

impl Vehicle {
    pub fn new(
        id: VehicleID,
        company_id: CompanyID,
        engine_id: EngineID,
        kind: VehicleKind,
        position: TileIndex,
        orders: OrderListID,
    ) -> (v: Vehicle)
        ensures
            v.id == id,
            v.company_id == company_id,
            v.engine_id == engine_id,
            v.kind == kind,
            v.position == position,
            v.velocity == 0,
            v.sub_tile_position == (0i16, 0i16),
            v.current_order is None,
            v.state == VehicleState::Idle,
            v.cargo@.len() == 0,
            v.orders == orders,
            v.next_waypoint is None,
    {
        Vehicle {
            id,
            company_id,
            engine_id,
            kind,
            position,
            velocity: 0,
            sub_tile_position: (0, 0),
            current_order: None,
            state: VehicleState::Idle,
            cargo: Vec::new(),
            orders,
            next_waypoint: None,
        }
    }
}

} // verus!
