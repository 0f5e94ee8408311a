//! Turning pointer events on tiles into tool state changes and simulation commands.
use vstd::prelude::*;
use crate::types::capability::CapabilityToken;
use crate::types::enums::{OrderType, VehicleKind};
use crate::types::id::{CompanyID, OrderListID, StationID, TileIndex, VehicleID};
use crate::sim::command::{Command, MAX_STATION_TILES};
use crate::sim::keys::key_list;
use crate::sim::world::{World, spec_tile_key, tile_key};
use crate::tools::tool::{ToolMode, ToolSelection, ToolStateMachine, box_listing, drag_corners, drag_listing};
use crate::tools::validator::{DryRunValidator, station_placement, vehicle_placement};

verus! {

broadcast use vstd::std_specs::hash::group_hash_axioms;

/// Input bridge converting pointer events on tiles into simulation commands.
pub struct InputController {
    pub company_id: CompanyID,
    pub token: CapabilityToken,
    pub tools: ToolStateMachine,
    /// Next order list ID handed to a purchased vehicle
    pub next_sequence: u32,
}

/// The tool state after hovering `tile`: it is the hovered tile, and the drag's current
/// tile during a drag.
pub open spec fn hovered(s: ToolStateMachine, tile: Option<TileIndex>) -> ToolStateMachine {
    ToolStateMachine {
        hovered_tile: tile,
        drag_current: if s.drag_start is Some { tile } else { s.drag_current },
        ..s
    }
}

/// The tool state after cancelling the drag.
pub open spec fn drag_cancelled(s: ToolStateMachine) -> ToolStateMachine {
    ToolStateMachine { drag_start: None, drag_current: None, ..s }
}

/// What inspecting `tile` selects: the station indexed there, else a vehicle standing
/// there, else the tile.
pub open spec fn inspected(w: World, tile: TileIndex, sel: ToolSelection) -> bool {
    if w.tile_to_station@.contains_key(spec_tile_key(tile)) {
        sel == ToolSelection::Station(w.tile_to_station@[spec_tile_key(tile)])
    } else if exists|k: u32| #[trigger] w.vehicles@.contains_key(k) && w.vehicles@[k].position == tile {
        exists|k: u32| #[trigger] w.vehicles@.contains_key(k) && w.vehicles@[k].position == tile && sel == ToolSelection::Vehicle(VehicleID(k))
    } else {
        sel == ToolSelection::Tile(tile)
    }
}

/// The effect of releasing the pointer over `released` (none outside the map view).
///
/// The released tile is hovered first. Then, by mode: inspecting cancels the drag and
/// selects what is at the tile; building a station takes the dragged tiles, cancels the
/// drag and commands the station if the dry run finds the placement valid; building a
/// vehicle cancels the drag and commands a ship purchase at the tile, under the next
/// order list ID, if the dry run finds it valid; routing cancels the drag and commands
/// adding a visit to the station indexed at the tile to the vehicle's order list;
/// other modes cancel the drag. No command comes otherwise.
pub open spec fn pointer_released(c: InputController, released: Option<TileIndex>, w: World, c2: InputController, cmd: Option<Command>) -> bool {
    let s1 = hovered(c.tools, released);
    let s2 = drag_cancelled(s1);
    &&& c2.company_id == c.company_id
    &&& c2.token == c.token
    &&& match s1.mode {
        ToolMode::Inspect => {
            &&& cmd is None
            &&& c2.next_sequence == c.next_sequence
            &&& match released {
                Some(tile) => c2.tools.selection matches Some(sel) && inspected(w, tile, sel)
                    && c2.tools == (ToolStateMachine { selection: c2.tools.selection, ..s2 }),
                None => c2.tools == s2,
            }
        },
        ToolMode::BuildStation { name, .. } => {
            &&& c2.tools == s2
            &&& c2.next_sequence == c.next_sequence
            &&& exists|tiles: Seq<TileIndex>| #![trigger tiles.len()] {
                &&& match drag_corners(s1) {
                    Some((a, b)) => box_listing(a, b, tiles),
                    None => match s1.hovered_tile {
                        Some(h) => tiles == seq![h],
                        None => tiles.len() == 0,
                    },
                }
                &&& if tiles.len() > 0 && station_placement(w, c.company_id, tiles) is Valid {
                    cmd matches Some(Command::BuildStation { company_id, name: n, tiles: t })
                        && company_id == c.company_id && n@ == name@ && t@ == tiles
                } else {
                    cmd is None
                }
            }
        },
        ToolMode::BuildVehicle { engine_id } => {
            &&& c2.tools == s2
            &&& match released {
                Some(tile) => if vehicle_placement(w, c.company_id, engine_id, tile) is Valid {
                    &&& cmd == Some(Command::PurchaseVehicle {
                        company_id: c.company_id,
                        engine_id,
                        kind: VehicleKind::Ship,
                        position: tile,
                        order_list_id: OrderListID(c.next_sequence),
                    })
                    &&& c2.next_sequence == c.next_sequence + 1
                } else {
                    cmd is None && c2.next_sequence == c.next_sequence
                },
                None => cmd is None && c2.next_sequence == c.next_sequence,
            }
        },
        ToolMode::OrderRoute { vehicle_id } => {
            &&& c2.tools == s2
            &&& c2.next_sequence == c.next_sequence
            &&& match released {
                Some(tile) => if w.tile_to_station@.contains_key(spec_tile_key(tile)) && w.vehicles@.contains_key(vehicle_id.0) {
                    cmd matches Some(Command::AddOrderToList { order_list_id, order: OrderType::GoToStation { station_id, conditions: None } })
                        && order_list_id == w.vehicles@[vehicle_id.0].orders
                        && station_id == w.tile_to_station@[spec_tile_key(tile)]
                } else {
                    cmd is None
                },
                None => cmd is None,
            }
        },
        _ => cmd is None && c2.tools == s2 && c2.next_sequence == c.next_sequence,
    }
}

impl InputController {
    pub fn new(company_id: CompanyID, token: CapabilityToken) -> (c: InputController)
        ensures
            c.company_id == company_id,
            c.token == token,
            c.tools.mode is Inspect,
            c.tools.hovered_tile is None,
            c.tools.drag_start is None,
            c.tools.drag_current is None,
            c.tools.selection is None,
            c.next_sequence == 1,
    {
        InputController { company_id, token, tools: ToolStateMachine::new(), next_sequence: 1 }
    }

    /// Pointer motion over `tile` (none outside the map view): hover it.
    pub fn handle_pointer_move(&mut self, tile: Option<TileIndex>)
        ensures
            *final(self) == (InputController { tools: hovered(old(self).tools, tile), ..*old(self) }),
    {
        self.tools.on_hover(tile);
    }

    /// Pointer press over `tile`: begin a drag there.
    pub fn handle_pointer_down(&mut self, tile: Option<TileIndex>)
        ensures
            *final(self) == (match tile {
                Some(t) => InputController {
                    tools: ToolStateMachine { drag_start: Some(t), drag_current: Some(t), ..old(self).tools },
                    ..*old(self)
                },
                None => *old(self),
            }),
    {
        match tile {
            Some(t) => self.tools.start_drag(t),
            None => {},
        }
    }

    /// A vehicle standing on `tile`, if any.
    fn vehicle_at(w: &World, tile: TileIndex) -> (r: Option<u32>)
        ensures
            r matches Some(k) ==> w.vehicles@.contains_key(k) && w.vehicles@[k].position == tile,
            r is None ==> !exists|k: u32| #[trigger] w.vehicles@.contains_key(k) && w.vehicles@[k].position == tile,
    {
        let keys = key_list(&w.vehicles);
        let mut i: usize = 0;
        while i < keys.len()
            invariant
                i <= keys@.len(),
                forall|k: u32| keys@.contains(k) <==> w.vehicles@.contains_key(k),
                forall|j: int| 0 <= j < i ==> w.vehicles@[#[trigger] keys@[j]].position != tile,
            decreases keys@.len() - i,
        {
            let k = keys[i];
            assert(keys@.contains(k));
            let p = w.vehicles.get(&k).unwrap().position;
            if p.x == tile.x && p.y == tile.y {
                return Some(k);
            }
            i = i + 1;
        }
        proof {
            assert forall|k: u32| #[trigger] w.vehicles@.contains_key(k) implies w.vehicles@[k].position != tile by {
                assert(keys@.contains(k));
                let j = choose|j: int| 0 <= j < keys@.len() && keys@[j] == k;
                assert(w.vehicles@[keys@[j]].position != tile);
            }
        }
        None
    }

    /// Pointer release over `released`: finish the tool action, validate it by dry run
    /// and produce the command it stands for, if any.
    pub fn handle_pointer_up(&mut self, released: Option<TileIndex>, world: &World) -> (cmd: Option<Command>)
        requires
            world.inv(),
            old(self).tools.mode matches ToolMode::BuildVehicle { engine_id } && released matches Some(tile)
                && vehicle_placement(*world, old(self).company_id, engine_id, tile) is Valid
                ==> old(self).next_sequence < u32::MAX,
        ensures
            pointer_released(*old(self), released, *world, *final(self), cmd),
    {
        self.tools.on_hover(released);
        let mode = self.tools.mode.clone();
        match mode {
            ToolMode::Inspect => {
                self.tools.cancel_drag();
                match released {
                    Some(tile) => {
                        let sel = match world.tile_to_station.get(&tile_key(tile)) {
                            Some(sid) => ToolSelection::Station(*sid),
                            None => match Self::vehicle_at(world, tile) {
                                Some(k) => ToolSelection::Vehicle(VehicleID(k)),
                                None => ToolSelection::Tile(tile),
                            },
                        };
                        self.tools.selection = Some(sel);
                    },
                    None => {},
                }
                None
            },
            ToolMode::BuildStation { name, .. } => {
                let candidate_tiles = self.tools.dragged_tiles();
                let ghost s1 = self.tools;
                self.tools.cancel_drag();
                if candidate_tiles.len() == 0 {
                    proof {
                        assert(candidate_tiles@.len() == 0);
                    }
                    return None;
                }
                proof {
                    lemma_drag_bound(s1, candidate_tiles@);
                }
                let validity = DryRunValidator::validate_station_placement(world, self.company_id, candidate_tiles.as_slice());
                if validity.is_valid() {
                    Some(Command::BuildStation { company_id: self.company_id, name, tiles: candidate_tiles })
                } else {
                    None
                }
            },
            ToolMode::BuildVehicle { engine_id } => {
                self.tools.cancel_drag();
                let target = match released {
                    Some(t) => t,
                    None => {
                        return None;
                    },
                };
                let validity = DryRunValidator::validate_vehicle_placement(world, self.company_id, engine_id, target);
                if validity.is_valid() {
                    let order_list_id = OrderListID(self.next_sequence);
                    self.next_sequence = self.next_sequence + 1;
                    Some(Command::PurchaseVehicle {
                        company_id: self.company_id,
                        engine_id,
                        kind: VehicleKind::Ship,
                        position: target,
                        order_list_id,
                    })
                } else {
                    None
                }
            },
            ToolMode::OrderRoute { vehicle_id } => {
                self.tools.cancel_drag();
                let clicked = match released {
                    Some(t) => t,
                    None => {
                        return None;
                    },
                };
                let station_id: StationID = match world.tile_to_station.get(&tile_key(clicked)) {
                    Some(sid) => *sid,
                    None => {
                        return None;
                    },
                };
                let vehicle = match world.vehicles.get(&vehicle_id.0) {
                    Some(v) => v,
                    None => {
                        return None;
                    },
                };
                Some(Command::AddOrderToList {
                    order_list_id: vehicle.orders,
                    order: OrderType::GoToStation { station_id, conditions: None },
                })
            },
            _ => {
                self.tools.cancel_drag();
                None
            },
        }
    }

    /// Cancel any pending interaction.
    pub fn cancel(&mut self)
        ensures
            *final(self) == (InputController { tools: drag_cancelled(old(self).tools), ..*old(self) }),
    {
        self.tools.cancel_drag();
    }
}

/// The tiles of a drag box are few enough to build a station on.
pub(crate) proof fn lemma_drag_bound(s: ToolStateMachine, tiles: Seq<TileIndex>)
    requires
        drag_listing(s, tiles),
    ensures
        tiles.len() <= MAX_STATION_TILES,
{
    match drag_corners(s) {
        Some((a, b)) => {
            let min_x = if a.x <= b.x { a.x as int } else { b.x as int };
            let max_x = if a.x <= b.x { b.x as int } else { a.x as int };
            let min_y = if a.y <= b.y { a.y as int } else { b.y as int };
            let max_y = if a.y <= b.y { b.y as int } else { a.y as int };
            let w = max_x - min_x + 1;
            let h = max_y - min_y + 1;
            assert(w * h <= 65536 * 65536) by (nonlinear_arith)
                requires
                    1 <= w <= 65536,
                    1 <= h <= 65536;
        },
        None => {},
    }
}

} // verus!
