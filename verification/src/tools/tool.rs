//! The interaction tool state machine: active mode, hover, drag box and selection.
use vstd::prelude::*;
use crate::types::id::{EngineID, StationID, TileIndex, TownID, VehicleID};

verus! {

/// Active user interaction tool mode.
#[derive(Debug, PartialEq, Eq, Hash)]
pub enum ToolMode {
    /// Inspect world entities
    Inspect,
    /// Construct a new dock or station
    BuildStation { name: String, width: u16, height: u16 },
    /// Purchase and deploy a new vehicle at a selected tile
    BuildVehicle { engine_id: EngineID },
    /// Demolish infrastructure or clear terrain
    Demolish,
    /// Interactive order scheduler: click stations to append orders
    OrderRoute { vehicle_id: VehicleID },
}

impl Clone for ToolMode {
    fn clone(&self) -> (m: ToolMode)
        ensures
            m == *self,
    {
        match self {
            ToolMode::Inspect => ToolMode::Inspect,
            ToolMode::BuildStation { name, width, height } => ToolMode::BuildStation {
                name: name.clone(),
                width: *width,
                height: *height,
            },
            ToolMode::BuildVehicle { engine_id } => ToolMode::BuildVehicle { engine_id: *engine_id },
            ToolMode::Demolish => ToolMode::Demolish,
            ToolMode::OrderRoute { vehicle_id } => ToolMode::OrderRoute { vehicle_id: *vehicle_id },
        }
    }
}

impl Default for ToolMode {
    fn default() -> (m: ToolMode)
        ensures
            m is Inspect,
    {
        ToolMode::Inspect
    }
}

/// Currently inspected or selected world entity.
#[derive(Debug, Copy, Clone, PartialEq, Eq, Structural, Hash)]
pub enum ToolSelection {
    Tile(TileIndex),
    Vehicle(VehicleID),
    Station(StationID),
    Town(TownID),
}

/// Interactive tool state machine managing hover, multi-tile drag boxes and modes.
#[derive(Debug, Clone, PartialEq)]
pub struct ToolStateMachine {
    pub mode: ToolMode,
    pub hovered_tile: Option<TileIndex>,
    pub drag_start: Option<TileIndex>,
    pub drag_current: Option<TileIndex>,
    pub selection: Option<ToolSelection>,
}

impl Default for ToolStateMachine {
    fn default() -> (s: ToolStateMachine)
        ensures
            s.mode is Inspect,
            s.hovered_tile is None,
            s.drag_start is None,
            s.drag_current is None,
            s.selection is None,
    {
        ToolStateMachine {
            mode: ToolMode::Inspect,
            hovered_tile: None,
            drag_start: None,
            drag_current: None,
            selection: None,
        }
    }
}

/// The tile at position `i` of the row-major listing of the box with corner
/// (`min_x`, `min_y`) and width `w`.
pub open spec fn box_tile(min_x: int, min_y: int, w: int, i: int) -> TileIndex {
    TileIndex { x: (min_x + i % w) as u16, y: (min_y + i / w) as u16 }
}

/// The corners of the drag box, if a drag is active: the start tile and the current
/// tile (the start tile again without one).
pub open spec fn drag_corners(s: ToolStateMachine) -> Option<(TileIndex, TileIndex)> {
    match (s.drag_start, s.drag_current) {
        (Some(a), Some(c)) => Some((a, c)),
        (Some(a), None) => Some((a, a)),
        _ => None,
    }
}

/// `tiles` are the tiles the tool state covers: the drag box row by row during a drag,
/// otherwise the hovered tile if any.
pub open spec fn drag_listing(s: ToolStateMachine, tiles: Seq<TileIndex>) -> bool {
    match drag_corners(s) {
        Some((a, c)) => box_listing(a, c, tiles),
        None => match s.hovered_tile {
            Some(h) => tiles == seq![h],
            None => tiles.len() == 0,
        },
    }
}

/// `tiles` lists, row by row, every tile of the box spanned by `a` and `c`.
pub open spec fn box_listing(a: TileIndex, c: TileIndex, tiles: Seq<TileIndex>) -> bool {
    let min_x = if a.x <= c.x { a.x as int } else { c.x as int };
    let max_x = if a.x <= c.x { c.x as int } else { a.x as int };
    let min_y = if a.y <= c.y { a.y as int } else { c.y as int };
    let max_y = if a.y <= c.y { c.y as int } else { a.y as int };
    let w = max_x - min_x + 1;
    let h = max_y - min_y + 1;
    &&& tiles.len() == w * h
    &&& forall|i: int| 0 <= i < tiles.len() ==> #[trigger] tiles[i] == box_tile(min_x, min_y, w, i)
}

impl ToolStateMachine {
    pub fn new() -> (s: ToolStateMachine)
        ensures
            s.mode is Inspect,
            s.hovered_tile is None,
            s.drag_start is None,
            s.drag_current is None,
            s.selection is None,
    {
        ToolStateMachine::default()
    }

    /// Change the active mode and cancel any drag.
    pub fn set_mode(&mut self, mode: ToolMode)
        ensures
            *final(self) == (ToolStateMachine { mode, drag_start: None, drag_current: None, ..*old(self) }),
    {
        self.mode = mode;
        self.cancel_drag();
    }

    /// Update the hovered tile; during a drag it also becomes the drag's current tile.
    pub fn on_hover(&mut self, tile: Option<TileIndex>)
        ensures
            final(self).hovered_tile == tile,
            final(self).drag_current == (if old(self).drag_start is Some { tile } else { old(self).drag_current }),
            final(self).mode == old(self).mode,
            final(self).drag_start == old(self).drag_start,
            final(self).selection == old(self).selection,
    {
        self.hovered_tile = tile;
        if self.drag_start.is_some() {
            self.drag_current = tile;
        }
    }

    /// Begin a drag at `tile`.
    pub fn start_drag(&mut self, tile: TileIndex)
        ensures
            *final(self) == (ToolStateMachine { drag_start: Some(tile), drag_current: Some(tile), ..*old(self) }),
    {
        self.drag_start = Some(tile);
        self.drag_current = Some(tile);
    }

    /// Complete a drag: return its corners (the start tile twice without a current
    /// tile), or `None` without a drag; the drag is cleared either way.
    pub fn end_drag(&mut self) -> (r: Option<(TileIndex, TileIndex)>)
        ensures
            r == (match old(self).drag_start {
                Some(a) => Some((a, match old(self).drag_current { Some(c) => c, None => a })),
                None => None::<(TileIndex, TileIndex)>,
            }),
            final(self).drag_start is None,
            final(self).drag_current == (if old(self).drag_start is Some { None } else { old(self).drag_current }),
            final(self).mode == old(self).mode,
            final(self).hovered_tile == old(self).hovered_tile,
            final(self).selection == old(self).selection,
    {
        let start = match self.drag_start.take() {
            Some(s) => s,
            None => {
                return None;
            },
        };
        let current = match self.drag_current.take() {
            Some(c) => c,
            None => start,
        };
        Some((start, current))
    }

    /// Cancel the active drag.
    pub fn cancel_drag(&mut self)
        ensures
            *final(self) == (ToolStateMachine { drag_start: None, drag_current: None, ..*old(self) }),
    {
        self.drag_start = None;
        self.drag_current = None;
    }

    /// The tiles of the drag box, row by row; without a drag, the hovered tile if any.
    pub fn dragged_tiles(&self) -> (tiles: Vec<TileIndex>)
        ensures
            match drag_corners(*self) {
                Some((a, c)) => box_listing(a, c, tiles@),
                None => match self.hovered_tile {
                    Some(h) => tiles@ == seq![h],
                    None => tiles@.len() == 0,
                },
            },
    {
        let (start, current) = match (self.drag_start, self.drag_current) {
            (Some(s), Some(c)) => (s, c),
            (Some(s), None) => (s, s),
            _ => {
                match self.hovered_tile {
                    Some(h) => {
                        return vec![h];
                    },
                    None => {
                        return Vec::new();
                    },
                }
            },
        };
        let min_x = if start.x <= current.x { start.x } else { current.x };
        let max_x = if start.x <= current.x { current.x } else { start.x };
        let min_y = if start.y <= current.y { start.y } else { current.y };
        let max_y = if start.y <= current.y { current.y } else { start.y };
        let ghost w: int = max_x - min_x + 1;
        let mut tiles: Vec<TileIndex> = Vec::new();
        let mut y: u32 = min_y as u32;
        proof {
            assert((y - min_y) * w == 0) by (nonlinear_arith)
                requires
                    y == min_y;
        }
        while y <= max_y as u32
            invariant
                min_y <= y <= max_y as u32 + 1,
                w == max_x - min_x + 1,
                w >= 1,
                tiles@.len() == (y - min_y) * w,
                forall|i: int| 0 <= i < tiles@.len() ==> #[trigger] tiles@[i] == box_tile(min_x as int, min_y as int, w, i),
            decreases max_y as u32 + 1 - y,
        {
            let mut x: u32 = min_x as u32;
            while x <= max_x as u32
                invariant
                    min_y <= y <= max_y,
                    min_x <= x <= max_x as u32 + 1,
                    w == max_x - min_x + 1,
                    w >= 1,
                    tiles@.len() == (y - min_y) * w + (x - min_x),
                    forall|i: int| 0 <= i < tiles@.len() ==> #[trigger] tiles@[i] == box_tile(min_x as int, min_y as int, w, i),
                decreases max_x as u32 + 1 - x,
            {
                let ghost j: int = tiles@.len() as int;
                proof {
                    let row: int = y - min_y;
                    let col: int = x - min_x;
                    assert(j == row * w + col);
                    assert(0 <= col < w);
                    vstd::arithmetic::div_mod::lemma_fundamental_div_mod_converse(j, w, row, col);
                }
                tiles.push(TileIndex::new(x as u16, y as u16));
                x = x + 1;
            }
            proof {
                assert((y - min_y) * w + w == (y + 1 - min_y) * w) by (nonlinear_arith);
            }
            y = y + 1;
        }
        proof {
            let h: int = max_y - min_y + 1;
            assert(tiles@.len() == w * h) by (nonlinear_arith)
                requires
                    tiles@.len() == (y - min_y) * w,
                    y == max_y + 1,
                    h == max_y - min_y + 1;
        }
        tiles
    }
}

} // verus!
