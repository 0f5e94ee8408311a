//! Ghost previews of the active tool: which tiles to mark, with which marker, and the
//! dry-run verdict behind them. Turning marks into screen sprites is the renderer's job.
use vstd::prelude::*;
use crate::types::id::{CompanyID, TileIndex};
use crate::world::map::TileMap;
use crate::sim::world::{World, tiles_contain};
use crate::tools::tool::{ToolMode, ToolStateMachine, drag_listing};
use crate::tools::validator::{
    DryRunValidator, PlacementValidity, in_catchment, station_placement, vehicle_placement,
};
use crate::tools::input::lemma_drag_bound;

verus! {

/// What an overlay marker shows.
#[derive(Debug, Copy, Clone, PartialEq, Eq, Structural, Hash)]
pub enum OverlayMarker {
    /// Highlight box under the inspect cursor
    Highlight,
    /// Ghost station tile
    GhostStation,
    /// Tile of the catchment area of a valid ghost station
    Catchment,
    /// Ghost vehicle
    GhostVehicle,
}

/// One overlay marker: its tile, the tile's elevation (0 outside the map), what it
/// shows, and whether the placement it previews is valid (ghosts are tinted green when
/// it is and red otherwise; highlights and catchment tiles are always valid).
#[derive(Debug, Copy, Clone, PartialEq, Eq, Structural, Hash)]
pub struct OverlayMark {
    pub tile: TileIndex,
    pub elevation: i16,
    pub marker: OverlayMarker,
    pub valid: bool,
}

/// The elevation of `t`: its height inside the map, 0 outside.
pub open spec fn elevation_at(map: TileMap, t: TileIndex) -> i16 {
    if map.dims().contains(t) {
        map.tile_at(t).base.height
    } else {
        0
    }
}

/// The mark of kind `marker` on `t`.
pub open spec fn mark_of(map: TileMap, t: TileIndex, marker: OverlayMarker, valid: bool) -> OverlayMark {
    OverlayMark { tile: t, elevation: elevation_at(map, t), marker, valid }
}

/// The tiles of a list of marks.
pub open spec fn mark_tiles(marks: Seq<OverlayMark>) -> Seq<TileIndex> {
    marks.map_values(|m: OverlayMark| m.tile)
}

/// `marks` are the ghost station marks of `cands`, in order.
pub open spec fn ghost_marks(map: TileMap, cands: Seq<TileIndex>, valid: bool, marks: Seq<OverlayMark>) -> bool {
    &&& marks.len() == cands.len()
    &&& forall|i: int| 0 <= i < cands.len() ==> #[trigger] marks[i] == mark_of(
        map,
        cands[i],
        OverlayMarker::GhostStation,
        valid,
    )
}

/// `marks` cover the catchment of a station on `cands` outside `cands`: one catchment
/// mark per such tile.
pub open spec fn catchment_marks(map: TileMap, cands: Seq<TileIndex>, marks: Seq<OverlayMark>) -> bool {
    &&& mark_tiles(marks).no_duplicates()
    &&& forall|i: int| 0 <= i < marks.len() ==> #[trigger] marks[i] == mark_of(
        map,
        marks[i].tile,
        OverlayMarker::Catchment,
        true,
    )
    &&& forall|t: TileIndex| #[trigger] mark_tiles(marks).contains(t) <==> (in_catchment(map.dims(), cands, t) && !cands.contains(t))
}

/// The overlay of the active tool for `company_id`.
///
/// Inspecting highlights the hovered tile. Building a station previews the tiles the
/// tool covers (see `drag_listing`): nothing without any; else their dry-run verdict,
/// a ghost on each tile, and, if the placement is valid, its catchment around them.
/// Building a vehicle previews a ghost ship on the hovered tile with its dry-run
/// verdict. Other modes show nothing.
pub open spec fn overlay(w: World, tools: ToolStateMachine, company_id: CompanyID, marks: Seq<OverlayMark>, validity: Option<PlacementValidity>) -> bool {
    match tools.mode {
        ToolMode::Inspect => validity is None && marks == match tools.hovered_tile {
            Some(t) => seq![mark_of(w.map, t, OverlayMarker::Highlight, true)],
            None => Seq::<OverlayMark>::empty(),
        },
        ToolMode::BuildStation { .. } => exists|cands: Seq<TileIndex>| #![trigger drag_listing(tools, cands)]
            drag_listing(tools, cands) && if cands.len() == 0 {
                validity is None && marks.len() == 0
            } else {
                let v = station_placement(w, company_id, cands);
                &&& validity == Some(v)
                &&& marks.len() >= cands.len()
                &&& ghost_marks(w.map, cands, v is Valid, marks.subrange(0, cands.len() as int))
                &&& if v is Valid {
                    catchment_marks(w.map, cands, marks.subrange(cands.len() as int, marks.len() as int))
                } else {
                    marks.len() == cands.len()
                }
            },
        ToolMode::BuildVehicle { engine_id } => match tools.hovered_tile {
            Some(t) => {
                let v = vehicle_placement(w, company_id, engine_id, t);
                validity == Some(v) && marks == seq![mark_of(w.map, t, OverlayMarker::GhostVehicle, v is Valid)]
            },
            None => validity is None && marks.len() == 0,
        },
        _ => validity is None && marks.len() == 0,
    }
}

/// Generates ghost previews and catchment overlays for the active tool.
pub struct GhostOverlay;

impl GhostOverlay {
    /// The elevation of `t` on the map, 0 outside it.
    fn elevation(map: &TileMap, t: TileIndex) -> (e: i16)
        requires
            map.wf(),
        ensures
            e == elevation_at(*map, t),
    {
        match map.get(t) {
            Some(tile) => tile.base.height,
            None => 0,
        }
    }

    /// The overlay marks of the active tool and the dry-run verdict they preview.
    pub fn overlay_marks(world: &World, tools: &ToolStateMachine, company_id: CompanyID) -> (r: (
        Vec<OverlayMark>,
        Option<PlacementValidity>,
    ))
        requires
            world.inv(),
        ensures
            overlay(*world, *tools, company_id, r.0@, r.1),
    {
        let map = &world.map;
        match &tools.mode {
            ToolMode::Inspect => {
                let mut marks: Vec<OverlayMark> = Vec::new();
                match tools.hovered_tile {
                    Some(t) => {
                        let elevation = Self::elevation(map, t);
                        marks.push(OverlayMark { tile: t, elevation, marker: OverlayMarker::Highlight, valid: true });
                        proof {
                            assert(marks@ =~= seq![mark_of(world.map, t, OverlayMarker::Highlight, true)]);
                        }
                    },
                    None => {
                        proof {
                            assert(marks@ =~= Seq::<OverlayMark>::empty());
                        }
                    },
                }
                (marks, None)
            },
            ToolMode::BuildStation { .. } => {
                let cands = tools.dragged_tiles();
                proof {
                    assert(drag_listing(*tools, cands@));
                }
                if cands.len() == 0 {
                    return (Vec::new(), None);
                }
                proof {
                    lemma_drag_bound(*tools, cands@);
                }
                let validity = DryRunValidator::validate_station_placement(world, company_id, cands.as_slice());
                let valid = validity.is_valid();
                let mut marks: Vec<OverlayMark> = Vec::new();
                let n = cands.len();
                let mut i: usize = 0;
                while i < n
                    invariant
                        i <= n,
                        n == cands@.len(),
                        map.wf(),
                        map == &world.map,
                        marks@.len() == i,
                        forall|j: int| 0 <= j < i ==> #[trigger] marks@[j] == mark_of(
                            world.map,
                            cands@[j],
                            OverlayMarker::GhostStation,
                            valid,
                        ),
                    decreases n - i,
                {
                    let t = cands[i];
                    let elevation = Self::elevation(map, t);
                    marks.push(OverlayMark { tile: t, elevation, marker: OverlayMarker::GhostStation, valid });
                    i = i + 1;
                }
                proof {
                    assert(marks@.subrange(0, n as int) =~= marks@);
                }
                if valid {
                    Self::push_catchment(world, &cands, &mut marks);
                }
                (marks, Some(validity))
            },
            ToolMode::BuildVehicle { engine_id } => {
                let mut marks: Vec<OverlayMark> = Vec::new();
                match tools.hovered_tile {
                    Some(t) => {
                        let validity = DryRunValidator::validate_vehicle_placement(world, company_id, *engine_id, t);
                        let valid = validity.is_valid();
                        let elevation = Self::elevation(map, t);
                        marks.push(OverlayMark { tile: t, elevation, marker: OverlayMarker::GhostVehicle, valid });
                        proof {
                            assert(marks@ =~= seq![mark_of(world.map, t, OverlayMarker::GhostVehicle, valid)]);
                        }
                        (marks, Some(validity))
                    },
                    None => (marks, None),
                }
            },
            _ => (Vec::new(), None),
        }
    }

    /// Append a catchment mark for each tile of the catchment of `cands` that is not
    /// one of them.
    fn push_catchment(world: &World, cands: &Vec<TileIndex>, marks: &mut Vec<OverlayMark>)
        requires
            world.inv(),
        ensures
            final(marks)@.len() >= old(marks)@.len(),
            final(marks)@.subrange(0, old(marks)@.len() as int) == old(marks)@,
            catchment_marks(
                world.map,
                cands@,
                final(marks)@.subrange(old(marks)@.len() as int, final(marks)@.len() as int),
            ),
    {
        let catchment = DryRunValidator::calculate_catchment(world, cands.as_slice());
        let ct = catchment.catchment_tiles;
        let ghost m0 = marks@;
        let ghost base = m0.len() as int;
        let n = ct.len();
        let mut i: usize = 0;
        while i < n
            invariant
                i <= n,
                n == ct@.len(),
                world.map.wf(),
                ct@.no_duplicates(),
                forall|t: TileIndex| #[trigger] ct@.contains(t) <==> in_catchment(world.map.dims(), cands@, t),
                base == m0.len(),
                m0 == old(marks)@,
                marks@.len() >= base,
                marks@.subrange(0, base) == m0,
                mark_tiles(marks@.subrange(base, marks@.len() as int)).no_duplicates(),
                forall|k: int| base <= k < marks@.len() ==> #[trigger] marks@[k] == mark_of(
                    world.map,
                    marks@[k].tile,
                    OverlayMarker::Catchment,
                    true,
                ),
                forall|k: int| base <= k < marks@.len() ==> !cands@.contains(#[trigger] marks@[k].tile)
                    && ct@.subrange(0, i as int).contains(marks@[k].tile),
                forall|j: int| 0 <= j < i && !cands@.contains(#[trigger] ct@[j]) ==> mark_tiles(
                    marks@.subrange(base, marks@.len() as int),
                ).contains(ct@[j]),
            decreases n - i,
        {
            let t = ct[i];
            let ghost before = marks@;
            if !tiles_contain(cands, t) {
                let elevation = Self::elevation(&world.map, t);
                let m = OverlayMark { tile: t, elevation, marker: OverlayMarker::Catchment, valid: true };
                marks.push(m);
                proof {
                    assert(marks@ == before.push(m));
                    assert(marks@.subrange(base, marks@.len() as int) =~= before.subrange(base, before.len() as int).push(m));
                    assert(marks@.subrange(0, base) =~= before.subrange(0, base));
                    let ex0 = mark_tiles(before.subrange(base, before.len() as int));
                    let ex1 = mark_tiles(marks@.subrange(base, marks@.len() as int));
                    assert(ex1 =~= ex0.push(t));
                    assert(!ex0.contains(t)) by {
                        if ex0.contains(t) {
                            let q = choose|q: int| 0 <= q < ex0.len() && ex0[q] == t;
                            assert(before[base + q].tile == t);
                            assert(ct@.subrange(0, i as int).contains(t));
                            let p = choose|p: int| 0 <= p < i && ct@.subrange(0, i as int)[p] == t;
                            assert(ct@[p] == ct@[i as int]);
                        }
                    }
                    assert forall|k: int| base <= k < marks@.len() implies !cands@.contains(#[trigger] marks@[k].tile)
                        && ct@.subrange(0, i + 1).contains(marks@[k].tile) by {
                        if k < before.len() {
                            assert(before[k] == marks@[k]);
                            let p = choose|p: int| 0 <= p < i && ct@.subrange(0, i as int)[p] == before[k].tile;
                            assert(ct@.subrange(0, i + 1)[p] == before[k].tile);
                        } else {
                            assert(ct@.subrange(0, i + 1)[i as int] == t);
                        }
                    }
                    assert forall|j: int| 0 <= j < i + 1 && !cands@.contains(#[trigger] ct@[j]) implies ex1.contains(ct@[j]) by {
                        if j < i {
                            assert(ex0.contains(ct@[j]));
                            let q = choose|q: int| 0 <= q < ex0.len() && ex0[q] == ct@[j];
                            assert(ex1[q] == ct@[j]);
                        } else {
                            assert(ex1[ex1.len() - 1] == t);
                        }
                    }
                    assert(marks@.subrange(0, base) =~= m0);
                }
            } else {
                proof {
                    assert forall|k: int| base <= k < marks@.len() implies !cands@.contains(#[trigger] marks@[k].tile)
                        && ct@.subrange(0, i + 1).contains(marks@[k].tile) by {
                        let p = choose|p: int| 0 <= p < i && ct@.subrange(0, i as int)[p] == marks@[k].tile;
                        assert(ct@.subrange(0, i + 1)[p] == marks@[k].tile);
                    }
                }
            }
            i = i + 1;
        }
        proof {
            let ex = marks@.subrange(base, marks@.len() as int);
            assert forall|t: TileIndex| #[trigger] mark_tiles(ex).contains(t) <==> (in_catchment(world.map.dims(), cands@, t) && !cands@.contains(t)) by {
                if mark_tiles(ex).contains(t) {
                    let q = choose|q: int| 0 <= q < mark_tiles(ex).len() && mark_tiles(ex)[q] == t;
                    assert(marks@[base + q].tile == t);
                    let p = choose|p: int| 0 <= p < n && ct@.subrange(0, n as int)[p] == t;
                    assert(ct@[p] == t);
                    assert(ct@.contains(t));
                }
                if in_catchment(world.map.dims(), cands@, t) && !cands@.contains(t) {
                    assert(ct@.contains(t));
                    let p = choose|p: int| 0 <= p < ct@.len() && ct@[p] == t;
                    assert(!cands@.contains(ct@[p]));
                }
            }
            assert forall|k: int| 0 <= k < ex.len() implies #[trigger] ex[k] == mark_of(
                world.map,
                ex[k].tile,
                OverlayMarker::Catchment,
                true,
            ) by {
                assert(ex[k] == marks@[base + k]);
            }
        }
    }
}

} // verus!
