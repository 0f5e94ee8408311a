//! Tile map storage: dimensions, tile records and bounds-checked access.
use vstd::prelude::*;
use crate::text::{decimal, push_decimal, push_text};
use crate::types::enums::TileKind;
use crate::types::id::{CompanyID, StationID, TileIndex};

verus! {

/// Errors that can occur during TileMap construction and validation.
#[derive(Debug, Copy, Clone, PartialEq, Eq, Structural)]
pub enum MapError {
    /// Width and height must be non-zero.
    ZeroDimension { width: u16, height: u16 },
    /// The map would hold more tiles than allowed.
    AllocationTooLarge(u32),
    /// Tile index out of bounds.
    OutOfBounds { x: u16, y: u16 },
    /// The tile buffer does not hold one tile per map cell.
    TileCountMismatch { expected: usize, actual: usize },
}

/// Size of the simulation map in tiles.
#[derive(Debug, Copy, Clone, PartialEq, Eq, Structural, Hash)]
pub struct MapSize {
    pub width: u16,
    pub height: u16,
}

/// Largest number of tiles a map may hold (4096 x 4096).
pub const MAX_TILES: u32 = 16777216u32;

impl MapSize {
    pub fn new(width: u16, height: u16) -> (s: MapSize)
        ensures
            s.width == width,
            s.height == height,
    {
        MapSize { width, height }
    }

    /// Number of tiles, `width * height`.
    pub open spec fn spec_area(self) -> nat {
        (self.width * self.height) as nat
    }

    /// Whether `t` lies inside the map.
    pub open spec fn contains(self, t: TileIndex) -> bool {
        t.x < self.width && t.y < self.height
    }

    /// Row-major position of `t` in the tile buffer.
    pub open spec fn linear(self, t: TileIndex) -> int {
        t.y * self.width + t.x
    }

    pub fn area(&self) -> (a: u32)
        ensures
            a == self.spec_area(),
    {
        assert(self.width * self.height <= 65535 * 65535) by (nonlinear_arith)
            requires
                self.width <= 65535,
                self.height <= 65535,
        ;
        (self.width as u32) * (self.height as u32)
    }

    pub fn is_valid_index(&self, index: TileIndex) -> (r: bool)
        ensures
            r == self.contains(index),
    {
        index.x < self.width && index.y < self.height
    }
}

/// A tile inside the map sits at a position inside the tile buffer, and distinct
/// tiles sit at distinct positions.
pub proof fn lemma_linear_in_range(size: MapSize, t: TileIndex)
    requires
        size.contains(t),
    ensures
        0 <= size.linear(t) < size.spec_area(),
{
    assert(t.y * size.width + t.x < size.width * size.height) by (nonlinear_arith)
        requires
            t.x < size.width,
            t.y < size.height,
    ;
}

/// Distinct in-map tiles occupy distinct buffer positions.
pub proof fn lemma_linear_injective(size: MapSize, a: TileIndex, b: TileIndex)
    requires
        size.contains(a),
        size.contains(b),
        size.linear(a) == size.linear(b),
    ensures
        a == b,
{
    assert(a.y == b.y && a.x == b.x) by (nonlinear_arith)
        requires
            a.x < size.width,
            b.x < size.width,
            a.y * size.width + a.x == b.y * size.width + b.x,
    ;
}

/// Base tile record.
#[derive(Debug, Copy, Clone, PartialEq, Eq, Structural, Hash)]
pub struct TileBase {
    /// Kind of terrain/infrastructure
    pub kind: TileKind,
    /// Owner company (for infrastructure)
    pub owner: Option<CompanyID>,
    /// Height above sea level
    pub height: i16,
    /// Local water height (for rivers, docks, etc.)
    pub water_height: i16,
}

/// Tile extension record.
#[derive(Debug, Copy, Clone, PartialEq, Eq, Structural, Hash)]
pub struct TileExtension {
    /// Additional data based on tile kind (the station ID on station tiles)
    pub data: u32,
}

/// Complete tile record: base plus extension.
#[derive(Debug, Copy, Clone, PartialEq, Eq, Structural, Hash)]
pub struct Tile {
    pub base: TileBase,
    pub extension: TileExtension,
}

/// The empty tile: clear, unowned, at height zero, with no extension data.
pub open spec fn empty_tile() -> Tile {
    Tile {
        base: TileBase { kind: TileKind::Clear, owner: None, height: 0, water_height: 0 },
        extension: TileExtension { data: 0 },
    }
}

/// A tile turned into a station tile: kind `Station`, the given owner, the station ID as
/// extension data; heights are kept.
pub open spec fn station_tile(t: Tile, station_id: StationID, owner: Option<CompanyID>) -> Tile {
    Tile {
        base: TileBase {
            kind: TileKind::Station,
            owner: owner,
            height: t.base.height,
            water_height: t.base.water_height,
        },
        extension: TileExtension { data: station_id.0 },
    }
}

/// A station tile with its station removed: water if it has water height, clear
/// otherwise; unowned, no extension data, heights kept.
pub open spec fn cleared_station_tile(t: Tile) -> Tile {
    Tile {
        base: TileBase {
            kind: if t.base.water_height > 0 { TileKind::Water } else { TileKind::Clear },
            owner: None,
            height: t.base.height,
            water_height: t.base.water_height,
        },
        extension: TileExtension { data: 0 },
    }
}

impl Tile {
    pub fn new_empty() -> (t: Tile)
        ensures
            t == empty_tile(),
    {
        Tile {
            base: TileBase { kind: TileKind::Clear, owner: None, height: 0, water_height: 0 },
            extension: TileExtension { data: 0 },
        }
    }

    pub fn is_water(&self) -> (r: bool)
        ensures
            r == (self.base.kind == TileKind::Water),
    {
        match self.base.kind {
            TileKind::Water => true,
            _ => false,
        }
    }

    pub fn is_land(&self) -> (r: bool)
        ensures
            r == (self.base.kind != TileKind::Water),
    {
        !self.is_water()
    }

    /// Whether a structure may be placed here: clear, grass or water terrain.
    pub open spec fn buildable(self) -> bool {
        self.base.kind == TileKind::Clear || self.base.kind == TileKind::Grass
            || self.base.kind == TileKind::Water
    }

    pub fn is_buildable(&self) -> (r: bool)
        ensures
            r == self.buildable(),
    {
        match self.base.kind {
            TileKind::Clear | TileKind::Grass | TileKind::Water => true,
            _ => false,
        }
    }
}

/// 2D map storage, row-major (`Map` in the simulation's vocabulary).
#[derive(Debug, Clone, PartialEq, Eq, Hash)]
pub struct TileMap {
    size: MapSize,
    tiles: Vec<Tile>,
}

impl TileMap {
    /// The map's dimensions.
    pub closed spec fn dims(&self) -> MapSize {
        self.size
    }

    /// The tile buffer, row-major.
    pub closed spec fn cells(&self) -> Seq<Tile> {
        self.tiles@
    }

    /// A well-formed map has non-zero dimensions within the tile limit and one tile per cell.
    pub open spec fn wf(&self) -> bool {
        &&& self.dims().width > 0
        &&& self.dims().height > 0
        &&& self.dims().spec_area() <= MAX_TILES
        &&& self.cells().len() == self.dims().spec_area()
    }

    /// The tile stored at `t` (meaningful for tiles inside the map).
    pub open spec fn tile_at(&self, t: TileIndex) -> Tile {
        self.cells()[self.dims().linear(t)]
    }

    /// Whether the map's every cell holds `tile`.
    pub open spec fn all_cells(&self, tile: Tile) -> bool {
        forall|i: int| 0 <= i < self.cells().len() ==> self.cells()[i] == tile
    }

    /// Whether the dimensions can hold a map.
    pub open spec fn size_ok(size: MapSize) -> bool {
        size.width > 0 && size.height > 0 && size.spec_area() <= MAX_TILES
    }

    fn filled(size: MapSize, count: usize) -> (m: TileMap)
        requires
            count == size.spec_area(),
        ensures
            m.dims() == size,
            m.cells().len() == count,
            m.all_cells(empty_tile()),
    {
        let mut tiles: Vec<Tile> = Vec::new();
        let mut i: usize = 0;
        while i < count
            invariant
                i <= count,
                tiles@.len() == i,
                forall|j: int| 0 <= j < i ==> tiles@[j] == empty_tile(),
            decreases count - i,
        {
            tiles.push(Tile::new_empty());
            i = i + 1;
        }
        TileMap { size, tiles }
    }

    /// Construct a map of empty tiles, rejecting zero dimensions and oversized maps.
    pub fn try_new(size: MapSize) -> (r: Result<TileMap, MapError>)
        ensures
            (size.width == 0 || size.height == 0) ==> r == Err::<TileMap, MapError>(
                (MapError::ZeroDimension { width: size.width, height: size.height }),
            ),
            (size.width > 0 && size.height > 0 && size.spec_area() > MAX_TILES) ==> r == Err::<
                TileMap,
                MapError,
            >(MapError::AllocationTooLarge(size.spec_area() as u32)),
            TileMap::size_ok(size) ==> (r matches Ok(m) && m.wf() && m.dims() == size && m.all_cells(
                empty_tile(),
            )),
    {
        if size.width == 0 || size.height == 0 {
            return Err(MapError::ZeroDimension { width: size.width, height: size.height });
        }
        let area = size.area();
        if area > MAX_TILES {
            return Err(MapError::AllocationTooLarge(area));
        }
        Ok(TileMap::filled(size, area as usize))
    }

    /// Construct a map, falling back to a 1x1 map on invalid dimensions.
    pub fn new(size: MapSize) -> (m: TileMap)
        ensures
            m.wf(),
            m.all_cells(empty_tile()),
            TileMap::size_ok(size) ==> m.dims() == size,
            !TileMap::size_ok(size) ==> m.dims() == (MapSize { width: 1, height: 1 }),
    {
        match TileMap::try_new(size) {
            Ok(m) => m,
            Err(_) => TileMap::filled(MapSize { width: 1, height: 1 }, 1),
        }
    }

    pub fn size(&self) -> (s: MapSize)
        ensures
            s == self.dims(),
    {
        self.size
    }

    /// The display form of the map: `Map WxH`.
    pub fn display(&self) -> (s: String)
        ensures
            s@ == "Map "@ + decimal(self.dims().width as nat) + "x"@ + decimal(self.dims().height as nat),
    {
        let mut s = String::new();
        push_text(&mut s, "Map ");
        push_decimal(&mut s, self.size.width as u64);
        push_text(&mut s, "x");
        push_decimal(&mut s, self.size.height as u64);
        proof {
            assert(s@ =~= "Map "@ + decimal(self.dims().width as nat) + "x"@ + decimal(self.dims().height as nat));
        }
        s
    }

    /// Check dimensions, the tile limit and the tile count, in that order.
    pub fn validate(&self) -> (r: Result<(), MapError>)
        ensures
            r is Ok <==> self.wf(),
            (self.dims().width == 0 || self.dims().height == 0) ==> r == Err::<(), MapError>(
                (MapError::ZeroDimension { width: self.dims().width, height: self.dims().height }),
            ),
            (self.dims().width > 0 && self.dims().height > 0 && self.dims().spec_area() > MAX_TILES)
                ==> r == Err::<(), MapError>(
                MapError::AllocationTooLarge(self.dims().spec_area() as u32),
            ),
            TileMap::size_ok(self.dims()) && self.cells().len() != self.dims().spec_area() ==> r == Err::<
                (),
                MapError,
            >(
                (MapError::TileCountMismatch {
                    expected: self.dims().spec_area() as usize,
                    actual: self.cells().len() as usize,
                }),
            ),
    {
        if self.size.width == 0 || self.size.height == 0 {
            return Err(MapError::ZeroDimension { width: self.size.width, height: self.size.height });
        }
        let area = self.size.area();
        if area > MAX_TILES {
            return Err(MapError::AllocationTooLarge(area));
        }
        if self.tiles.len() != area as usize {
            return Err(
                MapError::TileCountMismatch { expected: area as usize, actual: self.tiles.len() },
            );
        }
        Ok(())
    }

    /// Linear buffer position of an in-bounds tile.
    fn index(&self, tile: TileIndex) -> (r: Option<usize>)
        requires
            self.wf(),
        ensures
            self.dims().contains(tile) ==> r == Some(self.dims().linear(tile) as usize),
            !self.dims().contains(tile) ==> r is None,
            r matches Some(i) ==> i < self.cells().len() && i as int == self.dims().linear(tile),
    {
        if !self.size.is_valid_index(tile) {
            return None;
        }
        proof {
            lemma_linear_in_range(self.size, tile);
        }
        Some((tile.y as usize) * (self.size.width as usize) + (tile.x as usize))
    }

    /// The tile at `tile`, or `None` outside the map.
    pub fn get(&self, tile: TileIndex) -> (r: Option<&Tile>)
        requires
            self.wf(),
        ensures
            self.dims().contains(tile) ==> r == Some(&self.tile_at(tile)),
            !self.dims().contains(tile) ==> r is None,
    {
        match self.index(tile) {
            Some(i) => Some(&self.tiles[i]),
            None => None,
        }
    }

    /// Mutable access to the tile at `tile`, or `None` outside the map.
    pub fn get_mut(&mut self, tile: TileIndex) -> (r: Option<&mut Tile>)
        requires
            old(self).wf(),
        ensures
            final(self).dims() == old(self).dims(),
            final(self).wf(),
            old(self).dims().contains(tile) ==> (r matches Some(t) && *t == old(self).tile_at(tile)
                && final(self).cells() == old(self).cells().update(
                old(self).dims().linear(tile),
                *final(t),
            )),
            !old(self).dims().contains(tile) ==> r is None && final(self).cells() == old(self).cells(),
    {
        match self.index(tile) {
            Some(i) => Some(&mut self.tiles[i]),
            None => None,
        }
    }

    /// Replace the tile at `tile`; fails outside the map and leaves the map unchanged.
    pub fn set(&mut self, tile: TileIndex, value: Tile) -> (r: Result<(), &'static str>)
        requires
            old(self).wf(),
        ensures
            final(self).dims() == old(self).dims(),
            final(self).wf(),
            r is Ok <==> old(self).dims().contains(tile),
            r is Ok ==> final(self).cells() == old(self).cells().update(
                old(self).dims().linear(tile),
                value,
            ),
            r is Err ==> final(self).cells() == old(self).cells(),
            r matches Err(e) ==> e@ == "Tile index out of bounds"@,
    {
        match self.index(tile) {
            Some(idx) => {
                self.tiles.set(idx, value);
                Ok(())
            },
            None => Err("Tile index out of bounds"),
        }
    }

    /// The tile-to-coordinate pairs of the whole map, in row-major order.
    pub fn iter_enumerated(&self) -> (r: Vec<(TileIndex, Tile)>)
        requires
            self.wf(),
        ensures
            r@.len() == self.cells().len(),
            forall|i: int|
                0 <= i < r@.len() ==> {
                    &&& #[trigger] r@[i].1 == self.cells()[i]
                    &&& r@[i].0.x == i % (self.dims().width as int)
                    &&& r@[i].0.y == i / (self.dims().width as int)
                },
    {
        let mut out: Vec<(TileIndex, Tile)> = Vec::new();
        let w = self.size.width as usize;
        let n = self.tiles.len();
        let mut i: usize = 0;
        while i < n
            invariant
                self.wf(),
                w == self.dims().width,
                n == self.cells().len(),
                i <= n,
                out@.len() == i,
                forall|k: int|
                    0 <= k < i ==> {
                        &&& #[trigger] out@[k].1 == self.cells()[k]
                        &&& out@[k].0.x == k % (w as int)
                        &&& out@[k].0.y == k / (w as int)
                    },
            decreases n - i,
        {
            let x = i % w;
            let y = i / w;
            assert(x < w);
            assert(y <= i);
            assert(y < 65536) by {
                assert(i < self.dims().spec_area());
                assert((i as int) / (w as int) < self.dims().height) by (nonlinear_arith)
                    requires
                        0 <= i < w * self.dims().height,
                        w > 0,
                ;
            }
            out.push((TileIndex { x: x as u16, y: y as u16 }, self.tiles[i]));
            i = i + 1;
        }
        out
    }

    /// The station recorded on the tile, if the tile is a station tile inside the map.
    pub fn station_at(&self, tile: TileIndex) -> (r: Option<StationID>)
        requires
            self.wf(),
        ensures
            r == (if self.dims().contains(tile) && self.tile_at(tile).base.kind == TileKind::Station {
                Some(StationID(self.tile_at(tile).extension.data))
            } else {
                None
            }),
    {
        match self.get(tile) {
            Some(t) => match t.base.kind {
                TileKind::Station => Some(StationID(t.extension.data)),
                _ => None,
            },
            None => None,
        }
    }

    /// Turn the tile into a station tile owned by `owner`; fails outside the map.
    pub fn set_station_at(
        &mut self,
        tile: TileIndex,
        station_id: StationID,
        owner: Option<CompanyID>,
    ) -> (r: Result<(), &'static str>)
        requires
            old(self).wf(),
        ensures
            final(self).dims() == old(self).dims(),
            final(self).wf(),
            r is Ok <==> old(self).dims().contains(tile),
            r is Ok ==> final(self).cells() == old(self).cells().update(
                old(self).dims().linear(tile),
                station_tile(old(self).tile_at(tile), station_id, owner),
            ),
            r is Err ==> final(self).cells() == old(self).cells(),
            r matches Err(e) ==> e@ == "Tile index out of bounds"@,
    {
        match self.index(tile) {
            Some(idx) => {
                let mut t = self.tiles[idx];
                t.base.kind = TileKind::Station;
                t.base.owner = owner;
                t.extension.data = station_id.0;
                self.tiles.set(idx, t);
                Ok(())
            },
            None => Err("Tile index out of bounds"),
        }
    }

    /// Remove a station from the tile: it becomes water if it has water height, clear
    /// otherwise, unowned and without extension data. Non-station tiles are untouched.
    pub fn clear_station_at(&mut self, tile: TileIndex) -> (r: Result<(), &'static str>)
        requires
            old(self).wf(),
        ensures
            final(self).dims() == old(self).dims(),
            final(self).wf(),
            r is Ok <==> old(self).dims().contains(tile),
            r matches Err(e) ==> e@ == "Tile index out of bounds"@,
            (r is Ok && old(self).tile_at(tile).base.kind == TileKind::Station) ==> final(self).cells() == old(self).cells().update(
                old(self).dims().linear(tile),
                cleared_station_tile(old(self).tile_at(tile)),
            ),
            (r is Err || old(self).tile_at(tile).base.kind != TileKind::Station) ==> final(self).cells() == old(self).cells(),
    {
        match self.index(tile) {
            Some(idx) => {
                let mut t = self.tiles[idx];
                match t.base.kind {
                    TileKind::Station => {
                        t.base.kind = if t.base.water_height > 0 {
                            TileKind::Water
                        } else {
                            TileKind::Clear
                        };
                        t.base.owner = None;
                        t.extension.data = 0;
                        self.tiles.set(idx, t);
                    },
                    _ => {},
                }
                Ok(())
            },
            None => Err("Tile index out of bounds"),
        }
    }

    /// Whether the tile is inside the map and water.
    pub fn is_water_at(&self, tile: TileIndex) -> (r: bool)
        requires
            self.wf(),
        ensures
            r == (self.dims().contains(tile) && self.tile_at(tile).base.kind == TileKind::Water),
    {
        match self.get(tile) {
            Some(t) => t.is_water(),
            None => false,
        }
    }

    /// Whether ships may use the tile: water, or a station with water height (a dock).
    pub fn is_navigable_water(&self, tile: TileIndex) -> (r: bool)
        requires
            self.wf(),
        ensures
            r == (self.dims().contains(tile) && (self.tile_at(tile).base.kind == TileKind::Water || (
            self.tile_at(tile).base.kind == TileKind::Station && self.tile_at(tile).base.water_height
                > 0))),
    {
        match self.get(tile) {
            Some(t) => t.is_water() || (match t.base.kind {
                TileKind::Station => true,
                _ => false,
            } && t.base.water_height > 0),
            None => false,
        }
    }

    /// The four orthogonal neighbours (north, east, south, west) that lie inside the map;
    /// all `None` for a tile outside the map.
    pub fn adjacent_tiles(&self, tile: TileIndex) -> (r: [Option<TileIndex>; 4])
        ensures
            !self.dims().contains(tile) ==> (r@ == seq![None::<TileIndex>, None, None, None]),
            self.dims().contains(tile) ==> {
                &&& r@.len() == 4
                &&& r@[0] == (if tile.y > 0 {
                    Some(TileIndex { x: tile.x, y: (tile.y - 1) as u16 })
                } else {
                    None
                })
                &&& r@[1] == (if tile.x + 1 < self.dims().width {
                    Some(TileIndex { x: (tile.x + 1) as u16, y: tile.y })
                } else {
                    None
                })
                &&& r@[2] == (if tile.y + 1 < self.dims().height {
                    Some(TileIndex { x: tile.x, y: (tile.y + 1) as u16 })
                } else {
                    None
                })
                &&& r@[3] == (if tile.x > 0 {
                    Some(TileIndex { x: (tile.x - 1) as u16, y: tile.y })
                } else {
                    None
                })
            },
    {
        if !self.size.is_valid_index(tile) {
            return [None, None, None, None];
        }
        let north = if tile.y > 0 {
            Some(TileIndex { x: tile.x, y: tile.y - 1 })
        } else {
            None
        };
        let east = if (tile.x as u32) + 1 < self.size.width as u32 {
            Some(TileIndex { x: tile.x + 1, y: tile.y })
        } else {
            None
        };
        let south = if (tile.y as u32) + 1 < self.size.height as u32 {
            Some(TileIndex { x: tile.x, y: tile.y + 1 })
        } else {
            None
        };
        let west = if tile.x > 0 {
            Some(TileIndex { x: tile.x - 1, y: tile.y })
        } else {
            None
        };
        [north, east, south, west]
    }
}

} // verus!
