use std::mem::size_of;
use transport_core::{
    CargoAmount, MapError, MapSize, Money, Ticks, Tile, TileBase, TileExtension, TileIndex,
    TileKind, TileMap, TransportError,
};

#[test]
fn test_map_creation() {
    let map = TileMap::new(MapSize::new(10, 10));
    assert_eq!(map.size().width, 10);
    assert_eq!(map.size().height, 10);
    assert_eq!(map.size().area(), 100);
}

#[test]
fn test_tile_access() {
    let mut map = TileMap::new(MapSize::new(5, 5));
    let tile = TileIndex::new(2, 3);

    // Get should return Some for valid tile
    assert!(map.get(tile).is_some());

    // Set a tile
    let new_tile = Tile {
        base: TileBase {
            kind: TileKind::Water,
            owner: None,
            height: 0,
            water_height: 10,
        },
        extension: TileExtension { data: 0x12345678 },
    };
    assert!(map.set(tile, new_tile).is_ok());

    // Check it was set
    assert_eq!(map.get(tile).unwrap().base.kind, TileKind::Water);
    assert_eq!(map.get(tile).unwrap().extension.data, 0x12345678);

    // Out of bounds should return None
    assert!(map.get(TileIndex::new(10, 10)).is_none());
    assert!(map.set(TileIndex::new(10, 10), Tile::new_empty()).is_err());
}

#[test]
fn test_map_validation_rejects_zero_dimensions() {
    assert_eq!(
        TileMap::try_new(MapSize::new(0, 10)),
        Err(MapError::ZeroDimension {
            width: 0,
            height: 10
        })
    );
    assert_eq!(
        TileMap::try_new(MapSize::new(10, 0)),
        Err(MapError::ZeroDimension {
            width: 10,
            height: 0
        })
    );
    assert_eq!(
        TileMap::try_new(MapSize::new(0, 0)),
        Err(MapError::ZeroDimension {
            width: 0,
            height: 0
        })
    );
}

#[test]
fn test_map_validation_rejects_excessive_allocation() {
    assert_eq!(
        TileMap::try_new(MapSize::new(5000, 5000)),
        Err(MapError::AllocationTooLarge(25_000_000))
    );
}

#[test]
fn test_adjacent_tiles_out_of_bounds_returns_none() {
    let map = TileMap::new(MapSize::new(10, 10));
    assert_eq!(
        map.adjacent_tiles(TileIndex::new(50, 50)),
        [None, None, None, None]
    );
}

#[test]
fn test_checked_arithmetic_overflow_and_underflow() {
    // Money overflow
    assert_eq!(Money::max_value().checked_add(Money(1)), None);
    assert_eq!(Money::min_value().checked_sub(Money(1)), None);

    // CargoAmount underflow
    let c1 = CargoAmount(10);
    let c2 = CargoAmount(20);
    assert_eq!(c1.checked_sub(c2), None);
    assert!(c1.sub_checked(c2).is_err());
    assert_eq!(c1.saturating_sub(c2), CargoAmount(0));

    // Ticks advance
    let mut t = Ticks(Ticks::max_value().0 - 1);
    assert!(t.advance_checked().is_ok());
    assert!(t.advance_checked().is_err());
}

#[test]
fn test_tile_memory_layout_and_size() {
    let base_size = size_of::<TileBase>();
    let ext_size = size_of::<TileExtension>();
    let tile_size = size_of::<Tile>();
    println!("TileBase size: {base_size} bytes");
    println!("TileExtension size: {ext_size} bytes");
    println!("Tile size: {tile_size} bytes");
    assert_eq!(base_size, 16);
    assert_eq!(ext_size, 4);
    assert_eq!(tile_size, 20);
}

#[test]
fn map_new_falls_back_to_one_tile_on_invalid_size() {
    let map = TileMap::new(MapSize::new(0, 7));
    assert_eq!(map.size(), MapSize::new(1, 1));
    assert!(map.validate().is_ok());
    assert!(map.get(TileIndex::new(0, 0)).is_some());
    assert!(map.get(TileIndex::new(0, 1)).is_none());
}

#[test]
fn map_at_the_tile_limit_is_accepted() {
    // 4096 x 4096 is exactly the limit; one more row exceeds it.
    assert_eq!(
        TileMap::try_new(MapSize::new(4096, 4097)),
        Err(MapError::AllocationTooLarge(4096 * 4097))
    );
    assert!(MapSize::new(4096, 4096).area() == 16_777_216);
}

#[test]
fn adjacent_tiles_inside_and_on_edges() {
    let map = TileMap::new(MapSize::new(10, 10));
    assert_eq!(
        map.adjacent_tiles(TileIndex::new(5, 5)),
        [
            Some(TileIndex::new(5, 4)),
            Some(TileIndex::new(6, 5)),
            Some(TileIndex::new(5, 6)),
            Some(TileIndex::new(4, 5)),
        ]
    );
    assert_eq!(
        map.adjacent_tiles(TileIndex::new(0, 0)),
        [None, Some(TileIndex::new(1, 0)), Some(TileIndex::new(0, 1)), None]
    );
    assert_eq!(
        map.adjacent_tiles(TileIndex::new(9, 9)),
        [Some(TileIndex::new(9, 8)), None, None, Some(TileIndex::new(8, 9))]
    );
}

#[test]
fn station_tiles_set_and_clear() {
    let mut map = TileMap::new(MapSize::new(4, 4));
    let t = TileIndex::new(1, 2);
    let mut water = Tile::new_empty();
    water.base.kind = TileKind::Water;
    water.base.water_height = 3;
    map.set(t, water).unwrap();
    assert!(map.is_water_at(t));
    assert!(map.is_navigable_water(t));

    map.set_station_at(t, transport_core::StationID(7), Some(transport_core::CompanyID(2))).unwrap();
    assert_eq!(map.station_at(t), Some(transport_core::StationID(7)));
    assert_eq!(map.get(t).unwrap().base.kind, TileKind::Station);
    assert_eq!(map.get(t).unwrap().base.owner, Some(transport_core::CompanyID(2)));
    assert!(map.is_navigable_water(t));
    assert!(!map.is_water_at(t));

    map.clear_station_at(t).unwrap();
    assert_eq!(map.station_at(t), None);
    assert_eq!(map.get(t).unwrap().base.kind, TileKind::Water);
    assert_eq!(map.get(t).unwrap().base.owner, None);

    assert!(map.set_station_at(TileIndex::new(4, 0), transport_core::StationID(1), None).is_err());
    assert!(map.clear_station_at(TileIndex::new(0, 4)).is_err());
}

#[test]
fn unit_arithmetic_edges() {
    assert_eq!(Money(5).checked_add(Money(7)), Some(Money(12)));
    assert_eq!(Money(5).saturating_sub(Money(7)), Money(-2));
    assert_eq!(Money::max_value().saturating_add(Money(1)), Money::max_value());
    assert_eq!(Money(10).checked_div(0), None);
    assert_eq!(Money(10).checked_div(3), Some(Money(3)));
    assert_eq!(Money(i64::MAX).checked_mul(2), None);
    assert_eq!(CargoAmount(u32::MAX).checked_add(CargoAmount(1)), None);
    assert_eq!(CargoAmount(u32::MAX).saturating_add(CargoAmount(1)), CargoAmount(u32::MAX));
    match CargoAmount(3).sub_checked(CargoAmount(5)) {
        Err(TransportError::Underflow(_)) => {}
        other => panic!("unexpected {other:?}"),
    }
    assert_eq!(Ticks(3).saturating_sub(Ticks(5)), Ticks(0));
    let mut t = Ticks(0);
    match t.advance_checked() {
        Ok(next) => assert_eq!(next, Ticks(1)),
        Err(e) => panic!("unexpected {e:?}"),
    }
    assert_eq!(t, Ticks(1));
}

#[test]
fn display_forms() {
    assert_eq!(TileIndex::new(3, 12).display(), "(3,12)");
    assert_eq!(TileMap::new(MapSize::new(48, 7)).display(), "Map 48x7");
}

#[test]
fn underflow_messages() {
    match Money(3).sub_checked(Money(5)) {
        Ok(m) => assert_eq!(m, Money(-2)),
        Err(e) => panic!("unexpected {e:?}"),
    }
    match Money(-2).sub_checked(Money(i64::MAX)) {
        Err(TransportError::Underflow(msg)) => {
            assert_eq!(msg, "Money underflow: -2 - 9223372036854775807")
        }
        other => panic!("unexpected {other:?}"),
    }
    match CargoAmount(3).sub_checked(CargoAmount(5)) {
        Err(TransportError::Underflow(msg)) => assert_eq!(msg, "CargoAmount underflow: 3 - 5"),
        other => panic!("unexpected {other:?}"),
    }
}
