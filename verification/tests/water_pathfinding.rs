use transport_core::sim::world::tile_key;
use transport_core::{
    Company, CompanyID, EngineID, MapSize, Microkernel, Money, MovementDriver, OrderListID,
    OrderType, PassabilityMode, PathResult, SearchBuffers, Station, StationID, Tile, TileIndex,
    TileKind, TileMap, Vehicle, VehicleID, VehicleKind, VehicleState, WaterPathSolver,
};

fn water_map(w: u16, h: u16) -> TileMap {
    let mut map = TileMap::new(MapSize::new(w, h));
    for y in 0..h {
        for x in 0..w {
            let mut t = Tile::new_empty();
            t.base.kind = TileKind::Water;
            map.set(TileIndex::new(x, y), t).unwrap();
        }
    }
    map
}

fn land(map: &mut TileMap, x: u16, y: u16) {
    let mut t = Tile::new_empty();
    t.base.kind = TileKind::Clear;
    map.set(TileIndex::new(x, y), t).unwrap();
}

#[test]
fn test_pathfinder_circumnavigates_land_obstacle() {
    let size = MapSize::new(10, 10);
    let mut map = TileMap::new(size);

    // Fill map with water
    for y in 0..10 {
        for x in 0..10 {
            let mut t = Tile::new_empty();
            t.base.kind = TileKind::Water;
            map.set(TileIndex::new(x, y), t).unwrap();
        }
    }

    // Place a vertical land barrier at x = 4, covering y = 1..=4
    for y in 1..=4 {
        let mut t = Tile::new_empty();
        t.base.kind = TileKind::Clear; // Land obstacle
        map.set(TileIndex::new(4, y), t).unwrap();
    }

    let start = TileIndex::new(2, 2);
    let target = TileIndex::new(6, 2);

    let mut solver = WaterPathSolver::new().with_passability_mode(PassabilityMode::StrictWater);
    let result = solver.find_path(start, target, &map, 256);

    match result {
        PathResult::Found(path) => {
            assert!(!path.is_empty(), "Path should contain steps");
            assert_eq!(*path.last().unwrap(), target, "Path must end at target");
            // The shortest way around the barrier: up to row 0 and back down.
            assert_eq!(path.len(), 8);
            assert!(!path.contains(&start));

            // Ensure no step touches the land barrier (x=4, y=1..=4)
            for step in &path {
                let is_in_barrier = step.x == 4 && (1..=4).contains(&step.y);
                assert!(!is_in_barrier, "Path step {step:?} passed through land barrier!");
            }
        }
        other => panic!("Expected path to be found, got {other:?}"),
    }
}

#[test]
fn test_pathfinder_respects_expansion_budget() {
    let size = MapSize::new(20, 20);
    let mut map = TileMap::new(size);

    for y in 0..20 {
        for x in 0..20 {
            let mut t = Tile::new_empty();
            t.base.kind = TileKind::Water;
            map.set(TileIndex::new(x, y), t).unwrap();
        }
    }

    let start = TileIndex::new(0, 0);
    let target = TileIndex::new(19, 19);

    let mut solver = WaterPathSolver::new();
    // Budget of only 5 expansions for a distance of 38 tiles
    let result = solver.find_path(start, target, &map, 5);

    assert_eq!(
        result,
        PathResult::BudgetExceeded,
        "Search must abort with BudgetExceeded when budget is exhausted"
    );
}

#[test]
fn test_pathfinder_identifies_unreachable_target() {
    let size = MapSize::new(10, 10);
    let mut map = TileMap::new(size);

    for y in 0..10 {
        for x in 0..10 {
            let mut t = Tile::new_empty();
            t.base.kind = TileKind::Water;
            map.set(TileIndex::new(x, y), t).unwrap();
        }
    }

    let target = TileIndex::new(5, 5);

    // Enclose target with an impassable ring of land
    for dx in -1..=1 {
        for dy in -1..=1 {
            if dx == 0 && dy == 0 {
                continue;
            }
            let wall = TileIndex::new((5 + dx) as u16, (5 + dy) as u16);
            let mut t = Tile::new_empty();
            t.base.kind = TileKind::Clear; // Land
            map.set(wall, t).unwrap();
        }
    }

    let mut solver = WaterPathSolver::new();
    let start = TileIndex::new(0, 0);
    let result = solver.find_path(start, target, &map, 500);

    assert_eq!(
        result,
        PathResult::Unreachable,
        "Target enclosed in land must be reported as Unreachable"
    );
}

#[test]
fn test_microkernel_solver_phase_drives_ship_around_peninsula() {
    let mut kernel = Microkernel::new(MapSize::new(10, 10));

    // Fill map with water
    for y in 0..10 {
        for x in 0..10 {
            let mut t = Tile::new_empty();
            t.base.kind = TileKind::Water;
            kernel.world.map.set(TileIndex::new(x, y), t).unwrap();
        }
    }

    // Peninsula barrier from y=0 to y=3 at x=4
    for y in 0..=3 {
        let mut t = Tile::new_empty();
        t.base.kind = TileKind::Clear; // Land
        kernel.world.map.set(TileIndex::new(4, y), t).unwrap();
    }

    let company_id = CompanyID(1);
    kernel.world.companies.insert(
        company_id.0,
        Company::new(company_id, "Oceanic Line".into(), Money(1000), 0x112233),
    );

    let dock_a = StationID(1);
    let dock_b = StationID(2);
    let tile_a = TileIndex::new(2, 2);
    let tile_b = TileIndex::new(6, 2);

    let mut st_a = Station::new(dock_a, "West Dock".into(), vec![tile_a]);
    st_a.company_id = Some(company_id);
    let mut st_b = Station::new(dock_b, "East Dock".into(), vec![tile_b]);
    st_b.company_id = Some(company_id);

    kernel.world.stations.insert(dock_a.0, st_a);
    kernel.world.stations.insert(dock_b.0, st_b);
    kernel.world.map.set_station_at(tile_a, dock_a, Some(company_id)).unwrap();
    kernel.world.map.set_station_at(tile_b, dock_b, Some(company_id)).unwrap();
    kernel.world.tile_to_station.insert(tile_key(tile_a), dock_a);
    kernel.world.tile_to_station.insert(tile_key(tile_b), dock_b);

    let orders_id = OrderListID(1);
    kernel.world.order_lists.insert(
        orders_id.0,
        vec![OrderType::GoToStation {
            station_id: dock_b,
            conditions: None,
        }],
    );

    let ship_id = VehicleID(1);
    let mut ship = Vehicle::new(
        ship_id,
        company_id,
        EngineID(1),
        VehicleKind::Ship,
        tile_a,
        orders_id,
    );
    ship.state = VehicleState::Traveling;
    kernel.world.vehicles.insert(ship_id.0, ship);

    // Register WaterPathSolver (Phase::Solvers) and MovementDriver (Phase::Drivers)
    kernel.register_driver(WaterPathSolver::new());
    kernel.register_driver(MovementDriver::new());

    // Advance simulation until ship reaches East Dock
    let mut reached = false;
    for _ in 0..25 {
        kernel.tick().unwrap();
        let pos = kernel.world.vehicles.get(&ship_id.0).unwrap().position;

        // Verify the ship NEVER entered the peninsula barrier (x=4, y=0..=3)
        assert!(
            !(pos.x == 4 && pos.y <= 3),
            "Ship crashed into land barrier at {pos:?}"
        );

        if pos == tile_b {
            reached = true;
            break;
        }
    }

    assert!(reached, "Ship must reach East Dock by circumnavigating peninsula!");
}

#[test]
fn path_to_self_is_empty() {
    let map = water_map(5, 5);
    let mut solver = WaterPathSolver::new();
    let t = TileIndex::new(3, 3);
    assert_eq!(solver.find_path(t, t, &map, 0), PathResult::Found(Vec::new()));
}

#[test]
fn found_path_is_connected_and_shortest_in_open_water() {
    let map = water_map(8, 8);
    let mut solver = WaterPathSolver::new();
    let start = TileIndex::new(1, 1);
    let target = TileIndex::new(5, 3);
    match solver.find_path(start, target, &map, 1000) {
        PathResult::Found(path) => {
            // Manhattan distance 6: the estimate is exact in open water.
            assert_eq!(path.len(), 6);
            let mut prev = start;
            for step in &path {
                let dx = (step.x as i32 - prev.x as i32).abs();
                let dy = (step.y as i32 - prev.y as i32).abs();
                assert_eq!(dx + dy, 1);
                assert!(map.is_water_at(*step));
                prev = *step;
            }
            assert_eq!(prev, target);
        }
        other => panic!("unexpected {other:?}"),
    }
}

#[test]
fn bridges_pass_only_when_avoiding_obstacles() {
    // A wall of land across column 2 with one bridge tile in it.
    let mut map = water_map(5, 5);
    for y in 0..5 {
        land(&mut map, 2, y);
    }
    let mut bridge = Tile::new_empty();
    bridge.base.kind = TileKind::TunnelBridge;
    map.set(TileIndex::new(2, 2), bridge).unwrap();
    let start = TileIndex::new(0, 2);
    let target = TileIndex::new(4, 2);

    let mut strict = WaterPathSolver::new();
    assert_eq!(strict.find_path(start, target, &map, 1000), PathResult::Unreachable);

    let mut relaxed = WaterPathSolver::new().with_passability_mode(PassabilityMode::AvoidObstacles);
    assert!(relaxed.is_passable(TileIndex::new(2, 2), target, &map));
    assert!(!relaxed.is_passable(TileIndex::new(2, 1), target, &map));
    match relaxed.find_path(start, target, &map, 1000) {
        PathResult::Found(path) => {
            assert_eq!(path.len(), 4);
            assert!(path.contains(&TileIndex::new(2, 2)));
        }
        other => panic!("unexpected {other:?}"),
    }
}

#[test]
fn target_tile_is_always_enterable() {
    let mut map = water_map(4, 1);
    land(&mut map, 3, 0);
    let solver = WaterPathSolver::new();
    assert!(solver.is_passable(TileIndex::new(3, 0), TileIndex::new(3, 0), &map));
    assert!(!solver.is_passable(TileIndex::new(3, 0), TileIndex::new(0, 0), &map));
    let mut solver = solver;
    assert_eq!(
        solver.find_path(TileIndex::new(0, 0), TileIndex::new(3, 0), &map, 100),
        PathResult::Found(vec![TileIndex::new(1, 0), TileIndex::new(2, 0), TileIndex::new(3, 0)])
    );
}

#[test]
fn search_buffers_generation_reset() {
    let mut b = SearchBuffers::new(MapSize::new(4, 4));
    let t = TileIndex::new(2, 1);
    b.start_search();
    assert!(!b.is_visited(t));
    b.mark_visited(t, 7, TileIndex::new(1, 1));
    assert!(b.is_visited(t));
    assert_eq!(b.get_g(t), 7);
    assert_eq!(b.get_parent(t), TileIndex::new(1, 1));
    b.start_search();
    assert!(!b.is_visited(t));
    assert_eq!(b.get_g(t), u32::MAX);
}

#[test]
fn solver_reuses_buffers_across_map_sizes() {
    let small = water_map(3, 3);
    let large = water_map(9, 9);
    let mut solver = WaterPathSolver::new().with_budget(64);
    assert!(matches!(
        solver.find_path(TileIndex::new(0, 0), TileIndex::new(2, 2), &small, 100),
        PathResult::Found(_)
    ));
    match solver.find_path(TileIndex::new(0, 0), TileIndex::new(8, 8), &large, 1000) {
        PathResult::Found(p) => assert_eq!(p.len(), 16),
        other => panic!("unexpected {other:?}"),
    }
    assert_eq!(solver.budget_per_vehicle, 64);
}

#[test]
fn tiny_budgets_abort_before_any_expansion() {
    let map = water_map(4, 4);
    let mut solver = WaterPathSolver::new();
    let a = TileIndex::new(0, 0);
    let b = TileIndex::new(1, 0);
    assert_eq!(solver.find_path(a, b, &map, 0), PathResult::BudgetExceeded);
    assert_eq!(solver.find_path(a, b, &map, 1), PathResult::BudgetExceeded);
    assert_eq!(solver.find_path(a, b, &map, 2), PathResult::Found(vec![b]));
}

#[test]
fn a_found_path_is_shorter_than_the_budget() {
    let map = water_map(10, 10);
    let mut solver = WaterPathSolver::new();
    let a = TileIndex::new(0, 0);
    let b = TileIndex::new(0, 3);
    assert_eq!(solver.find_path(a, b, &map, 3), PathResult::BudgetExceeded);
    let expected = vec![TileIndex::new(0, 1), TileIndex::new(0, 2), TileIndex::new(0, 3)];
    assert_eq!(solver.find_path(a, b, &map, 4), PathResult::Found(expected));
}

#[test]
fn budgets_above_the_area_never_run_out() {
    let mut map = water_map(6, 6);
    for y in 0..5u16 {
        land(&mut map, 3, y);
    }
    let mut solver = WaterPathSolver::new();
    let result = solver.find_path(TileIndex::new(0, 0), TileIndex::new(5, 0), &map, 36 + 1);
    assert!(matches!(result, PathResult::Found(_)));
}

#[test]
fn resized_buffers_keep_their_leading_entries() {
    let mut b = SearchBuffers::new(MapSize::new(2, 2));
    b.start_search();
    b.mark_visited(TileIndex::new(1, 1), 5, TileIndex::new(0, 1));
    b.ensure_capacity(MapSize::new(4, 4));
    // Row-major slot 3 was (1, 1) on the 2-wide layout and is (3, 0) on the 4-wide one.
    assert!(b.is_visited(TileIndex::new(3, 0)));
    assert_eq!(b.get_g(TileIndex::new(3, 0)), 5);
    assert_eq!(b.get_parent(TileIndex::new(3, 0)), TileIndex::new(0, 1));
    assert!(!b.is_visited(TileIndex::new(3, 3)));
    assert_eq!(b.get_g(TileIndex::new(3, 3)), u32::MAX);
    b.ensure_capacity(MapSize::new(1, 2));
    assert_eq!(b.get_parent(TileIndex::new(0, 1)), TileIndex::new(0, 0));
}

#[test]
fn a_search_that_starts_at_its_target_needs_no_map() {
    let map = water_map(3, 3);
    let mut solver = WaterPathSolver::new();
    let far = TileIndex::new(40, 40);
    assert_eq!(solver.find_path(far, far, &map, 0), PathResult::Found(vec![]));
}
