use transport_core::sim::world::tile_key;
use transport_core::{
    Building, BuildingID, BuildingKind, CapabilityToken, Command, Company, CompanyID, EngineID,
    InputController, MapSize, Money, OrderType, PlacementValidity, Station, StationID, TileIndex,
    TileKind, ToolMode, ToolSelection, ToolStateMachine, Town, TownID, Vehicle, VehicleID,
    VehicleKind, World, DryRunValidator, OrderListID, GhostOverlay, OverlayMark, OverlayMarker,
};

#[test]
fn test_tool_state_machine_drag_and_hover() {
    let mut state = ToolStateMachine::new();
    assert_eq!(state.mode, ToolMode::Inspect);

    let t1 = TileIndex::new(2, 2);
    let t2 = TileIndex::new(4, 5);

    state.on_hover(Some(t1));
    assert_eq!(state.hovered_tile, Some(t1));

    state.start_drag(t1);
    state.on_hover(Some(t2));

    let dragged = state.dragged_tiles();
    // 3 x 4 = 12 tiles in drag rectangle
    assert_eq!(dragged.len(), 12);
    assert!(dragged.contains(&t1));
    assert!(dragged.contains(&t2));

    state.cancel_drag();
    assert_eq!(state.drag_start, None);
    assert_eq!(state.drag_current, None);
}

#[test]
fn test_dry_run_station_placement_and_cost() {
    let mut world = World::new(MapSize::new(20, 20));
    let company_id = CompanyID(1);
    world.companies.insert(
        company_id.0,
        Company::new(company_id, "Test Rail".into(), Money(5000), 0x00FF00),
    );

    let tiles = vec![TileIndex::new(5, 5), TileIndex::new(5, 6)];

    // 1. Valid placement
    let val = DryRunValidator::validate_station_placement(&world, company_id, &tiles);
    assert_eq!(val, PlacementValidity::Valid { cost: Money(2000) });

    // 2. Insufficient funds
    world.companies.get_mut(&company_id.0).unwrap().money = Money(500);
    let val_broke = DryRunValidator::validate_station_placement(&world, company_id, &tiles);
    assert!(matches!(val_broke, PlacementValidity::InsufficientFunds { .. }));

    // 3. Tile occupied
    world.tile_to_station.insert(tile_key(TileIndex::new(5, 5)), StationID(99));
    let val_occupied = DryRunValidator::validate_station_placement(&world, company_id, &tiles);
    assert_eq!(val_occupied, PlacementValidity::TileOccupied(TileIndex::new(5, 5)));

    // 4. Out of bounds
    let val_oob = DryRunValidator::validate_station_placement(
        &world,
        company_id,
        &[TileIndex::new(50, 50)],
    );
    assert_eq!(val_oob, PlacementValidity::OutOfBounds(TileIndex::new(50, 50)));
}

#[test]
fn test_catchment_area_calculation() {
    let mut world = World::new(MapSize::new(30, 30));
    let town_id = TownID(1);
    let mut town = Town::new(town_id, "CatchTown".into(), TileIndex::new(10, 10));
    town.building_ids.push(BuildingID(1));
    town.building_ids.push(BuildingID(2));
    world.towns.insert(town_id.0, town);

    // Nearby building at (12, 11): dx = 2, dy = 1 -> dist = 3 <= 3
    world.buildings.insert(
        BuildingID(1).0,
        Building::new(
            BuildingID(1),
            town_id,
            TileIndex::new(12, 11),
            BuildingKind::Residential,
            40,
        ),
    );

    // Far building at (20, 20): dist = 20 > 3
    world.buildings.insert(
        BuildingID(2).0,
        Building::new(
            BuildingID(2),
            town_id,
            TileIndex::new(20, 20),
            BuildingKind::Commercial,
            25,
        ),
    );

    let station_tiles = [TileIndex::new(10, 10)];
    let catchment = DryRunValidator::calculate_catchment(&world, &station_tiles);

    assert!(catchment.catchment_tiles.contains(&TileIndex::new(12, 11)));
    assert!(!catchment.catchment_tiles.contains(&TileIndex::new(20, 20)));
    assert_eq!(catchment.residential_capacity, 40);
    assert_eq!(catchment.workplace_capacity, 0);
    assert_eq!(catchment.towns_served, vec![town_id]);
}

#[test]
fn test_input_controller_command_generation() {
    let mut world = World::new(MapSize::new(20, 20));
    let company_id = CompanyID(1);
    world.companies.insert(
        company_id.0,
        Company::new(company_id, "Click Corp".into(), Money(10000), 0x00FFFF),
    );

    let mut controller = InputController::new(company_id, CapabilityToken::Company(company_id));

    // 1. BuildStation interaction
    controller.tools.set_mode(ToolMode::BuildStation {
        name: "Click Dock".into(),
        width: 1,
        height: 1,
    });

    let pointer_tile = Some(TileIndex::new(4, 4));
    controller.handle_pointer_down(pointer_tile);
    let cmd = controller.handle_pointer_up(pointer_tile, &world);

    assert!(matches!(
        cmd,
        Some(Command::BuildStation {
            tiles,
            ..
        }) if tiles == vec![TileIndex::new(4, 4)]
    ));

    // 2. Inspect mode interaction on an existing station
    let st_id = StationID(5);
    world.tile_to_station.insert(tile_key(TileIndex::new(7, 7)), st_id);
    world.stations.insert(
        st_id.0,
        Station::new(st_id, "Inspect Pier".into(), vec![TileIndex::new(7, 7)]),
    );

    controller.tools.set_mode(ToolMode::Inspect);
    let inspect_tile = Some(TileIndex::new(7, 7));
    controller.handle_pointer_up(inspect_tile, &world);

    assert_eq!(
        controller.tools.selection,
        Some(ToolSelection::Station(st_id))
    );
}

#[test]
fn drag_box_is_normalised_and_row_major() {
    let mut state = ToolStateMachine::new();
    assert!(state.dragged_tiles().is_empty());
    state.start_drag(TileIndex::new(3, 4));
    state.on_hover(Some(TileIndex::new(2, 3)));
    assert_eq!(
        state.dragged_tiles(),
        vec![
            TileIndex::new(2, 3),
            TileIndex::new(3, 3),
            TileIndex::new(2, 4),
            TileIndex::new(3, 4),
        ]
    );
    assert_eq!(state.end_drag(), Some((TileIndex::new(3, 4), TileIndex::new(2, 3))));
    assert_eq!(state.drag_start, None);
    assert_eq!(state.end_drag(), None);
}

#[test]
fn hover_outside_during_drag_collapses_box_to_start() {
    let mut state = ToolStateMachine::new();
    state.start_drag(TileIndex::new(1, 1));
    state.on_hover(Some(TileIndex::new(3, 1)));
    assert_eq!(state.dragged_tiles().len(), 3);
    state.on_hover(None);
    assert_eq!(state.hovered_tile, None);
    assert_eq!(state.drag_current, None);
    assert_eq!(state.dragged_tiles(), vec![TileIndex::new(1, 1)]);
    assert_eq!(state.end_drag(), Some((TileIndex::new(1, 1), TileIndex::new(1, 1))));
    // Without a drag, the hovered tile alone is the box.
    state.on_hover(Some(TileIndex::new(4, 4)));
    assert_eq!(state.drag_current, None);
    assert_eq!(state.dragged_tiles(), vec![TileIndex::new(4, 4)]);
}

#[test]
fn set_mode_clears_drag_but_keeps_selection() {
    let mut state = ToolStateMachine::default();
    state.start_drag(TileIndex::new(1, 1));
    state.selection = Some(ToolSelection::Tile(TileIndex::new(0, 0)));
    state.set_mode(ToolMode::BuildVehicle { engine_id: EngineID(1) });
    assert_eq!(state.mode, ToolMode::BuildVehicle { engine_id: EngineID(1) });
    assert_eq!(state.drag_start, None);
    assert_eq!(state.drag_current, None);
    assert_eq!(state.selection, Some(ToolSelection::Tile(TileIndex::new(0, 0))));
}

#[test]
fn station_placement_error_cases() {
    let mut world = World::new(MapSize::new(10, 10));
    // Unknown company
    assert_eq!(
        DryRunValidator::validate_station_placement(&world, CompanyID(3), &[TileIndex::new(1, 1)]),
        PlacementValidity::CompanyNotFound(CompanyID(3))
    );
    world.companies.insert(3, Company::new(CompanyID(3), "C".into(), Money(1000), 0));
    // Unsuitable terrain
    let mut house = transport_core::Tile::new_empty();
    house.base.kind = TileKind::House;
    world.map.set(TileIndex::new(2, 2), house).unwrap();
    assert_eq!(
        DryRunValidator::validate_station_placement(&world, CompanyID(3), &[TileIndex::new(2, 2)]),
        PlacementValidity::InvalidTerrain { tile: TileIndex::new(2, 2), kind: TileKind::House }
    );
    // Exactly affordable
    assert_eq!(
        DryRunValidator::validate_station_placement(&world, CompanyID(3), &[TileIndex::new(1, 1)]),
        PlacementValidity::Valid { cost: Money(1000) }
    );
    // One tile more is not
    assert_eq!(
        DryRunValidator::validate_station_placement(
            &world,
            CompanyID(3),
            &[TileIndex::new(1, 1), TileIndex::new(1, 2)]
        ),
        PlacementValidity::InsufficientFunds { cost: Money(2000), available: Money(1000) }
    );
    assert_eq!(PlacementValidity::Valid { cost: Money(7) }.cost(), Money(7));
    assert_eq!(PlacementValidity::OutOfBounds(TileIndex::new(0, 0)).cost(), Money(0));
}

#[test]
fn vehicle_placement_checks() {
    let mut world = World::new(MapSize::new(10, 10));
    world.companies.insert(1, Company::new(CompanyID(1), "V".into(), Money(6000), 0));
    let mut water = transport_core::Tile::new_empty();
    water.base.kind = TileKind::Water;
    world.map.set(TileIndex::new(3, 3), water).unwrap();

    assert_eq!(
        DryRunValidator::validate_vehicle_placement(&world, CompanyID(1), EngineID(1), TileIndex::new(3, 3)),
        PlacementValidity::Valid { cost: Money(5000) }
    );
    assert_eq!(
        DryRunValidator::validate_vehicle_placement(&world, CompanyID(1), EngineID(1), TileIndex::new(30, 3)),
        PlacementValidity::OutOfBounds(TileIndex::new(30, 3))
    );
    assert_eq!(
        DryRunValidator::validate_vehicle_placement(&world, CompanyID(2), EngineID(1), TileIndex::new(3, 3)),
        PlacementValidity::CompanyNotFound(CompanyID(2))
    );
    world.companies.get_mut(&1).unwrap().money = Money(100);
    assert_eq!(
        DryRunValidator::validate_vehicle_placement(&world, CompanyID(1), EngineID(1), TileIndex::new(3, 3)),
        PlacementValidity::InsufficientFunds { cost: Money(5000), available: Money(100) }
    );
}

#[test]
fn catchment_counts_workplaces_and_dedups_towns() {
    let mut world = World::new(MapSize::new(30, 30));
    world.towns.insert(1, Town::new(TownID(1), "A".into(), TileIndex::new(5, 5)));
    world.towns.insert(2, Town::new(TownID(2), "B".into(), TileIndex::new(7, 5)));
    world.buildings.insert(1, Building::new(BuildingID(1), TownID(2), TileIndex::new(6, 5), BuildingKind::Commercial, 30));
    world.buildings.insert(2, Building::new(BuildingID(2), TownID(1), TileIndex::new(5, 6), BuildingKind::Residential, 20));
    world.buildings.insert(3, Building::new(BuildingID(3), TownID(1), TileIndex::new(4, 5), BuildingKind::Residential, 5));
    let c = DryRunValidator::calculate_catchment(&world, &[TileIndex::new(5, 5), TileIndex::new(6, 5)]);
    assert_eq!(c.residential_capacity, 25);
    assert_eq!(c.workplace_capacity, 30);
    assert_eq!(c.towns_served, vec![TownID(1), TownID(2)]);
    // Radius 3 around (5,5) and (6,5), inside the map, without repeats.
    let mut sorted = c.catchment_tiles.clone();
    sorted.sort_by_key(|t| (t.y, t.x));
    sorted.dedup();
    assert_eq!(sorted.len(), c.catchment_tiles.len());
    assert!(c.catchment_tiles.contains(&TileIndex::new(9, 5)));
    assert!(!c.catchment_tiles.contains(&TileIndex::new(10, 5)));
    assert!(c.catchment_tiles.contains(&TileIndex::new(2, 5)));
    assert!(!c.catchment_tiles.contains(&TileIndex::new(1, 5)));
}

#[test]
fn input_controller_vehicle_and_route_modes() {
    let mut world = World::new(MapSize::new(10, 10));
    world.companies.insert(1, Company::new(CompanyID(1), "V".into(), Money(9000), 0));
    let mut water = transport_core::Tile::new_empty();
    water.base.kind = TileKind::Water;
    world.map.set(TileIndex::new(2, 2), water).unwrap();

    let mut c = InputController::new(CompanyID(1), CapabilityToken::Company(CompanyID(1)));
    c.tools.set_mode(ToolMode::BuildVehicle { engine_id: EngineID(1) });
    let cmd = c.handle_pointer_up(Some(TileIndex::new(2, 2)), &world);
    assert_eq!(
        cmd,
        Some(Command::PurchaseVehicle {
            company_id: CompanyID(1),
            engine_id: EngineID(1),
            kind: VehicleKind::Ship,
            position: TileIndex::new(2, 2),
            order_list_id: OrderListID(1),
        })
    );
    assert_eq!(c.next_sequence, 2);
    // Outside the map: nothing, and the sequence does not move.
    assert_eq!(c.handle_pointer_up(Some(TileIndex::new(30, 3)), &world), None);
    assert_eq!(c.next_sequence, 2);

    world.vehicles.insert(
        4,
        Vehicle::new(VehicleID(4), CompanyID(1), EngineID(1), VehicleKind::Ship, TileIndex::new(2, 2), OrderListID(9)),
    );
    world.tile_to_station.insert(tile_key(TileIndex::new(6, 6)), StationID(3));
    c.tools.set_mode(ToolMode::OrderRoute { vehicle_id: VehicleID(4) });
    assert_eq!(c.handle_pointer_up(Some(TileIndex::new(5, 5)), &world), None);
    assert_eq!(
        c.handle_pointer_up(Some(TileIndex::new(6, 6)), &world),
        Some(Command::AddOrderToList {
            order_list_id: OrderListID(9),
            order: OrderType::GoToStation { station_id: StationID(3), conditions: None },
        })
    );

    // Inspect: vehicle, then bare tile.
    c.tools.set_mode(ToolMode::Inspect);
    c.handle_pointer_up(Some(TileIndex::new(2, 2)), &world);
    assert_eq!(c.tools.selection, Some(ToolSelection::Vehicle(VehicleID(4))));
    c.handle_pointer_up(Some(TileIndex::new(1, 1)), &world);
    assert_eq!(c.tools.selection, Some(ToolSelection::Tile(TileIndex::new(1, 1))));
    c.handle_pointer_move(Some(TileIndex::new(8, 8)));
    assert_eq!(c.tools.hovered_tile, Some(TileIndex::new(8, 8)));
    c.handle_pointer_down(Some(TileIndex::new(8, 8)));
    c.cancel();
    assert_eq!(c.tools.drag_start, None);
}

#[test]
fn test_ghost_overlay_render_items() {
    let mut world = World::new(MapSize::new(20, 20));
    let company_id = CompanyID(1);
    world.companies.insert(
        company_id.0,
        Company::new(company_id, "Ghost Transit".into(), Money(10000), 0xFF00FF),
    );

    let mut state = ToolStateMachine::new();
    state.set_mode(ToolMode::BuildStation {
        name: "North Dock".into(),
        width: 1,
        height: 1,
    });
    state.start_drag(TileIndex::new(5, 5));

    let (items, validity) = GhostOverlay::overlay_marks(&world, &state, company_id);

    assert!(validity.unwrap().is_valid());
    // Must contain ghost station tile + catchment area highlight tiles
    assert!(!items.is_empty());
}

#[test]
fn overlay_marks_by_mode() {
    let mut world = World::new(MapSize::new(20, 20));
    world.companies.insert(1, Company::new(CompanyID(1), "G".into(), Money(1500), 0));
    let mut high = transport_core::Tile::new_empty();
    high.base.height = 7;
    world.map.set(TileIndex::new(5, 5), high).unwrap();

    // Inspect: one highlight on the hovered tile, with its elevation.
    let mut state = ToolStateMachine::new();
    assert_eq!(GhostOverlay::overlay_marks(&world, &state, CompanyID(1)), (vec![], None));
    state.on_hover(Some(TileIndex::new(5, 5)));
    assert_eq!(
        GhostOverlay::overlay_marks(&world, &state, CompanyID(1)),
        (
            vec![OverlayMark { tile: TileIndex::new(5, 5), elevation: 7, marker: OverlayMarker::Highlight, valid: true }],
            None
        )
    );

    // A valid one-tile station: its ghost first, then the 24 other tiles within
    // Manhattan distance 3.
    state.set_mode(ToolMode::BuildStation { name: "S".into(), width: 1, height: 1 });
    state.start_drag(TileIndex::new(5, 5));
    let (marks, validity) = GhostOverlay::overlay_marks(&world, &state, CompanyID(1));
    assert_eq!(validity, Some(PlacementValidity::Valid { cost: Money(1000) }));
    assert_eq!(
        marks[0],
        OverlayMark { tile: TileIndex::new(5, 5), elevation: 7, marker: OverlayMarker::GhostStation, valid: true }
    );
    assert_eq!(marks.len(), 1 + 24);
    assert!(marks[1..].iter().all(|m| m.marker == OverlayMarker::Catchment && m.valid && m.tile != TileIndex::new(5, 5)));

    // Two tiles cost more than the company has: red ghosts and no catchment.
    state.on_hover(Some(TileIndex::new(6, 5)));
    let (marks, validity) = GhostOverlay::overlay_marks(&world, &state, CompanyID(1));
    assert_eq!(
        validity,
        Some(PlacementValidity::InsufficientFunds { cost: Money(2000), available: Money(1500) })
    );
    assert_eq!(marks.len(), 2);
    assert!(marks.iter().all(|m| m.marker == OverlayMarker::GhostStation && !m.valid));

    // A ghost ship on the hovered tile.
    state.set_mode(ToolMode::BuildVehicle { engine_id: EngineID(1) });
    let (marks, validity) = GhostOverlay::overlay_marks(&world, &state, CompanyID(1));
    assert_eq!(
        validity,
        Some(PlacementValidity::InsufficientFunds { cost: Money(5000), available: Money(1500) })
    );
    assert_eq!(
        marks,
        vec![OverlayMark { tile: TileIndex::new(6, 5), elevation: 0, marker: OverlayMarker::GhostVehicle, valid: false }]
    );

    state.set_mode(ToolMode::Demolish);
    assert_eq!(GhostOverlay::overlay_marks(&world, &state, CompanyID(1)), (vec![], None));
}

#[test]
fn an_exhausted_sequence_only_matters_for_a_purchase() {
    let mut world = World::new(MapSize::new(10, 10));
    world.companies.insert(1, Company::new(CompanyID(1), "V".into(), Money(9000), 0));
    let mut c = InputController::new(CompanyID(1), CapabilityToken::Company(CompanyID(1)));
    c.next_sequence = u32::MAX;
    // Inspecting a tile neither needs nor uses a sequence number.
    assert_eq!(c.handle_pointer_up(Some(TileIndex::new(3, 3)), &world), None);
    assert_eq!(c.tools.selection, Some(ToolSelection::Tile(TileIndex::new(3, 3))));
    // Building a vehicle off the map is refused before a number is drawn.
    c.tools.set_mode(ToolMode::BuildVehicle { engine_id: EngineID(1) });
    assert_eq!(c.handle_pointer_up(Some(TileIndex::new(30, 3)), &world), None);
    assert_eq!(c.next_sequence, u32::MAX);
}
