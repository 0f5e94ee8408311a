use transport_core::sim::world::tile_key;
use transport_core::{
    step_towards, CargoAmount, CargoType, Command, CommandFailure, CommandResult, CommandSuccess,
    CompanyID, EngineID, EnqueueError, GoodsEntry, MapSize, Money, OrderListID, OrderType,
    Simulator, StationID, TileIndex, TileMap, VehicleID, VehicleKind,
};

/// A simulator with one company (ID 0, money 20000), docks at (2,2) and (4,2), an order
/// list with one order, and a ship at the first dock.
fn harbour() -> (Simulator, CompanyID, StationID, StationID, VehicleID) {
    let mut sim = Simulator::new(MapSize::new(10, 10));
    let company = match sim.process_command(Command::CreateCompany {
        name: "Quay".to_string(),
        money: Money(20000),
        color: 1,
    }) {
        CommandResult::Success(CommandSuccess::CompanyCreated(id)) => id,
        other => panic!("{other:?}"),
    };
    let build = |sim: &mut Simulator, x: u16| match sim.process_command(Command::BuildStation {
        company_id: company,
        name: "Dock".to_string(),
        tiles: vec![TileIndex::new(x, 2)],
    }) {
        CommandResult::Success(CommandSuccess::StationBuilt(id)) => id,
        other => panic!("{other:?}"),
    };
    let a = build(&mut sim, 2);
    let b = build(&mut sim, 4);
    let list = match sim.process_command(Command::CreateOrderList {}) {
        CommandResult::Success(CommandSuccess::OrderListCreated(id)) => id,
        other => panic!("{other:?}"),
    };
    let ship = match sim.process_command(Command::PurchaseVehicle {
        company_id: company,
        engine_id: EngineID(1),
        kind: VehicleKind::Ship,
        position: TileIndex::new(2, 2),
        order_list_id: list,
    }) {
        CommandResult::Success(CommandSuccess::VehiclePurchased(id)) => id,
        other => panic!("{other:?}"),
    };
    (sim, company, a, b, ship)
}

fn total_cargo(sim: &Simulator) -> u64 {
    let waiting: u64 = sim
        .world
        .stations
        .values()
        .flat_map(|s| &s.goods)
        .map(|g| g.amount.0 as u64 + g.delivered_since_last_visit.0 as u64)
        .sum();
    let aboard: u64 = sim
        .world
        .vehicles
        .values()
        .flat_map(|v| &v.cargo)
        .map(|(_, a)| a.0 as u64)
        .sum();
    waiting + aboard
}

#[test]
fn ids_are_dense_from_zero() {
    let (sim, company, a, b, ship) = harbour();
    assert_eq!(company, CompanyID(0));
    assert_eq!(a, StationID(0));
    assert_eq!(b, StationID(1));
    assert_eq!(ship, VehicleID(0));
    assert_eq!(sim.world.companies.get(&0).unwrap().money, Money(20000 - 2000 - 5000));
    // New stations get an entry for every known cargo type.
    assert_eq!(sim.world.stations.get(&0).unwrap().goods, vec![GoodsEntry::new(CargoType(1))]);
}

#[test]
fn load_then_unload_conserves_cargo_and_pays() {
    let (mut sim, _company, a, b, ship) = harbour();
    sim.world.stations.get_mut(&a.0).unwrap().goods[0].amount = CargoAmount(25);
    assert_eq!(total_cargo(&sim), 25);

    // Asking for more than is waiting moves what is waiting.
    let r = sim.process_command(Command::LoadCargo {
        vehicle_id: ship,
        station_id: a,
        cargo_type: CargoType(1),
        amount: CargoAmount(100),
    });
    assert_eq!(r, CommandResult::Success(CommandSuccess::CargoLoaded { transferred: CargoAmount(25) }));
    assert_eq!(total_cargo(&sim), 25);
    assert_eq!(sim.world.vehicles.get(&ship.0).unwrap().cargo, vec![(CargoType(1), CargoAmount(25))]);

    // Nothing left to load.
    let r = sim.process_command(Command::LoadCargo {
        vehicle_id: ship,
        station_id: a,
        cargo_type: CargoType(1),
        amount: CargoAmount(1),
    });
    assert_eq!(r, CommandResult::Failure(CommandFailure::NoCargoAvailable));

    // Not at the other dock yet.
    let r = sim.process_command(Command::UnloadCargo {
        vehicle_id: ship,
        station_id: b,
        cargo_type: CargoType(1),
        amount: CargoAmount(10),
    });
    assert!(matches!(r, CommandResult::Failure(CommandFailure::InvalidPlacement(ref m)) if m == "Vehicle is not positioned at station"));

    sim.world.vehicles.get_mut(&ship.0).unwrap().position = TileIndex::new(4, 2);
    let before = sim.world.companies.get(&0).unwrap().money;
    let r = sim.process_command(Command::UnloadCargo {
        vehicle_id: ship,
        station_id: b,
        cargo_type: CargoType(1),
        amount: CargoAmount(10),
    });
    assert_eq!(
        r,
        CommandResult::Success(CommandSuccess::CargoUnloaded {
            transferred: CargoAmount(10),
            revenue: Money(100),
        })
    );
    assert_eq!(sim.world.companies.get(&0).unwrap().money, Money(before.0 + 100));
    assert_eq!(sim.world.stations.get(&b.0).unwrap().goods[0].delivered_since_last_visit, CargoAmount(10));
    assert_eq!(sim.world.vehicles.get(&ship.0).unwrap().cargo, vec![(CargoType(1), CargoAmount(15))]);
    assert_eq!(total_cargo(&sim), 25);
}

#[test]
fn transfer_refusals_name_the_missing_entity() {
    let (mut sim, _, a, _, ship) = harbour();
    let r = sim.process_command(Command::LoadCargo {
        vehicle_id: VehicleID(77),
        station_id: a,
        cargo_type: CargoType(1),
        amount: CargoAmount(1),
    });
    assert_eq!(r, CommandResult::Failure(CommandFailure::VehicleNotFound(VehicleID(77))));
    let r = sim.process_command(Command::UnloadCargo {
        vehicle_id: ship,
        station_id: StationID(77),
        cargo_type: CargoType(1),
        amount: CargoAmount(1),
    });
    assert_eq!(r, CommandResult::Failure(CommandFailure::StationNotFound(StationID(77))));
    let r = sim.process_command(Command::UnloadCargo {
        vehicle_id: ship,
        station_id: a,
        cargo_type: CargoType(1),
        amount: CargoAmount(1),
    });
    assert_eq!(r, CommandResult::Failure(CommandFailure::NoCargoAvailable));
}

#[test]
fn purchase_and_order_refusals() {
    let (mut sim, company, _, _, _) = harbour();
    let r = sim.process_command(Command::PurchaseVehicle {
        company_id: company,
        engine_id: EngineID(1),
        kind: VehicleKind::Ship,
        position: TileIndex::new(2, 2),
        order_list_id: OrderListID(50),
    });
    assert_eq!(r, CommandResult::Failure(CommandFailure::OrderListNotFound(OrderListID(50))));
    let r = sim.process_command(Command::PurchaseVehicle {
        company_id: company,
        engine_id: EngineID(1),
        kind: VehicleKind::Ship,
        position: TileIndex::new(20, 2),
        order_list_id: OrderListID(0),
    });
    assert_eq!(r, CommandResult::Failure(CommandFailure::OutOfBounds(TileIndex::new(20, 2))));
    let r = sim.process_command(Command::PurchaseVehicle {
        company_id: CompanyID(9),
        engine_id: EngineID(1),
        kind: VehicleKind::Ship,
        position: TileIndex::new(2, 2),
        order_list_id: OrderListID(0),
    });
    assert_eq!(r, CommandResult::Failure(CommandFailure::CompanyNotFound(CompanyID(9))));
    // 13000 left: two more ships fit, the third does not.
    for _ in 0..2 {
        assert!(sim
            .process_command(Command::PurchaseVehicle {
                company_id: company,
                engine_id: EngineID(1),
                kind: VehicleKind::Ship,
                position: TileIndex::new(2, 2),
                order_list_id: OrderListID(0),
            })
            .is_success());
    }
    let r = sim.process_command(Command::PurchaseVehicle {
        company_id: company,
        engine_id: EngineID(1),
        kind: VehicleKind::Ship,
        position: TileIndex::new(2, 2),
        order_list_id: OrderListID(0),
    });
    assert_eq!(
        r,
        CommandResult::Failure(CommandFailure::InsufficientFunds { required: Money(5000), available: Money(3000) })
    );
    let r = sim.process_command(Command::AddOrderToList {
        order_list_id: OrderListID(8),
        order: OrderType::NoOrder,
    });
    assert_eq!(r, CommandResult::Failure(CommandFailure::OrderListNotFound(OrderListID(8))));
    let r = sim.process_command(Command::AddOrderToList {
        order_list_id: OrderListID(0),
        order: OrderType::WaitTime(4),
    });
    assert_eq!(r, CommandResult::Success(CommandSuccess::OrderAdded));
    assert_eq!(sim.world.order_lists.get(&0).unwrap(), &vec![OrderType::WaitTime(4)]);
}

#[test]
fn station_refusals() {
    let (mut sim, company, _, _, _) = harbour();
    let r = sim.process_command(Command::BuildStation {
        company_id: company,
        name: "Far".to_string(),
        tiles: vec![TileIndex::new(1, 1), TileIndex::new(11, 1)],
    });
    assert_eq!(r, CommandResult::Failure(CommandFailure::OutOfBounds(TileIndex::new(11, 1))));
    let r = sim.process_command(Command::BuildStation {
        company_id: company,
        name: "Twice".to_string(),
        tiles: vec![TileIndex::new(1, 1), TileIndex::new(4, 2)],
    });
    assert_eq!(r, CommandResult::Failure(CommandFailure::TileOccupied(TileIndex::new(4, 2))));
    let r = sim.process_command(Command::BuildStation {
        company_id: company,
        name: "None".to_string(),
        tiles: vec![],
    });
    assert!(r.is_failure());
    assert_eq!(sim.world.stations.len(), 2);
}

#[test]
fn rebuilt_index_matches_station_tiles() {
    let (mut sim, _, a, b, _) = harbour();
    sim.world.tile_to_station.clear();
    sim.world.tile_to_station.insert(tile_key(TileIndex::new(9, 9)), StationID(5));
    sim.world.rebuild_derived_indexes();
    assert_eq!(sim.world.tile_to_station.len(), 2);
    assert_eq!(sim.world.tile_to_station.get(&tile_key(TileIndex::new(2, 2))), Some(&a));
    assert_eq!(sim.world.tile_to_station.get(&tile_key(TileIndex::new(4, 2))), Some(&b));
    assert_eq!(sim.world.get_station_at_tile(&TileIndex::new(9, 9)), None);
    assert_eq!(sim.world.get_station_at_tile(&TileIndex::new(4, 2)).map(|s| s.id), Some(b));
    assert_ne!(tile_key(TileIndex::new(1, 0)), tile_key(TileIndex::new(0, 1)));
}

#[test]
fn tick_advances_clock_and_clears_queue() {
    let (mut sim, _, _, _, _) = harbour();
    assert_eq!(sim.world.tick.0, 0);
    let id = sim.enqueue_command(Command::CreateOrderList {}, "t".to_string(), 0).unwrap();
    assert_eq!(sim.command_queue.len(), 1);
    sim.tick();
    assert_eq!(sim.world.tick.0, 1);
    assert!(sim.command_queue.is_empty());
    let out = sim.drain_outcomes();
    assert_eq!(out.len(), 1);
    assert_eq!(out[0].0, id);
    assert_eq!(out[0].1.tick.0, 0);
    assert_eq!(out[0].1.result, CommandResult::Success(CommandSuccess::OrderListCreated(OrderListID(1))));
    assert!(sim.outcomes.is_empty());
}

#[test]
fn enqueue_refuses_when_ids_run_out() {
    let mut sim = Simulator::new(MapSize::new(2, 2));
    sim.next_submission_id = u64::MAX;
    assert_eq!(
        sim.enqueue_command(Command::CreateOrderList {}, "t".to_string(), 1),
        Err(EnqueueError::SequenceExhausted)
    );
    assert!(sim.command_queue.is_empty());
}

#[test]
fn id_allocators() {
    let (sim, _, _, _, _) = harbour();
    assert_eq!(sim.next_company_id_checked(), Ok(CompanyID(1)));
    assert_eq!(sim.next_station_id_checked(), Ok(StationID(2)));
    assert_eq!(sim.next_vehicle_id_checked(), Ok(VehicleID(1)));
    assert_eq!(sim.next_order_list_id_checked(), Ok(OrderListID(1)));
}

#[test]
fn step_towards_moves_x_first_then_y() {
    let map = TileMap::new(MapSize::new(10, 10));
    assert_eq!(step_towards(TileIndex::new(2, 2), TileIndex::new(5, 7), &map), TileIndex::new(3, 2));
    assert_eq!(step_towards(TileIndex::new(5, 2), TileIndex::new(5, 7), &map), TileIndex::new(5, 3));
    assert_eq!(step_towards(TileIndex::new(5, 7), TileIndex::new(2, 0), &map), TileIndex::new(4, 7));
    assert_eq!(step_towards(TileIndex::new(5, 7), TileIndex::new(5, 7), &map), TileIndex::new(5, 7));
    // A target outside the map: stepping out is not allowed.
    assert_eq!(step_towards(TileIndex::new(9, 9), TileIndex::new(12, 9), &map), TileIndex::new(9, 9));
}

#[test]
fn ticks_keep_the_cargo_of_the_world() {
    let (mut sim, _company, a, b, ship) = harbour();
    sim.world.stations.get_mut(&a.0).unwrap().goods[0].amount = CargoAmount(25);
    let list = sim.world.vehicles.get(&ship.0).unwrap().orders;
    for station_id in [b, a] {
        let r = sim.process_command(Command::AddOrderToList {
            order_list_id: list,
            order: OrderType::GoToStation { station_id, conditions: None },
        });
        assert_eq!(r, CommandResult::Success(CommandSuccess::OrderAdded));
    }
    sim.enqueue_command(
        Command::LoadCargo {
            vehicle_id: ship,
            station_id: a,
            cargo_type: CargoType(1),
            amount: CargoAmount(10),
        },
        "test".to_string(),
        1,
    )
    .unwrap();
    assert_eq!(total_cargo(&sim), 25);
    for _ in 0..12 {
        sim.tick();
        assert_eq!(total_cargo(&sim), 25);
    }
}

#[test]
fn companies_can_be_changed_in_place() {
    let (mut sim, company, _, _, _) = harbour();
    sim.world.get_company_mut(&company).unwrap().money = Money(5);
    assert_eq!(sim.world.get_company(&company).unwrap().money, Money(5));
    assert!(sim.world.get_company_mut(&CompanyID(9)).is_none());
    assert_eq!(sim.world.companies.len(), 1);
}

#[test]
fn station_records_agree_after_building_and_ticking() {
    let (mut sim, _company, a, b, _ship) = harbour();
    sim.tick();
    for (key, sid) in sim.world.tile_to_station.iter() {
        let station = sim.world.stations.get(&sid.0).unwrap();
        let tile = station.tiles.iter().find(|t| tile_key(**t) == *key).copied().unwrap();
        assert_eq!(sim.world.map.station_at(tile), Some(*sid));
    }
    for (k, station) in sim.world.stations.iter() {
        assert_eq!(station.id.0, *k);
        for t in station.tiles.iter() {
            assert_eq!(sim.world.tile_to_station.get(&tile_key(*t)), Some(&station.id));
        }
    }
    assert_eq!(sim.world.tile_to_station.len(), 2);
    assert_eq!(sim.world.map.station_at(TileIndex::new(2, 2)), Some(a));
    assert_eq!(sim.world.map.station_at(TileIndex::new(4, 2)), Some(b));
}
