use transport_core::{
    CargoAmount, CargoType, Command, CommandFailure, CommandResult, CommandSuccess, Company,
    CompanyID, EngineID, GoodsEntry, MapSize, Money, OrderIndex, OrderListID, OrderType,
    Simulator, TileIndex, Vehicle, VehicleID, VehicleKind, VehicleState,
};

#[test]
fn test_failed_command_leaves_world_unmutated() {
    let mut sim = Simulator::new(MapSize::new(10, 10));
    let failed_cmd = Command::BuildStation {
        company_id: CompanyID(99), // non-existent company
        name: "Test Dock".to_string(),
        tiles: vec![TileIndex::new(0, 0)],
    };

    // Immediate path
    let result = sim.process_command(failed_cmd.clone());
    assert_eq!(
        result,
        CommandResult::Failure(CommandFailure::CompanyNotFound(CompanyID(99)))
    );
    assert_eq!(sim.world.companies.len(), 0);
    assert_eq!(sim.world.stations.len(), 0);

    // Queued path
    let sub_id = sim
        .enqueue_command(failed_cmd, "test".to_string(), 1)
        .unwrap();
    sim.tick();

    let outcomes: Vec<_> = sim.drain_outcomes().into_iter().collect();
    assert_eq!(outcomes.len(), 1);
    assert_eq!(outcomes[0].0, sub_id);
    assert_eq!(
        outcomes[0].1.result,
        CommandResult::Failure(CommandFailure::CompanyNotFound(CompanyID(99)))
    );
    assert_eq!(sim.world.companies.len(), 0);
    assert_eq!(sim.world.stations.len(), 0);
}

#[test]
fn test_immediate_and_queued_equivalence() {
    let mut sim_imm = Simulator::new(MapSize::new(10, 10));
    let mut sim_queued = Simulator::new(MapSize::new(10, 10));

    let cmd = Command::CreateCompany {
        name: "Transport Co".to_string(),
        money: Money(50000),
        color: 0x00FF00,
    };

    let imm_res = sim_imm.process_command(cmd.clone());
    let sub_id = sim_queued
        .enqueue_command(cmd, "test".to_string(), 5)
        .unwrap();
    sim_queued.tick();

    let outcomes: Vec<_> = sim_queued.drain_outcomes().into_iter().collect();
    assert_eq!(outcomes.len(), 1);
    assert_eq!(outcomes[0].0, sub_id);
    assert_eq!(imm_res, outcomes[0].1.result);

    assert_eq!(sim_imm.world.companies.len(), 1);
    assert_eq!(sim_queued.world.companies.len(), 1);
    let id_imm = sim_imm.world.current_company_id;
    let id_queued = sim_queued.world.current_company_id;
    assert_eq!(id_imm, id_queued);
    assert_eq!(
        sim_imm.world.get_company(&id_imm),
        sim_queued.world.get_company(&id_queued)
    );
}

#[test]
fn test_created_company_id_returned() {
    let mut sim = Simulator::new(MapSize::new(10, 10));
    let cmd = Command::CreateCompany {
        name: "First Co".to_string(),
        money: Money(10000),
        color: 0xFF0000,
    };

    let res = sim.process_command(cmd);
    match res {
        CommandResult::Success(CommandSuccess::CompanyCreated(id)) => {
            assert_eq!(id, CompanyID(0));
            assert_eq!(sim.world.companies.get(&id.0).unwrap().name, "First Co");
        }
        other => panic!("Expected CompanyCreated, got {other:?}"),
    }
}

#[test]
fn test_priority_and_fifo_order() {
    let mut sim = Simulator::new(MapSize::new(10, 10));

    // Submit low priority, high priority, and equal priority
    let id_low = sim
        .enqueue_command(
            Command::CreateCompany {
                name: "Low".to_string(),
                money: Money(1),
                color: 1,
            },
            "test".to_string(),
            1,
        )
        .unwrap();

    let id_high = sim
        .enqueue_command(
            Command::CreateCompany {
                name: "High".to_string(),
                money: Money(2),
                color: 2,
            },
            "test".to_string(),
            10,
        )
        .unwrap();

    let id_high_second = sim
        .enqueue_command(
            Command::CreateCompany {
                name: "High2".to_string(),
                money: Money(3),
                color: 3,
            },
            "test".to_string(),
            10,
        )
        .unwrap();

    assert_eq!(sim.command_queue[0].submission_id, id_high);
    assert_eq!(sim.command_queue[1].submission_id, id_high_second);
    assert_eq!(sim.command_queue[2].submission_id, id_low);

    sim.tick();

    let mut outcomes: Vec<_> = sim.drain_outcomes().into_iter().collect();
    outcomes.sort_by_key(|o| o.1.execution_order);

    assert_eq!(outcomes[0].0, id_high);
    assert_eq!(outcomes[0].1.execution_order, 0);

    assert_eq!(outcomes[1].0, id_high_second);
    assert_eq!(outcomes[1].1.execution_order, 1);

    assert_eq!(outcomes[2].0, id_low);
    assert_eq!(outcomes[2].1.execution_order, 2);
}

#[test]
fn test_outcomes_drain_exactly_once() {
    let mut sim = Simulator::new(MapSize::new(10, 10));
    sim.enqueue_command(
        Command::CreateCompany {
            name: "DrainTest".to_string(),
            money: Money(100),
            color: 1,
        },
        "test".to_string(),
        1,
    )
    .unwrap();

    sim.tick();
    let first_drain: Vec<_> = sim.drain_outcomes().into_iter().collect();
    assert_eq!(first_drain.len(), 1);

    let second_drain: Vec<_> = sim.drain_outcomes().into_iter().collect();
    assert_eq!(second_drain.len(), 0);
}

#[test]
fn test_company_id_exhaustion_handled() {
    let mut sim = Simulator::new(MapSize::new(10, 10));
    // Force world to near exhaustion
    let near_max_id = CompanyID(CompanyID::INVALID_RAW - 1);
    sim.world.companies.insert(
        near_max_id.0,
        Company::new(near_max_id, "MaxCo".to_string(), Money(1), 1),
    );

    let res = sim.process_command(Command::CreateCompany {
        name: "OverflowCo".to_string(),
        money: Money(1),
        color: 2,
    });

    assert_eq!(
        res,
        CommandResult::Failure(CommandFailure::CompanyIdExhausted)
    );
    assert_eq!(sim.world.companies.len(), 1);
}

#[test]
fn test_empty_order_list_stays_idle() {
    let mut sim = Simulator::new(MapSize::new(10, 10));
    let list_id = OrderListID(1);
    sim.world.order_lists.insert(list_id.0, Vec::new());

    let vehicle_id = VehicleID(1);
    let vehicle = Vehicle::new(
        vehicle_id,
        CompanyID(0),
        EngineID(0),
        VehicleKind::Ship,
        TileIndex::new(0, 0),
        list_id,
    );
    sim.world.vehicles.insert(vehicle_id.0, vehicle);

    sim.tick();

    let v = sim.world.vehicles.get(&vehicle_id.0).unwrap();
    assert_eq!(v.current_order, None);
    assert_eq!(v.state, VehicleState::Idle);
}

#[test]
fn test_wait_time_order_progression() {
    let mut sim = Simulator::new(MapSize::new(10, 10));
    let list_id = OrderListID(1);
    sim.world
        .order_lists
        .insert(list_id.0, vec![OrderType::WaitTime(3), OrderType::NoOrder]);

    let vehicle_id = VehicleID(1);
    let vehicle = Vehicle::new(
        vehicle_id,
        CompanyID(0),
        EngineID(0),
        VehicleKind::Ship,
        TileIndex::new(0, 0),
        list_id,
    );
    sim.world.vehicles.insert(vehicle_id.0, vehicle);

    // Tick 1: enters wait state
    sim.tick();
    let v = sim.world.vehicles.get(&vehicle_id.0).unwrap();
    assert_eq!(v.current_order, Some(OrderIndex(0)));
    assert_eq!(v.state, VehicleState::Waiting(2));

    // Tick 2: continues wait
    sim.tick();
    let v = sim.world.vehicles.get(&vehicle_id.0).unwrap();
    assert_eq!(v.current_order, Some(OrderIndex(0)));
    assert_eq!(v.state, VehicleState::Waiting(1));

    // Tick 3: wait finishes -> advances to order 1 (NoOrder)
    sim.tick();
    let v = sim.world.vehicles.get(&vehicle_id.0).unwrap();
    assert_eq!(v.current_order, Some(OrderIndex(1)));

    // Tick 4: executes NoOrder -> becomes Idle with current_order None
    sim.tick();
    let v = sim.world.vehicles.get(&vehicle_id.0).unwrap();
    assert_eq!(v.current_order, None);
    assert_eq!(v.state, VehicleState::Idle);
}

#[test]
fn test_orders_with_ids_above_999() {
    let mut sim = Simulator::new(MapSize::new(10, 10));
    // OrderListID well above legacy 999 threshold
    let list_id = OrderListID(5000);
    sim.world.order_lists.insert(
        list_id.0,
        vec![OrderType::WaitTime(1), OrderType::WaitTime(1)],
    );

    let vehicle_id = VehicleID(10000);
    let vehicle = Vehicle::new(
        vehicle_id,
        CompanyID(0),
        EngineID(0),
        VehicleKind::Ship,
        TileIndex::new(0, 0),
        list_id,
    );
    sim.world.vehicles.insert(vehicle_id.0, vehicle);

    // Tick 1: completes 1-tick wait and transitions to order 1
    sim.tick();
    let v = sim.world.vehicles.get(&vehicle_id.0).unwrap();
    assert_eq!(v.current_order, Some(OrderIndex(1)));

    // Tick 2: completes second 1-tick wait and wraps to order 0
    sim.tick();
    let v = sim.world.vehicles.get(&vehicle_id.0).unwrap();
    assert_eq!(v.current_order, Some(OrderIndex(0)));
}

#[test]
fn test_deterministic_vehicle_processing_order() {
    let mut sim = Simulator::new(MapSize::new(10, 10));
    let list_id = OrderListID(1);
    sim.world
        .order_lists
        .insert(list_id.0, vec![OrderType::WaitTime(10)]);

    // Insert in non-sorted order
    for id in [VehicleID(40), VehicleID(2), VehicleID(15), VehicleID(1)] {
        sim.world.vehicles.insert(
            id.0,
            Vehicle::new(
                id,
                CompanyID(0),
                EngineID(0),
                VehicleKind::Ship,
                TileIndex::new(0, 0),
                list_id,
            ),
        );
    }

    sim.tick();
    // All vehicles must have been processed into Waiting(9)
    for id in [VehicleID(1), VehicleID(2), VehicleID(15), VehicleID(40)] {
        let v = sim.world.vehicles.get(&id.0).unwrap();
        assert_eq!(v.state, VehicleState::Waiting(9));
    }
}

#[test]
fn test_end_to_end_ship_transport_slice() {
    let mut sim = Simulator::new(MapSize::new(10, 10));

    // 1. Create company with $20,000
    let comp_res = sim.process_command(Command::CreateCompany {
        name: "Harbor Express".to_string(),
        money: Money(20000),
        color: 0x0000FF,
    });
    let company_id = match comp_res {
        CommandResult::Success(CommandSuccess::CompanyCreated(id)) => id,
        _ => panic!("Expected company created"),
    };

    // 2. Build Dock A at (2, 2)
    let dock_a_res = sim.process_command(Command::BuildStation {
        company_id,
        name: "Port Alpha".to_string(),
        tiles: vec![TileIndex::new(2, 2)],
    });
    let dock_a_id = match dock_a_res {
        CommandResult::Success(CommandSuccess::StationBuilt(id)) => id,
        _ => panic!("Expected station built"),
    };

    // 3. Build Dock B at (6, 2)
    let dock_b_res = sim.process_command(Command::BuildStation {
        company_id,
        name: "Port Beta".to_string(),
        tiles: vec![TileIndex::new(6, 2)],
    });
    let dock_b_id = match dock_b_res {
        CommandResult::Success(CommandSuccess::StationBuilt(id)) => id,
        _ => panic!("Expected station built"),
    };

    // Station indexing: map and world must agree on station locations
    assert_eq!(
        sim.world.map.station_at(TileIndex::new(2, 2)),
        Some(dock_a_id)
    );
    assert_eq!(
        sim.world.map.station_at(TileIndex::new(6, 2)),
        Some(dock_b_id)
    );
    assert_eq!(
        sim.world
            .get_station_at_tile(&TileIndex::new(2, 2))
            .map(|s| s.id),
        Some(dock_a_id)
    );
    assert_eq!(
        sim.world
            .get_station_at_tile(&TileIndex::new(6, 2))
            .map(|s| s.id),
        Some(dock_b_id)
    );

    // Stock Dock A with 30 units of Grain (CargoType 1)
    let initial_cargo = 30u32;
    let station_a = sim.world.stations.get_mut(&dock_a_id.0).unwrap();
    if let Some(goods) = station_a
        .goods
        .iter_mut()
        .find(|g| g.cargo_type == CargoType(1))
    {
        goods.amount = CargoAmount(initial_cargo);
    } else {
        let mut g = GoodsEntry::new(CargoType(1));
        g.amount = CargoAmount(initial_cargo);
        station_a.goods.push(g);
    }

    // 4. Create OrderList: GoToStation(B), then GoToStation(A)
    let list_res = sim.process_command(Command::CreateOrderList {});
    let order_list_id = match list_res {
        CommandResult::Success(CommandSuccess::OrderListCreated(id)) => id,
        _ => panic!("Expected order list created"),
    };
    sim.process_command(Command::AddOrderToList {
        order_list_id,
        order: OrderType::GoToStation {
            station_id: dock_a_id,
            conditions: None,
        },
    });
    sim.process_command(Command::AddOrderToList {
        order_list_id,
        order: OrderType::GoToStation {
            station_id: dock_b_id,
            conditions: None,
        },
    });

    // 5. Purchase Ship at Dock A (2, 2)
    let balance_before_ship = sim.world.companies.get(&company_id.0).unwrap().money;
    let ship_res = sim.process_command(Command::PurchaseVehicle {
        company_id,
        engine_id: EngineID(1),
        kind: VehicleKind::Ship,
        position: TileIndex::new(2, 2),
        order_list_id,
    });
    let vehicle_id = match ship_res {
        CommandResult::Success(CommandSuccess::VehiclePurchased(id)) => id,
        _ => panic!("Expected ship purchased"),
    };
    let balance_after_ship = sim.world.companies.get(&company_id.0).unwrap().money;
    assert_eq!(balance_before_ship.0 - balance_after_ship.0, 5000);

    // 6. First tick at Dock A: vehicle should transition to Loading and load the 30 units of grain
    sim.tick();
    let ship = sim.world.vehicles.get(&vehicle_id.0).unwrap();
    let ship_cargo: u32 = ship.cargo.iter().map(|(_, a)| a.0).sum();
    let dock_a_waiting = sim
        .world
        .stations
        .get(&dock_a_id.0)
        .unwrap()
        .goods
        .iter()
        .find(|g| g.cargo_type == CargoType(1))
        .unwrap()
        .amount
        .0;
    assert_eq!(ship_cargo, 30);
    assert_eq!(dock_a_waiting, 0);

    // Advance simulation until ship arrives at Dock B
    for _ in 0..10 {
        sim.tick();
        if sim.world.vehicles.get(&vehicle_id.0).unwrap().position == TileIndex::new(6, 2) {
            break;
        }
    }
    let ship_at_dest = sim.world.vehicles.get(&vehicle_id.0).unwrap();
    assert_eq!(ship_at_dest.position, TileIndex::new(6, 2));

    // Advance 1 more tick to process cargo delivery and unloading
    sim.tick();

    // 7. Verify delivery, company revenue, and cargo conservation
    let dock_b_delivered = sim
        .world
        .stations
        .get(&dock_b_id.0)
        .unwrap()
        .goods
        .iter()
        .find(|g| g.cargo_type == CargoType(1))
        .map(|g| g.delivered_since_last_visit.0)
        .unwrap_or(0);
    assert_eq!(
        dock_b_delivered, 30,
        "All 30 units must be delivered at Dock B"
    );

    // Company must have received 30 * 10 = $300 revenue
    let final_balance = sim.world.companies.get(&company_id.0).unwrap().money;
    assert_eq!(final_balance.0, balance_after_ship.0 + 300);

    // Cargo Conservation Invariant: total cargo units never created or destroyed
    let waiting_total: u32 = sim
        .world
        .stations
        .values()
        .flat_map(|s| &s.goods)
        .map(|g| g.amount.0)
        .sum();
    let on_vehicle_total: u32 = sim
        .world
        .vehicles
        .values()
        .flat_map(|v| &v.cargo)
        .map(|(_, a)| a.0)
        .sum();
    let delivered_total: u32 = sim
        .world
        .stations
        .values()
        .flat_map(|s| &s.goods)
        .map(|g| g.delivered_since_last_visit.0)
        .sum();
    assert_eq!(
        waiting_total + on_vehicle_total + delivered_total,
        initial_cargo
    );
}

#[test]
fn test_station_tile_overlap_prevention() {
    let mut sim = Simulator::new(MapSize::new(10, 10));
    let company_res = sim.process_command(Command::CreateCompany {
        name: "Port Authority".to_string(),
        money: Money(10000),
        color: 0xFF0000,
    });
    let company_id = match company_res {
        CommandResult::Success(CommandSuccess::CompanyCreated(id)) => id,
        _ => panic!("Expected company created"),
    };

    // Build first station at (3, 3)
    let res1 = sim.process_command(Command::BuildStation {
        company_id,
        name: "First Dock".to_string(),
        tiles: vec![TileIndex::new(3, 3)],
    });
    assert!(res1.is_success());

    // Attempt to build second station overlapping (3, 3)
    let res2 = sim.process_command(Command::BuildStation {
        company_id,
        name: "Overlapping Dock".to_string(),
        tiles: vec![TileIndex::new(3, 3)],
    });
    assert_eq!(
        res2,
        CommandResult::Failure(CommandFailure::TileOccupied(TileIndex::new(3, 3)))
    );
    assert_eq!(sim.world.stations.len(), 1);
}

#[test]
fn test_insufficient_funds_rejection() {
    let mut sim = Simulator::new(MapSize::new(10, 10));
    let company_res = sim.process_command(Command::CreateCompany {
        name: "Broke Shipping".to_string(),
        money: Money(500), // only $500 available
        color: 0x00FF00,
    });
    let company_id = match company_res {
        CommandResult::Success(CommandSuccess::CompanyCreated(id)) => id,
        _ => panic!("Expected company created"),
    };

    // Station costs $1000 per tile -> must fail with InsufficientFunds
    let res = sim.process_command(Command::BuildStation {
        company_id,
        name: "Expensive Dock".to_string(),
        tiles: vec![TileIndex::new(1, 1)],
    });
    assert_eq!(
        res,
        CommandResult::Failure(CommandFailure::InsufficientFunds {
            required: Money(1000),
            available: Money(500),
        })
    );
    assert_eq!(sim.world.stations.len(), 0);
    assert_eq!(
        sim.world.companies.get(&company_id.0).unwrap().money,
        Money(500)
    );
}
