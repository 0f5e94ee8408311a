use std::sync::{Arc, Mutex};
use transport_core::sim::world::tile_key;
use transport_core::{
    CapabilityToken, CargoAmount, CargoType, Company, CompanyID, DriverError, EconomyDriver,
    EngineID, GoodsEntry, KernelContext, KernelIntent, LogisticsDriver, MapSize,
    Microkernel, Money, MovementDriver, OrderListID, OrderType, Phase, ServiceId,
    ServicePriority, Station, StationID, SubsystemDriver, TileIndex, Vehicle, VehicleID,
    VehicleKind, VehicleState,
};

struct TraceDriver {
    id: ServiceId,
    priority: ServicePriority,
    execution_trace: Arc<Mutex<Vec<ServiceId>>>,
}

impl SubsystemDriver for TraceDriver {
    fn id(&self) -> ServiceId {
        self.id
    }

    fn priority(&self) -> ServicePriority {
        self.priority
    }

    fn execute_phase(&mut self, phase: Phase, _ctx: &mut KernelContext) -> Result<(), DriverError> {
        if phase == Phase::Drivers {
            self.execution_trace.lock().unwrap().push(self.id);
        }
        Ok(())
    }
}

struct RogueDriver;

impl SubsystemDriver for RogueDriver {
    fn id(&self) -> ServiceId {
        ServiceId::Custom(99)
    }
    fn priority(&self) -> ServicePriority {
        ServicePriority::normal()
    }
    fn execute_phase(&mut self, phase: Phase, ctx: &mut KernelContext) -> Result<(), DriverError> {
        if phase == Phase::Drivers {
            // Token for Company 1 trying to deduct money from Company 2
            ctx.stage_intent(
                CapabilityToken::Company(CompanyID(1)),
                KernelIntent::DeductCost {
                    company_id: CompanyID(2),
                    amount: Money(500),
                },
            );
        }
        Ok(())
    }
}

/// Stages a list of intents under one token during the drivers phase.
struct StagingDriver {
    token: CapabilityToken,
    intents: Vec<KernelIntent>,
}

impl SubsystemDriver for StagingDriver {
    fn id(&self) -> ServiceId {
        ServiceId::Custom(7)
    }
    fn priority(&self) -> ServicePriority {
        ServicePriority::normal()
    }
    fn execute_phase(&mut self, phase: Phase, ctx: &mut KernelContext) -> Result<(), DriverError> {
        if phase == Phase::Drivers {
            for i in &self.intents {
                ctx.stage_intent(self.token, *i);
            }
        }
        Ok(())
    }
}

#[test]
fn test_microkernel_deterministic_driver_priority_order() {
    let mut kernel = Microkernel::new(MapSize::new(10, 10));
    let trace = Arc::new(Mutex::new(Vec::new()));

    // Register drivers out of priority order: Low, Critical, High
    kernel.register_driver(TraceDriver {
        id: ServiceId::Economy,
        priority: ServicePriority::low(),
        execution_trace: Arc::clone(&trace),
    });
    kernel.register_driver(TraceDriver {
        id: ServiceId::Storage,
        priority: ServicePriority::critical(),
        execution_trace: Arc::clone(&trace),
    });
    kernel.register_driver(TraceDriver {
        id: ServiceId::Movement,
        priority: ServicePriority::high(),
        execution_trace: Arc::clone(&trace),
    });

    kernel.tick().expect("Microkernel tick failed");

    let recorded = trace.lock().unwrap().clone();
    assert_eq!(
        recorded,
        vec![ServiceId::Storage, ServiceId::Movement, ServiceId::Economy],
        "Drivers must execute strictly in priority order (Critical -> High -> Low)"
    );
}

#[test]
fn test_microkernel_capability_enforcement_rejects_unauthorized_mutation() {
    let mut kernel = Microkernel::new(MapSize::new(10, 10));
    kernel.world.companies.insert(
        CompanyID(1).0,
        Company::new(CompanyID(1), "Co 1".into(), Money(1000), 0x0000FF),
    );
    kernel.world.companies.insert(
        CompanyID(2).0,
        Company::new(CompanyID(2), "Co 2".into(), Money(1000), 0xFF0000),
    );

    kernel.register_driver(RogueDriver);
    let res = kernel.tick();

    assert!(
        res.is_err(),
        "Rogue driver attempting unauthorized cross-company mutation must be rejected"
    );
    assert_eq!(
        kernel.world.companies.get(&CompanyID(2).0).unwrap().money,
        Money(1000),
        "Company 2 treasury must remain untouched"
    );
}

#[test]
fn test_microkernel_movement_and_logistics_slice() {
    let mut kernel = Microkernel::new(MapSize::new(30, 30));
    let comp_id = CompanyID(0);
    kernel.world.companies.insert(
        comp_id.0,
        Company::new(comp_id, "Marine Ltd".into(), Money(50000), 0x0000FF),
    );

    // Create 2 dock stations: (5, 5) and (8, 5)
    let st1_id = StationID(0);
    let st2_id = StationID(1);
    let mut st1 = Station::new(st1_id, "Dock Alpha".into(), vec![TileIndex::new(5, 5)]);
    st1.company_id = Some(comp_id);
    let mut goods1 = GoodsEntry::new(CargoType(1));
    goods1.amount = CargoAmount(40);
    st1.goods.push(goods1);

    let mut st2 = Station::new(st2_id, "Dock Beta".into(), vec![TileIndex::new(8, 5)]);
    st2.company_id = Some(comp_id);

    kernel.world.stations.insert(st1_id.0, st1);
    kernel.world.stations.insert(st2_id.0, st2);
    kernel
        .world
        .map
        .set_station_at(TileIndex::new(5, 5), st1_id, Some(comp_id))
        .unwrap();
    kernel
        .world
        .map
        .set_station_at(TileIndex::new(8, 5), st2_id, Some(comp_id))
        .unwrap();
    kernel
        .world
        .tile_to_station
        .insert(tile_key(TileIndex::new(5, 5)), st1_id);
    kernel
        .world
        .tile_to_station
        .insert(tile_key(TileIndex::new(8, 5)), st2_id);

    // Schedule: First visit Dock Alpha (load), then Go to Dock Beta (unload)
    let o_list_id = OrderListID(0);
    kernel.world.order_lists.insert(
        o_list_id.0,
        vec![
            OrderType::GoToStation {
                station_id: st1_id,
                conditions: None,
            },
            OrderType::GoToStation {
                station_id: st2_id,
                conditions: None,
            },
        ],
    );

    let ship_id = VehicleID(0);
    let mut ship = Vehicle::new(
        ship_id,
        comp_id,
        EngineID(0),
        VehicleKind::Ship,
        TileIndex::new(5, 5),
        o_list_id,
    );
    ship.state = VehicleState::Idle;
    kernel.world.vehicles.insert(ship_id.0, ship);

    kernel.register_driver(MovementDriver::new());
    kernel.register_driver(LogisticsDriver::new());
    kernel.register_driver(EconomyDriver::new());

    // Tick 1: Ship at Dock Alpha: order 0 targets Dock Alpha -> transitions to Loading and loads 40 units
    kernel.tick().unwrap();
    let loaded = kernel.world.vehicles.get(&ship_id.0).unwrap().cargo.clone();
    assert_eq!(loaded.len(), 1);
    assert_eq!(loaded[0].1, CargoAmount(40));

    // Ticks: Ship travels towards Dock Beta until it reaches (8, 5)
    for _ in 0..10 {
        kernel.tick().unwrap();
        if kernel.world.vehicles.get(&ship_id.0).unwrap().position == TileIndex::new(8, 5) {
            break;
        }
    }

    let ship_pos = kernel.world.vehicles.get(&ship_id.0).unwrap().position;
    assert_eq!(
        ship_pos,
        TileIndex::new(8, 5),
        "Ship should reach Dock Beta"
    );

    // When at Dock Beta: Unload has happened and company earned delivery revenue
    let company_money = kernel.world.companies.get(&comp_id.0).unwrap().money;
    assert!(
        company_money.0 > 50000,
        "Company must earn delivery revenue on cargo delivery"
    );
}

#[test]
fn equal_priorities_keep_registration_order() {
    let mut kernel = Microkernel::new(MapSize::new(4, 4));
    let trace = Arc::new(Mutex::new(Vec::new()));
    for id in [ServiceId::Api, ServiceId::People, ServiceId::Custom(3)] {
        kernel.register_driver(TraceDriver {
            id,
            priority: ServicePriority::normal(),
            execution_trace: Arc::clone(&trace),
        });
    }
    kernel.register_driver(TraceDriver {
        id: ServiceId::Storage,
        priority: ServicePriority::high(),
        execution_trace: Arc::clone(&trace),
    });
    assert_eq!(kernel.drivers.len(), 4);
    kernel.tick().unwrap();
    assert_eq!(
        trace.lock().unwrap().clone(),
        vec![ServiceId::Storage, ServiceId::Api, ServiceId::People, ServiceId::Custom(3)]
    );
    assert_eq!(kernel.world.tick.0, 1);
}

#[test]
fn rejected_batch_applies_nothing_and_names_the_first_bad_token() {
    let mut kernel = Microkernel::new(MapSize::new(4, 4));
    kernel.world.companies.insert(1, Company::new(CompanyID(1), "A".into(), Money(1000), 1));
    kernel.world.companies.insert(2, Company::new(CompanyID(2), "B".into(), Money(1000), 2));
    // The first intent is authorised, the second is not: neither is applied.
    kernel.register_driver(StagingDriver {
        token: CapabilityToken::Company(CompanyID(1)),
        intents: vec![
            KernelIntent::DeductCost { company_id: CompanyID(1), amount: Money(100) },
            KernelIntent::DeductCost { company_id: CompanyID(2), amount: Money(100) },
        ],
    });
    let res = kernel.tick();
    assert_eq!(res, Err(DriverError::Unauthorized(CapabilityToken::Company(CompanyID(1)))));
    assert_eq!(kernel.world.companies.get(&1).unwrap().money, Money(1000));
    assert_eq!(kernel.world.companies.get(&2).unwrap().money, Money(1000));
    assert_eq!(kernel.world.tick.0, 0);
    assert!(kernel.intent_buffer.is_empty());
}

#[test]
fn authorised_intents_are_applied_in_order() {
    let mut kernel = Microkernel::new(MapSize::new(4, 4));
    kernel.world.companies.insert(1, Company::new(CompanyID(1), "A".into(), Money(1000), 1));
    kernel.register_driver(StagingDriver {
        token: CapabilityToken::System,
        intents: vec![
            KernelIntent::DeductCost { company_id: CompanyID(1), amount: Money(300) },
            KernelIntent::CreditRevenue { company_id: CompanyID(1), amount: Money(50) },
        ],
    });
    kernel.tick().unwrap();
    assert_eq!(kernel.world.companies.get(&1).unwrap().money, Money(750));
    assert_eq!(kernel.world.tick.0, 1);
}

#[test]
fn observer_token_cannot_mutate() {
    let mut kernel = Microkernel::new(MapSize::new(4, 4));
    kernel.world.companies.insert(1, Company::new(CompanyID(1), "A".into(), Money(10), 1));
    kernel.register_driver(StagingDriver {
        token: CapabilityToken::Observer,
        intents: vec![KernelIntent::CreditRevenue { company_id: CompanyID(1), amount: Money(5) }],
    });
    assert_eq!(kernel.tick(), Err(DriverError::Unauthorized(CapabilityToken::Observer)));
    assert_eq!(kernel.world.companies.get(&1).unwrap().money, Money(10));
}

#[test]
fn token_permissions() {
    let t = CapabilityToken::Company(CompanyID(4));
    assert!(t.can_mutate_company(CompanyID(4)));
    assert!(!t.can_mutate_company(CompanyID(5)));
    assert!(CapabilityToken::System.can_mutate_company(CompanyID(5)));
    assert!(!CapabilityToken::Observer.can_mutate_company(CompanyID(4)));
    assert!(CapabilityToken::System.is_system());
    assert!(CapabilityToken::Observer.is_observer());
}

#[test]
fn tick_without_drivers_only_advances_the_counter() {
    let mut kernel = Microkernel::new(MapSize::new(4, 4));
    assert_eq!(kernel.tick(), Ok(()));
    assert_eq!(kernel.world.tick.0, 1);
    kernel.world.tick = transport_core::Ticks(u32::MAX);
    assert_eq!(kernel.tick(), Err(DriverError::Internal("Tick counter exhausted".to_string())));
    assert_eq!(kernel.world.tick.0, u32::MAX);
}
