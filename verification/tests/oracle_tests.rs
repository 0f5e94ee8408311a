use transport_core::sim::world::tile_key;
use transport_core::{
    project_state_slice, CargoAmount, CargoType, Company, CompanyID, DivergenceDetector,
    EngineID, LogisticsDriver, MapSize, Microkernel, Money, MovementDriver, OracleTraceFrame,
    OrderListID, OrderType, Station, StationID, TileIndex, TraceRecorder, Vehicle, VehicleID,
    VehicleKind, VehicleState,
};

fn setup_standard_ship_voyage() -> (Microkernel, CompanyID, VehicleID, StationID, StationID) {
    let mut kernel = Microkernel::new(MapSize::new(20, 20));
    let company_id = CompanyID(1);
    kernel.world.companies.insert(
        company_id.0,
        Company::new(company_id, "Maritime Cargo".into(), Money(10000), 0x00FF00),
    );

    let dock_a = StationID(1);
    let dock_b = StationID(2);
    let tile_a = TileIndex::new(2, 2);
    let tile_b = TileIndex::new(6, 2);

    let mut st_a = Station::new(dock_a, "Port Origin".into(), vec![tile_a]);
    st_a.company_id = Some(company_id);
    let mut st_b = Station::new(dock_b, "Port Terminus".into(), vec![tile_b]);
    st_b.company_id = Some(company_id);

    kernel.world.stations.insert(dock_a.0, st_a);
    kernel.world.stations.insert(dock_b.0, st_b);
    kernel.world.map.set_station_at(tile_a, dock_a, Some(company_id)).unwrap();
    kernel.world.map.set_station_at(tile_b, dock_b, Some(company_id)).unwrap();
    kernel.world.tile_to_station.insert(tile_key(tile_a), dock_a);
    kernel.world.tile_to_station.insert(tile_key(tile_b), dock_b);

    let orders_id = OrderListID(1);
    kernel.world.order_lists.insert(
        orders_id.0,
        vec![OrderType::GoToStation {
            station_id: dock_b,
            conditions: None,
        }],
    );

    let ship_id = VehicleID(1);
    let mut ship = Vehicle::new(
        ship_id,
        company_id,
        EngineID(1),
        VehicleKind::Ship,
        tile_a,
        orders_id,
    );
    ship.cargo.push((CargoType(1), CargoAmount(40)));
    kernel.world.vehicles.insert(ship_id.0, ship);

    (kernel, company_id, ship_id, dock_a, dock_b)
}

fn record_voyage() -> Vec<OracleTraceFrame> {
    let (mut kernel, _, _, _, _) = setup_standard_ship_voyage();
    kernel.register_driver(MovementDriver::new());
    kernel.register_driver(LogisticsDriver::new());
    let mut frames = vec![project_state_slice(&kernel.world)];
    for _ in 1..=5 {
        kernel.tick().unwrap();
        frames.push(project_state_slice(&kernel.world));
    }
    frames
}

#[test]
fn voyage_is_deterministic_across_runs() {
    let a = record_voyage();
    let b = record_voyage();
    let report = DivergenceDetector::compare(&a, &b);
    assert!(report.is_equivalent(), "{:?}", report.first_divergence);
    assert_eq!(report.matched_ticks, 6);
    assert_eq!(report.total_ticks, 6);
}

#[test]
fn voyage_crosses_to_the_far_dock_and_delivers() {
    let frames = record_voyage();
    assert_eq!(frames[0].tick, 0);
    assert_eq!(frames[5].tick, 5);
    assert_eq!(frames[0].vehicles[&1].position, TileIndex::new(2, 2));
    // One tile per tick towards the far dock.
    assert_eq!(frames[1].vehicles[&1].position, TileIndex::new(3, 2));
    assert_eq!(frames[3].vehicles[&1].position, TileIndex::new(5, 2));
    assert_eq!(frames[4].vehicles[&1].position, TileIndex::new(6, 2));
    let last = &frames[5];
    assert_eq!(last.vehicles[&1].position, TileIndex::new(6, 2));
    assert!(last.vehicles[&1].cargo.iter().all(|(_, a)| a.0 == 0) || last.vehicles[&1].cargo.is_empty());
    assert_eq!(last.stations[&2][&1], CargoAmount(40));
    assert!(last.companies[&1].0 > 10000);
}

#[test]
fn divergence_detector_pinpoints_first_mutation() {
    let golden = record_voyage();
    let mut mutated = golden.clone();
    mutated[3].vehicles.get_mut(&1).expect("Vehicle 1 must exist at tick 3").position =
        TileIndex::new(99, 99);
    // A later difference must not mask the first.
    mutated[4].companies.insert(1, Money(-1));

    let report = DivergenceDetector::compare(&mutated, &golden);
    assert!(!report.is_equivalent());
    assert_eq!(report.matched_ticks, 3);
    let div = report.first_divergence.unwrap();
    assert_eq!(div.tick, 3);
    assert_eq!(div.entity, "Vehicle(VehicleID(1))");
    assert_eq!(div.field, "position");
    assert_eq!(div.rust_value, format!("{:?}", TileIndex::new(99, 99)));
    assert_eq!(div.oracle_value, format!("{:?}", TileIndex::new(5, 2)));
}

#[test]
fn divergence_texts_for_money_state_cargo_and_presence() {
    let golden = record_voyage();

    let mut m = golden.clone();
    m[2].companies.insert(1, Money(-5));
    let d = DivergenceDetector::compare(&m, &golden).first_divergence.unwrap();
    assert_eq!(d.entity, "Company(CompanyID(1))");
    assert_eq!(d.field, "money");
    assert_eq!(d.rust_value, "Money(-5)");
    assert_eq!(d.oracle_value, format!("Money({})", golden[2].companies[&1].0));

    let mut m = golden.clone();
    m[1].vehicles.get_mut(&1).unwrap().state = VehicleState::Waiting(7);
    let d = DivergenceDetector::compare(&m, &golden).first_divergence.unwrap();
    assert_eq!(d.field, "state");
    assert_eq!(d.rust_value, "Waiting(7)");
    assert_eq!(d.oracle_value, format!("{:?}", golden[1].vehicles[&1].state));

    let mut m = golden.clone();
    m[0].vehicles.get_mut(&1).unwrap().cargo = vec![(CargoType(1), CargoAmount(39))];
    let d = DivergenceDetector::compare(&m, &golden).first_divergence.unwrap();
    assert_eq!(d.field, "cargo");
    assert_eq!(d.rust_value, "[(CargoType(1), CargoAmount(39))]");
    assert_eq!(d.oracle_value, "[(CargoType(1), CargoAmount(40))]");

    let mut m = golden.clone();
    m[0].vehicles.remove(&1);
    let d = DivergenceDetector::compare(&golden, &m).first_divergence.unwrap();
    assert_eq!(d.entity, "Vehicle(VehicleID(1))");
    assert_eq!(d.field, "existence");
    assert_eq!(d.rust_value, "Present");
    assert_eq!(d.oracle_value, "Missing");

    let mut m = golden.clone();
    m[2].tick = 9;
    let d = DivergenceDetector::compare(&m, &golden).first_divergence.unwrap();
    assert_eq!(d.entity, "Timeline");
    assert_eq!(d.field, "tick");
    assert_eq!(d.rust_value, "9");
    assert_eq!(d.oracle_value, "2");
}

#[test]
fn traces_of_different_length_diverge_in_length() {
    let golden = record_voyage();
    let short = golden[..4].to_vec();
    let report = DivergenceDetector::compare(&short, &golden);
    assert!(!report.is_equivalent());
    assert_eq!(report.matched_ticks, 4);
    assert_eq!(report.total_ticks, 6);
    let d = report.first_divergence.unwrap();
    assert_eq!(d.tick, 4);
    assert_eq!(d.entity, "TraceLength");
    assert_eq!(d.field, "length");
    assert_eq!(d.rust_value, "4");
    assert_eq!(d.oracle_value, "6");

    let empty: Vec<OracleTraceFrame> = Vec::new();
    assert!(DivergenceDetector::compare(&empty, &empty).is_equivalent());
}

#[test]
fn projection_reads_only_the_compared_slice() {
    let (kernel, _, _, _, _) = setup_standard_ship_voyage();
    let f = project_state_slice(&kernel.world);
    assert_eq!(f.tick, 0);
    assert_eq!(f.companies.len(), 1);
    assert_eq!(f.companies[&1], Money(10000));
    assert_eq!(f.vehicles[&1].cargo, vec![(CargoType(1), CargoAmount(40))]);
    assert_eq!(f.stations.len(), 2);
    assert!(f.stations[&1].is_empty());

    let mut rec = TraceRecorder::new();
    rec.record_current_world(&kernel.world);
    rec.record_current_world(&kernel.world);
    assert_eq!(rec.frames.len(), 2);
    assert_eq!(rec.frames[1], f);
}

#[test]
fn entities_only_in_the_reference_diverge() {
    let golden = record_voyage();
    let mut m = golden.clone();
    m[1].vehicles.remove(&1);
    let report = DivergenceDetector::compare(&m, &golden);
    assert!(!report.is_equivalent());
    assert_eq!(report.matched_ticks, 1);
    let d = report.first_divergence.unwrap();
    assert_eq!(d.entity, "Vehicle(VehicleID(1))");
    assert_eq!(d.field, "existence");
    assert_eq!(d.rust_value, "Missing");
    assert_eq!(d.oracle_value, "Present");

    let mut m = golden.clone();
    m[0].companies.insert(0, Money(5));
    let d = DivergenceDetector::compare(&golden, &m).first_divergence.unwrap();
    assert_eq!(d.entity, "Company(CompanyID(0))");
    assert_eq!((d.rust_value.as_str(), d.oracle_value.as_str()), ("Missing", "Present"));

    let mut m = golden.clone();
    m[0].stations.insert(9, std::collections::BTreeMap::new());
    let d = DivergenceDetector::compare(&golden, &m).first_divergence.unwrap();
    assert_eq!(d.entity, "Station(StationID(9))");
    assert_eq!(d.field, "existence");
}
