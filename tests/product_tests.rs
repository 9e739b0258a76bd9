use assembly_line_simulator::product::Product;
use assembly_line_simulator::scheduler::SchedulingAlgorithm;
use assembly_line_simulator::station::{Station, StationConfig};

fn line() -> Vec<StationConfig> {
    vec![
        StationConfig { name: "Corte", processing_time: 400 },
        StationConfig { name: "Ensamblaje", processing_time: 600 },
    ]
}

#[test]
fn new_product_has_fresh_records() {
    let configs = line();
    let p = Product::new(1, 100, &configs);
    assert_eq!(p.id(), 1);
    assert_eq!(p.arrival_offset(), 100);
    assert_eq!(p.station_count(), 2);
    assert_eq!(p.get_arrival_instant(), None);
    assert!(!p.is_completed());
    assert_eq!(p.total_wait_time(), 0);
    assert_eq!(p.turnaround_time(0), None);
    assert_eq!(p.station_state(0).remaining, 0);
    assert_eq!(p.station_state(1).final_exit, None);
    assert_eq!(p.work_at_station(1), 600);
    assert!(!p.is_ready_for(0));
    assert_eq!(p.status_summary(), "Producto 01: 0/2 estaciones completadas");
}

#[test]
fn arrival_instant_is_set_once() {
    let configs = line();
    let mut p = Product::new(12, 0, &configs);
    p.set_arrival_instant(30);
    p.set_arrival_instant(90);
    assert_eq!(p.get_arrival_instant(), Some(30));
    assert_eq!(p.entry_time_at(0), Some(30));
    assert!(p.is_ready_for(0));
    assert!(!p.is_ready_for(1));
    assert!(!p.is_ready_for(2));
}

#[test]
fn turnaround_equals_wait_plus_processing() {
    let configs = line();
    let a = Station::new(0, configs[0], SchedulingAlgorithm::round_robin(300));
    let b = Station::new(1, configs[1], SchedulingAlgorithm::round_robin(300));
    let mut p = Product::new(3, 0, &configs);
    p.set_arrival_instant(100);
    assert!(a.register_arrival(&mut p));
    // first slice at 150, second at 500
    assert!(!a.process_product(&mut p, 150).unwrap().completed);
    assert!(a.process_product(&mut p, 500).unwrap().completed);
    assert_eq!(p.station_state(0).final_exit, Some(600));
    assert!(b.register_arrival(&mut p));
    assert!(!b.process_product(&mut p, 600).unwrap().completed);
    assert!(b.process_product(&mut p, 1000).unwrap().completed);
    assert!(p.is_completed());
    let wait = p.total_wait_time();
    let turnaround = p.turnaround_time(0).unwrap();
    assert_eq!(wait, 50 + 50 + 0 + 100);
    assert_eq!(turnaround, wait + 400 + 600);
    assert_eq!(turnaround, 1200);
    assert_eq!(p.status_summary(), "Producto 03: 2/2 estaciones completadas");
    let st = p.station_state(1);
    assert!(st.first_queue_entry.unwrap() <= st.first_entry.unwrap());
    assert!(st.first_entry.unwrap() < st.final_exit.unwrap());
}

#[test]
fn status_summary_of_large_id() {
    let configs = line();
    let p = Product::new(123, 0, &configs);
    assert_eq!(p.status_summary(), "Producto 123: 0/2 estaciones completadas");
}

#[test]
fn item_without_stations_is_complete_but_has_no_turnaround() {
    let mut p = Product::new(1, 0, &[]);
    p.set_arrival_instant(0);
    assert!(p.is_completed());
    assert_eq!(p.turnaround_time(0), None);
    assert_eq!(p.total_wait_time(), 0);
}
