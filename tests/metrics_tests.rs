use assembly_line_simulator::metrics::MetricsCalculator;
use assembly_line_simulator::product::Product;
use assembly_line_simulator::scheduler::SchedulingAlgorithm;
use assembly_line_simulator::station::{Served, Station, StationConfig, StationWorker, Message};

#[test]
fn test_format_duration() {
    assert_eq!(MetricsCalculator::format_duration(1500), "1.500s");
    assert_eq!(MetricsCalculator::format_duration(250), "0.250s");
    assert_eq!(MetricsCalculator::format_duration(0), "0.000s");
}

#[test]
fn test_metrics_calculator_creation() {
    let calculator = MetricsCalculator::new();
    let default_calculator = MetricsCalculator::default();

    drop(calculator);
    drop(default_calculator);
}

#[test]
fn format_duration_of_large_and_uneven_values() {
    assert_eq!(MetricsCalculator::format_duration(61_007), "61.007s");
    assert_eq!(MetricsCalculator::format_duration(999), "0.999s");
    assert_eq!(MetricsCalculator::format_duration(1_000), "1.000s");
}

/// One station of 100 ms, first-come first-served; the item arrives at 50
/// and is served at once.
fn finished_product(id: usize, arrival: u64, now: u64) -> (Product, Vec<StationConfig>) {
    let configs = vec![StationConfig { name: "Only", processing_time: 100 }];
    let mut p = Product::new(id, arrival, &configs);
    p.set_arrival_instant(arrival);
    let mut worker = StationWorker::new(Station::new(0, configs[0], SchedulingAlgorithm::fcfs()));
    worker.receive(Message::Product(p)).unwrap();
    match worker.dispatch(now) {
        Served::Completed { product, .. } => (product, configs),
        _ => panic!("first-come first-served always completes"),
    }
}

#[test]
fn product_metrics_of_a_completed_item() {
    let (p, configs) = finished_product(7, 50, 80);
    let calc = MetricsCalculator::new();
    let m = calc.calculate_product_metrics(&p, &configs, 0).unwrap();
    assert_eq!(m.product_id, 7);
    assert_eq!(m.arrival_time, 50);
    assert_eq!(m.total_wait_time, 30);
    assert_eq!(m.turnaround_time, 130);
    assert_eq!(m.station_times, vec![(80, 180)]);
}

#[test]
fn product_metrics_relative_to_a_later_start() {
    let (p, configs) = finished_product(1, 50, 50);
    let calc = MetricsCalculator::new();
    let m = calc.calculate_product_metrics(&p, &configs, 100).unwrap();
    assert_eq!(m.arrival_time, 0);
    assert_eq!(m.station_times, vec![(0, 50)]);
    assert_eq!(m.turnaround_time, 100);
}

#[test]
fn incomplete_item_has_no_metrics() {
    let configs = vec![StationConfig { name: "Only", processing_time: 100 }];
    let mut p = Product::new(3, 0, &configs);
    let calc = MetricsCalculator::new();
    assert!(calc.calculate_product_metrics(&p, &configs, 0).is_none());
    p.set_arrival_instant(0);
    assert!(calc.calculate_product_metrics(&p, &configs, 0).is_none());
}

#[test]
fn aggregation_averages_and_skips_incomplete_items() {
    let (a, configs) = finished_product(1, 0, 0);
    let (b, _) = finished_product(2, 0, 100);
    let c = Product::new(3, 0, &configs);
    let products = vec![a, b, c];
    let calc = MetricsCalculator::new();
    let m = calc.calculate_simulation_metrics(&products, &configs, 0, 2_000, vec![1, 2]);
    assert_eq!(m.products.len(), 2);
    assert_eq!(m.average_wait_time, 50);
    assert_eq!(m.average_turnaround_time, 150);
    assert_eq!(m.completion_order, vec![1, 2]);
    assert_eq!(m.total_simulation_time, 2_000);
    // two items in two seconds: 3600 per hour
    assert_eq!(m.throughput_per_hour(), 3_600);
}

#[test]
fn aggregation_of_nothing_is_zero() {
    let configs = vec![StationConfig { name: "Only", processing_time: 100 }];
    let calc = MetricsCalculator::new();
    let m = calc.calculate_simulation_metrics(&[], &configs, 10, 10, vec![]);
    assert_eq!(m.products.len(), 0);
    assert_eq!(m.average_wait_time, 0);
    assert_eq!(m.average_turnaround_time, 0);
    assert_eq!(m.total_simulation_time, 0);
    assert_eq!(m.throughput_per_hour(), 0);
}

#[test]
fn aggregating_twice_gives_identical_statistics() {
    let (a, configs) = finished_product(1, 0, 40);
    let (b, _) = finished_product(2, 10, 300);
    let products = vec![a, b];
    let calc = MetricsCalculator::new();
    let first = calc.calculate_simulation_metrics(&products, &configs, 0, 500, vec![1, 2]);
    let second = calc.calculate_simulation_metrics(&products, &configs, 0, 500, vec![1, 2]);
    assert_eq!(first.average_wait_time, second.average_wait_time);
    assert_eq!(first.average_turnaround_time, second.average_turnaround_time);
    assert_eq!(first.completion_order, second.completion_order);
    assert_eq!(first.total_simulation_time, second.total_simulation_time);
    assert_eq!(first.products.len(), second.products.len());
    for (x, y) in first.products.iter().zip(second.products.iter()) {
        assert_eq!(x.product_id, y.product_id);
        assert_eq!(x.total_wait_time, y.total_wait_time);
        assert_eq!(x.turnaround_time, y.turnaround_time);
        assert_eq!(x.station_times, y.station_times);
    }
    // waits 40 and 290, turnarounds 140 and 390
    assert_eq!(first.average_wait_time, 165);
    assert_eq!(first.average_turnaround_time, 265);
}
