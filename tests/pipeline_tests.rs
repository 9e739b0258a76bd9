//! Whole runs on a virtual clock: every slice takes exactly its length and
//! nothing else takes time, so runs are repeatable.
use assembly_line_simulator::config::{default_station_configs, STATION_COUNT};
use assembly_line_simulator::metrics::SimulationMetrics;
use assembly_line_simulator::product::Product;
use assembly_line_simulator::scheduler::SchedulingAlgorithm;
use assembly_line_simulator::simulation::{arrival_order, Collector, ConfigError, Simulation};
use assembly_line_simulator::line::RunError;
use assembly_line_simulator::station::{Message, StationConfig};

fn run_virtual(sim: &Simulation) -> SimulationMetrics {
    sim.run_on_clock().unwrap()
}

#[test]
fn test_fcfs_simulation_completes() {
    let simulation = Simulation::new(SchedulingAlgorithm::fcfs());
    let metrics = run_virtual(&simulation);

    assert_eq!(metrics.products.len(), 10);
    assert_eq!(metrics.completion_order.len(), 10);
    assert_eq!(metrics.completion_order, vec![1, 2, 3, 4, 5, 6, 7, 8, 9, 10]);
    assert!(metrics.throughput_per_hour() > 0);
}

#[test]
fn test_round_robin_simulation_completes() {
    let algorithm = SchedulingAlgorithm::round_robin(300);
    let simulation = Simulation::new(algorithm);
    let metrics = run_virtual(&simulation);

    assert_eq!(metrics.products.len(), 10);
    assert_eq!(metrics.completion_order.len(), 10);
    assert!(metrics.throughput_per_hour() > 0);
}

#[test]
fn test_custom_configuration() {
    let custom_stations = vec![
        StationConfig { name: "Test1", processing_time: 100 },
        StationConfig { name: "Test2", processing_time: 200 },
    ];
    let custom_arrivals: Vec<u64> = vec![0, 50, 100];
    let algorithm = SchedulingAlgorithm::fcfs();
    let simulation = Simulation::with_config(custom_stations, algorithm, custom_arrivals);
    let metrics = run_virtual(&simulation);

    assert_eq!(metrics.products.len(), 3);
    assert_eq!(metrics.completion_order.len(), 3);
}

#[test]
fn test_fcfs_vs_round_robin_performance() {
    let fcfs_metrics = run_virtual(&Simulation::new(SchedulingAlgorithm::fcfs()));
    let rr_metrics = run_virtual(&Simulation::new(SchedulingAlgorithm::round_robin(300)));

    assert!(fcfs_metrics.average_wait_time <= rr_metrics.average_wait_time);
    assert_eq!(fcfs_metrics.products.len(), rr_metrics.products.len());
}

#[test]
fn test_metrics_consistency() {
    let metrics = run_virtual(&Simulation::new(SchedulingAlgorithm::fcfs()));

    for product_metrics in &metrics.products {
        assert!(product_metrics.turnaround_time >= product_metrics.total_wait_time);
        assert_eq!(product_metrics.station_times.len(), STATION_COUNT);
        for (entry, exit) in &product_metrics.station_times {
            assert!(exit >= entry);
        }
        // turnaround is the wait plus the 400 + 600 + 500 ms of work
        assert_eq!(product_metrics.turnaround_time, product_metrics.total_wait_time + 1500);
    }

    assert!(metrics.throughput_per_hour() > 0);
    // fewer than 100 items per second
    assert!(metrics.throughput_per_hour() < 360_000);
}

#[test]
fn test_algorithm_parameter_validation() {
    let small_quantum = SchedulingAlgorithm::round_robin(1);
    let metrics = run_virtual(&Simulation::new(small_quantum));
    assert_eq!(metrics.products.len(), 10);

    let large_quantum = SchedulingAlgorithm::round_robin(10_000);
    let metrics = run_virtual(&Simulation::new(large_quantum));
    assert_eq!(metrics.products.len(), 10);
}

#[test]
fn fcfs_default_run_exact_times() {
    let metrics = run_virtual(&Simulation::new(SchedulingAlgorithm::fcfs()));
    // the 600 ms station is the bottleneck: item k leaves it at 1000 + 600 (k - 1)
    // and the last station at 1500 + 600 (k - 1)
    let last = &metrics.products[9];
    assert_eq!(last.product_id, 10);
    assert_eq!(last.station_times[2].1, 1500 + 600 * 9);
    assert_eq!(metrics.total_simulation_time, 6900);
    assert_eq!(last.turnaround_time, 6900 - 1500);
}

#[test]
fn round_robin_with_large_quantum_matches_fcfs() {
    let fcfs = run_virtual(&Simulation::new(SchedulingAlgorithm::fcfs()));
    let rr = run_virtual(&Simulation::new(SchedulingAlgorithm::round_robin(10_000)));
    assert_eq!(fcfs.completion_order, rr.completion_order);
    assert_eq!(fcfs.average_wait_time, rr.average_wait_time);
    assert_eq!(fcfs.average_turnaround_time, rr.average_turnaround_time);
}

#[test]
fn unsorted_offsets_arrive_in_time_order() {
    let stations = vec![StationConfig { name: "Only", processing_time: 10 }];
    let sim = Simulation::with_config(stations, SchedulingAlgorithm::fcfs(), vec![300, 0, 100]);
    let metrics = run_virtual(&sim);
    assert_eq!(metrics.completion_order, vec![2, 3, 1]);
}

#[test]
fn invalid_configurations_are_rejected() {
    let none = Simulation::with_config(vec![], SchedulingAlgorithm::fcfs(), vec![0]);
    assert_eq!(none.validate(), Err(ConfigError::NoStations));

    let zero_work = Simulation::with_config(
        vec![
            StationConfig { name: "A", processing_time: 5 },
            StationConfig { name: "B", processing_time: 0 },
            StationConfig { name: "C", processing_time: 0 },
        ],
        SchedulingAlgorithm::fcfs(),
        vec![0],
    );
    assert_eq!(zero_work.validate(), Err(ConfigError::ZeroProcessingTime { station: 1 }));

    let zero_quantum = Simulation::new(SchedulingAlgorithm::round_robin(0));
    assert_eq!(zero_quantum.validate(), Err(ConfigError::ZeroQuantum));

    assert_eq!(Simulation::new(SchedulingAlgorithm::round_robin(300)).validate(), Ok(()));
}

#[test]
fn collector_stops_at_expected_count_or_shutdown() {
    let configs = default_station_configs();
    let mut c = Collector::new(2);
    assert_eq!(c.receive(Message::Product(Product::new(5, 0, &configs))).unwrap(), true);
    assert_eq!(c.receive(Message::Product(Product::new(4, 0, &configs))).unwrap(), false);
    assert!(c.is_finished());
    assert!(c.receive(Message::Product(Product::new(6, 0, &configs))).is_err());
    assert_eq!(c.completion_order(), vec![5, 4]);

    let mut early = Collector::new(3);
    assert_eq!(early.receive(Message::Shutdown).unwrap(), false);
    assert!(early.is_finished());
    assert_eq!(early.completion_order(), Vec::<usize>::new());
}

#[test]
fn created_products_are_numbered_from_one() {
    let sim = Simulation::new(SchedulingAlgorithm::fcfs());
    let products = sim.create_products();
    assert_eq!(products.len(), 10);
    for (i, p) in products.iter().enumerate() {
        assert_eq!(p.id(), i + 1);
        assert_eq!(p.station_count(), 3);
    }
    assert_eq!(products[7].arrival_offset(), 1100);
    let stations = sim.stations();
    assert_eq!(stations.len(), 3);
    assert_eq!(stations[1].index, 1);
    assert_eq!(stations[1].config.processing_time, 600);
    assert_eq!(stations[2].config.name, "Empaque");
}

#[test]
fn arrival_order_sorts_by_offset_keeping_ties_in_order() {
    assert_eq!(arrival_order(&vec![300, 0, 100]), vec![1, 2, 0]);
    assert_eq!(arrival_order(&vec![5, 5, 1, 5, 0]), vec![4, 2, 0, 1, 3]);
    assert_eq!(arrival_order(&vec![0, 0, 50, 50, 100]), vec![0, 1, 2, 3, 4]);
    assert_eq!(arrival_order(&vec![]), Vec::<usize>::new());
}

#[test]
fn run_rejects_invalid_configuration_before_starting() {
    let sim = Simulation::with_config(vec![], SchedulingAlgorithm::fcfs(), vec![0, 10]);
    assert_eq!(sim.run_on_clock().unwrap_err(), RunError::Config(ConfigError::NoStations));
    let sim = Simulation::new(SchedulingAlgorithm::round_robin(0));
    assert_eq!(sim.run_on_clock().unwrap_err(), RunError::Config(ConfigError::ZeroQuantum));
}

#[test]
fn run_reports_clock_overflow() {
    let stations = vec![StationConfig { name: "Only", processing_time: 10 }];
    let sim = Simulation::with_config(stations, SchedulingAlgorithm::fcfs(), vec![u64::MAX - 5]);
    assert_eq!(sim.run_on_clock().unwrap_err(), RunError::ClockOverflow);
}

#[test]
fn round_robin_default_run_completes_everything_with_more_waiting() {
    let fcfs = run_virtual(&Simulation::new(SchedulingAlgorithm::fcfs()));
    let rr = run_virtual(&Simulation::new(SchedulingAlgorithm::round_robin(300)));
    let mut ids = rr.completion_order.clone();
    ids.sort();
    assert_eq!(ids, vec![1, 2, 3, 4, 5, 6, 7, 8, 9, 10]);
    assert!(rr.average_wait_time >= fcfs.average_wait_time);
    for m in &rr.products {
        assert_eq!(m.turnaround_time, m.total_wait_time + 1500);
    }
}

#[test]
fn run_succeeds_right_at_the_time_limit() {
    // the offset plus one item times 10 ms is exactly the largest time
    let stations = vec![StationConfig { name: "Only", processing_time: 10 }];
    let sim = Simulation::with_config(stations, SchedulingAlgorithm::fcfs(), vec![u64::MAX - 10]);
    let metrics = sim.run_on_clock().unwrap();
    assert_eq!(metrics.completion_order, vec![1]);
    assert_eq!(metrics.products[0].turnaround_time, 10);
    assert_eq!(metrics.products[0].total_wait_time, 0);
}

#[test]
fn round_robin_two_items_share_one_station() {
    // two items of 220 ms at a quantum of 80: slices alternate
    let stations = vec![StationConfig { name: "Only", processing_time: 220 }];
    let sim = Simulation::with_config(stations, SchedulingAlgorithm::round_robin(80), vec![0, 0]);
    let metrics = sim.run_on_clock().unwrap();
    // 1: 0-80, 2: 80-160, 1: 160-240, 2: 240-320, 1: 320-380, 2: 380-440
    assert_eq!(metrics.completion_order, vec![1, 2]);
    assert_eq!(metrics.products[0].station_times, vec![(0, 380)]);
    assert_eq!(metrics.products[1].station_times, vec![(80, 440)]);
    assert_eq!(metrics.products[0].total_wait_time, 160);
    assert_eq!(metrics.products[1].total_wait_time, 220);
    assert_eq!(metrics.average_wait_time, 190);
    assert_eq!(metrics.total_simulation_time, 440);
}
