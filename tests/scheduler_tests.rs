use assembly_line_simulator::scheduler::{DisplayAlgorithm, SchedulingAlgorithm};

#[test]
fn test_fcfs_creation() {
    let algorithm = SchedulingAlgorithm::fcfs();
    assert_eq!(algorithm, SchedulingAlgorithm::Fcfs);
    assert!(!algorithm.is_preemptive());
}

#[test]
fn test_round_robin_creation() {
    let quantum: u64 = 500;
    let algorithm = SchedulingAlgorithm::round_robin(quantum);

    match algorithm {
        SchedulingAlgorithm::RoundRobin { quantum: q } => {
            assert_eq!(q, quantum);
        }
        _ => panic!("Expected RoundRobin variant"),
    }

    assert!(algorithm.is_preemptive());
}

#[test]
fn test_quantum_calculation() {
    let remaining: u64 = 800;

    let fcfs = SchedulingAlgorithm::fcfs();
    assert_eq!(fcfs.calculate_quantum(remaining), remaining);

    let rr_small = SchedulingAlgorithm::round_robin(300);
    assert_eq!(rr_small.calculate_quantum(remaining), 300);

    let rr_large = SchedulingAlgorithm::round_robin(1000);
    assert_eq!(rr_large.calculate_quantum(remaining), remaining);
}

#[test]
fn test_display() {
    let fcfs = SchedulingAlgorithm::fcfs();
    assert_eq!(fcfs.to_string(), "FCFS");

    let rr = SchedulingAlgorithm::round_robin(250);
    assert_eq!(rr.to_string(), "Round Robin (quantum 250 ms)");
}

#[test]
fn quantum_equal_to_remaining_serves_everything() {
    let rr = SchedulingAlgorithm::round_robin(80);
    assert_eq!(rr.calculate_quantum(80), 80);
    assert_eq!(rr.calculate_quantum(60), 60);
    assert_eq!(rr.calculate_quantum(0), 0);
}

#[test]
fn get_quantum_reports_round_robin_only() {
    assert_eq!(SchedulingAlgorithm::fcfs().get_quantum(), None);
    assert_eq!(SchedulingAlgorithm::round_robin(300).get_quantum(), Some(300));
}

#[test]
fn descriptions_name_the_policy() {
    assert_eq!(
        SchedulingAlgorithm::fcfs().description(),
        "First-Come First-Served (no preemptivo)"
    );
    assert_eq!(
        SchedulingAlgorithm::round_robin(300).description(),
        "Round Robin preemptivo (quantum: 300 ms)"
    );
    assert_eq!(
        SchedulingAlgorithm::round_robin(0).description(),
        "Round Robin preemptivo (quantum: 0 ms)"
    );
}

#[test]
fn display_wrapper_shows_short_name() {
    let rr = SchedulingAlgorithm::round_robin(1234567);
    let shown = DisplayAlgorithm::new(&rr);
    assert_eq!(shown.to_string(), "Round Robin (quantum 1234567 ms)");
    let fcfs = SchedulingAlgorithm::fcfs();
    assert_eq!(DisplayAlgorithm::new(&fcfs).to_string(), "FCFS");
}
