use assembly_line_simulator::product::Product;
use assembly_line_simulator::scheduler::SchedulingAlgorithm;
use assembly_line_simulator::station::{
    Dispatch, Message, Served, Station, StationConfig, StationState, StationWorker, Step,
};

fn one_station(work: u64) -> Vec<StationConfig> {
    vec![StationConfig { name: "S", processing_time: work }]
}

fn arrived(id: usize, at: u64, configs: &[StationConfig]) -> Product {
    let mut p = Product::new(id, at, configs);
    p.set_arrival_instant(at);
    p
}

#[test]
fn round_robin_serves_220_in_three_slices() {
    let configs = one_station(220);
    let mut worker = StationWorker::new(Station::new(0, configs[0], SchedulingAlgorithm::round_robin(80)));
    worker.receive(Message::Product(arrived(1, 0, &configs))).unwrap();
    worker.receive(Message::Shutdown).unwrap();

    let mut slices = Vec::new();
    let mut clock = 0u64;
    let mut finished = None;
    while worker.next_step() == Step::Dispatch {
        match worker.dispatch(clock) {
            Served::Preempted { slice, end } => {
                slices.push(slice);
                clock = end;
            }
            Served::Completed { slice, end, product } => {
                slices.push(slice);
                clock = end;
                finished = Some(product);
            }
            Served::ClockOverflow => panic!("no overflow expected"),
        }
    }
    assert_eq!(slices, vec![80, 80, 60]);
    assert_eq!(worker.next_step(), Step::Finish);
    let p = finished.unwrap();
    let st = p.station_state(0);
    assert_eq!(st.final_exit, Some(220));
    assert_eq!(st.first_entry, Some(0));
    assert_eq!(st.total_wait, 0);
    assert_eq!(st.remaining, 0);
    assert_eq!(clock, 220);
}

#[test]
fn record_serve_under_round_robin_keeps_time_accounting() {
    let mut st = StationState::new();
    st.enter_queue(10, 220);
    let rr = SchedulingAlgorithm::round_robin(80);
    assert_eq!(st.serve(25, rr, 220), Some(Dispatch { slice: 80, completed: false, end: 105 }));
    assert_eq!(st.queue_entry, Some(105));
    assert_eq!(st.remaining, 140);
    assert_eq!(st.total_wait, 15);
    assert_eq!(st.first_entry, Some(25));
    // the worker is free before the item re-entered the queue: service starts at 105
    assert_eq!(st.serve(100, rr, 220), Some(Dispatch { slice: 80, completed: false, end: 185 }));
    assert_eq!(st.total_wait, 15);
    assert_eq!(st.serve(200, rr, 220), Some(Dispatch { slice: 60, completed: true, end: 260 }));
    assert_eq!(st.final_exit, Some(260));
    assert_eq!(st.total_wait, 30);
    assert_eq!(st.queue_entry, None);
    // exit - first arrival == wait + processing time
    assert_eq!(260 - 10, st.total_wait + 220);
}

#[test]
fn record_serve_reports_clock_overflow() {
    let mut st = StationState::new();
    st.enter_queue(u64::MAX - 10, 100);
    let before = st;
    assert_eq!(st.serve(0, SchedulingAlgorithm::fcfs(), 100), None);
    assert_eq!(st, before);
}

#[test]
fn fcfs_worker_completes_in_arrival_order() {
    let configs = one_station(100);
    let mut worker = StationWorker::new(Station::new(0, configs[0], SchedulingAlgorithm::fcfs()));
    for (id, at) in [(1usize, 0u64), (2, 10), (3, 20)] {
        worker.receive(Message::Product(arrived(id, at, &configs))).unwrap();
    }
    assert_eq!(worker.ready_len(), 3);
    let mut ids = Vec::new();
    let mut clock = 0;
    while worker.next_step() == Step::Dispatch {
        match worker.dispatch(clock) {
            Served::Completed { end, product, .. } => {
                clock = end;
                ids.push(product.id());
            }
            _ => panic!("first-come first-served never preempts"),
        }
    }
    assert_eq!(ids, vec![1, 2, 3]);
    assert_eq!(clock, 300);
    assert_eq!(worker.next_step(), Step::Receive);
}

#[test]
fn worker_drains_its_queue_before_finishing() {
    let configs = one_station(50);
    let mut worker = StationWorker::new(Station::new(0, configs[0], SchedulingAlgorithm::round_robin(20)));
    worker.receive(Message::Product(arrived(1, 0, &configs))).unwrap();
    worker.receive(Message::Product(arrived(2, 0, &configs))).unwrap();
    worker.receive(Message::Shutdown).unwrap();
    assert!(worker.shutdown_received());
    let mut done = Vec::new();
    let mut clock = 0;
    loop {
        match worker.next_step() {
            Step::Dispatch => match worker.dispatch(clock) {
                Served::Preempted { end, .. } => clock = end,
                Served::Completed { end, product, .. } => {
                    clock = end;
                    done.push(product.id());
                }
                Served::ClockOverflow => panic!("no overflow expected"),
            },
            Step::Finish => break,
            Step::Receive => panic!("shutdown was received"),
        }
    }
    assert_eq!(done.len(), 2);
    assert_eq!(clock, 100);
    // 20+20 for each, then 10 and 10: item 1 finishes first
    assert_eq!(done, vec![1, 2]);
}

#[test]
fn worker_refuses_items_not_meant_for_it() {
    let configs = vec![
        StationConfig { name: "A", processing_time: 10 },
        StationConfig { name: "B", processing_time: 20 },
    ];
    // an item that has not left the first station cannot enter the second
    let mut second = StationWorker::new(Station::new(1, configs[1], SchedulingAlgorithm::fcfs()));
    let p = arrived(1, 0, &configs);
    let back = second.receive(Message::Product(p)).unwrap_err();
    assert_eq!(back.id(), 1);
    assert_eq!(second.ready_len(), 0);
    // an item that never arrived cannot enter the first
    let mut first = StationWorker::new(Station::new(0, configs[0], SchedulingAlgorithm::fcfs()));
    assert!(first.receive(Message::Product(Product::new(2, 0, &configs))).is_err());
    // a station whose processing time differs from what the item is owed refuses it
    let other = StationConfig { name: "A", processing_time: 11 };
    let mut mismatched = StationWorker::new(Station::new(0, other, SchedulingAlgorithm::fcfs()));
    assert!(mismatched.receive(Message::Product(arrived(3, 0, &configs))).is_err());
}

#[test]
fn register_arrival_uses_the_exit_of_the_previous_station() {
    let configs = vec![
        StationConfig { name: "A", processing_time: 10 },
        StationConfig { name: "B", processing_time: 20 },
    ];
    let a = Station::new(0, configs[0], SchedulingAlgorithm::fcfs());
    let b = Station::new(1, configs[1], SchedulingAlgorithm::fcfs());
    let mut p = arrived(1, 5, &configs);
    assert!(a.register_arrival(&mut p));
    assert!(!a.register_arrival(&mut p));
    assert_eq!(a.process_product(&mut p, 7), Some(Dispatch { slice: 10, completed: true, end: 17 }));
    assert!(b.register_arrival(&mut p));
    assert_eq!(p.station_state(1).queue_entry, Some(17));
    assert_eq!(p.station_state(1).remaining, 20);
    assert_eq!(b.process_product(&mut p, 30), Some(Dispatch { slice: 20, completed: true, end: 50 }));
    assert!(p.is_completed());
    assert_eq!(p.turnaround_time(0), Some(45));
    assert_eq!(p.total_wait_time(), 2 + 13);
}
