//! The whole line run on a virtual clock: every slice takes exactly its
//! length and nothing else takes time, so a run is repeatable. The stations
//! take the same decisions as when they run on threads against a real clock.
use vstd::prelude::*;
use std::collections::VecDeque;
use crate::product::Product;
use crate::station::{ids_of, Message, Served, Station, StationWorker, Step};

verus! {

/// Why a run stopped before the end.
#[derive(Clone, Copy, Debug, PartialEq, Eq, Structural)]
pub enum RunError {
    /// The configuration cannot be run.
    Config(crate::simulation::ConfigError),
    /// A slice would have ended past the largest time.
    ClockOverflow,
}

/// The stations after `idx` have not been reached.
pub open spec fn untouched_after(p: Product, idx: int) -> bool {
    forall|j: int| idx < j < p.records().len() ==> (#[trigger] p.records()[j]).is_fresh()
}

/// What every item handed to station `idx` satisfies: the station accepts
/// it, it has arrived, it is owed `work`, and it has not gone further.
pub open spec fn ready_item(p: Product, s: Station, work: Seq<u64>) -> bool {
    &&& p.wf()
    &&& s.accepts(p)
    &&& p.arrival() is Some
    &&& p.works() == work
    &&& untouched_after(p, s.index as int)
}

/// What every item that left station `idx` satisfies.
pub open spec fn left_item(p: Product, s: Station, work: Seq<u64>) -> bool {
    &&& p.wf()
    &&& (s.index as int) < p.records().len()
    &&& p.records()[s.index as int].is_done(s.config.processing_time as nat)
    &&& p.arrival() is Some
    &&& p.works() == work
    &&& untouched_after(p, s.index as int)
}

/// What every item waiting at station `idx` satisfies, beyond the worker's
/// own invariant.
pub open spec fn waiting_item(p: Product, s: Station, work: Seq<u64>) -> bool {
    &&& (s.index as int) < p.records().len()
    &&& p.arrival() is Some
    &&& p.works() == work
    &&& untouched_after(p, s.index as int)
}

fn into_deque(v: Vec<Product>) -> (r: VecDeque<Product>)
    ensures
        r@ == v@,
{
    let ghost all = v@;
    let mut v = v;
    let mut r: VecDeque<Product> = VecDeque::new();
    while v.len() > 0
        invariant
            v@.len() <= all.len(),
            v@ == all.subrange(0, v@.len() as int),
            r@ == all.subrange(v@.len() as int, all.len() as int),
        decreases v@.len(),
    {
        let p = v.pop().unwrap();
        r.push_front(p);
        assert(r@ =~= all.subrange(v@.len() as int, all.len() as int));
    }
    assert(r@ =~= all);
    r
}

/// Runs one station over the items that reach it, in the order they reach
/// it. An item waiting in the inbound queue joins the ready queue once the
/// clock has reached its arrival, or at once when the station is idle; the
/// station then serves its ready queue by its policy. Every item leaves the
/// station, each once; under first-come first-served, in the order they came.
///
/// `work` is what every item is owed at each station. No item reaches the
/// station after `bound`, so every item has left by `bound` plus the number
/// of items times the processing time; the run can only fail when that sum
/// passes the largest time.
pub fn run_station_on_clock(
    station: Station,
    arrivals: Vec<Product>,
    work: Ghost<Seq<u64>>,
    bound: Ghost<int>,
) -> (r: Result<Vec<Product>, RunError>)
    requires
        station.runnable(),
        forall|i: int| 0 <= i < arrivals@.len() ==> ready_item(#[trigger] arrivals@[i], station, work@),
        bound@ >= 0,
        forall|i: int|
            0 <= i < arrivals@.len() ==> (#[trigger] arrivals@[i]).entry_time(station.index as int)->0
                <= bound@,
    ensures
        r is Err ==> bound@ + arrivals@.len() * station.config.processing_time > u64::MAX,
        r matches Ok(out) ==> forall|i: int|
            0 <= i < out@.len() ==> (#[trigger] out@[i]).records()[station.index as int].final_exit->0
                <= bound@ + arrivals@.len() * station.config.processing_time,
        r matches Ok(out) ==> {
            &&& out@.len() == arrivals@.len()
            &&& ids_of(out@).to_multiset() == ids_of(arrivals@).to_multiset()
            &&& station.algorithm is Fcfs ==> ids_of(out@) == ids_of(arrivals@)
            &&& forall|i: int| 0 <= i < out@.len() ==> left_item(#[trigger] out@[i], station, work@)
        },
        r is Err ==> r == Err::<Vec<Product>, RunError>(RunError::ClockOverflow),
{
    let ghost idx = station.index as int;
    let ghost w = station.config.processing_time as int;
    let ghost total = arrivals@.len() as int;
    let ghost all_ids = ids_of(arrivals@);
    proof {
        assert(all_ids.len() == arrivals@.len());
    }
    let mut pending = into_deque(arrivals);
    let mut worker = StationWorker::new(station);
    let mut out: Vec<Product> = Vec::new();
    let mut clock: u64 = 0;
    proof {
        assert(worker.received_ids() + ids_of(pending@) =~= all_ids);
        assert(ids_of(out@) =~= worker.completed_ids());
        lemma_remaining_sum_nonneg_of(worker);
    }
    loop
        invariant
            idx == station.index as int,
            w == station.config.processing_time,
            total == all_ids.len(),
            total == arrivals@.len(),
            bound@ >= 0,
            worker.received_ids().len() <= total,
            worker.pending_work() <= worker.received_ids().len() * w,
            clock <= bound@ + worker.received_ids().len() * w - worker.pending_work(),
            forall|i: int|
                0 <= i < pending@.len() ==> (#[trigger] pending@[i]).entry_time(idx)->0 <= bound@,
            forall|i: int|
                0 <= i < worker.queue().len() ==> (#[trigger] worker.queue()[i]).records()[idx].queue_entry
                    is Some && worker.queue()[i].records()[idx].queue_entry->0 <= clock,
            forall|i: int|
                0 <= i < out@.len() ==> (#[trigger] out@[i]).records()[idx].final_exit->0 <= clock,
            worker.wf(),
            worker.spec_station() == station,
            worker.conserves(),
            worker.pending_work() >= 0,
            worker.received_ids() + ids_of(pending@) == all_ids,
            worker.completed_ids() == ids_of(out@),
            worker.spec_shutdown() ==> pending@.len() == 0,
            forall|i: int| 0 <= i < pending@.len() ==> ready_item(#[trigger] pending@[i], station, work@),
            forall|i: int| 0 <= i < worker.queue().len() ==> waiting_item(#[trigger] worker.queue()[i], station, work@),
            forall|i: int| 0 <= i < out@.len() ==> left_item(#[trigger] out@[i], station, work@),
        ensures
            clock <= bound@ + total * w,
            forall|i: int|
                0 <= i < out@.len() ==> (#[trigger] out@[i]).records()[idx].final_exit->0 <= clock,
            ids_of(out@).to_multiset() == all_ids.to_multiset(),
            station.algorithm is Fcfs ==> ids_of(out@) == all_ids,
            forall|i: int| 0 <= i < out@.len() ==> left_item(#[trigger] out@[i], station, work@),
        decreases pending@.len(), if worker.spec_shutdown() { 0int } else { 1int }, worker.pending_work(),
    {
        if pending.len() > 0 && (worker.ready_len() == 0 || entry_of(&pending, station.index) <= clock) {
            let at = entry_of(&pending, station.index);
            if at > clock {
                clock = at;
            }
            let ghost before = pending@;
            let p = pending.pop_front().unwrap();
            proof {
                assert(before[0] == p);
                assert(pending@ =~= before.drop_first());
                assert(ids_of(before) =~= seq![p.spec_id()] + ids_of(pending@));
                assert(forall|i: int| 0 <= i < pending@.len() ==> pending@[i] == before[i + 1]);
                assert(ready_item(before[0], station, work@));
            }
            let ghost old_queue = worker.queue();
            let ghost old_rc = worker.received_ids().len() as int;
            let ghost gp = p;
            let res = worker.receive(Message::Product(p));
            proof {
                assert(res is Ok);
                lemma_mul_succ(old_rc, w);
                assert(ids_of(before).len() == before.len());
                assert forall|i: int| 0 <= i < worker.queue().len() implies (#[trigger] worker.queue()[i]).records()[idx].queue_entry
                    is Some && worker.queue()[i].records()[idx].queue_entry->0 <= clock by {
                    if i < old_queue.len() {
                        assert(worker.queue()[i] == worker.queue().drop_last()[i]);
                    } else {
                        assert(worker.queue()[i] == worker.queue().last());
                        assert(gp.entry_time(idx) == Some(at));
                    }
                }
                assert(worker.received_ids() + ids_of(pending@) =~= all_ids);
                assert forall|i: int| 0 <= i < worker.queue().len() implies waiting_item(#[trigger] worker.queue()[i], station, work@) by {
                    if i < old_queue.len() {
                        assert(worker.queue()[i] == worker.queue().drop_last()[i]);
                    } else {
                        let q = worker.queue()[i];
                        assert(q == worker.queue().last());
                        assert(q.records().len() == gp.records().len());
                        assert(untouched_after(gp, idx));
                        assert forall|j: int| idx < j < q.records().len() implies (#[trigger] q.records()[j]).is_fresh() by {
                            assert(q.records()[j] == gp.records()[j]);
                            assert(gp.records()[j].is_fresh());
                        }
                    }
                }
            }
        } else if pending.len() == 0 && !worker.shutdown_received() {
            let _ = worker.receive(Message::Shutdown);
        } else {
            match worker.next_step() {
                Step::Dispatch => {
                    let ghost old_queue = worker.queue();
                    let ghost old_pending_work = worker.pending_work();
                    let ghost old_clock = clock;
                    proof {
                        lemma_front_remaining(worker);
                        lemma_mul_le(worker.received_ids().len() as int, total, w);
                        assert(old_queue[0].records()[idx].queue_entry->0 <= clock);
                    }
                    match worker.dispatch(clock) {
                        Served::ClockOverflow => {
                            proof {
                                let rem = old_queue[0].records()[idx].remaining;
                                assert(station.algorithm.slice_of(rem as nat) <= rem);
                                assert(old_queue[0].records()[idx].queue_entry->0 <= clock);
                                assert(clock + station.algorithm.slice_of(rem as nat) > u64::MAX);
                                assert(rem <= old_pending_work);
                            }
                            return Err(RunError::ClockOverflow);
                        },
                        Served::Preempted { end, .. } => {
                            clock = end;
                            proof {
                                lemma_remaining_sum_nonneg_of(worker);
                                let front = old_queue[0];
                                assert(waiting_item(front, station, work@));
                                assert(worker.queue().last().records().len() == front.records().len());
                                assert forall|i: int| 0 <= i < worker.queue().len() implies (#[trigger] worker.queue()[i]).records()[idx].queue_entry
                                    is Some && worker.queue()[i].records()[idx].queue_entry->0 <= clock by {
                                    if i < worker.queue().len() - 1 {
                                        assert(worker.queue()[i] == worker.queue().drop_last()[i]);
                                        assert(worker.queue().drop_last()[i] == old_queue.drop_first()[i]);
                                        assert(old_queue[i + 1].records()[idx].queue_entry->0 <= old_clock);
                                        assert(old_clock <= clock);
                                    } else {
                                        assert(worker.queue()[i] == worker.queue().last());
                                        let rem = front.records()[idx].remaining;
                                        let next = front.records()[idx].served_at(old_clock as nat, station.algorithm).0;
                                        assert(station.algorithm.slice_of(rem as nat) < rem);
                                        assert(next.queue_entry is Some);
                                        assert(worker.queue().last().records()[idx] == next);
                                    }
                                }
                                assert forall|i: int| 0 <= i < worker.queue().len() implies waiting_item(#[trigger] worker.queue()[i], station, work@) by {
                                    if i < worker.queue().len() - 1 {
                                        assert(worker.queue()[i] == worker.queue().drop_last()[i]);
                                        assert(worker.queue().drop_last()[i] == old_queue.drop_first()[i]);
                                        assert(waiting_item(old_queue[i + 1], station, work@));
                                    } else {
                                        let q = worker.queue()[i];
                                        assert(q == worker.queue().last());
                                        assert forall|j: int| idx < j < q.records().len() implies (#[trigger] q.records()[j]).is_fresh() by {
                                            assert(q.records()[j] == front.records()[j]);
                                        }
                                    }
                                }
                            }
                        },
                        Served::Completed { end, product, .. } => {
                            clock = end;
                            let ghost old_out = out@;
                            out.push(product);
                            proof {
                                lemma_remaining_sum_nonneg_of(worker);
                                let front = old_queue[0];
                                assert(waiting_item(front, station, work@));
                                assert(ids_of(out@) =~= ids_of(old_out).push(product.spec_id()));
                                assert forall|i: int| 0 <= i < worker.queue().len() implies waiting_item(#[trigger] worker.queue()[i], station, work@) by {
                                    assert(worker.queue()[i] == old_queue[i + 1]);
                                }
                                assert forall|i: int| 0 <= i < out@.len() implies left_item(#[trigger] out@[i], station, work@) by {
                                    if i < old_out.len() {
                                        assert(out@[i] == old_out[i]);
                                    } else {
                                        assert(out@[i] == product);
                                        assert forall|j: int| idx < j < product.records().len() implies (#[trigger] product.records()[j]).is_fresh() by {
                                            assert(product.records()[j] == front.records()[j]);
                                        }
                                    }
                                }
                            }
                        },
                    }
                },
                Step::Finish => {
                    proof {
                        assert(worker.received_ids() =~= all_ids) by {
                            assert(ids_of(pending@) =~= Seq::<usize>::empty());
                        }
                    }
                    break;
                },
                Step::Receive => {
                    proof {
                        assert(false);
                    }
                    break;
                },
            }
        }
    }
    proof {
        vstd::seq_lib::to_multiset_len(ids_of(out@));
        vstd::seq_lib::to_multiset_len(all_ids);
    }
    Ok(out)
}

/// When the item at the front of `pending` reaches station `index`.
fn entry_of(pending: &VecDeque<Product>, index: usize) -> (r: u64)
    requires
        pending@.len() > 0,
        pending@[0].ready_for(index as int),
    ensures
        Some(r) == pending@[0].entry_time(index as int),
{
    let p = &pending[0];
    p.entry_time_at(index).unwrap()
}

proof fn lemma_mul_succ(a: int, w: int)
    ensures
        (a + 1) * w == a * w + w,
{
    assert((a + 1) * w == a * w + w) by (nonlinear_arith);
}

proof fn lemma_mul_le(a: int, b: int, w: int)
    requires
        0 <= a <= b,
        w >= 0,
    ensures
        a * w <= b * w,
{
    assert(a * w <= b * w) by (nonlinear_arith)
        requires
            0 <= a <= b,
            w >= 0,
    ;
}

/// The front item's remaining work is part of the pending work.
proof fn lemma_front_remaining(w: StationWorker)
    requires
        w.queue().len() > 0,
    ensures
        w.queue()[0].records()[w.spec_station().index as int].remaining <= w.pending_work(),
{
    crate::station::lemma_remaining_sum_nonneg(w.queue().drop_first(), w.spec_station().index as int);
}

proof fn lemma_remaining_sum_nonneg_of(w: StationWorker)
    ensures
        w.pending_work() >= 0,
{
    crate::station::lemma_remaining_sum_nonneg(w.queue(), w.spec_station().index as int);
}

} // verus!
