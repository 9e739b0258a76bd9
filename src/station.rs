//! Stations: their fixed configuration, the timing record an item keeps for
//! each of them, and the decisions a station worker takes.
use vstd::prelude::*;
use crate::product::Product;
use crate::scheduler::SchedulingAlgorithm;
use std::collections::VecDeque;

verus! {

/// The fixed description of one station: a name and the processing time, in
/// milliseconds, that every item needs there.
#[derive(Clone, Copy, Debug)]
pub struct StationConfig {
    pub name: &'static str,
    pub processing_time: u64,
}

/// What one item has been through at one station. Times are milliseconds on
/// the clock of the run.
///
/// A record is fresh until the item enters the station's queue, queued while
/// the item waits or is between slices, and done once all its work has been
/// delivered.
#[derive(Clone, Copy, Debug, PartialEq, Eq, Structural)]
pub struct StationState {
    /// When the item most recently entered the station's ready queue.
    pub queue_entry: Option<u64>,
    /// When the item first entered the station's queue.
    pub first_queue_entry: Option<u64>,
    /// When the item was first dispatched at the station.
    pub first_entry: Option<u64>,
    /// When the item finished the station.
    pub final_exit: Option<u64>,
    /// Time spent queued at the station, over every stay in its queue.
    pub total_wait: u64,
    /// Work still owed to the item at the station.
    pub remaining: u64,
}

/// The result of one dispatch: the slice served, and whether the item finished
/// the station with it.
#[derive(Clone, Copy, Debug, PartialEq, Eq, Structural)]
pub struct Dispatch {
    pub slice: u64,
    pub completed: bool,
    /// When the slice ended.
    pub end: u64,
}

impl StationState {
    pub open spec fn is_fresh(self) -> bool {
        &&& self.queue_entry is None
        &&& self.first_queue_entry is None
        &&& self.first_entry is None
        &&& self.final_exit is None
        &&& self.total_wait == 0
        &&& self.remaining == 0
    }

    /// Queued, with `work` the station's processing time. The time since the
    /// first arrival is exactly the wait plus the work delivered so far.
    pub open spec fn is_queued(self, work: nat) -> bool {
        &&& self.first_queue_entry is Some
        &&& self.queue_entry is Some
        &&& self.final_exit is None
        &&& 0 < self.remaining <= work
        &&& self.first_queue_entry->0 <= self.queue_entry->0
        &&& self.queue_entry->0 - self.first_queue_entry->0 == self.total_wait + (work
            - self.remaining)
        &&& self.first_entry is None ==> self.remaining == work && self.total_wait == 0
        &&& self.first_entry is Some ==> {
            &&& self.first_queue_entry->0 <= self.first_entry->0
            &&& self.first_entry->0 + (work - self.remaining) <= self.queue_entry->0
        }
    }

    /// Done, with `work` the station's processing time. The stay at the station
    /// is exactly the wait plus the work.
    pub open spec fn is_done(self, work: nat) -> bool {
        &&& self.first_queue_entry is Some
        &&& self.first_entry is Some
        &&& self.final_exit is Some
        &&& self.queue_entry is None
        &&& self.remaining == 0
        &&& self.first_queue_entry->0 <= self.first_entry->0
        &&& self.first_entry->0 + work <= self.final_exit->0
        &&& self.final_exit->0 - self.first_queue_entry->0 == self.total_wait + work
    }

    pub open spec fn inv(self, work: nat) -> bool {
        &&& work > 0
        &&& self.is_fresh() || self.is_queued(work) || self.is_done(work)
    }

    /// The work delivered to the item at this station so far.
    pub open spec fn served(self, work: nat) -> int {
        if self.first_queue_entry is None {
            0
        } else {
            work - self.remaining
        }
    }

    /// The latest time the record speaks of: the last queue entry while
    /// queued, the exit once done.
    pub open spec fn clock(self) -> int {
        if self.queue_entry is Some {
            self.queue_entry->0 as int
        } else if self.final_exit is Some {
            self.final_exit->0 as int
        } else {
            0
        }
    }

    /// The state after one dispatch at time `now` under `algorithm`: service
    /// starts when both the worker and the item are there, lasts one slice,
    /// and the item either finishes or goes back to the queue.
    pub open spec fn served_at(self, now: nat, algorithm: SchedulingAlgorithm) -> (StationState, nat) {
        let q = self.queue_entry->0 as nat;
        let start: nat = if now >= q { now } else { q };
        let slice = algorithm.slice_of(self.remaining as nat);
        let end = start + slice;
        let first = if self.first_entry is None { Some(start as u64) } else { self.first_entry };
        let wait = (self.total_wait + (start - q)) as u64;
        if slice == self.remaining {
            (StationState {
                queue_entry: None,
                first_queue_entry: self.first_queue_entry,
                first_entry: first,
                final_exit: Some(end as u64),
                total_wait: wait,
                remaining: 0,
            }, slice)
        } else {
            (StationState {
                queue_entry: Some(end as u64),
                first_queue_entry: self.first_queue_entry,
                first_entry: first,
                final_exit: None,
                total_wait: wait,
                remaining: (self.remaining - slice) as u64,
            }, slice)
        }
    }

    /// The record of an item that has not reached the station yet.
    pub fn new() -> (r: Self)
        ensures
            r.is_fresh(),
    {
        StationState {
            queue_entry: None,
            first_queue_entry: None,
            first_entry: None,
            final_exit: None,
            total_wait: 0,
            remaining: 0,
        }
    }

    /// The item enters the station's queue at `at`, owed `work`.
    pub fn enter_queue(&mut self, at: u64, work: u64)
        requires
            old(self).is_fresh(),
            work > 0,
        ensures
            final(self).is_queued(work as nat),
            final(self).first_queue_entry == Some(at),
            final(self).queue_entry == Some(at),
            final(self).remaining == work,
            final(self).first_entry is None,
            final(self).total_wait == 0,
    {
        self.queue_entry = Some(at);
        self.first_queue_entry = Some(at);
        self.remaining = work;
    }

    /// One dispatch of the queued item at time `now`. `None`, with the record
    /// unchanged, when the end of the slice would pass the largest time.
    pub fn serve(&mut self, now: u64, algorithm: SchedulingAlgorithm, work: u64) -> (r: Option<Dispatch>)
        requires
            old(self).is_queued(work as nat),
            algorithm.valid(),
        ensures
            ({
                let q = old(self).queue_entry->0 as nat;
                let start: nat = if now >= q { now as nat } else { q };
                let (next, slice) = old(self).served_at(now as nat, algorithm);
                match r {
                    None => start + slice > u64::MAX && *final(self) == *old(self),
                    Some(d) => {
                        &&& start + slice <= u64::MAX
                        &&& *final(self) == next
                        &&& d.end == start + slice
                        &&& d.slice == slice
                        &&& d.completed == (slice == old(self).remaining)
                    },
                }
            }),
            r is Some ==> final(self).is_queued(work as nat) || final(self).is_done(work as nat),
            r is Some ==> final(self).first_queue_entry == old(self).first_queue_entry,
            r is Some ==> 0 < r->0.slice <= old(self).remaining,
            r is Some && r->0.completed ==> final(self).is_done(work as nat),
            r is Some && !r->0.completed ==> final(self).is_queued(work as nat)
                && final(self).remaining < old(self).remaining,
    {
        let q = match self.queue_entry {
            Some(t) => t,
            None => 0,
        };
        let start = if now >= q { now } else { q };
        let slice = algorithm.calculate_quantum(self.remaining);
        if slice > u64::MAX - start {
            return None;
        }
        let end = start + slice;
        self.total_wait = self.total_wait + (start - q);
        if self.first_entry.is_none() {
            self.first_entry = Some(start);
        }
        if slice == self.remaining {
            self.remaining = 0;
            self.queue_entry = None;
            self.final_exit = Some(end);
            Some(Dispatch { slice, completed: true, end })
        } else {
            self.remaining = self.remaining - slice;
            self.queue_entry = Some(end);
            Some(Dispatch { slice, completed: false, end })
        }
    }
}

/// One station of the line: its position, configuration and policy.
#[derive(Clone, Copy, Debug)]
pub struct Station {
    pub index: usize,
    pub config: StationConfig,
    pub algorithm: SchedulingAlgorithm,
}

impl Station {
    pub fn new(index: usize, config: StationConfig, algorithm: SchedulingAlgorithm) -> (r: Self)
        ensures
            r.index == index,
            r.config == config,
            r.algorithm == algorithm,
    {
        Station { index, config, algorithm }
    }

    /// The station has work to do per item and a policy that makes progress.
    pub open spec fn runnable(self) -> bool {
        self.config.processing_time > 0 && self.algorithm.valid()
    }

    /// The item has reached this station, not entered it yet, and is owed
    /// this station's processing time here.
    pub open spec fn accepts(self, p: Product) -> bool {
        &&& p.ready_for(self.index as int)
        &&& p.works()[self.index as int] == self.config.processing_time
    }

    /// The item enters this station's queue, at the moment it reached the
    /// station. `false`, with the item unchanged, when the station does not
    /// accept it.
    pub fn register_arrival(&self, product: &mut Product) -> (r: bool)
        ensures
            r == self.accepts(*old(product)),
            !r ==> *final(product) == *old(product),
            r ==> final(product).records() == old(product).records().update(
                self.index as int,
                StationState {
                    queue_entry: old(product).entry_time(self.index as int),
                    first_queue_entry: old(product).entry_time(self.index as int),
                    first_entry: None,
                    final_exit: None,
                    total_wait: 0,
                    remaining: self.config.processing_time,
                },
            ),
            r ==> final(product).records()[self.index as int].is_queued(
                self.config.processing_time as nat,
            ),
            final(product).works() == old(product).works(),
            final(product).spec_id() == old(product).spec_id(),
            final(product).offset() == old(product).offset(),
            final(product).arrival() == old(product).arrival(),
    {
        if product.is_ready_for(self.index) && product.work_at_station(self.index)
            == self.config.processing_time {
            product.enter_station(self.index);
            true
        } else {
            false
        }
    }

    /// One dispatch of a queued item at time `now`: see [`StationState::serve`].
    pub fn process_product(&self, product: &mut Product, now: u64) -> (r: Option<Dispatch>)
        requires
            self.runnable(),
            self.index < old(product).stage_count(),
            self.index < old(product).works().len(),
            old(product).records()[self.index as int].is_queued(
                old(product).works()[self.index as int] as nat,
            ),
        ensures
            ({
                let old_st = old(product).records()[self.index as int];
                let q = old_st.queue_entry->0 as nat;
                let start: nat = if now >= q { now as nat } else { q };
                let (next, slice) = old_st.served_at(now as nat, self.algorithm);
                match r {
                    None => start + slice > u64::MAX && *final(product) == *old(product),
                    Some(d) => {
                        &&& start + slice <= u64::MAX
                        &&& final(product).records() == old(product).records().update(
                            self.index as int,
                            next,
                        )
                        &&& d.end == start + slice
                        &&& d.slice == slice
                        &&& d.completed == (slice == old_st.remaining)
                    },
                }
            }),
            r is Some ==> 0 < r->0.slice <= old(product).records()[self.index as int].remaining,
            r is Some && r->0.completed ==> final(product).records()[self.index as int].is_done(
                final(product).works()[self.index as int] as nat,
            ),
            r is Some && !r->0.completed ==> final(product).records()[self.index as int].is_queued(
                final(product).works()[self.index as int] as nat,
            ),
            self.algorithm is Fcfs ==> r is Some ==> r->0.completed,
            final(product).works() == old(product).works(),
            final(product).spec_id() == old(product).spec_id(),
            final(product).offset() == old(product).offset(),
            final(product).arrival() == old(product).arrival(),
    {
        product.serve_station(self.index, now, self.algorithm)
    }
}

/// What travels between stations: an item, or the signal that no more will
/// come.
#[derive(Debug)]
pub enum Message {
    Product(Product),
    Shutdown,
}

/// What a worker has to do next.
#[derive(Clone, Copy, Debug, PartialEq, Eq, Structural)]
pub enum Step {
    /// Serve the item at the front of the ready queue.
    Dispatch,
    /// Wait for the next message.
    Receive,
    /// Pass the shutdown signal on and stop.
    Finish,
}

/// The outcome of one dispatch.
#[derive(Debug)]
pub enum Served {
    /// The item was served `slice`, ending at `end`, and went back to the
    /// end of the ready queue.
    Preempted { slice: u64, end: u64 },
    /// The item was served `slice`, ending at `end`, finished the station and
    /// leaves it.
    Completed { slice: u64, end: u64, product: Product },
    /// The slice would end past the largest time; nothing changed.
    ClockOverflow,
}

/// Work still owed at station `idx` to the items of `s`.
pub open spec fn remaining_sum(s: Seq<Product>, idx: int) -> int
    decreases s.len(),
{
    if s.len() == 0 {
        0
    } else {
        s[0].records()[idx].remaining + remaining_sum(s.drop_first(), idx)
    }
}

pub proof fn lemma_remaining_sum_push(s: Seq<Product>, idx: int, p: Product)
    ensures
        remaining_sum(s.push(p), idx) == remaining_sum(s, idx) + p.records()[idx].remaining,
    decreases s.len(),
{
    if s.len() > 0 {
        assert(s.push(p).drop_first() =~= s.drop_first().push(p));
        assert(s.push(p)[0] == s[0]);
        lemma_remaining_sum_push(s.drop_first(), idx, p);
    } else {
        assert(s.push(p).drop_first() =~= Seq::<Product>::empty());
        assert(s.push(p)[0] == p);
        assert(remaining_sum(Seq::<Product>::empty(), idx) == 0);
    }
}

pub proof fn lemma_remaining_sum_nonneg(s: Seq<Product>, idx: int)
    ensures
        remaining_sum(s, idx) >= 0,
    decreases s.len(),
{
    if s.len() > 0 {
        lemma_remaining_sum_nonneg(s.drop_first(), idx);
    }
}

/// The ids of a list of items.
pub open spec fn ids_of(s: Seq<Product>) -> Seq<usize> {
    s.map_values(|p: Product| p.spec_id())
}

/// The decisions of one station's worker: its ready queue, whether shutdown
/// was signalled, and the ids of the items it has received and completed.
pub struct StationWorker {
    station: Station,
    ready: VecDeque<Product>,
    shutdown_received: bool,
    received: Ghost<Seq<usize>>,
    completed: Ghost<Seq<usize>>,
}

impl StationWorker {
    pub closed spec fn spec_station(self) -> Station {
        self.station
    }

    /// The ready queue, front first.
    pub closed spec fn queue(self) -> Seq<Product> {
        self.ready@
    }

    pub closed spec fn spec_shutdown(self) -> bool {
        self.shutdown_received
    }

    /// Ids of the items accepted, in order of arrival.
    pub closed spec fn received_ids(self) -> Seq<usize> {
        self.received@
    }

    /// Ids of the items that finished the station, in order of completion.
    pub closed spec fn completed_ids(self) -> Seq<usize> {
        self.completed@
    }

    /// Work still owed to the items of the ready queue.
    pub open spec fn pending_work(self) -> int {
        remaining_sum(self.queue(), self.spec_station().index as int)
    }

    /// Every queued item waits at this station; no item is lost or
    /// duplicated; under first-come first-served, items leave in the order
    /// they came.
    pub closed spec fn wf(self) -> bool {
        let idx = self.station.index as int;
        let work = self.station.config.processing_time;
        &&& self.station.runnable()
        &&& forall|i: int|
            0 <= i < self.ready@.len() ==> {
                &&& (#[trigger] self.ready@[i]).wf()
                &&& idx < self.ready@[i].stage_count()
                &&& idx < self.ready@[i].works().len()
                &&& self.ready@[i].works()[idx] == work
                &&& self.ready@[i].records()[idx].is_queued(work as nat)
            }
        &&& (self.completed@ + ids_of(self.ready@)).to_multiset() == self.received@.to_multiset()
        &&& self.station.algorithm is Fcfs ==> self.completed@ + ids_of(self.ready@)
            == self.received@
    }

    /// Nothing was lost: what came in has left or waits, counted with
    /// multiplicity; in order, under first-come first-served.
    pub open spec fn conserves(self) -> bool {
        &&& (self.completed_ids() + ids_of(self.queue())).to_multiset()
            == self.received_ids().to_multiset()
        &&& self.spec_station().algorithm is Fcfs ==> self.completed_ids() + ids_of(self.queue())
            == self.received_ids()
    }

    pub fn new(station: Station) -> (r: Self)
        requires
            station.runnable(),
        ensures
            r.wf(),
            r.conserves(),
            r.spec_station() == station,
            r.queue().len() == 0,
            !r.spec_shutdown(),
            r.received_ids().len() == 0,
            r.completed_ids().len() == 0,
    {
        let r = StationWorker {
            station,
            ready: VecDeque::new(),
            shutdown_received: false,
            received: Ghost(Seq::empty()),
            completed: Ghost(Seq::empty()),
        };
        assert(r.completed@ + ids_of(r.ready@) =~= r.received@);
        r
    }

    pub fn station(&self) -> (r: &Station)
        ensures
            *r == self.spec_station(),
    {
        &self.station
    }

    /// Number of items in the ready queue.
    pub fn ready_len(&self) -> (r: usize)
        ensures
            r == self.queue().len(),
    {
        self.ready.len()
    }

    pub fn shutdown_received(&self) -> (r: bool)
        ensures
            r == self.spec_shutdown(),
    {
        self.shutdown_received
    }

    /// Takes in one message. An item the station accepts enters the back of
    /// the ready queue; one it does not accept is handed back unchanged.
    pub fn receive(&mut self, message: Message) -> (r: Result<(), Product>)
        requires
            old(self).wf(),
        ensures
            final(self).wf(),
            final(self).conserves(),
            final(self).spec_station() == old(self).spec_station(),
            final(self).completed_ids() == old(self).completed_ids(),
            match message {
                Message::Shutdown => {
                    &&& r is Ok
                    &&& final(self).spec_shutdown()
                    &&& final(self).queue() == old(self).queue()
                    &&& final(self).received_ids() == old(self).received_ids()
                },
                Message::Product(p) => {
                    &&& final(self).spec_shutdown() == old(self).spec_shutdown()
                    &&& r is Ok <==> old(self).spec_station().accepts(p)
                    &&& r is Err ==> r->Err_0 == p && final(self).queue() == old(self).queue()
                        && final(self).received_ids() == old(self).received_ids()
                    &&& r is Ok ==> {
                        &&& final(self).received_ids() == old(self).received_ids().push(p.spec_id())
                        &&& final(self).queue().len() == old(self).queue().len() + 1
                        &&& final(self).queue().drop_last() == old(self).queue()
                        &&& final(self).queue().last().spec_id() == p.spec_id()
                        &&& final(self).queue().last().works() == p.works()
                        &&& final(self).queue().last().arrival() == p.arrival()
                        &&& final(self).queue().last().offset() == p.offset()
                        &&& final(self).queue().last().wf()
                        &&& final(self).queue().last().records() == p.records().update(
                            old(self).spec_station().index as int,
                            StationState {
                                queue_entry: p.entry_time(old(self).spec_station().index as int),
                                first_queue_entry: p.entry_time(old(self).spec_station().index as int),
                                first_entry: None,
                                final_exit: None,
                                total_wait: 0,
                                remaining: old(self).spec_station().config.processing_time,
                            },
                        )
                        &&& final(self).queue().last().records()[old(self).spec_station().index as int]
                            .is_queued(old(self).spec_station().config.processing_time as nat)
                        &&& final(self).pending_work() == old(self).pending_work()
                            + old(self).spec_station().config.processing_time
                    }
                },
            },
    {
        match message {
            Message::Shutdown => {
                self.shutdown_received = true;
                Ok(())
            },
            Message::Product(mut p) => {
                if self.station.register_arrival(&mut p) {
                    let ghost old_ready = self.ready@;
                    let ghost old_received = self.received@;
                    let ghost id = p.spec_id();
                    proof {
                        use_type_invariant(&p);
                    }
                    self.ready.push_back(p);
                    self.received = Ghost(self.received@.push(id));
                    proof {
                        assert(ids_of(self.ready@) =~= ids_of(old_ready).push(id));
                        assert(self.completed@ + ids_of(self.ready@) =~= (self.completed@ + ids_of(
                            old_ready,
                        )).push(id));
                        assert(self.ready@.drop_last() =~= old_ready);
                        lemma_remaining_sum_push(old_ready, self.station.index as int, self.ready@.last());
                        vstd::seq_lib::to_multiset_build(self.completed@ + ids_of(old_ready), id);
                        vstd::seq_lib::to_multiset_build(old_received, id);
                        assert(forall|i: int| 0 <= i < old_ready.len() ==> self.ready@[i] == old_ready[i]);
                    }
                    Ok(())
                } else {
                    Err(p)
                }
            },
        }
    }

    /// What to do next: serve while items wait; otherwise wait for a message,
    /// or stop once shutdown was signalled. A worker that stops has completed
    /// every item it received.
    pub fn next_step(&self) -> (r: Step)
        requires
            self.wf(),
        ensures
            r == (if self.queue().len() > 0 {
                Step::Dispatch
            } else if self.spec_shutdown() {
                Step::Finish
            } else {
                Step::Receive
            }),
            r == Step::Finish ==> self.completed_ids().to_multiset()
                == self.received_ids().to_multiset(),
            r == Step::Finish && self.spec_station().algorithm is Fcfs ==> self.completed_ids()
                == self.received_ids(),
    {
        if self.ready.len() > 0 {
            Step::Dispatch
        } else if self.shutdown_received {
            proof {
                assert(ids_of(self.ready@) =~= Seq::<usize>::empty());
                assert(self.completed@ + ids_of(self.ready@) =~= self.completed@);
            }
            Step::Finish
        } else {
            Step::Receive
        }
    }

    /// Serves the item at the front of the ready queue, starting at `now` or
    /// when the item entered the queue, whichever is later. Under
    /// first-come first-served the item always finishes.
    pub fn dispatch(&mut self, now: u64) -> (r: Served)
        requires
            old(self).wf(),
            old(self).queue().len() > 0,
        ensures
            final(self).wf(),
            final(self).conserves(),
            final(self).spec_station() == old(self).spec_station(),
            final(self).spec_shutdown() == old(self).spec_shutdown(),
            final(self).received_ids() == old(self).received_ids(),
            ({
                let idx = old(self).spec_station().index as int;
                let front = old(self).queue()[0];
                let old_st = front.records()[idx];
                let (next, slice) = old_st.served_at(now as nat, old(self).spec_station().algorithm);
                match r {
                    Served::ClockOverflow => {
                        &&& final(self).queue() == old(self).queue()
                        &&& final(self).completed_ids() == old(self).completed_ids()
                        &&& (if now >= old_st.queue_entry->0 {
                            now as int
                        } else {
                            old_st.queue_entry->0 as int
                        }) + slice > u64::MAX
                    },
                    Served::Preempted { slice: s, end } => {
                        &&& s == slice
                        &&& 0 < s
                        &&& end as int == (if now >= old_st.queue_entry->0 {
                            now as int
                        } else {
                            old_st.queue_entry->0 as int
                        }) + slice
                        &&& end == next.queue_entry->0
                        &&& final(self).pending_work() == old(self).pending_work() - slice
                        &&& slice < old_st.remaining
                        &&& final(self).completed_ids() == old(self).completed_ids()
                        &&& final(self).queue().len() == old(self).queue().len()
                        &&& final(self).queue().drop_last() == old(self).queue().drop_first()
                        &&& final(self).queue().last().spec_id() == front.spec_id()
                        &&& final(self).queue().last().works() == front.works()
                        &&& final(self).queue().last().arrival() == front.arrival()
                        &&& final(self).queue().last().offset() == front.offset()
                        &&& final(self).queue().last().wf()
                        &&& final(self).queue().last().records() == front.records().update(idx, next)
                    },
                    Served::Completed { slice: s, end, product } => {
                        &&& s == slice
                        &&& 0 < s
                        &&& end as int == (if now >= old_st.queue_entry->0 {
                            now as int
                        } else {
                            old_st.queue_entry->0 as int
                        }) + slice
                        &&& end == next.final_exit->0
                        &&& final(self).pending_work() == old(self).pending_work() - slice
                        &&& slice == old_st.remaining
                        &&& final(self).completed_ids() == old(self).completed_ids().push(front.spec_id())
                        &&& final(self).queue() == old(self).queue().drop_first()
                        &&& product.spec_id() == front.spec_id()
                        &&& product.works() == front.works()
                        &&& product.arrival() == front.arrival()
                        &&& product.offset() == front.offset()
                        &&& product.wf()
                        &&& product.records() == front.records().update(idx, next)
                        &&& product.records()[idx].is_done(old(self).spec_station().config.processing_time as nat)
                    },
                }
            }),
            old(self).spec_station().algorithm is Fcfs ==> !(r is Preempted),
    {
        let ghost old_ready = self.ready@;
        let ghost old_self = *self;
        let mut p = match self.ready.pop_front() {
            Some(p) => p,
            None => {
                return Served::ClockOverflow;
            },
        };
        let ghost id = p.spec_id();
        let ghost rest = self.ready@;
        proof {
            assert(old_ready[0] == p);
            assert(ids_of(old_ready) =~= seq![id] + ids_of(rest));
            assert(forall|i: int| 0 <= i < rest.len() ==> rest[i] == old_ready[i + 1]);
            assert(rest =~= old_ready.drop_first());
        }
        match self.station.process_product(&mut p, now) {
            None => {
                self.ready.push_front(p);
                proof {
                    assert(self.ready@ =~= old_ready);
                }
                Served::ClockOverflow
            },
            Some(d) => {
                proof {
                    use_type_invariant(&p);
                }
                if d.completed {
                    self.completed = Ghost(self.completed@.push(id));
                    proof {
                        assert(self.completed@ + ids_of(self.ready@) =~= old_self.completed@ + ids_of(old_ready));
                    }
                    Served::Completed { slice: d.slice, end: d.end, product: p }
                } else {
                    proof {
                        use_type_invariant(&p);
                    }
                    self.ready.push_back(p);
                    proof {
                        assert(ids_of(self.ready@) =~= ids_of(rest) + seq![id]);
                        assert(self.ready@.drop_last() =~= rest);
                        assert(self.completed@ + ids_of(self.ready@) =~= self.completed@ + (ids_of(rest) + seq![id]));
                        assert(old_self.completed@ + ids_of(old_ready) =~= self.completed@ + (seq![id] + ids_of(rest)));
                        vstd::seq_lib::lemma_multiset_commutative(self.completed@, ids_of(rest) + seq![id]);
                        vstd::seq_lib::lemma_multiset_commutative(self.completed@, seq![id] + ids_of(rest));
                        vstd::seq_lib::lemma_seq_union_to_multiset_commutative(ids_of(rest), seq![id]);
                        assert(forall|i: int| 0 <= i < rest.len() ==> self.ready@[i] == rest[i]);
                        lemma_remaining_sum_push(rest, self.station.index as int, p);
                        assert(self.ready@ =~= rest.push(p));
                        assert(rest =~= old_ready.drop_first());
                    }
                    Served::Preempted { slice: d.slice, end: d.end }
                }
            },
        }
    }
}

/// Under first-come first-served a station lets items go in the order they
/// came: the ids it has completed are the first ids it received.
pub proof fn lemma_fcfs_keeps_order(w: StationWorker)
    requires
        w.conserves(),
        w.spec_station().algorithm is Fcfs,
    ensures
        w.completed_ids().len() <= w.received_ids().len(),
        w.completed_ids() == w.received_ids().subrange(0, w.completed_ids().len() as int),
{
    let c = w.completed_ids();
    assert(w.received_ids() == c + ids_of(w.queue()));
    assert((c + ids_of(w.queue())).subrange(0, c.len() as int) =~= c);
}

/// A line of stations that each let out a prefix, in order, of what they
/// were given (`flows[k + 1]` leaves station `k`, which was given
/// `flows[k]`) lets out a prefix, in order, of what entered the line.
pub proof fn lemma_line_keeps_order(flows: Seq<Seq<usize>>)
    requires
        flows.len() > 0,
        forall|k: int|
            0 <= k < flows.len() - 1 ==> {
                &&& (#[trigger] flows[k + 1]).len() <= flows[k].len()
                &&& flows[k + 1] == flows[k].subrange(0, flows[k + 1].len() as int)
            },
    ensures
        flows.last().len() <= flows[0].len(),
        flows.last() == flows[0].subrange(0, flows.last().len() as int),
    decreases flows.len(),
{
    if flows.len() > 1 {
        let shorter = flows.drop_last();
        assert forall|k: int| 0 <= k < shorter.len() - 1 implies {
            &&& (#[trigger] shorter[k + 1]).len() <= shorter[k].len()
            &&& shorter[k + 1] == shorter[k].subrange(0, shorter[k + 1].len() as int)
        } by {
            assert(shorter[k + 1] == flows[k + 1] && shorter[k] == flows[k]);
        }
        lemma_line_keeps_order(shorter);
        let n = flows.len() as int;
        let k = n - 2;
        assert(flows[k + 1].len() <= flows[k].len());
        assert(flows[k + 1] == flows[k].subrange(0, flows[k + 1].len() as int));
        assert(shorter.last() == flows[n - 2]);
        assert(flows[n - 1] =~= flows[0].subrange(0, flows[n - 1].len() as int));
    }
}

} // verus!
