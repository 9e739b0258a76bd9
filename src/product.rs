//! Items flowing through the line, each with one timing record per station.
use vstd::prelude::*;
use crate::scheduler::SchedulingAlgorithm;
use crate::station::{Dispatch, StationConfig, StationState};
use crate::text::{append_decimal, append_text, decimal};

verus! {

/// One item. It is owned by one party at a time (the generator, a station or
/// the collector) and moves between them by value.
///
/// Its records are chained: the item enters the first station when it
/// arrives, and each later station when it leaves the one before.
#[derive(Debug)]
pub struct Product {
    pub(crate) id: usize,
    pub(crate) arrival_offset: u64,
    pub(crate) arrival_instant: Option<u64>,
    pub(crate) stations: Vec<StationState>,
    pub(crate) work: Vec<u64>,
}

/// Sum of the waits of the first `k` records.
pub open spec fn wait_sum(st: Seq<StationState>, k: int) -> int
    decreases k,
{
    if k <= 0 {
        0
    } else {
        wait_sum(st, k - 1) + st[k - 1].total_wait
    }
}

/// Sum of the first `k` processing times.
pub open spec fn work_sum(w: Seq<u64>, k: int) -> int
    decreases k,
{
    if k <= 0 {
        0
    } else {
        work_sum(w, k - 1) + w[k - 1]
    }
}

/// Sum of wait plus delivered work over the first `k` records.
pub open spec fn span_sum(st: Seq<StationState>, w: Seq<u64>, k: int) -> int
    decreases k,
{
    if k <= 0 {
        0
    } else {
        span_sum(st, w, k - 1) + st[k - 1].total_wait + st[k - 1].served(w[k - 1] as nat)
    }
}

/// The processing times of a list of stations.
pub open spec fn work_of(configs: Seq<StationConfig>) -> Seq<u64> {
    configs.map_values(|c: StationConfig| c.processing_time)
}

/// Every station of the list needs some work.
pub open spec fn configs_valid(configs: Seq<StationConfig>) -> bool {
    forall|i: int| 0 <= i < configs.len() ==> #[trigger] configs[i].processing_time > 0
}

/// The id as at least two digits.
pub open spec fn two_digits(n: nat) -> Seq<char> {
    if n < 10 {
        seq!['0'] + decimal(n)
    } else {
        decimal(n)
    }
}

/// Number of records among the first `k` whose station is finished.
pub open spec fn done_count(st: Seq<StationState>, k: int) -> int
    decreases k,
{
    if k <= 0 {
        0
    } else {
        done_count(st, k - 1) + if st[k - 1].final_exit is Some {
            1int
        } else {
            0int
        }
    }
}

impl Product {
    /// The records are consistent with each other and with the processing
    /// times the item was created with.
    #[verifier::type_invariant]
    pub open spec fn wf(self) -> bool {
        let st = self.records();
        let w = self.works();
        &&& st.len() == w.len()
        &&& forall|k: int| 0 <= k < st.len() ==> #[trigger] st[k].inv(w[k] as nat)
        &&& st.len() > 0 && !st[0].is_fresh() ==> self.arrival() == st[0].first_queue_entry
        &&& st.len() > 0 && self.arrival() is None ==> st[0].is_fresh()
        &&& forall|k: int|
            0 < k < st.len() && !#[trigger] st[k].is_fresh() ==> {
                &&& st[k - 1].is_done(w[k - 1] as nat)
                &&& st[k].first_queue_entry == st[k - 1].final_exit
            }
    }

    pub open spec fn stage_count(self) -> nat {
        self.records().len()
    }

    pub closed spec fn spec_id(self) -> usize {
        self.id
    }

    pub closed spec fn offset(self) -> u64 {
        self.arrival_offset
    }

    /// When the item arrived, once it has.
    pub closed spec fn arrival(self) -> Option<u64> {
        self.arrival_instant
    }

    /// The timing records, one per station.
    pub closed spec fn records(self) -> Seq<StationState> {
        self.stations@
    }

    /// The processing time owed at each station.
    pub closed spec fn works(self) -> Seq<u64> {
        self.work@
    }

    /// The last station is finished (vacuously so with no station).
    pub open spec fn completed(self) -> bool {
        self.records().len() == 0 || self.records().last().final_exit is Some
    }

    /// When the item enters station `k`'s queue, once it can.
    pub open spec fn entry_time(self, k: int) -> Option<u64> {
        if k == 0 {
            self.arrival()
        } else {
            self.records()[k - 1].final_exit
        }
    }

    /// The item can enter station `k` now: it has reached it and not entered it.
    pub open spec fn ready_for(self, k: int) -> bool {
        &&& 0 <= k < self.records().len()
        &&& self.records()[k].is_fresh()
        &&& self.entry_time(k) is Some
    }

    /// A new item, not yet arrived, owed each station's processing time.
    pub fn new(id: usize, arrival_offset: u64, station_configs: &[StationConfig]) -> (r: Self)
        requires
            configs_valid(station_configs@),
        ensures
            r.spec_id() == id,
            r.offset() == arrival_offset,
            r.arrival() is None,
            r.records().len() == station_configs@.len(),
            r.works() == work_of(station_configs@),
            forall|k: int| 0 <= k < r.records().len() ==> (#[trigger] r.records()[k]).is_fresh(),
    {
        let mut stations: Vec<StationState> = Vec::new();
        let mut work: Vec<u64> = Vec::new();
        let mut i: usize = 0;
        while i < station_configs.len()
            invariant
                i <= station_configs@.len(),
                configs_valid(station_configs@),
                stations@.len() == i,
                work@.len() == i,
                forall|k: int| 0 <= k < i ==> (#[trigger] stations@[k]).is_fresh(),
                forall|k: int| 0 <= k < i ==> #[trigger] work@[k] == station_configs@[k].processing_time,
            decreases station_configs@.len() - i,
        {
            stations.push(StationState::new());
            work.push(station_configs[i].processing_time);
            i = i + 1;
        }
        assert(work@ =~= work_of(station_configs@));
        Product { id, arrival_offset, arrival_instant: None, stations, work }
    }

    pub fn id(&self) -> (r: usize)
        ensures
            r == self.spec_id(),
    {
        self.id
    }

    pub fn arrival_offset(&self) -> (r: u64)
        ensures
            r == self.offset(),
    {
        self.arrival_offset
    }

    pub fn station_count(&self) -> (r: usize)
        ensures
            r == self.stage_count(),
    {
        self.stations.len()
    }

    /// The record of station `index`. Its times are ordered: the first
    /// dispatch is not before the first arrival, and the exit comes strictly
    /// after the first dispatch.
    pub fn station_state(&self, index: usize) -> (r: &StationState)
        requires
            index < self.stage_count(),
        ensures
            *r == self.records()[index as int],
            r.inv(self.works()[index as int] as nat),
            r.first_entry is Some ==> r.first_queue_entry is Some && r.first_queue_entry->0
                <= r.first_entry->0,
            r.final_exit is Some ==> r.first_entry is Some && r.first_entry->0 < r.final_exit->0,
    {
        proof {
            use_type_invariant(self);
            assert(self.records()[index as int].inv(self.works()[index as int] as nat));
        }
        &self.stations[index]
    }

    /// Records the moment the item arrived. The first moment recorded stays.
    pub fn set_arrival_instant(&mut self, instant: u64)
        ensures
            final(self).arrival() == (match old(self).arrival() {
                None => Some(instant),
                Some(t) => Some(t),
            }),
            final(self).spec_id() == old(self).spec_id(),
            final(self).offset() == old(self).offset(),
            final(self).records() == old(self).records(),
            final(self).works() == old(self).works(),
    {
        proof {
            use_type_invariant(&*self);
        }
        if self.arrival_instant.is_none() {
            self.arrival_instant = Some(instant);
        }
    }

    pub fn get_arrival_instant(&self) -> (r: Option<u64>)
        ensures
            r == self.arrival(),
    {
        self.arrival_instant
    }

    /// When the item can enter station `index`'s queue: its arrival for the
    /// first station, its exit from the previous one for the others.
    pub fn entry_time_at(&self, index: usize) -> (r: Option<u64>)
        requires
            index < self.stage_count(),
        ensures
            r == self.entry_time(index as int),
    {
        if index == 0 {
            self.arrival_instant
        } else {
            self.stations[index - 1].final_exit
        }
    }

    /// Whether the item can enter station `index` now.
    pub fn is_ready_for(&self, index: usize) -> (r: bool)
        ensures
            r == self.ready_for(index as int),
    {
        if index >= self.stations.len() {
            return false;
        }
        let s = &self.stations[index];
        let fresh = s.queue_entry.is_none() && s.first_queue_entry.is_none()
            && s.first_entry.is_none() && s.final_exit.is_none() && s.total_wait == 0
            && s.remaining == 0;
        fresh && self.entry_time_at(index).is_some()
    }

    /// The processing time the item is owed at station `index`.
    pub fn work_at_station(&self, index: usize) -> (r: u64)
        requires
            index < self.stage_count(),
        ensures
            r == self.works()[index as int],
    {
        proof {
            use_type_invariant(self);
        }
        self.work[index]
    }

    /// The item enters station `index`'s queue at the moment it reached it.
    pub fn enter_station(&mut self, index: usize)
        requires
            old(self).ready_for(index as int),
        ensures
            final(self).records() == old(self).records().update(
                index as int,
                StationState {
                    queue_entry: old(self).entry_time(index as int),
                    first_queue_entry: old(self).entry_time(index as int),
                    first_entry: None,
                    final_exit: None,
                    total_wait: 0,
                    remaining: old(self).works()[index as int],
                },
            ),
            final(self).records()[index as int].is_queued(final(self).works()[index as int] as nat),
            final(self).works() == old(self).works(),
            final(self).spec_id() == old(self).spec_id(),
            final(self).offset() == old(self).offset(),
            final(self).arrival() == old(self).arrival(),
    {
        proof {
            use_type_invariant(&*self);
            assert(self.records()[index as int].inv(self.works()[index as int] as nat));
        }
        let at = self.entry_time_at(index).unwrap();
        let mut st = self.stations[index];
        st.enter_queue(at, self.work[index]);
        proof {
            assert forall|k: int| 0 < k < self.stations@.update(index as int, st).len()
                && !#[trigger] self.stations@.update(index as int, st)[k].is_fresh() implies {
                &&& self.stations@.update(index as int, st)[k - 1].is_done(self.work@[k - 1] as nat)
                &&& self.stations@.update(index as int, st)[k].first_queue_entry
                    == self.stations@.update(index as int, st)[k - 1].final_exit
            } by {
                if k == index {
                    assert(self.stations@[k - 1].inv(self.work@[k - 1] as nat));
                } else if k == index + 1 {
                    if !self.stations@[k].is_fresh() {
                        assert(self.stations@[k - 1].is_done(self.work@[k - 1] as nat));
                    }
                } else {
                    assert(!self.stations@[k].is_fresh());
                }
            }
        }
        self.stations = with_record(&self.stations, index, st);
    }

    /// One dispatch of the item at station `index` at time `now`, with the
    /// record following [`StationState::serve`]; the other records stay.
    pub fn serve_station(&mut self, index: usize, now: u64, algorithm: SchedulingAlgorithm) -> (r: Option<Dispatch>)
        requires
            index < old(self).stage_count(),
            index < old(self).works().len(),
            old(self).records()[index as int].is_queued(old(self).works()[index as int] as nat),
            algorithm.valid(),
        ensures
            ({
                let old_st = old(self).records()[index as int];
                let q = old_st.queue_entry->0 as nat;
                let start: nat = if now >= q { now as nat } else { q };
                let (next, slice) = old_st.served_at(now as nat, algorithm);
                match r {
                    None => start + slice > u64::MAX && final(self).records() == old(self).records(),
                    Some(d) => {
                        &&& start + slice <= u64::MAX
                        &&& final(self).records() == old(self).records().update(index as int, next)
                        &&& d.end == start + slice
                        &&& d.slice == slice
                        &&& d.completed == (slice == old_st.remaining)
                    },
                }
            }),
            r is None ==> *final(self) == *old(self),
            r is Some ==> 0 < r->0.slice <= old(self).records()[index as int].remaining,
            r is Some && r->0.completed ==> final(self).records()[index as int].is_done(
                final(self).works()[index as int] as nat,
            ),
            r is Some && !r->0.completed ==> final(self).records()[index as int].is_queued(
                final(self).works()[index as int] as nat,
            ) && final(self).records()[index as int].remaining < old(self).records()[index as int].remaining,
            final(self).works() == old(self).works(),
            final(self).spec_id() == old(self).spec_id(),
            final(self).offset() == old(self).offset(),
            final(self).arrival() == old(self).arrival(),
    {
        proof {
            use_type_invariant(&*self);
            assert(self.records()[index as int].inv(self.works()[index as int] as nat));
        }
        let mut st = self.stations[index];
        let r = st.serve(now, algorithm, self.work[index]);
        if r.is_none() {
            return r;
        }
        proof {
            assert forall|k: int| 0 < k < self.stations@.update(index as int, st).len()
                && !#[trigger] self.stations@.update(index as int, st)[k].is_fresh() implies {
                &&& self.stations@.update(index as int, st)[k - 1].is_done(self.work@[k - 1] as nat)
                &&& self.stations@.update(index as int, st)[k].first_queue_entry
                    == self.stations@.update(index as int, st)[k - 1].final_exit
            } by {
                if k == index {
                    assert(!self.stations@[k].is_fresh());
                } else if k == index + 1 {
                    if !self.stations@[k].is_fresh() {
                        assert(self.stations@[k - 1].is_done(self.work@[k - 1] as nat));
                    }
                } else {
                    assert(!self.stations@[k].is_fresh());
                }
            }
        }
        self.stations = with_record(&self.stations, index, st);
        r
    }

    /// Sum of the waits at every station.
    pub fn total_wait_time(&self) -> (r: u64)
        ensures
            r == wait_sum(self.records(), self.records().len() as int),
    {
        proof {
            use_type_invariant(self);
            lemma_wait_bounded(*self);
        }
        let mut acc: u64 = 0;
        let mut i: usize = 0;
        while i < self.stations.len()
            invariant
                i <= self.records().len(),
                acc == wait_sum(self.records(), i as int),
                wait_sum(self.records(), self.records().len() as int) <= u64::MAX,
            decreases self.records().len() - i,
        {
            proof {
                lemma_wait_sum_monotone(self.records(), i as int + 1, self.records().len() as int);
            }
            acc = acc + self.stations[i].total_wait;
            i = i + 1;
        }
        acc
    }

    /// Time from arrival to the exit from the last station, once both are
    /// known. For a completed item it is the total wait plus the total
    /// processing time.
    pub fn turnaround_time(&self, _start_time: u64) -> (r: Option<u64>)
        ensures
            r == (if self.arrival() is Some && self.records().len() > 0
                && self.records().last().final_exit is Some {
                Some((self.records().last().final_exit->0 - self.arrival()->0) as u64)
            } else {
                None
            }),
            r is Some ==> r->0 == wait_sum(self.records(), self.records().len() as int)
                + work_sum(self.works(), self.works().len() as int),
    {
        if self.arrival_instant.is_none() || self.stations.len() == 0 {
            return None;
        }
        let last = self.stations.len() - 1;
        if self.stations[last].final_exit.is_none() {
            return None;
        }
        let arrival = self.arrival_instant.unwrap();
        let e = self.stations[last].final_exit.unwrap();
        proof {
            use_type_invariant(self);
        }
        assert(arrival <= e && e - arrival == wait_sum(self.records(), self.records().len() as int)
            + work_sum(self.works(), self.works().len() as int)) by {
            lemma_turnaround(*self);
            assert(self.records().last() == self.stations@[last as int]);
            assert(self.arrival() == Some(arrival));
        }
        Some(e - arrival)
    }

    /// Whether the item has finished the last station.
    pub fn is_completed(&self) -> (r: bool)
        ensures
            r == self.completed(),
    {
        if self.stations.len() == 0 {
            return true;
        }
        let last = self.stations.len() - 1;
        self.stations[last].final_exit.is_some()
    }

    /// A one-line account of the item's progress.
    pub fn status_summary(&self) -> (r: String)
        ensures
            r@ == "Producto "@ + two_digits(self.spec_id() as nat) + ": "@ + decimal(
                done_count(self.records(), self.records().len() as int) as nat,
            ) + "/"@ + decimal(self.records().len()) + " estaciones completadas"@,
    {
        let mut done: usize = 0;
        let mut i: usize = 0;
        while i < self.stations.len()
            invariant
                i <= self.records().len(),
                done == done_count(self.records(), i as int),
                done <= i,
            decreases self.records().len() - i,
        {
            if self.stations[i].final_exit.is_some() {
                done = done + 1;
            }
            i = i + 1;
        }
        let mut s = String::new();
        append_text(&mut s, "Producto ");
        if self.id < 10 {
            append_text(&mut s, "0");
            proof {
                reveal_strlit("0");
            }
        }
        append_decimal(&mut s, self.id as u64);
        append_text(&mut s, ": ");
        append_decimal(&mut s, done as u64);
        append_text(&mut s, "/");
        append_decimal(&mut s, self.stations.len() as u64);
        append_text(&mut s, " estaciones completadas");
        assert(s@ =~= "Producto "@ + two_digits(self.spec_id() as nat) + ": "@ + decimal(
            done_count(self.records(), self.records().len() as int) as nat,
        ) + "/"@ + decimal(self.records().len()) + " estaciones completadas"@);
        s
    }
}

/// A copy of `v` with the record at `index` replaced by `st`.
fn with_record(v: &Vec<StationState>, index: usize, st: StationState) -> (r: Vec<StationState>)
    requires
        index < v@.len(),
    ensures
        r@ == v@.update(index as int, st),
{
    let mut r: Vec<StationState> = Vec::new();
    let mut i: usize = 0;
    while i < v.len()
        invariant
            i <= v@.len(),
            index < v@.len(),
            r@ == v@.update(index as int, st).subrange(0, i as int),
        decreases v@.len() - i,
    {
        if i == index {
            r.push(st);
        } else {
            r.push(v[i]);
        }
        i = i + 1;
        assert(r@ =~= v@.update(index as int, st).subrange(0, i as int));
    }
    assert(r@ =~= v@.update(index as int, st));
    r
}

/// Sums of non-negative terms grow with their length.
pub proof fn lemma_wait_sum_monotone(st: Seq<StationState>, j: int, k: int)
    requires
        0 <= j <= k,
    ensures
        wait_sum(st, j) <= wait_sum(st, k),
    decreases k - j,
{
    if j < k {
        lemma_wait_sum_monotone(st, j, k - 1);
    }
}

/// Sums of waits and of processing times are never negative.
pub proof fn lemma_sums_nonneg(st: Seq<StationState>, w: Seq<u64>, k: int)
    ensures
        wait_sum(st, k) >= 0,
        work_sum(w, k) >= 0,
    decreases k,
{
    if k > 0 {
        lemma_sums_nonneg(st, w, k - 1);
    }
}

/// Processing times add up as more stations are counted.
pub proof fn lemma_work_sum_monotone(w: Seq<u64>, j: int, k: int)
    requires
        0 <= j <= k,
    ensures
        work_sum(w, j) <= work_sum(w, k),
    decreases k - j,
{
    if j < k {
        lemma_work_sum_monotone(w, j, k - 1);
    }
}

/// A station the item has entered was preceded by finished stations only.
pub proof fn lemma_earlier_done(p: Product, k: int, j: int)
    requires
        p.wf(),
        0 <= j < k < p.records().len(),
        !p.records()[k].is_fresh(),
    ensures
        p.records()[j].is_done(p.works()[j] as nat),
    decreases k - j,
{
    let st = p.records();
    assert(st[k - 1].is_done(p.works()[k - 1] as nat));
    if j < k - 1 {
        assert(!st[k - 1].is_fresh());
        lemma_earlier_done(p, k - 1, j);
    }
}

/// Telescoping over the chain of stations: up to the last station entered,
/// waits plus delivered work add up to the time elapsed since arrival.
pub proof fn lemma_span(p: Product, k: int)
    requires
        p.wf(),
        0 <= k < p.records().len(),
        !p.records()[k].is_fresh(),
    ensures
        span_sum(p.records(), p.works(), k + 1) == p.records()[k].clock() - p.arrival()->0,
        p.arrival() is Some,
    decreases k,
{
    let st = p.records();
    let w = p.works();
    assert(st[k].inv(w[k] as nat));
    if k > 0 {
        assert(st[k - 1].is_done(w[k - 1] as nat) && st[k].first_queue_entry == st[k
            - 1].final_exit);
        assert(!st[k - 1].is_fresh());
        lemma_span(p, k - 1);
        assert(span_sum(st, w, k + 1) == span_sum(st, w, k) + st[k].total_wait + st[k].served(
            w[k] as nat,
        ));
    } else {
        assert(p.arrival() == st[0].first_queue_entry);
        assert(span_sum(st, w, 1) == span_sum(st, w, 0) + st[0].total_wait + st[0].served(
            w[0] as nat,
        ));
    }
}

/// The waits never add up past the largest time.
pub proof fn lemma_wait_bounded(p: Product)
    requires
        p.wf(),
    ensures
        wait_sum(p.records(), p.records().len() as int) <= u64::MAX,
{
    let st = p.records();
    let w = p.works();
    assert forall|k: int| 0 <= k <= st.len() implies wait_sum(st, k) <= span_sum(st, w, k)
        && span_sum(st, w, k) <= u64::MAX by {
        lemma_span_bounded(p, k);
    }
}

proof fn lemma_span_bounded(p: Product, k: int)
    requires
        p.wf(),
        0 <= k <= p.records().len(),
    ensures
        wait_sum(p.records(), k) <= span_sum(p.records(), p.works(), k),
        span_sum(p.records(), p.works(), k) <= u64::MAX,
    decreases k,
{
    let st = p.records();
    let w = p.works();
    if k > 0 {
        lemma_span_bounded(p, k - 1);
        assert(st[k - 1].inv(w[k - 1] as nat));
        if !st[k - 1].is_fresh() {
            lemma_span(p, k - 1);
        }
    }
}

/// When every station among the first `k` is finished, the span is the
/// waits plus the full processing times.
proof fn lemma_span_all_done(p: Product, k: int)
    requires
        p.wf(),
        0 <= k <= p.records().len(),
        forall|j: int| 0 <= j < k ==> (#[trigger] p.records()[j]).is_done(p.works()[j] as nat),
    ensures
        span_sum(p.records(), p.works(), k) == wait_sum(p.records(), k) + work_sum(p.works(), k),
    decreases k,
{
    if k > 0 {
        lemma_span_all_done(p, k - 1);
        assert(p.records()[k - 1].is_done(p.works()[k - 1] as nat));
    }
}

/// At every station an item has finished, its times are ordered: it was
/// first dispatched no earlier than it first entered the queue, and it left
/// strictly after that first dispatch, by at least the station's processing
/// time.
pub proof fn lemma_stage_times_ordered(p: Product, k: int)
    requires
        p.wf(),
        0 <= k < p.records().len(),
        p.records()[k].final_exit is Some,
    ensures
        p.records()[k].first_queue_entry is Some,
        p.records()[k].first_entry is Some,
        p.records()[k].first_queue_entry->0 <= p.records()[k].first_entry->0,
        p.records()[k].first_entry->0 < p.records()[k].final_exit->0,
        p.records()[k].first_entry->0 + p.works()[k] <= p.records()[k].final_exit->0,
{
    assert(p.records()[k].inv(p.works()[k] as nat));
}

/// For an item that has left the last station, the turnaround is the total
/// wait plus the total processing time.
pub proof fn lemma_turnaround(p: Product)
    requires
        p.wf(),
        p.records().len() > 0,
        p.records().last().final_exit is Some,
    ensures
        p.arrival() is Some,
        p.arrival()->0 <= p.records().last().final_exit->0,
        p.records().last().final_exit->0 - p.arrival()->0 == wait_sum(
            p.records(),
            p.records().len() as int,
        ) + work_sum(p.works(), p.works().len() as int),
{
    let st = p.records();
    let w = p.works();
    let n = st.len() as int;
    assert(st[n - 1].inv(w[n - 1] as nat));
    assert(st[n - 1].is_done(w[n - 1] as nat));
    assert forall|j: int| 0 <= j < n implies (#[trigger] st[j]).is_done(w[j] as nat) by {
        if j < n - 1 {
            lemma_earlier_done(p, n - 1, j);
        }
    }
    lemma_span(p, n - 1);
    lemma_span_all_done(p, n);
    lemma_sums_nonneg(st, w, n);
}

} // verus!
