//! The configuration of a run, its validation, the items it creates and
//! the stations it sets up, and the collector at the end of the line.
use vstd::prelude::*;
use crate::config::{default_arrival_times, default_station_configs};
use crate::line::{left_item, ready_item, run_station_on_clock, untouched_after, RunError};
use crate::metrics::{lemma_completed_stats_index, stats_of, summary_of, MetricsCalculator, SimulationMetrics};
use crate::station::ids_of;
use crate::product::{
    configs_valid, lemma_sums_nonneg, lemma_turnaround, lemma_wait_bounded, lemma_work_sum_monotone,
    work_of, work_sum, Product,
};
use crate::scheduler::SchedulingAlgorithm;
use crate::station::{Message, Station, StationConfig};

verus! {

/// Why a configuration cannot be run.
#[derive(Clone, Copy, Debug, PartialEq, Eq, Structural)]
pub enum ConfigError {
    /// The line has no station.
    NoStations,
    /// The station at this position needs no processing time.
    ZeroProcessingTime { station: usize },
    /// A round-robin quantum of zero.
    ZeroQuantum,
}

/// The first station, from `from` on, with no processing time.
pub open spec fn first_zero_from(configs: Seq<StationConfig>, from: int) -> Option<usize>
    decreases configs.len() - from,
{
    if from >= configs.len() || from < 0 {
        None
    } else if configs[from].processing_time == 0 {
        Some(from as usize)
    } else {
        first_zero_from(configs, from + 1)
    }
}

/// What is wrong with a configuration, checked in this order: no station, a
/// station without processing time (the first one), a zero quantum.
pub open spec fn config_error(configs: Seq<StationConfig>, algorithm: SchedulingAlgorithm) -> Option<ConfigError> {
    if configs.len() == 0 {
        Some(ConfigError::NoStations)
    } else if first_zero_from(configs, 0) is Some {
        Some(ConfigError::ZeroProcessingTime { station: first_zero_from(configs, 0)->0 })
    } else if !algorithm.valid() {
        Some(ConfigError::ZeroQuantum)
    } else {
        None
    }
}

proof fn lemma_first_zero(configs: Seq<StationConfig>, from: int)
    requires
        0 <= from <= configs.len(),
        configs.len() <= usize::MAX,
    ensures
        first_zero_from(configs, from) is None <==> forall|i: int|
            from <= i < configs.len() ==> #[trigger] configs[i].processing_time > 0,
        first_zero_from(configs, from) matches Some(k) ==> from <= k < configs.len()
            && configs[k as int].processing_time == 0,
    decreases configs.len() - from,
{
    if from < configs.len() {
        lemma_first_zero(configs, from + 1);
    }
}

/// Item `a` reaches the first station before item `b`: it has the earlier
/// offset, or the same offset and an earlier position.
pub open spec fn arrives_before(offsets: Seq<u64>, a: usize, b: usize) -> bool {
    offsets[a as int] < offsets[b as int] || (offsets[a as int] == offsets[b as int] && a < b)
}

/// The offsets never decrease along the configuration.
pub open spec fn nondecreasing(offsets: Seq<u64>) -> bool {
    forall|i: int, j: int| 0 <= i <= j < offsets.len() ==> offsets[i] <= offsets[j]
}

/// The order, as positions in `offsets`, in which items reach the first
/// station: by offset, equal offsets in configuration order. Every position
/// comes exactly once; for offsets already in order it is the configuration
/// order itself.
pub fn arrival_order(offsets: &Vec<u64>) -> (r: Vec<usize>)
    ensures
        r@.len() == offsets@.len(),
        r@.no_duplicates(),
        forall|k: usize| r@.contains(k) <==> k < offsets@.len(),
        forall|i: int, j: int|
            0 <= i < j < r@.len() ==> arrives_before(offsets@, #[trigger] r@[i], #[trigger] r@[j]),
        nondecreasing(offsets@) ==> forall|i: int| 0 <= i < r@.len() ==> #[trigger] r@[i] == i,
{
    let mut r: Vec<usize> = Vec::new();
    let mut i: usize = 0;
    while i < offsets.len()
        invariant
            i <= offsets@.len(),
            r@.len() == i,
            r@.no_duplicates(),
            forall|k: usize| r@.contains(k) <==> k < i,
            forall|a: int, b: int|
                0 <= a < b < r@.len() ==> arrives_before(offsets@, #[trigger] r@[a], #[trigger] r@[b]),
            nondecreasing(offsets@) ==> forall|a: int| 0 <= a < r@.len() ==> #[trigger] r@[a] == a,
        decreases offsets@.len() - i,
    {
        let ghost old_r = r@;
        let key = offsets[i];
        let mut pos: usize = 0;
        proof {
            assert forall|a: int| 0 <= a < r@.len() implies (#[trigger] r@[a]) < i by {
                assert(r@.contains(r@[a]));
            }
        }
        while pos < r.len() && offsets[r[pos]] <= key
            invariant
                pos <= r@.len(),
                r@ == old_r,
                i < offsets@.len(),
                key == offsets@[i as int],
                forall|k: usize| r@.contains(k) <==> k < i,
                forall|a: int| 0 <= a < r@.len() ==> (#[trigger] r@[a]) < i,
                forall|a: int| 0 <= a < pos ==> offsets@[#[trigger] r@[a] as int] <= key,
            decreases r@.len() - pos,
        {
            proof {
                assert(r@.contains(r@[pos as int]));
            }
            pos = pos + 1;
        }
        proof {
            assert forall|a: int| 0 <= a < r@.len() implies (#[trigger] r@[a]) < i by {
                assert(r@.contains(r@[a]));
            }
            if pos < r@.len() {
                assert(offsets@[r@[pos as int] as int] > key);
                assert forall|a: int| pos <= a < r@.len() implies offsets@[(#[trigger] r@[a]) as int] > key by {
                    if a > pos {
                        assert(arrives_before(offsets@, r@[pos as int], r@[a]));
                    }
                }
            }
            if nondecreasing(offsets@) && pos < r@.len() {
                assert(r@[pos as int] == pos);
                assert(offsets@[pos as int] <= offsets@[i as int]);
                assert(false);
            }
        }
        r.insert(pos, i);
        proof {
            assert(r@ == old_r.insert(pos as int, i));
            assert forall|a: int, b: int|
                0 <= a < b < r@.len() implies arrives_before(offsets@, #[trigger] r@[a], #[trigger] r@[b]) by {
                if a < pos && b > pos {
                    assert(r@[a] == old_r[a] && r@[b] == old_r[b - 1]);
                    assert(arrives_before(offsets@, old_r[a], old_r[b - 1]));
                } else if a < pos && b < pos {
                    assert(arrives_before(offsets@, old_r[a], old_r[b]));
                } else if a > pos && b > pos {
                    assert(arrives_before(offsets@, old_r[a - 1], old_r[b - 1]));
                }
            }
            assert forall|k: usize| r@.contains(k) <==> k < i + 1 by {
                if k < i {
                    assert(old_r.contains(k));
                    let j = choose|j: int| 0 <= j < old_r.len() && old_r[j] == k;
                    if j < pos {
                        assert(r@[j] == k);
                    } else {
                        assert(r@[j + 1] == k);
                    }
                } else if k == i {
                    assert(r@[pos as int] == k);
                }
                if r@.contains(k) {
                    let j = choose|j: int| 0 <= j < r@.len() && r@[j] == k;
                    if j < pos {
                        assert(old_r.contains(r@[j]));
                    } else if j > pos {
                        assert(old_r.contains(old_r[j - 1]));
                    }
                }
            }
            assert forall|a: int, b: int| 0 <= a < b < r@.len() implies r@[a] != r@[b] by {
                assert(arrives_before(offsets@, r@[a], r@[b]));
            }
            if nondecreasing(offsets@) {
                assert(pos == old_r.len());
                assert forall|a: int| 0 <= a < r@.len() implies #[trigger] r@[a] == a by {
                    if a < pos {
                        assert(r@[a] == old_r[a]);
                    }
                }
            }
        }
        i = i + 1;
    }
    r
}

/// A run: the stations in line order, the policy they share, and the
/// arrival offsets of the items in milliseconds.
pub struct Simulation {
    station_configs: Vec<StationConfig>,
    algorithm: SchedulingAlgorithm,
    arrival_times: Vec<u64>,
    metrics_calculator: MetricsCalculator,
}

impl Simulation {
    pub closed spec fn configs(self) -> Seq<StationConfig> {
        self.station_configs@
    }

    pub closed spec fn spec_algorithm(self) -> SchedulingAlgorithm {
        self.algorithm
    }

    pub closed spec fn arrivals(self) -> Seq<u64> {
        self.arrival_times@
    }

    /// The default line and arrivals under `algorithm`.
    pub fn new(algorithm: SchedulingAlgorithm) -> (r: Self)
        ensures
            r.spec_algorithm() == algorithm,
            r.configs().len() == 3,
            r.configs()[0].processing_time == 400,
            r.configs()[1].processing_time == 600,
            r.configs()[2].processing_time == 500,
            r.arrivals() == seq![0u64, 120, 260, 380, 540, 720, 900, 1100, 1300, 1500],
    {
        Simulation {
            station_configs: default_station_configs(),
            algorithm,
            arrival_times: default_arrival_times(),
            metrics_calculator: MetricsCalculator::new(),
        }
    }

    pub fn with_config(
        station_configs: Vec<StationConfig>,
        algorithm: SchedulingAlgorithm,
        arrival_times: Vec<u64>,
    ) -> (r: Self)
        ensures
            r.configs() == station_configs@,
            r.spec_algorithm() == algorithm,
            r.arrivals() == arrival_times@,
    {
        Simulation {
            station_configs,
            algorithm,
            arrival_times,
            metrics_calculator: MetricsCalculator::new(),
        }
    }

    pub fn station_configs(&self) -> (r: &Vec<StationConfig>)
        ensures
            r@ == self.configs(),
    {
        &self.station_configs
    }

    pub fn algorithm(&self) -> (r: SchedulingAlgorithm)
        ensures
            r == self.spec_algorithm(),
    {
        self.algorithm
    }

    pub fn arrival_times(&self) -> (r: &Vec<u64>)
        ensures
            r@ == self.arrivals(),
    {
        &self.arrival_times
    }

    /// Checks the configuration before a run.
    pub fn validate(&self) -> (r: Result<(), ConfigError>)
        ensures
            r is Ok <==> config_error(self.configs(), self.spec_algorithm()) is None,
            r is Err ==> config_error(self.configs(), self.spec_algorithm()) == Some(r->Err_0),
            r is Ok ==> configs_valid(self.configs()) && self.configs().len() > 0
                && self.spec_algorithm().valid(),
    {
        let n = self.station_configs.len();
        proof {
            lemma_first_zero(self.configs(), 0);
        }
        if n == 0 {
            return Err(ConfigError::NoStations);
        }
        let mut i: usize = 0;
        while i < self.station_configs.len()
            invariant
                i <= self.configs().len(),
                first_zero_from(self.configs(), 0) == first_zero_from(self.configs(), i as int),
                self.station_configs@ == self.configs(),
            decreases self.configs().len() - i,
        {
            if self.station_configs[i].processing_time == 0 {
                return Err(ConfigError::ZeroProcessingTime { station: i });
            }
            i = i + 1;
        }
        match self.algorithm {
            SchedulingAlgorithm::RoundRobin { quantum } => if quantum == 0 {
                return Err(ConfigError::ZeroQuantum);
            },
            SchedulingAlgorithm::Fcfs => {},
        }
        proof {
            assert(configs_valid(self.configs()));
        }
        Ok(())
    }

    /// One item per arrival offset, numbered from 1 in configuration order,
    /// none arrived yet.
    pub fn create_products(&self) -> (r: Vec<Product>)
        requires
            configs_valid(self.configs()),
        ensures
            r@.len() == self.arrivals().len(),
            forall|i: int|
                0 <= i < r@.len() ==> {
                    &&& (#[trigger] r@[i]).spec_id() == i + 1
                    &&& r@[i].offset() == self.arrivals()[i]
                    &&& r@[i].arrival() is None
                    &&& r@[i].records().len() == self.configs().len()
                    &&& r@[i].works() == work_of(self.configs())
                    &&& forall|k: int| 0 <= k < r@[i].records().len() ==> (#[trigger] r@[i].records()[k]).is_fresh()
                },
    {
        let mut r: Vec<Product> = Vec::new();
        let mut i: usize = 0;
        while i < self.arrival_times.len()
            invariant
                i <= self.arrivals().len(),
                configs_valid(self.configs()),
                self.station_configs@ == self.configs(),
                self.arrival_times@ == self.arrivals(),
                r@.len() == i,
                forall|j: int|
                    0 <= j < i ==> {
                        &&& (#[trigger] r@[j]).spec_id() == j + 1
                        &&& r@[j].offset() == self.arrivals()[j]
                        &&& r@[j].arrival() is None
                        &&& r@[j].records().len() == self.configs().len()
                        &&& r@[j].works() == work_of(self.configs())
                        &&& forall|k: int| 0 <= k < r@[j].records().len() ==> (#[trigger] r@[j].records()[k]).is_fresh()
                    },
            decreases self.arrivals().len() - i,
        {
            let p = Product::new(i + 1, self.arrival_times[i], self.station_configs.as_slice());
            r.push(p);
            i = i + 1;
        }
        r
    }

    /// The stations of the line, in order, each with the shared policy.
    pub fn stations(&self) -> (r: Vec<Station>)
        ensures
            r@.len() == self.configs().len(),
            forall|i: int|
                0 <= i < r@.len() ==> {
                    &&& (#[trigger] r@[i]).index == i
                    &&& r@[i].config == self.configs()[i]
                    &&& r@[i].algorithm == self.spec_algorithm()
                },
    {
        let mut r: Vec<Station> = Vec::new();
        let mut i: usize = 0;
        while i < self.station_configs.len()
            invariant
                i <= self.configs().len(),
                self.station_configs@ == self.configs(),
                r@.len() == i,
                forall|j: int|
                    0 <= j < i ==> {
                        &&& (#[trigger] r@[j]).index == j
                        &&& r@[j].config == self.configs()[j]
                        &&& r@[j].algorithm == self.spec_algorithm()
                    },
            decreases self.configs().len() - i,
        {
            r.push(Station::new(i, self.station_configs[i], self.algorithm));
            i = i + 1;
        }
        r
    }

    /// The statistics of a finished run, over this run's stations.
    pub fn calculate_metrics(
        &self,
        products: &[Product],
        start_time: u64,
        end_time: u64,
        completion_order: Vec<usize>,
    ) -> (r: SimulationMetrics)
        requires
            forall|i: int|
                0 <= i < products@.len() ==> self.configs().len() <= (#[trigger] products@[i]).stage_count(),
        ensures
            r.summary() == summary_of(
                products@,
                self.configs().len(),
                start_time,
                end_time,
                completion_order@,
            ),
    {
        self.metrics_calculator.calculate_simulation_metrics(
            products,
            self.station_configs.as_slice(),
            start_time,
            end_time,
            completion_order,
        )
    }
}

impl Simulation {
    /// Runs the whole line on a virtual clock (see `line`): items arrive at
    /// their offsets, in the order `arrival_order` gives, pass every
    /// station in turn and are collected as they leave the last one. Every
    /// item completes; under first-come first-served they complete in the
    /// order they arrived, which for offsets in order is the configuration
    /// order.
    pub fn run_on_clock(&self) -> (r: Result<SimulationMetrics, RunError>)
        ensures
            config_error(self.configs(), self.spec_algorithm()) matches Some(e) ==> r == Err::<
                SimulationMetrics,
                RunError,
            >(RunError::Config(e)),
            config_error(self.configs(), self.spec_algorithm()) is None ==> (r is Ok || r
                == Err::<SimulationMetrics, RunError>(RunError::ClockOverflow)),
            config_error(self.configs(), self.spec_algorithm()) is None && (forall|i: int|
                0 <= i < self.arrivals().len() ==> #[trigger] self.arrivals()[i]
                    + self.arrivals().len() * work_sum(
                    work_of(self.configs()),
                    self.configs().len() as int,
                ) <= u64::MAX) ==> r is Ok,
            r matches Ok(m) ==> {
                let n = self.arrivals().len();
                let co = m.completion_order@;
                &&& m.products@.len() == n
                &&& co.len() == n
                &&& self.spec_algorithm() is Fcfs ==> forall|a: int, b: int|
                    0 <= a < b < n ==> arrives_before(
                        self.arrivals(),
                        (#[trigger] co[a] - 1) as usize,
                        (#[trigger] co[b] - 1) as usize,
                    )
                &&& self.spec_algorithm() is Fcfs && nondecreasing(self.arrivals()) ==> forall|k: int|
                    0 <= k < n ==> #[trigger] co[k] == k + 1
                &&& forall|k: int|
                    0 <= k < n ==> (#[trigger] m.products@[k]).turnaround_time
                        == m.products@[k].total_wait_time + work_sum(
                        work_of(self.configs()),
                        self.configs().len() as int,
                    )
            },
    {
        match self.validate() {
            Err(e) => {
                return Err(RunError::Config(e));
            },
            Ok(()) => {},
        }
        let ghost work = work_of(self.configs());
        let n = self.arrival_times.len();
        let order = arrival_order(&self.arrival_times);
        let stations = self.stations();
        let first = stations[0];
        let mut flow: Vec<Product> = Vec::new();
        let mut k: usize = 0;
        while k < n
            invariant
                n == self.arrivals().len(),
                order@.len() == n,
                forall|x: usize| order@.contains(x) <==> x < n,
                k <= n,
                flow@.len() == k,
                configs_valid(self.configs()),
                self.configs().len() > 0,
                self.station_configs@ == self.configs(),
                self.arrival_times@ == self.arrivals(),
                work == work_of(self.configs()),
                first.index == 0 && first.config == self.configs()[0] && first.algorithm == self.spec_algorithm(),
                forall|j: int| 0 <= j < k ==> ready_item(#[trigger] flow@[j], first, work),
                forall|j: int| 0 <= j < k ==> (#[trigger] ids_of(flow@)[j]) == order@[j] + 1,
                forall|j: int| 0 <= j < k ==> order@[j] < n,
                forall|j: int|
                    0 <= j < k ==> (#[trigger] flow@[j]).arrival() == Some(self.arrivals()[order@[j] as int]),
            decreases n - k,
        {
            let i = order[k];
            proof {
                assert(order@.contains(order@[k as int]));
            }
            let mut p = Product::new(i + 1, self.arrival_times[i], self.station_configs.as_slice());
            p.set_arrival_instant(self.arrival_times[i]);
            proof {
                use_type_invariant(&p);
                assert(p.works()[0] == self.configs()[0].processing_time);
                assert(p.records()[0].is_fresh());
            }
            let ghost old_flow = flow@;
            flow.push(p);
            proof {
                assert forall|j: int| 0 <= j < k + 1 implies (#[trigger] ids_of(flow@)[j]) == order@[j] + 1 by {
                    if j < k {
                        assert(flow@[j] == old_flow[j]);
                        assert(ids_of(old_flow)[j] == order@[j] + 1);
                    }
                }
                assert forall|j: int| 0 <= j < k + 1 implies ready_item(#[trigger] flow@[j], first, work) by {
                    if j < k {
                        assert(flow@[j] == old_flow[j]);
                    }
                }
                assert forall|j: int| 0 <= j < k + 1 implies (#[trigger] flow@[j]).arrival() == Some(
                    self.arrivals()[order@[j] as int],
                ) by {
                    if j < k {
                        assert(flow@[j] == old_flow[j]);
                    }
                }
            }
            k = k + 1;
        }
        let ghost arrival_ids = ids_of(flow@);
        let ghost total_work = work_sum(work, self.configs().len() as int);
        let ghost fits = forall|i: int|
            0 <= i < n ==> #[trigger] self.arrivals()[i] + n * total_work <= u64::MAX;
        let ghost start_bound: int = if fits {
            u64::MAX - n * total_work
        } else {
            u64::MAX as int
        };
        proof {
            assert forall|j: int| 0 <= j < flow@.len() implies (#[trigger] flow@[j]).entry_time(0)->0 <= start_bound by {
                assert(flow@[j].entry_time(0) == flow@[j].arrival());
                assert(flow@[j].arrival() == Some(self.arrivals()[order@[j] as int]));
                if fits {
                    assert(self.arrivals()[order@[j] as int] + n * total_work <= u64::MAX);
                }
            }
            lemma_sums_nonneg(Seq::<crate::station::StationState>::empty(), work, self.configs().len() as int);
            assert(0 <= n * total_work) by (nonlinear_arith)
                requires
                    total_work >= 0,
            ;
            if fits && n > 0 {
                assert(self.arrivals()[0] + n * total_work <= u64::MAX);
            }
            if n == 0 {
                assert(n * total_work == 0) by (nonlinear_arith)
                    requires
                        n == 0,
                ;
            }
            assert(start_bound >= 0);
        }
        let mut s: usize = 0;
        while s < stations.len()
            invariant
                stations@.len() == self.configs().len(),
                stations@.len() > 0,
                forall|i: int|
                    0 <= i < stations@.len() ==> {
                        &&& (#[trigger] stations@[i]).index == i
                        &&& stations@[i].config == self.configs()[i]
                        &&& stations@[i].algorithm == self.spec_algorithm()
                    },
                configs_valid(self.configs()),
                self.spec_algorithm().valid(),
                config_error(self.configs(), self.spec_algorithm()) is None,
                work == work_of(self.configs()),
                s <= stations@.len(),
                flow@.len() == n,
                s < stations@.len() ==> forall|j: int| 0 <= j < flow@.len() ==> ready_item(#[trigger] flow@[j], stations@[s as int], work),
                s > 0 ==> forall|j: int| 0 <= j < flow@.len() ==> left_item(#[trigger] flow@[j], stations@[s - 1], work),
                ids_of(flow@).to_multiset() == arrival_ids.to_multiset(),
                self.spec_algorithm() is Fcfs ==> ids_of(flow@) == arrival_ids,
                total_work == work_sum(work, self.configs().len() as int),
                n == self.arrivals().len(),
                fits == (forall|i: int|
                    0 <= i < n ==> #[trigger] self.arrivals()[i] + n * total_work <= u64::MAX),
                start_bound >= 0,
                fits ==> start_bound + n * total_work <= u64::MAX,
                s < stations@.len() ==> forall|j: int|
                    0 <= j < flow@.len() ==> (#[trigger] flow@[j]).entry_time(s as int)->0
                        <= start_bound + n * work_sum(work, s as int),
            decreases stations@.len() - s,
        {
            let st = stations[s];
            proof {
                assert(st.runnable());
                if s > 0 {
                    assert(stations@[s - 1].index == s - 1);
                }
            }
            let ghost before = flow@;
            let ghost stage_bound = start_bound + n * work_sum(work, s as int);
            proof {
                lemma_sums_nonneg(Seq::<crate::station::StationState>::empty(), work, s as int);
                assert(0 <= n * work_sum(work, s as int)) by (nonlinear_arith)
                    requires
                        work_sum(work, s as int) >= 0,
                ;
                assert(work_sum(work, s as int + 1) == work_sum(work, s as int) + work[s as int]);
                assert(work[s as int] == st.config.processing_time);
                assert(n * work_sum(work, s as int + 1) == n * work_sum(work, s as int) + n
                    * st.config.processing_time) by (nonlinear_arith)
                    requires
                        work_sum(work, s as int + 1) == work_sum(work, s as int) + st.config.processing_time,
                ;
                if fits {
                    lemma_work_sum_monotone(work, s as int + 1, self.configs().len() as int);
                    assert(n * work_sum(work, s as int + 1) <= n * total_work) by (nonlinear_arith)
                        requires
                            work_sum(work, s as int + 1) <= total_work,
                            n >= 0,
                    ;
                }
            }
            flow = match run_station_on_clock(st, flow, Ghost(work), Ghost(stage_bound)) {
                Ok(out) => out,
                Err(e) => {
                    return Err(e);
                },
            };
            proof {
                if s + 1 < stations@.len() {
                    let next = stations@[s + 1];
                    assert(next.index == s + 1);
                    assert forall|j: int| 0 <= j < flow@.len() implies (#[trigger] flow@[j]).entry_time(s as int + 1)->0
                        <= start_bound + n * work_sum(work, s as int + 1) by {
                        assert(flow@[j].entry_time(s as int + 1) == flow@[j].records()[s as int].final_exit);
                    }
                    assert forall|j: int| 0 <= j < flow@.len() implies ready_item(#[trigger] flow@[j], next, work) by {
                        let q = flow@[j];
                        assert(left_item(q, st, work));
                        assert(q.records()[s + 1].is_fresh());
                        assert(q.works()[s + 1] == self.configs()[s + 1].processing_time);
                        assert forall|t: int| s + 1 < t < q.records().len() implies (#[trigger] q.records()[t]).is_fresh() by {
                            assert(q.records()[t].is_fresh());
                        }
                    }
                }
            }
            s = s + 1;
        }
        let last = stations.len() - 1;
        let mut completion_order: Vec<usize> = Vec::new();
        let mut end: u64 = 0;
        let mut j: usize = 0;
        while j < flow.len()
            invariant
                j <= flow@.len(),
                completion_order@ == ids_of(flow@).subrange(0, j as int),
                last + 1 == stations@.len(),
                stations@[last as int].index == last,
                forall|x: int| 0 <= x < flow@.len() ==> left_item(#[trigger] flow@[x], stations@[last as int], work),
                work.len() == stations@.len(),
            decreases flow@.len() - j,
        {
            let p = &flow[j];
            proof {
                assert(left_item(flow@[j as int], stations@[last as int], work));
            }
            completion_order.push(p.id());
            end = p.station_state(last).final_exit.unwrap();
            j = j + 1;
            assert(completion_order@ =~= ids_of(flow@).subrange(0, j as int));
        }
        proof {
            assert(completion_order@ =~= ids_of(flow@));
            assert forall|x: int| 0 <= x < flow@.len() implies self.configs().len() <= (#[trigger] flow@[x]).stage_count() by {
                assert(left_item(flow@[x], stations@[last as int], work));
            }
        }
        let m = self.calculate_metrics(flow.as_slice(), 0, end, completion_order);
        proof {
            let nc = self.configs().len();
            assert forall|x: int| 0 <= x < flow@.len() implies (#[trigger] stats_of(flow@[x], nc, 0)) is Some by {
                let q = flow@[x];
                assert(left_item(q, stations@[last as int], work));
                assert(q.records().len() == work.len());
                assert(q.records().last() == q.records()[last as int]);
            }
            lemma_completed_stats_index(flow@, flow@.len() as int, nc, 0);
            assert(m.summary().products.len() == m.products@.len());
            assert forall|x: int| 0 <= x < n implies (#[trigger] m.products@[x]).turnaround_time
                == m.products@[x].total_wait_time + work_sum(work, nc as int) by {
                let q = flow@[x];
                assert(left_item(q, stations@[last as int], work));
                assert(q.records().len() == work.len());
                assert(q.records().last() == q.records()[last as int]);
                lemma_turnaround(q);
                lemma_wait_bounded(q);
                assert(q.works() == work && work.len() == nc);
                assert(m.summary().products[x] == m.products@[x].stats());
                assert(m.summary().products == crate::metrics::completed_stats(flow@, flow@.len() as int, nc, 0));
                assert(crate::metrics::completed_stats(flow@, flow@.len() as int, nc, 0)[x] == stats_of(q, nc, 0)->0);
                let e = q.records().last().final_exit->0;
                let a = q.arrival()->0;
                let ws = crate::product::wait_sum(q.records(), q.records().len() as int);
                lemma_sums_nonneg(q.records(), q.works(), q.records().len() as int);
                assert(e - a == ws + work_sum(q.works(), q.works().len() as int));
                assert(0 <= ws <= u64::MAX);
                assert(m.products@[x].turnaround_time == (e - a) as u64);
                assert(m.products@[x].total_wait_time == ws as u64);
            }
            vstd::seq_lib::to_multiset_len(ids_of(flow@));
            vstd::seq_lib::to_multiset_len(arrival_ids);
            if self.spec_algorithm() is Fcfs {
                let co = m.completion_order@;
                assert(co == arrival_ids);
                assert forall|a: int| 0 <= a < n implies (#[trigger] co[a]) - 1 == order@[a] by {
                    assert(ids_of(flow@)[a] == arrival_ids[a]);
                }
            }
        }
        Ok(m)
    }
}

/// The end of the line: it takes items in the order they finish, until it
/// has the expected number or the shutdown signal comes.
pub struct Collector {
    expected: usize,
    order: Vec<usize>,
    products: Vec<Product>,
    ended: bool,
}

impl Collector {
    pub closed spec fn spec_expected(self) -> nat {
        self.expected as nat
    }

    /// Ids of the items received, in order of receipt.
    pub closed spec fn spec_order(self) -> Seq<usize> {
        self.order@
    }

    pub closed spec fn received(self) -> Seq<Product> {
        self.products@
    }

    pub closed spec fn spec_ended(self) -> bool {
        self.ended
    }

    /// The collector needs no more messages.
    pub open spec fn finished(self) -> bool {
        self.spec_ended() || self.spec_order().len() >= self.spec_expected()
    }

    pub closed spec fn wf(self) -> bool {
        &&& self.order@.len() == self.products@.len()
        &&& forall|i: int| 0 <= i < self.order@.len() ==> self.order@[i] == (#[trigger] self.products@[i]).spec_id()
        &&& self.order@.len() <= self.expected
    }

    pub fn new(expected: usize) -> (r: Self)
        ensures
            r.wf(),
            r.spec_expected() == expected,
            r.spec_order().len() == 0,
            !r.spec_ended(),
    {
        Collector { expected, order: Vec::new(), products: Vec::new(), ended: false }
    }

    /// Takes in one message and says whether more are needed. An item that
    /// comes once the collector is finished is handed back.
    pub fn receive(&mut self, message: Message) -> (r: Result<bool, Product>)
        requires
            old(self).wf(),
        ensures
            final(self).wf(),
            final(self).spec_expected() == old(self).spec_expected(),
            old(self).finished() ==> match message {
                Message::Product(p) => r == Err::<bool, Product>(p) && *final(self) == *old(self),
                Message::Shutdown => r == Ok::<bool, Product>(false) && final(self).spec_order() == old(self).spec_order(),
            },
            !old(self).finished() ==> match message {
                Message::Product(p) => {
                    &&& final(self).spec_order() == old(self).spec_order().push(p.spec_id())
                    &&& final(self).received() == old(self).received().push(p)
                    &&& final(self).spec_ended() == old(self).spec_ended()
                    &&& r == Ok::<bool, Product>(!final(self).finished())
                },
                Message::Shutdown => {
                    &&& final(self).spec_order() == old(self).spec_order()
                    &&& final(self).received() == old(self).received()
                    &&& final(self).spec_ended()
                    &&& r == Ok::<bool, Product>(false)
                },
            },
    {
        let done = self.ended || self.order.len() >= self.expected;
        match message {
            Message::Product(p) => {
                if done {
                    return Err(p);
                }
                self.order.push(p.id());
                self.products.push(p);
                Ok(!(self.ended || self.order.len() >= self.expected))
            },
            Message::Shutdown => {
                self.ended = true;
                Ok(false)
            },
        }
    }

    pub fn is_finished(&self) -> (r: bool)
        ensures
            r == self.finished(),
    {
        self.ended || self.order.len() >= self.expected
    }

    /// Ids in the order the items were received.
    pub fn completion_order(&self) -> (r: Vec<usize>)
        ensures
            r@ == self.spec_order(),
    {
        let mut r: Vec<usize> = Vec::new();
        let mut i: usize = 0;
        while i < self.order.len()
            invariant
                i <= self.order@.len(),
                r@ == self.order@.subrange(0, i as int),
            decreases self.order@.len() - i,
        {
            r.push(self.order[i]);
            i = i + 1;
            assert(r@ =~= self.order@.subrange(0, i as int));
        }
        assert(r@ =~= self.order@);
        r
    }

    /// The items received and their ids, in order of receipt.
    pub fn into_parts(self) -> (r: (Vec<Product>, Vec<usize>))
        requires
            self.wf(),
        ensures
            r.0@ == self.received(),
            r.1@ == self.spec_order(),
            r.1@.len() == r.0@.len(),
            forall|i: int| 0 <= i < r.1@.len() ==> r.1@[i] == (#[trigger] r.0@[i]).spec_id(),
    {
        (self.products, self.order)
    }
}

} // verus!
