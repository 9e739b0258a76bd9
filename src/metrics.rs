//! Per-item and run-wide statistics drawn from completed items.
use vstd::prelude::*;
use crate::product::{wait_sum, Product};
use crate::station::StationConfig;
use crate::text::{append_decimal, append_text, append_three_digits, decimal, three_digits};

verus! {

/// Statistics of one completed item. Times are milliseconds: the arrival
/// and the per-station (first dispatch, exit) pairs are measured from the
/// start of the run.
#[derive(Clone, Debug)]
pub struct ProductMetrics {
    pub product_id: usize,
    pub arrival_time: u64,
    pub total_wait_time: u64,
    pub turnaround_time: u64,
    pub station_times: Vec<(u64, u64)>,
}

/// The mathematical content of [`ProductMetrics`].
pub struct ProductStats {
    pub product_id: usize,
    pub arrival_time: u64,
    pub total_wait_time: u64,
    pub turnaround_time: u64,
    pub station_times: Seq<(u64, u64)>,
}

/// Run-wide statistics. Averages are over completed items, rounded down, and
/// zero when no item completed.
#[derive(Clone, Debug)]
pub struct SimulationMetrics {
    pub products: Vec<ProductMetrics>,
    pub average_wait_time: u64,
    pub average_turnaround_time: u64,
    pub completion_order: Vec<usize>,
    pub total_simulation_time: u64,
}

/// The mathematical content of [`SimulationMetrics`].
pub struct Summary {
    pub products: Seq<ProductStats>,
    pub average_wait_time: u64,
    pub average_turnaround_time: u64,
    pub completion_order: Seq<usize>,
    pub total_simulation_time: u64,
}

/// Computes the statistics.
#[derive(PartialEq, Eq, Structural)]
pub struct MetricsCalculator;

impl ProductMetrics {
    pub open spec fn stats(self) -> ProductStats {
        ProductStats {
            product_id: self.product_id,
            arrival_time: self.arrival_time,
            total_wait_time: self.total_wait_time,
            turnaround_time: self.turnaround_time,
            station_times: self.station_times@,
        }
    }
}

impl SimulationMetrics {
    pub open spec fn summary(self) -> Summary {
        Summary {
            products: self.products@.map_values(|m: ProductMetrics| m.stats()),
            average_wait_time: self.average_wait_time,
            average_turnaround_time: self.average_turnaround_time,
            completion_order: self.completion_order@,
            total_simulation_time: self.total_simulation_time,
        }
    }

    /// Completed items per hour of run time, rounded down; zero for a run
    /// that took no time.
    pub fn throughput_per_hour(&self) -> (r: u128)
        ensures
            r == if self.total_simulation_time == 0 {
                0
            } else {
                (self.products@.len() as int * 3_600_000) / (self.total_simulation_time as int)
            },
    {
        if self.total_simulation_time == 0 {
            0
        } else {
            let n = self.products.len() as u128;
            assert(n * 3_600_000 <= u128::MAX) by (nonlinear_arith)
                requires
                    n <= u64::MAX,
            ;
            (n * 3_600_000) / (self.total_simulation_time as u128)
        }
    }
}

/// Time from `start` to `t`, or zero when `t` is earlier.
pub open spec fn since(t: u64, start: u64) -> u64 {
    if t >= start {
        (t - start) as u64
    } else {
        0
    }
}

pub open spec fn since_opt(t: Option<u64>, start: u64) -> u64 {
    match t {
        Some(x) => since(x, start),
        None => 0,
    }
}

/// The (first dispatch, exit) pairs of the first `n` stations.
pub open spec fn station_times_of(p: Product, n: nat, start: u64) -> Seq<(u64, u64)> {
    Seq::new(
        n,
        |i: int| (since_opt(p.records()[i].first_entry, start), since_opt(p.records()[i].final_exit, start)),
    )
}

/// The statistics of an item, if it has arrived and left the last station;
/// `n` is the number of stations reported.
pub open spec fn stats_of(p: Product, n: nat, start: u64) -> Option<ProductStats> {
    if p.records().len() > 0 && p.completed() && p.arrival() is Some {
        Some(
            ProductStats {
                product_id: p.spec_id(),
                arrival_time: since(p.arrival()->0, start),
                total_wait_time: wait_sum(p.records(), p.records().len() as int) as u64,
                turnaround_time: (p.records().last().final_exit->0 - p.arrival()->0) as u64,
                station_times: station_times_of(p, n, start),
            },
        )
    } else {
        None
    }
}

/// The statistics of the completed items among the first `k`, in order.
pub open spec fn completed_stats(ps: Seq<Product>, k: int, n: nat, start: u64) -> Seq<ProductStats>
    decreases k,
{
    if k <= 0 {
        Seq::empty()
    } else {
        match stats_of(ps[k - 1], n, start) {
            Some(s) => completed_stats(ps, k - 1, n, start).push(s),
            None => completed_stats(ps, k - 1, n, start),
        }
    }
}

pub open spec fn sum_waits(s: Seq<ProductStats>) -> int
    decreases s.len(),
{
    if s.len() == 0 {
        0
    } else {
        sum_waits(s.drop_last()) + s.last().total_wait_time
    }
}

pub open spec fn sum_turnarounds(s: Seq<ProductStats>) -> int
    decreases s.len(),
{
    if s.len() == 0 {
        0
    } else {
        sum_turnarounds(s.drop_last()) + s.last().turnaround_time
    }
}

/// The mean rounded down, zero over nothing.
pub open spec fn mean(total: int, count: int) -> u64 {
    if count <= 0 {
        0
    } else {
        (total / count) as u64
    }
}

/// What aggregating `ps` gives: the statistics of the completed items in
/// input order, their average wait and turnaround, the completion order as
/// observed, and the run time.
pub open spec fn summary_of(
    ps: Seq<Product>,
    n: nat,
    start: u64,
    end: u64,
    order: Seq<usize>,
) -> Summary {
    let done = completed_stats(ps, ps.len() as int, n, start);
    Summary {
        products: done,
        average_wait_time: mean(sum_waits(done), done.len() as int),
        average_turnaround_time: mean(sum_turnarounds(done), done.len() as int),
        completion_order: order,
        total_simulation_time: since(end, start),
    }
}

/// When every item has statistics, the `i`-th kept statistics are those of
/// the `i`-th item.
pub proof fn lemma_completed_stats_index(ps: Seq<Product>, k: int, n: nat, start: u64)
    requires
        0 <= k <= ps.len(),
        forall|i: int| 0 <= i < ps.len() ==> (#[trigger] stats_of(ps[i], n, start)) is Some,
    ensures
        completed_stats(ps, k, n, start).len() == k,
        forall|i: int|
            0 <= i < k ==> (#[trigger] completed_stats(ps, k, n, start)[i]) == stats_of(ps[i], n, start)->0,
    decreases k,
{
    if k > 0 {
        lemma_completed_stats_index(ps, k - 1, n, start);
        assert(stats_of(ps[k - 1], n, start) is Some);
    }
}

/// A duration as seconds and three decimals, as in `1.500s`.
pub open spec fn duration_text(ms: nat) -> Seq<char> {
    decimal(ms / 1000) + "."@ + three_digits(ms % 1000) + "s"@
}

impl MetricsCalculator {
    pub fn new() -> (r: Self)
        ensures
            r == MetricsCalculator,
    {
        MetricsCalculator
    }

    /// The statistics of one item over the stations of `station_configs`;
    /// `None` for an item that has not arrived or not left the last station.
    pub fn calculate_product_metrics(
        &self,
        product: &Product,
        station_configs: &[StationConfig],
        start_time: u64,
    ) -> (r: Option<ProductMetrics>)
        requires
            station_configs@.len() <= product.stage_count(),
        ensures
            r is None <==> stats_of(*product, station_configs@.len(), start_time) is None,
            r is Some ==> stats_of(*product, station_configs@.len(), start_time) == Some(
                r->0.stats(),
            ),
    {
        if product.station_count() == 0 || !product.is_completed() {
            return None;
        }
        let arrival = match product.get_arrival_instant() {
            Some(a) => a,
            None => {
                return None;
            },
        };
        let total_wait_time = product.total_wait_time();
        let turnaround_time = match product.turnaround_time(start_time) {
            Some(t) => t,
            None => {
                return None;
            },
        };
        let mut station_times: Vec<(u64, u64)> = Vec::new();
        let mut i: usize = 0;
        while i < station_configs.len()
            invariant
                i <= station_configs@.len(),
                station_configs@.len() <= product.stage_count(),
                station_times@ =~= station_times_of(*product, station_configs@.len(), start_time).subrange(
                    0,
                    i as int,
                ),
            decreases station_configs@.len() - i,
        {
            let st = product.station_state(i);
            let entry = match st.first_entry {
                Some(t) => if t >= start_time {
                    t - start_time
                } else {
                    0
                },
                None => 0,
            };
            let exit = match st.final_exit {
                Some(t) => if t >= start_time {
                    t - start_time
                } else {
                    0
                },
                None => 0,
            };
            station_times.push((entry, exit));
            i = i + 1;
            assert(station_times@ =~= station_times_of(*product, station_configs@.len(), start_time).subrange(
                0,
                i as int,
            ));
        }
        let arrival_time = if arrival >= start_time {
            arrival - start_time
        } else {
            0
        };
        let r = ProductMetrics {
            product_id: product.id(),
            arrival_time,
            total_wait_time,
            turnaround_time,
            station_times,
        };
        assert(r.stats().station_times =~= station_times_of(*product, station_configs@.len(), start_time));
        Some(r)
    }

    /// Aggregates the items of a run that started at `start_time` and ended
    /// at `end_time`. Items that did not complete are left out.
    pub fn calculate_simulation_metrics(
        &self,
        products: &[Product],
        station_configs: &[StationConfig],
        start_time: u64,
        end_time: u64,
        completion_order: Vec<usize>,
    ) -> (r: SimulationMetrics)
        requires
            forall|i: int|
                0 <= i < products@.len() ==> station_configs@.len()
                    <= (#[trigger] products@[i]).stage_count(),
        ensures
            r.summary() == summary_of(
                products@,
                station_configs@.len(),
                start_time,
                end_time,
                completion_order@,
            ),
    {
        let ghost n = station_configs@.len();
        let mut product_metrics: Vec<ProductMetrics> = Vec::new();
        let mut total_wait: u128 = 0;
        let mut total_turnaround: u128 = 0;
        let mut i: usize = 0;
        while i < products.len()
            invariant
                i <= products@.len(),
                n == station_configs@.len(),
                forall|j: int|
                    0 <= j < products@.len() ==> station_configs@.len()
                        <= (#[trigger] products@[j]).stage_count(),
                product_metrics@.map_values(|m: ProductMetrics| m.stats()) =~= completed_stats(
                    products@,
                    i as int,
                    n,
                    start_time,
                ),
                product_metrics@.len() <= i,
                total_wait == sum_waits(completed_stats(products@, i as int, n, start_time)),
                total_turnaround == sum_turnarounds(completed_stats(products@, i as int, n, start_time)),
                total_wait <= product_metrics@.len() * u64::MAX,
                total_turnaround <= product_metrics@.len() * u64::MAX,
            decreases products@.len() - i,
        {
            match self.calculate_product_metrics(&products[i], station_configs, start_time) {
                Some(m) => {
                    let ghost before = completed_stats(products@, i as int, n, start_time);
                    assert(total_wait + m.total_wait_time <= (product_metrics@.len() + 1) * u64::MAX)
                        by (nonlinear_arith)
                        requires
                            total_wait <= product_metrics@.len() * u64::MAX,
                            m.total_wait_time <= u64::MAX,
                    ;
                    assert(total_turnaround + m.turnaround_time <= (product_metrics@.len() + 1)
                        * u64::MAX) by (nonlinear_arith)
                        requires
                            total_turnaround <= product_metrics@.len() * u64::MAX,
                            m.turnaround_time <= u64::MAX,
                    ;
                    assert(product_metrics@.len() + 1 <= usize::MAX);
                    assert((product_metrics@.len() + 1) * u64::MAX <= u128::MAX) by (nonlinear_arith)
                        requires
                            product_metrics@.len() + 1 <= usize::MAX,
                            usize::MAX <= u64::MAX,
                    ;
                    let ghost old_metrics = product_metrics@;
                    total_wait = total_wait + m.total_wait_time as u128;
                    total_turnaround = total_turnaround + m.turnaround_time as u128;
                    product_metrics.push(m);
                    proof {
                        assert(completed_stats(products@, i as int + 1, n, start_time) == before.push(
                            m.stats(),
                        ));
                        assert(before.push(m.stats()).drop_last() =~= before);
                        assert(product_metrics@.map_values(|m: ProductMetrics| m.stats())
                            =~= old_metrics.map_values(|m: ProductMetrics| m.stats()).push(m.stats()));
                    }
                },
                None => {
                    assert(completed_stats(products@, i as int + 1, n, start_time) == completed_stats(
                        products@,
                        i as int,
                        n,
                        start_time,
                    ));
                },
            }
            i = i + 1;
        }
        let ghost done = completed_stats(products@, products@.len() as int, n, start_time);
        let count = product_metrics.len();
        let (average_wait_time, average_turnaround_time) = if count > 0 {
            proof {
                lemma_mean_fits(total_wait as int, count as int);
                lemma_mean_fits(total_turnaround as int, count as int);
            }
            (
                (total_wait / (count as u128)) as u64,
                (total_turnaround / (count as u128)) as u64,
            )
        } else {
            (0u64, 0u64)
        };
        let total_simulation_time = if end_time >= start_time {
            end_time - start_time
        } else {
            0
        };
        let r = SimulationMetrics {
            products: product_metrics,
            average_wait_time,
            average_turnaround_time,
            completion_order,
            total_simulation_time,
        };
        assert(r.summary().products =~= done);
        r
    }

    /// A duration in milliseconds as seconds with three decimals: 1500 gives
    /// `1.500s`.
    pub fn format_duration(duration: u64) -> (r: String)
        ensures
            r@ == duration_text(duration as nat),
    {
        let mut s = String::new();
        append_decimal(&mut s, duration / 1000);
        append_text(&mut s, ".");
        append_three_digits(&mut s, duration % 1000);
        append_text(&mut s, "s");
        s
    }
}

impl Default for MetricsCalculator {
    fn default() -> (r: Self)
        ensures
            r == MetricsCalculator,
    {
        MetricsCalculator::new()
    }
}

/// A total of `count` terms, each at most the largest `u64`, has a mean that
/// fits a `u64`.
proof fn lemma_mean_fits(total: int, count: int)
    requires
        count > 0,
        0 <= total <= count * u64::MAX,
    ensures
        0 <= total / count <= u64::MAX,
{
    assert(total / count <= u64::MAX) by (nonlinear_arith)
        requires
            count > 0,
            0 <= total <= count * u64::MAX,
    ;
    assert(0 <= total / count) by (nonlinear_arith)
        requires
            count > 0,
            0 <= total,
    ;
}

/// Same completed items, stations and times give the same statistics: running
/// the aggregation twice on one set of items yields identical results.
pub proof fn lemma_aggregation_idempotent(
    first: SimulationMetrics,
    second: SimulationMetrics,
    ps: Seq<Product>,
    n: nat,
    start: u64,
    end: u64,
    order: Seq<usize>,
)
    requires
        first.summary() == summary_of(ps, n, start, end, order),
        second.summary() == summary_of(ps, n, start, end, order),
    ensures
        first.summary() == second.summary(),
        first.average_wait_time == second.average_wait_time,
        first.average_turnaround_time == second.average_turnaround_time,
        first.completion_order@ == second.completion_order@,
        first.total_simulation_time == second.total_simulation_time,
{
}

} // verus!
