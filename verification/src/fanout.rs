//! Telling many workers to do something at once: how many at a time, who has to be asked again,
//! and what is reported of it.

use vstd::prelude::*;

use crate::failure;
use crate::failure::{
    classify_fanout_failures, format_fanout_failures, BatchFanoutError, Failure, FanoutFailure,
    WorkerFailure,
};
use crate::order;
use crate::order::{sort_numbers, stable_order, SortKey};
use crate::text;
use crate::text::{copy_texts, decimal_text};
use crate::units;
use crate::units::add_up;
use crate::workers::WorkerSpec;

verus! {

pub const ADAPTIVE_FANOUT_START: usize = 16;

pub const FANOUT_STABLE_INCREASE_AFTER: usize = 20;

// ---------------------------------------------------------------------------
// Latencies
// ---------------------------------------------------------------------------

/// The place of a percentile among `len` latencies in order.
pub open spec fn percentile_place(len: nat, percent: int) -> int {
    ((len - 1) * percent + 99) / 100
}

/// A percentile of some latencies.
pub open spec fn percentile(latencies: Seq<u128>, percent: int) -> Option<u128> {
    if latencies.len() == 0 {
        None
    } else {
        Some(order::rising(latencies)[percentile_place(latencies.len(), percent)])
    }
}

proof fn lemma_rising(latencies: Seq<u128>)
    ensures
        order::rising(latencies).len() == latencies.len(),
        order::rising(latencies).to_multiset() == latencies.to_multiset(),
        vstd::relations::sorted_by(order::rising(latencies), |a: u128, b: u128| a <= b),
        forall|i: int|
            0 <= i < latencies.len() ==> latencies.contains(
                #[trigger] order::rising(latencies)[i],
            ),
{
    broadcast use vstd::seq_lib::group_to_multiset_ensures;

    let sorted = order::rising(latencies);
    latencies.lemma_sort_by_ensures(|a: u128, b: u128| a <= b);
    assert(sorted.len() == sorted.to_multiset().len());
    assert forall|i: int| 0 <= i < latencies.len() implies latencies.contains(
        #[trigger] sorted[i],
    ) by {
        assert(sorted.contains(sorted[i]));
    }
}

/// A higher percentile is no smaller than a lower one, each percentile is one of the latencies,
/// and the hundredth is the largest of them.
pub proof fn law_percentiles_rise(latencies: Seq<u128>, lower: int, higher: int)
    requires
        latencies.len() > 0,
        0 <= lower <= higher <= 100,
    ensures
        percentile(latencies, lower) is Some,
        percentile(latencies, higher) is Some,
        percentile(latencies, lower)->0 <= percentile(latencies, higher)->0,
        latencies.contains(percentile(latencies, lower)->0),
        forall|x: u128| #[trigger]
            latencies.contains(x) ==> x <= percentile(latencies, 100)->0,
{
    let sorted = order::rising(latencies);
    lemma_rising(latencies);
    let last = latencies.len() - 1;
    let low = percentile_place(latencies.len(), lower);
    let high = percentile_place(latencies.len(), higher);
    assert(0 <= last * lower <= last * higher <= last * 100) by (nonlinear_arith)
        requires
            0 <= last,
            0 <= lower <= higher <= 100,
    ;
    assert(0 <= low <= high <= last);
    assert(percentile_place(latencies.len(), 100) == last);
    let leq = |a: u128, b: u128| a <= b;
    assert(low < high ==> leq(sorted[low], sorted[high]));
    assert forall|x: u128| latencies.contains(x) implies x <= percentile(latencies, 100)->0 by {
        broadcast use vstd::seq_lib::group_to_multiset_ensures;

        assert(latencies.to_multiset().count(x) > 0);
        assert(sorted.contains(x));
        let i = choose|i: int| 0 <= i < sorted.len() && sorted[i] == x;
        assert(i < last ==> leq(sorted[i], sorted[last]));
    }
}

/// The order in which latencies come in does not matter to their percentiles.
pub proof fn law_percentiles_know_no_order(a: Seq<u128>, b: Seq<u128>, percent: int)
    requires
        a.to_multiset() == b.to_multiset(),
    ensures
        percentile(a, percent) == percentile(b, percent),
{
    broadcast use vstd::seq_lib::group_to_multiset_ensures;

    lemma_rising(a);
    lemma_rising(b);
    assert(a.len() == a.to_multiset().len());
    assert(b.len() == b.to_multiset().len());
    vstd::seq_lib::lemma_sorted_unique(
        order::rising(a),
        order::rising(b),
        |x: u128, y: u128| x <= y,
    );
}

proof fn lemma_counted(s: Seq<u128>, picks: spec_fn(u128) -> bool, k: int)
    requires
        0 <= k <= s.len(),
    ensures
        (forall|i: int| 0 <= i < k ==> picks(#[trigger] s[i])) ==> s.to_multiset().filter(
            picks,
        ).len() >= k,
        (forall|i: int| k <= i < s.len() ==> !picks(#[trigger] s[i])) ==> s.to_multiset().filter(
            picks,
        ).len() <= k,
    decreases s.len(),
{
    broadcast use vstd::seq_lib::group_to_multiset_ensures;

    let all = s.to_multiset();
    if s.len() == 0 {
        assert(all.filter(picks) =~= vstd::multiset::Multiset::empty());
    } else {
        let rest = s.drop_last();
        let x = s.last();
        assert(s =~= rest.push(x));
        assert(all =~= rest.to_multiset().insert(x));
        if picks(x) {
            assert(all.filter(picks) =~= rest.to_multiset().filter(picks).insert(x));
        } else {
            assert(all.filter(picks) =~= rest.to_multiset().filter(picks));
        }
        let before = if k < s.len() {
            k
        } else {
            k - 1
        };
        lemma_counted(rest, picks, before);
        assert(s[s.len() - 1] == x);
        assert forall|i: int| 0 <= i < rest.len() implies #[trigger] rest[i] == s[i] by {}
    }
}

/// A percentile parts the latencies by rank: so many lie at or under it that their last place,
/// counted from zero, is at least the given share of the way to the last place of all, and the
/// place before the first that is not under it falls short of that share.
pub proof fn law_percentile_by_rank(latencies: Seq<u128>, percent: int)
    requires
        latencies.len() > 0,
        0 <= percent <= 100,
    ensures
        percentile(latencies, percent) is Some,
        ({
            let value = percentile(latencies, percent)->0;
            let up_to = latencies.to_multiset().filter(|x: u128| x <= value).len();
            let under = latencies.to_multiset().filter(|x: u128| x < value).len();
            let share = (latencies.len() - 1) * percent;
            &&& latencies.contains(value)
            &&& share <= 100 * (up_to - 1)
            &&& 100 * (under - 1) < share
        }),
{
    let sorted = order::rising(latencies);
    lemma_rising(latencies);
    let last = latencies.len() - 1;
    let place = percentile_place(latencies.len(), percent);
    assert(0 <= last * percent <= last * 100) by (nonlinear_arith)
        requires
            0 <= last,
            0 <= percent <= 100,
    ;
    assert(0 <= place <= last);
    let value = sorted[place];
    let leq = |a: u128, b: u128| a <= b;
    let at_most = |x: u128| x <= value;
    let less = |x: u128| x < value;
    assert forall|i: int| 0 <= i < place + 1 implies at_most(#[trigger] sorted[i]) by {
        assert(i < place ==> leq(sorted[i], sorted[place]));
    }
    assert forall|i: int| place <= i < sorted.len() implies !less(#[trigger] sorted[i]) by {
        assert(place < i ==> leq(sorted[place], sorted[i]));
    }
    lemma_counted(sorted, at_most, place + 1);
    lemma_counted(sorted, less, place);
}

fn percentile_of(sorted: &Vec<u128>, percent: usize) -> (value: u128)
    requires
        sorted@.len() > 0,
        percent <= 100,
    ensures
        0 <= percentile_place(sorted@.len(), percent as int) < sorted@.len(),
        value == sorted@[percentile_place(sorted@.len(), percent as int)],
{
    let last: u128 = (sorted.len() - 1) as u128;
    assert(0 <= last * percent <= last * 100) by (nonlinear_arith)
        requires
            percent <= 100,
            0 <= last,
    ;
    let place: u128 = (last * percent as u128 + 99) / 100;
    assert(last <= usize::MAX);
    sorted[place as usize]
}

/// The median, the 95th and the 99th percentile, and the largest of some latencies.
pub fn latency_percentiles(latencies: &Vec<u128>) -> (values: (
    Option<u128>,
    Option<u128>,
    Option<u128>,
    Option<u128>,
))
    ensures
        values.0 == percentile(latencies@, 50),
        values.1 == percentile(latencies@, 95),
        values.2 == percentile(latencies@, 99),
        values.3 == percentile(latencies@, 100),
        values.3 is Some ==> values.3->0 == order::rising(latencies@).last(),
{
    if latencies.len() == 0 {
        return (None, None, None, None);
    }
    let sorted: Vec<u128> = sort_numbers(latencies);
    (
        Some(percentile_of(&sorted, 50)),
        Some(percentile_of(&sorted, 95)),
        Some(percentile_of(&sorted, 99)),
        Some(percentile_of(&sorted, 100)),
    )
}

/// A latency; the larger one comes first.
pub struct Slowest(pub u128);

impl SortKey for Slowest {
    open spec fn at_most_spec(self, other: Self) -> bool {
        self.0 >= other.0
    }

    proof fn connected(a: Self, b: Self) {
    }

    proof fn chained(a: Self, b: Self, c: Self) {
    }

    fn at_most(&self, other: &Self) -> (yes: bool) {
        self.0 >= other.0
    }
}

/// The latencies as they are sorted.
pub open spec fn slowness(latencies: Seq<(String, u128)>) -> Seq<Slowest> {
    latencies.map_values(|entry: (String, u128)| Slowest(entry.1))
}

/// An id with its latency.
pub open spec fn with_latency(entry: (String, u128)) -> Seq<char> {
    entry.0@ + ":"@ + text::decimal(entry.1 as nat) + "ms"@
}

/// The five slowest, the slowest first and equal ones in their order.
pub open spec fn is_slowest(out: Seq<Seq<char>>, latencies: Seq<(String, u128)>) -> bool {
    exists|by: Seq<usize>| #[trigger]
        order::stable_sorted(slowness(latencies), by) && out == Seq::new(
            units::least(5, by.len() as int) as nat,
            |i: int| with_latency(latencies[by[i] as int]),
        )
}

/// The texts of `out` name the entries at the places `by`: different ones, with the slower of two
/// first, and of two that took as long the earlier first; no entry that is left out is slower
/// than one that is named.
pub open spec fn names_slowest(
    out: Seq<Seq<char>>,
    latencies: Seq<(String, u128)>,
    by: Seq<int>,
) -> bool {
    &&& by.len() == out.len()
    &&& forall|i: int| #![trigger by[i]]
        0 <= i < by.len() ==> 0 <= by[i] < latencies.len() && out[i] == latencies[by[i]].0@ + ":"@
            + text::decimal(latencies[by[i]].1 as nat) + "ms"@
    &&& forall|i: int, j: int| #![trigger by[i], by[j]]
        0 <= i < j < by.len() ==> latencies[by[i]].1 > latencies[by[j]].1 || (latencies[by[i]].1
            == latencies[by[j]].1 && by[i] < by[j])
    &&& forall|x: int, j: int| #![trigger latencies[x], by[j]]
        0 <= x < latencies.len() && !by.contains(x) && 0 <= j < by.len() ==> latencies[x].1
            <= latencies[by[j]].1
}

/// The slowest are five, or all where there are fewer, and no other is slower than one of them.
pub proof fn law_slowest(out: Seq<Seq<char>>, latencies: Seq<(String, u128)>)
    requires
        latencies.len() <= usize::MAX,
        is_slowest(out, latencies),
    ensures
        latencies.len() >= 5 ==> out.len() == 5,
        latencies.len() < 5 ==> out.len() == latencies.len(),
        exists|by: Seq<int>| names_slowest(out, latencies, by),
{
    let keys = slowness(latencies);
    let full = choose|by: Seq<usize>| #[trigger]
        order::stable_sorted(keys, by) && out == Seq::new(
            units::least(5, by.len() as int) as nat,
            |i: int| with_latency(latencies[by[i] as int]),
        );
    let by = Seq::new(out.len(), |i: int| full[i] as int);
    assert forall|i: int, j: int| 0 <= i < j < full.len() implies latencies[full[i] as int].1
        > latencies[#[trigger] full[j] as int].1 || (latencies[#[trigger] full[i] as int].1
        == latencies[full[j] as int].1 && full[i] < full[j]) by {
        assert(order::before(keys, full[i] as int, full[j] as int));
        assert(keys[full[i] as int] == Slowest(latencies[full[i] as int].1));
        assert(keys[full[j] as int] == Slowest(latencies[full[j] as int].1));
    }
    assert forall|x: int, j: int| #![trigger latencies[x], by[j]]
        0 <= x < latencies.len() && !by.contains(x) && 0 <= j
            < by.len() implies latencies[x].1 <= latencies[by[j]].1 by {
        assert(full.contains(x as usize));
        let at = choose|at: int| 0 <= at < full.len() && full[at] == x as usize;
        if at < out.len() {
            assert(by[at] == x);
        }
        assert(full[j] == by[j]);
    }
    assert(names_slowest(out, latencies, by));
}

/// The five slowest.
pub fn slowest_ids(latencies: &Vec<(String, u128)>) -> (out: Vec<String>)
    ensures
        is_slowest(text::texts(out@), latencies@),
{
    let mut keys: Vec<Slowest> = Vec::new();
    let mut i: usize = 0;
    while i < latencies.len()
        invariant
            i <= latencies@.len(),
            keys@.len() == i,
            forall|j: int| 0 <= j < i ==> keys@[j] == Slowest(latencies@[j].1),
        decreases latencies@.len() - i,
    {
        keys.push(Slowest(latencies[i].1));
        i = i + 1;
    }
    assert(keys@ =~= slowness(latencies@));
    let by: Vec<usize> = stable_order(&keys);
    let mut out: Vec<String> = Vec::new();
    let mut k: usize = 0;
    while k < by.len() && k < 5
        invariant
            k <= by@.len(),
            k <= 5,
            order::stable_sorted(keys@, by@),
            keys@.len() == latencies@.len(),
            out@.len() == k,
            forall|j: int|
                0 <= j < k ==> (#[trigger] out@[j])@ == with_latency(latencies@[by@[j] as int]),
        decreases by@.len() - k,
    {
        let at: usize = by[k];
        let mut part: String = latencies[at].0.clone();
        part.append(":");
        part.append(decimal_text(latencies[at].1).as_str());
        part.append("ms");
        out.push(part);
        k = k + 1;
    }
    assert(text::texts(out@) =~= Seq::new(
        units::least(5, by@.len() as int) as nat,
        |i: int| with_latency(latencies@[by@[i] as int]),
    ));
    out
}

// ---------------------------------------------------------------------------
// How many at a time
// ---------------------------------------------------------------------------

/// What became of telling many workers something.
#[derive(Debug)]
pub struct FanoutSummary {
    pub request_count: usize,
    pub recipient_count: usize,
    pub success_count: usize,
    pub failure_count: usize,
    pub timeout_count: usize,
    pub connect_error_count: usize,
    pub max_parallelism: usize,
    pub effective_parallelism: usize,
    pub retry_pass_count: usize,
    pub wall_ms: u128,
    pub latency_p50_ms: Option<u128>,
    pub latency_p95_ms: Option<u128>,
    pub latency_p99_ms: Option<u128>,
    pub latency_max_ms: Option<u128>,
    pub slowest_worker_ids: Vec<String>,
}

/// A change of how many requests are made at a time.
#[derive(Debug, Clone, Copy, PartialEq, Eq, Structural)]
pub enum FanoutChange {
    Unchanged,
    Reduced { previous: usize, by_errors: bool },
    Increased { previous: usize },
}

/// Decides how many requests are made at a time.
#[derive(Debug)]
pub struct FanoutController {
    max_parallelism: usize,
    min_parallelism: usize,
    current_parallelism: usize,
    adaptive: bool,
    stable_successes: usize,
    p95_threshold_ms: u128,
}

/// How many requests are made at a time.
pub struct ControlView {
    pub most: usize,
    pub fewest: usize,
    pub current: usize,
    pub adaptive: bool,
    pub stable: usize,
    pub p95_threshold: u128,
}

impl View for FanoutController {
    type V = ControlView;

    closed spec fn view(&self) -> ControlView {
        ControlView {
            most: self.max_parallelism,
            fewest: self.min_parallelism,
            current: self.current_parallelism,
            adaptive: self.adaptive,
            stable: self.stable_successes,
            p95_threshold: self.p95_threshold_ms,
        }
    }
}

impl ControlView {
    /// The number lies between its bounds, and there is at least one request at a time.
    pub open spec fn wf(self) -> bool {
        1 <= self.fewest <= self.current <= self.most
    }

    /// Requests were too slow, or too many failed.
    pub open spec fn strained(self, p95: u128, failures: usize, error_rate_high: bool) -> bool {
        p95 >= self.p95_threshold || (error_rate_high && failures > 0)
    }

    /// The control after a summary. Under strain the number is halved; after a run of calm
    /// summaries it grows by four.
    pub open spec fn recorded(self, p95: u128, failures: usize, error_rate_high: bool) -> ControlView {
        if !self.adaptive {
            self
        } else if self.strained(p95, failures, error_rate_high) {
            ControlView {
                current: units::greatest(self.current as int / 2, self.fewest as int) as usize,
                stable: 0,
                ..self
            }
        } else {
            let stable = units::saturated(self.stable + 1);
            if stable >= FANOUT_STABLE_INCREASE_AFTER && self.current < self.most {
                ControlView {
                    current: units::least(self.current + 4, self.most as int) as usize,
                    stable: 0,
                    ..self
                }
            } else {
                ControlView { stable: stable as usize, ..self }
            }
        }
    }
}

impl FanoutController {
    /// A control that starts with at most sixteen requests at a time where it adapts, and with the
    /// largest number where it does not.
    pub fn new(
        max_parallelism: usize,
        min_parallelism: usize,
        adaptive: bool,
        p95_threshold_ms: u128,
    ) -> (control: FanoutController)
        ensures
            control@.wf(),
            control@ == ({
                let most = units::greatest(max_parallelism as int, 1);
                let fewest = units::least(units::greatest(min_parallelism as int, 1), most);
                ControlView {
                    most: most as usize,
                    fewest: fewest as usize,
                    current: (if adaptive {
                        units::greatest(units::least(ADAPTIVE_FANOUT_START as int, most), fewest)
                    } else {
                        most
                    }) as usize,
                    adaptive: adaptive,
                    stable: 0,
                    p95_threshold: p95_threshold_ms,
                }
            }),
    {
        let most: usize = if max_parallelism > 1 {
            max_parallelism
        } else {
            1
        };
        let wanted: usize = if min_parallelism > 1 {
            min_parallelism
        } else {
            1
        };
        let fewest: usize = if wanted < most {
            wanted
        } else {
            most
        };
        let start: usize = if ADAPTIVE_FANOUT_START < most {
            ADAPTIVE_FANOUT_START
        } else {
            most
        };
        let current: usize = if !adaptive {
            most
        } else if start > fewest {
            start
        } else {
            fewest
        };
        FanoutController {
            max_parallelism: most,
            min_parallelism: fewest,
            current_parallelism: current,
            adaptive: adaptive,
            stable_successes: 0,
            p95_threshold_ms: p95_threshold_ms,
        }
    }

    /// How many requests are made at a time.
    pub fn parallelism(&self) -> (count: usize)
        requires
            self@.wf(),
        ensures
            count == self@.current,
            count >= 1,
    {
        self.current_parallelism
    }

    /// Takes a summary into account. `error_rate_high` tells whether the share of failed requests
    /// has reached its threshold.
    pub fn record(&mut self, summary: &FanoutSummary, error_rate_high: bool) -> (change:
        FanoutChange)
        requires
            old(self)@.wf(),
        ensures
            final(self)@.wf(),
            ({
                let p95 = match summary.latency_p95_ms {
                    Some(ms) => ms,
                    None => 0,
                };
                let before = old(self)@;
                let after = final(self)@;
                &&& after == before.recorded(p95, summary.failure_count, error_rate_high)
                &&& change == (if after.current < before.current {
                    FanoutChange::Reduced {
                        previous: before.current,
                        by_errors: error_rate_high && summary.failure_count > 0,
                    }
                } else if after.current > before.current {
                    FanoutChange::Increased { previous: before.current }
                } else {
                    FanoutChange::Unchanged
                })
            }),
    {
        if !self.adaptive {
            return FanoutChange::Unchanged;
        }
        let p95: u128 = match summary.latency_p95_ms {
            Some(ms) => ms,
            None => 0,
        };
        let error_spike: bool = error_rate_high && summary.failure_count > 0;
        let previous: usize = self.current_parallelism;
        if p95 >= self.p95_threshold_ms || error_spike {
            let half: usize = previous / 2;
            self.current_parallelism = if half > self.min_parallelism {
                half
            } else {
                self.min_parallelism
            };
            self.stable_successes = 0;
            if self.current_parallelism != previous {
                return FanoutChange::Reduced { previous: previous, by_errors: error_spike };
            }
            return FanoutChange::Unchanged;
        }
        if self.stable_successes < usize::MAX {
            self.stable_successes = self.stable_successes + 1;
        }
        if self.stable_successes >= FANOUT_STABLE_INCREASE_AFTER && previous
            < self.max_parallelism {
            self.current_parallelism = if self.max_parallelism - previous > 4 {
                previous + 4
            } else {
                self.max_parallelism
            };
            self.stable_successes = 0;
            return FanoutChange::Increased { previous: previous };
        }
        FanoutChange::Unchanged
    }
}

/// The numbers that are reported of a phase.
#[derive(Debug)]
pub struct NetworkPhaseMetrics {
    pub phase: String,
    pub group_size: usize,
    pub operation: String,
    pub request_count: usize,
    pub recipient_count: usize,
    pub success_count: usize,
    pub failure_count: usize,
    pub timeout_count: usize,
    pub connect_error_count: usize,
    pub max_parallelism: usize,
    pub effective_parallelism: usize,
    pub wall_ms: u128,
    pub retry_count: usize,
    pub retry_sleep_ms: u128,
    pub retry_pass_count: usize,
    pub failures: usize,
    pub worker_latency_p50_ms: Option<u128>,
    pub worker_latency_p95_ms: Option<u128>,
    pub worker_latency_p99_ms: Option<u128>,
    pub worker_latency_max_ms: Option<u128>,
    pub slowest_worker_ids: Vec<String>,
    pub logical_request_count: usize,
    pub physical_request_count: usize,
    pub singleton_request_count: usize,
    pub packed_request_count: usize,
    pub packed_logical_client_count: usize,
    pub profile_enabled_recipient_count: usize,
}

/// The numbers that are reported of a summary.
pub fn fanout_metrics(
    phase: &str,
    group_size: usize,
    operation: &str,
    summary: &FanoutSummary,
) -> (metrics: NetworkPhaseMetrics)
    ensures
        metrics.phase@ == phase@,
        metrics.group_size == group_size,
        metrics.operation@ == operation@,
        metrics.request_count == summary.request_count,
        metrics.recipient_count == summary.recipient_count,
        metrics.success_count == summary.success_count,
        metrics.failure_count == summary.failure_count,
        metrics.timeout_count == summary.timeout_count,
        metrics.connect_error_count == summary.connect_error_count,
        metrics.max_parallelism == summary.max_parallelism,
        metrics.effective_parallelism == summary.effective_parallelism,
        metrics.wall_ms == summary.wall_ms,
        metrics.retry_count == 0,
        metrics.retry_sleep_ms == 0,
        metrics.retry_pass_count == summary.retry_pass_count,
        metrics.failures == summary.failure_count,
        metrics.worker_latency_p50_ms == summary.latency_p50_ms,
        metrics.worker_latency_p95_ms == summary.latency_p95_ms,
        metrics.worker_latency_p99_ms == summary.latency_p99_ms,
        metrics.worker_latency_max_ms == summary.latency_max_ms,
        metrics.slowest_worker_ids@ == summary.slowest_worker_ids@,
        metrics.logical_request_count == summary.recipient_count,
        metrics.physical_request_count == summary.request_count,
        metrics.singleton_request_count == 0,
        metrics.packed_request_count == 0,
        metrics.packed_logical_client_count == 0,
        metrics.profile_enabled_recipient_count == 0,
{
    NetworkPhaseMetrics {
        phase: phase.to_owned(),
        group_size: group_size,
        operation: operation.to_owned(),
        request_count: summary.request_count,
        recipient_count: summary.recipient_count,
        success_count: summary.success_count,
        failure_count: summary.failure_count,
        timeout_count: summary.timeout_count,
        connect_error_count: summary.connect_error_count,
        max_parallelism: summary.max_parallelism,
        effective_parallelism: summary.effective_parallelism,
        wall_ms: summary.wall_ms,
        retry_count: 0,
        retry_sleep_ms: 0,
        retry_pass_count: summary.retry_pass_count,
        failures: summary.failure_count,
        worker_latency_p50_ms: summary.latency_p50_ms,
        worker_latency_p95_ms: summary.latency_p95_ms,
        worker_latency_p99_ms: summary.latency_p99_ms,
        worker_latency_max_ms: summary.latency_max_ms,
        slowest_worker_ids: copy_texts(&summary.slowest_worker_ids),
        logical_request_count: summary.recipient_count,
        physical_request_count: summary.request_count,
        singleton_request_count: 0,
        packed_request_count: 0,
        packed_logical_client_count: 0,
        profile_enabled_recipient_count: 0,
    }
}

// ---------------------------------------------------------------------------
// Asking each worker
// ---------------------------------------------------------------------------

/// One worker's answer, or its failure, and how long it took.
#[derive(Debug)]
pub struct FanoutAttempt<T> {
    pub worker: WorkerSpec,
    pub latency_ms: u128,
    pub result: Result<T, WorkerFailure>,
}

/// The answers and failures so far.
#[derive(Debug)]
pub struct FanoutCollect<T> {
    pub successes: Vec<(WorkerSpec, T)>,
    pub failures: Vec<FanoutFailure>,
    pub latencies: Vec<(String, u128)>,
    pub request_count: usize,
    pub retry_pass_count: usize,
    pub effective_parallelism: usize,
}

/// The answers among some attempts.
pub open spec fn answered<T>(attempts: Seq<FanoutAttempt<T>>) -> Seq<(WorkerSpec, T)>
    decreases attempts.len(),
{
    if attempts.len() == 0 {
        Seq::empty()
    } else {
        let before = answered(attempts.drop_last());
        match attempts.last().result {
            Ok(value) => before.push((attempts.last().worker, value)),
            Err(_) => before,
        }
    }
}

/// The failures among some attempts.
pub open spec fn failed<T>(attempts: Seq<FanoutAttempt<T>>) -> Seq<FanoutFailure>
    decreases attempts.len(),
{
    if attempts.len() == 0 {
        Seq::empty()
    } else {
        let before = failed(attempts.drop_last());
        match attempts.last().result {
            Ok(_) => before,
            Err(error) => before.push(
                FanoutFailure { worker: attempts.last().worker, error: error },
            ),
        }
    }
}

/// Latencies with the ids they belong to.
pub open spec fn timed(latencies: Seq<(String, u128)>) -> Seq<(Seq<char>, u128)> {
    latencies.map_values(|entry: (String, u128)| (entry.0@, entry.1))
}

/// The latencies of some attempts.
pub open spec fn times_of<T>(attempts: Seq<FanoutAttempt<T>>) -> Seq<(Seq<char>, u128)> {
    attempts.map_values(|a: FanoutAttempt<T>| (a.worker.id@, a.latency_ms))
}

impl<T> FanoutCollect<T> {
    /// Nobody was asked yet.
    pub fn new() -> (collect: FanoutCollect<T>)
        ensures
            collect.successes@ == Seq::<(WorkerSpec, T)>::empty(),
            collect.failures@ == Seq::<FanoutFailure>::empty(),
            timed(collect.latencies@) == Seq::<(Seq<char>, u128)>::empty(),
            collect.request_count == 0,
            collect.retry_pass_count == 0,
            collect.effective_parallelism == 0,
    {
        let collect: FanoutCollect<T> = FanoutCollect {
            successes: Vec::new(),
            failures: Vec::new(),
            latencies: Vec::new(),
            request_count: 0,
            retry_pass_count: 0,
            effective_parallelism: 0,
        };
        assert(timed(collect.latencies@) =~= Seq::<(Seq<char>, u128)>::empty());
        collect
    }

    /// The workers that are asked once more.
    pub fn retry_workers(&self) -> (again: Vec<WorkerSpec>)
        ensures
            again@ == failure::workers_of(self.failures@),
    {
        let mut again: Vec<WorkerSpec> = Vec::new();
        let mut i: usize = 0;
        while i < self.failures.len()
            invariant
                i <= self.failures@.len(),
                again@.len() == i,
                forall|j: int| 0 <= j < i ==> again@[j] == self.failures@[j].worker,
            decreases self.failures@.len() - i,
        {
            again.push(self.failures[i].worker.clone());
            i = i + 1;
        }
        assert(again@ =~= failure::workers_of(self.failures@));
        again
    }

    /// Takes the attempts of one pass: the answers are kept, and the failures replace those of the
    /// pass before.
    pub fn take_pass(
        &mut self,
        attempts: Vec<FanoutAttempt<T>>,
        max_in_flight: usize,
        retry: bool,
    )
        ensures
            final(self).successes@ == old(self).successes@ + answered(attempts@),
            final(self).failures@ == failed(attempts@),
            timed(final(self).latencies@) == timed(old(self).latencies@) + times_of(attempts@),
            final(self).request_count == units::saturated(
                old(self).request_count + attempts@.len(),
            ),
            final(self).retry_pass_count == units::saturated(
                old(self).retry_pass_count + if retry {
                    1int
                } else {
                    0
                },
            ),
            final(self).effective_parallelism == units::greatest(
                old(self).effective_parallelism as int,
                max_in_flight as int,
            ),
    {
        let ghost all = attempts@;
        let ghost successes = self.successes@;
        let ghost latencies = timed(self.latencies@);
        self.request_count = add_up(self.request_count, attempts.len());
        if retry {
            self.retry_pass_count = add_up(self.retry_pass_count, 1);
        }
        if max_in_flight > self.effective_parallelism {
            self.effective_parallelism = max_in_flight;
        }
        self.failures = Vec::new();
        let ghost mut done: int = 0;
        let mut rest: Vec<FanoutAttempt<T>> = attempts;
        assert(all.take(0) =~= Seq::<FanoutAttempt<T>>::empty());
        assert(self.successes@ =~= successes + answered(all.take(0)));
        assert(timed(self.latencies@) =~= latencies + times_of(all.take(0)));
        assert(all.skip(0) =~= all);
        while rest.len() > 0
            invariant
                0 <= done <= all.len(),
                rest@ == all.skip(done),
                self.successes@ == successes + answered(all.take(done)),
                self.failures@ == failed(all.take(done)),
                timed(self.latencies@) == latencies + times_of(all.take(done)),
                self.request_count == units::saturated(old(self).request_count + all.len()),
                self.retry_pass_count == units::saturated(
                    old(self).retry_pass_count + if retry {
                        1int
                    } else {
                        0
                    },
                ),
                self.effective_parallelism == units::greatest(
                    old(self).effective_parallelism as int,
                    max_in_flight as int,
                ),
            decreases rest@.len(),
        {
            let attempt: FanoutAttempt<T> = rest.remove(0);
            let ghost given = attempt;
            let ghost known = self.latencies@;
            proof {
                assert(all.skip(done)[0] == given);
                assert(all.take(done + 1).drop_last() =~= all.take(done));
                assert(all.take(done + 1).last() == given);
                assert(rest@ =~= all.skip(done + 1));
            }
            self.latencies.push((attempt.worker.id.clone(), attempt.latency_ms));
            proof {
                assert(timed(self.latencies@) =~= timed(known).push(
                    (given.worker.id@, given.latency_ms),
                ));
                assert(times_of(all.take(done + 1)) =~= times_of(all.take(done)).push(
                    (given.worker.id@, given.latency_ms),
                ));
                assert(timed(self.latencies@) =~= latencies + times_of(all.take(done + 1)));
            }
            match attempt.result {
                Ok(value) => {
                    self.successes.push((attempt.worker, value));
                    assert(self.successes@ =~= successes + answered(all.take(done + 1)));
                },
                Err(error) => {
                    self.failures.push(FanoutFailure { worker: attempt.worker, error: error });
                },
            }
            proof {
                done = done + 1;
            }
        }
        assert(all.take(done) =~= all);
    }

    /// What became of asking the workers.
    pub fn summary(&self, recipient_count: usize, max_parallelism: usize, wall_ms: u128) -> (summary:
        FanoutSummary)
        ensures
            summary.request_count == self.request_count,
            summary.recipient_count == recipient_count,
            summary.success_count == self.successes@.len(),
            summary.failure_count == self.failures@.len(),
            summary.timeout_count == failure::timeouts_in(self.failures@),
            summary.connect_error_count == failure::connects_in(self.failures@),
            summary.max_parallelism == max_parallelism,
            summary.effective_parallelism == self.effective_parallelism,
            summary.retry_pass_count == self.retry_pass_count,
            summary.wall_ms == wall_ms,
            summarises(summary, self.latencies@),
    {
        let (timeout_count, connect_error_count) = classify_fanout_failures(
            self.failures.as_slice(),
        );
        let (p50, p95, p99, max) = latency_percentiles(&plain_latencies(&self.latencies));
        FanoutSummary {
            request_count: self.request_count,
            recipient_count: recipient_count,
            success_count: self.successes.len(),
            failure_count: self.failures.len(),
            timeout_count: timeout_count,
            connect_error_count: connect_error_count,
            max_parallelism: max_parallelism,
            effective_parallelism: self.effective_parallelism,
            retry_pass_count: self.retry_pass_count,
            wall_ms: wall_ms,
            latency_p50_ms: p50,
            latency_p95_ms: p95,
            latency_p99_ms: p99,
            latency_max_ms: max,
            slowest_worker_ids: slowest_ids(&self.latencies),
        }
    }

    /// The answers, or a failure where a worker did not answer after all.
    pub fn answers(self, phase: &str, operation: &str) -> (result: Result<
        Vec<(WorkerSpec, T)>,
        Failure,
    >)
        ensures
            match result {
                Ok(answers) => self.failures@.len() == 0 && answers@ == self.successes@,
                Err(error) => self.failures@.len() > 0 && error@ == (failure::FailureView::Batch {
                    phase: phase@,
                    operation: operation@,
                    failures: self.failures@,
                }),
            },
    {
        if self.failures.len() == 0 {
            Ok(self.successes)
        } else {
            Err(
                Failure::Batch(
                    BatchFanoutError {
                        phase: phase.to_owned(),
                        operation: operation.to_owned(),
                        failures: self.failures,
                    },
                ),
            )
        }
    }

    /// Whether all workers did what they were told. Where some did not, the failure is no longer
    /// told apart by worker.
    pub fn done(&self, phase: &str, operation: &str, max_parallelism: usize) -> (result: Result<
        (),
        Failure,
    >)
        ensures
            match result {
                Ok(_) => self.failures@.len() == 0,
                Err(error) => self.failures@.len() > 0 && error@ == failure::plain(
                    "fanout phase="@ + phase@ + " operation="@ + operation@ + " failed_workers="@
                        + text::decimal(self.failures@.len()) + " max_parallelism="@
                        + text::decimal(max_parallelism as nat) + " failures=["@ + text::joined(
                        failure::failure_texts(self.failures@),
                        "; "@,
                    ) + "]"@,
                ),
            },
    {
        if self.failures.len() == 0 {
            return Ok(());
        }
        let mut out: String = "fanout phase=".to_owned();
        out.append(phase);
        out.append(" operation=");
        out.append(operation);
        out.append(" failed_workers=");
        out.append(decimal_text(self.failures.len() as u128).as_str());
        out.append(" max_parallelism=");
        out.append(decimal_text(max_parallelism as u128).as_str());
        out.append(" failures=[");
        out.append(format_fanout_failures(self.failures.as_slice()).as_str());
        out.append("]");
        Err(Failure::plain(out))
    }
}

/// The latencies without the ids.
pub open spec fn latency_values(latencies: Seq<(String, u128)>) -> Seq<u128> {
    latencies.map_values(|entry: (String, u128)| entry.1)
}

pub(crate) fn plain_latencies(latencies: &Vec<(String, u128)>) -> (out: Vec<u128>)
    ensures
        out@ == latency_values(latencies@),
{
    let mut out: Vec<u128> = Vec::new();
    let mut i: usize = 0;
    while i < latencies.len()
        invariant
            i <= latencies@.len(),
            out@.len() == i,
            forall|j: int| 0 <= j < i ==> out@[j] == latencies@[j].1,
        decreases latencies@.len() - i,
    {
        out.push(latencies[i].1);
        i = i + 1;
    }
    assert(out@ =~= latency_values(latencies@));
    out
}

/// The percentiles and the slowest of a summary are those of some latencies.
pub open spec fn summarises(summary: FanoutSummary, latencies: Seq<(String, u128)>) -> bool {
    let values = latency_values(latencies);
    &&& summary.latency_p50_ms == percentile(values, 50)
    &&& summary.latency_p95_ms == percentile(values, 95)
    &&& summary.latency_p99_ms == percentile(values, 99)
    &&& summary.latency_max_ms == percentile(values, 100)
    &&& is_slowest(text::texts(summary.slowest_worker_ids@), latencies)
}

/// Under strain the number of requests at a time is halved, but does not fall below its lower bound, and
/// the run of calm summaries starts over. A calm summary lengthens the run. Where the run is long enough
/// and the number is below its upper bound, the number grows by four, but not beyond that bound, and the
/// run starts over. Nothing else changes, and nothing at all where the control does not adapt.
pub proof fn law_control(control: ControlView, p95: u128, failures: usize, error_rate_high: bool)
    requires
        control.wf(),
        control.stable < usize::MAX,
    ensures
        ({
            let after = control.recorded(p95, failures, error_rate_high);
            let slow = p95 >= control.p95_threshold;
            let failing = error_rate_high && failures > 0;
            &&& after.wf()
            &&& after.most == control.most && after.fewest == control.fewest && after.adaptive
                == control.adaptive && after.p95_threshold == control.p95_threshold
            &&& !control.adaptive ==> after == control
            &&& control.adaptive && (slow || failing) ==> {
                &&& after.stable == 0
                &&& after.current <= control.current
                &&& after.current == control.fewest || 2 * after.current <= control.current < 2
                    * after.current + 2
                &&& after.current == control.fewest ==> control.current < 2 * control.fewest + 2
            }
            &&& control.adaptive && !slow && !failing ==> {
                let enough = control.stable + 1 >= FANOUT_STABLE_INCREASE_AFTER;
                &&& enough && control.current < control.most ==> after.stable == 0 && (after.current
                    == control.current + 4 || (after.current == control.most && control.most
                    < control.current + 4))
                &&& !(enough && control.current < control.most) ==> after.stable == control.stable
                    + 1 && after.current == control.current
            }
        }),
{
}

/// Each attempt is an answer or a failure, and none is lost. The answer or the failure is that of the
/// worker that was asked.
pub proof fn law_attempts_are_parted<T>(attempts: Seq<FanoutAttempt<T>>, k: int)
    ensures
        answered(attempts).len() + failed(attempts).len() == attempts.len(),
        0 <= k < attempts.len() ==> match attempts[k].result {
            Ok(value) => answered(attempts).contains((attempts[k].worker, value)),
            Err(error) => failed(attempts).contains(
                FanoutFailure { worker: attempts[k].worker, error },
            ),
        },
    decreases attempts.len(),
{
    if attempts.len() > 0 {
        let front = attempts.drop_last();
        law_attempts_are_parted(front, k);
        let good = answered(front);
        let bad = failed(front);
        if 0 <= k < front.len() {
            assert(front[k] == attempts[k]);
            match attempts[k].result {
                Ok(value) => {
                    let at = choose|at: int|
                        0 <= at < good.len() && good[at] == (attempts[k].worker, value);
                    assert(answered(attempts)[at] == (attempts[k].worker, value));
                },
                Err(error) => {
                    let f = FanoutFailure { worker: attempts[k].worker, error };
                    let at = choose|at: int| 0 <= at < bad.len() && bad[at] == f;
                    assert(failed(attempts)[at] == f);
                },
            }
        } else if k == front.len() {
            match attempts[k].result {
                Ok(value) => {
                    assert(answered(attempts)[good.len() as int] == (attempts[k].worker, value));
                },
                Err(error) => {
                    assert(failed(attempts)[bad.len() as int] == (FanoutFailure {
                        worker: attempts[k].worker,
                        error,
                    }));
                },
            }
        }
    }
}

} // verus!
