//! How much work a run has, how much of it is done, and the limits it keeps to.

use vstd::prelude::*;

use crate::text;
use crate::text::decimal_text;

verus! {

pub const DEFAULT_HTTP_POOL_MAX_IDLE_PER_HOST: usize = 4;

pub const DEFAULT_MAX_FANOUT_PARALLELISM: usize = 32;

pub const DEFAULT_MIN_FANOUT_PARALLELISM: usize = 1;

pub const FANOUT_LATENCY_SPIKE_P95_MS: u128 = 5_000;

pub const DEFAULT_RUNNER_HTTP_CONNECT_TIMEOUT_MS: u64 = 2_000;

pub const DEFAULT_RUNNER_HTTP_REQUEST_TIMEOUT_MS: u64 = 200_000;

pub const DEFAULT_RUNNER_HTTP_POOL_IDLE_TIMEOUT_SECS: u64 = 30;

/// The smaller of two numbers.
pub open spec fn least(a: int, b: int) -> int {
    if a <= b {
        a
    } else {
        b
    }
}

/// The larger of two numbers.
pub open spec fn greatest(a: int, b: int) -> int {
    if a >= b {
        a
    } else {
        b
    }
}

/// A number as far as a `usize` can hold it.
pub open spec fn saturated(n: int) -> int {
    least(n, usize::MAX as int)
}

pub(crate) fn add_up(a: usize, b: usize) -> (sum: usize)
    ensures
        sum == saturated(a + b),
{
    if a <= usize::MAX - b {
        a + b
    } else {
        usize::MAX
    }
}

pub(crate) fn times(a: usize, b: usize) -> (product: usize)
    ensures
        product == saturated(a * b),
{
    match a.checked_mul(b) {
        Some(product) => product,
        None => usize::MAX,
    }
}

// ---------------------------------------------------------------------------
// Operations of a plateau
// ---------------------------------------------------------------------------

/// `raw`, but not more than `cap`.
pub fn cap_count(raw: usize, cap: usize) -> (count: usize)
    ensures
        count == least(raw as int, cap as int),
{
    if raw < cap {
        raw
    } else {
        cap
    }
}

/// The updates of a plateau.
pub open spec fn updates_of(size: int, rounds: int, cap: int) -> int {
    least(saturated(rounds * size), cap)
}

/// The messages that a plateau sends for one payload; a group of one sends none.
pub open spec fn sends_of(size: int, rounds: int, cap: int) -> int {
    if size < 2 {
        0
    } else {
        least(saturated(rounds * size), cap)
    }
}

/// The updates of a plateau.
pub fn update_ops_for_plateau(
    size: usize,
    update_rounds: usize,
    max_update_samples_per_plateau: usize,
) -> (ops: usize)
    ensures
        ops == updates_of(size as int, update_rounds as int, max_update_samples_per_plateau as int),
{
    cap_count(times(update_rounds, size), max_update_samples_per_plateau)
}

/// The messages that a plateau sends for one payload.
pub fn app_sends_per_payload_for_plateau(
    size: usize,
    app_rounds: usize,
    max_app_samples_per_payload: usize,
) -> (ops: usize)
    ensures
        ops == sends_of(size as int, app_rounds as int, max_app_samples_per_payload as int),
{
    if size < 2 {
        0
    } else {
        cap_count(times(app_rounds, size), max_app_samples_per_payload)
    }
}

/// The messages that a plateau sends for all payloads.
pub fn app_ops_for_plateau(
    size: usize,
    app_rounds: usize,
    max_app_samples_per_payload: usize,
    payload_count: usize,
) -> (ops: usize)
    ensures
        ops == saturated(
            sends_of(size as int, app_rounds as int, max_app_samples_per_payload as int)
                * payload_count,
        ),
{
    times(
        app_sends_per_payload_for_plateau(size, app_rounds, max_app_samples_per_payload),
        payload_count,
    )
}

// ---------------------------------------------------------------------------
// The work of a run
// ---------------------------------------------------------------------------

/// What the amount of work depends on.
#[derive(Debug, Clone, Copy)]
pub struct Workload {
    pub update_rounds: usize,
    pub app_rounds: usize,
    pub max_update_samples_per_plateau: usize,
    pub max_app_samples_per_payload: usize,
    pub payload_count: usize,
    pub external_device_count: usize,
    pub external_coverage_lane: bool,
    pub min_profiled_samples_per_operation: usize,
}

impl Workload {
    /// The devices that are expected to be in a group of a given size.
    pub open spec fn devices(self, target: int) -> int {
        least(self.external_device_count as int, target - 1)
    }

    /// The devices get extra turns on this plateau.
    pub open spec fn lane(self, target: int) -> bool {
        self.external_device_count > 0 && target >= 2 && self.external_coverage_lane
    }

    /// The turns that the measured members need for one operation.
    pub open spec fn required(self, target: int) -> int {
        let actors = self.devices(target) + if target > self.devices(target) {
            1int
        } else {
            0
        };
        saturated(actors * greatest(self.min_profiled_samples_per_operation as int, 1))
    }

    /// The messages of one payload.
    pub open spec fn sends(self, target: int) -> int {
        sends_of(target, self.app_rounds as int, self.max_app_samples_per_payload as int)
    }

    /// The messages of all payloads where the devices get extra turns.
    pub open spec fn lane_sends(self, target: int) -> int {
        greatest(self.sends(target), self.required(target)) * self.payload_count
    }

    /// The updates of a plateau.
    pub open spec fn updates(self, target: int) -> int {
        let base = updates_of(
            target,
            self.update_rounds as int,
            self.max_update_samples_per_plateau as int,
        );
        if self.lane(target) {
            greatest(base, self.required(target))
        } else {
            base
        }
    }

    /// The messages of a plateau.
    pub open spec fn messages(self, target: int) -> int {
        let base = saturated(self.sends(target) * self.payload_count);
        if self.lane(target) {
            greatest(base, self.lane_sends(target))
        } else {
            base
        }
    }

    /// The extra work for the devices of a plateau.
    pub open spec fn extra(self, target: int) -> int {
        if self.lane(target) {
            if self.min_profiled_samples_per_operation > 0 {
                saturated(
                    saturated(self.devices(target) * self.min_profiled_samples_per_operation) * 18,
                )
            } else {
                0
            }
        } else if self.external_device_count > 0 && target >= 2 && self.sends(target) == 1 {
            self.payload_count as int
        } else {
            0
        }
    }

    /// Where the devices get extra turns, the messages of each plateau can be counted.
    pub open spec fn countable(self, plateaus: Seq<usize>) -> bool {
        forall|i: int|
            0 <= i < plateaus.len() && self.lane(#[trigger] plateaus[i] as int)
                ==> self.lane_sends(plateaus[i] as int) <= usize::MAX
    }
}

/// How far one size is from another.
pub open spec fn distance(a: int, b: int) -> int {
    if a >= b {
        a - b
    } else {
        b - a
    }
}

/// The work of a run, as far as a `usize` can hold it: one unit to create the group, and for each
/// plateau the way there, the updates, the messages and what the devices add.
pub open spec fn total_units(plateaus: Seq<usize>, load: Workload) -> int
    decreases plateaus.len(),
{
    if plateaus.len() == 0 {
        1
    } else {
        let target = plateaus.last() as int;
        let from = if plateaus.len() == 1 {
            1
        } else {
            plateaus[plateaus.len() - 2] as int
        };
        saturated(
            total_units(plateaus.drop_last(), load) + distance(target, from) + load.extra(target)
                + load.updates(target) + load.messages(target),
        )
    }
}

/// Whether the messages of each plateau can be counted.
pub fn units_countable(plateau_sequence: &[usize], load: &Workload) -> (yes: bool)
    ensures
        yes == load.countable(plateau_sequence@),
{
    let mut i: usize = 0;
    while i < plateau_sequence.len()
        invariant
            i <= plateau_sequence@.len(),
            forall|j: int|
                0 <= j < i && load.lane(#[trigger] plateau_sequence@[j] as int)
                    ==> load.lane_sends(plateau_sequence@[j] as int) <= usize::MAX,
        decreases plateau_sequence@.len() - i,
    {
        let target: usize = plateau_sequence[i];
        if load.external_device_count > 0 && target >= 2 && load.external_coverage_lane {
            let sends: usize = lane_sends_per_payload(target, load);
            if sends.checked_mul(load.payload_count).is_none() {
                return false;
            }
        }
        i = i + 1;
    }
    true
}

/// The turns that the measured members need for one operation.
fn required_turns(target: usize, load: &Workload) -> (turns: usize)
    requires
        target >= 2,
    ensures
        turns == load.required(target as int),
{
    let devices: usize = if load.external_device_count < target - 1 {
        load.external_device_count
    } else {
        target - 1
    };
    let actors: usize = devices + if target > devices {
        1
    } else {
        0
    };
    let floor: usize = if load.min_profiled_samples_per_operation > 1 {
        load.min_profiled_samples_per_operation
    } else {
        1
    };
    times(actors, floor)
}

fn lane_sends_per_payload(target: usize, load: &Workload) -> (sends: usize)
    requires
        target >= 2,
    ensures
        sends == greatest(load.sends(target as int), load.required(target as int)),
{
    let base: usize = app_sends_per_payload_for_plateau(
        target,
        load.app_rounds,
        load.max_app_samples_per_payload,
    );
    let required: usize = required_turns(target, load);
    if base >= required {
        base
    } else {
        required
    }
}

/// The work of a run.
pub fn estimate_total_units(plateau_sequence: &[usize], load: &Workload) -> (total: usize)
    requires
        load.countable(plateau_sequence@),
    ensures
        total == total_units(plateau_sequence@, *load),
{
    let mut total: usize = 1;
    let mut current_size: usize = 1;
    let mut i: usize = 0;
    assert(plateau_sequence@.take(0) =~= Seq::<usize>::empty());
    while i < plateau_sequence.len()
        invariant
            i <= plateau_sequence@.len(),
            load.countable(plateau_sequence@),
            current_size == (if i == 0 {
                1
            } else {
                plateau_sequence@[i - 1] as int
            }),
            total == total_units(plateau_sequence@.take(i as int), *load),
        decreases plateau_sequence@.len() - i,
    {
        let target: usize = plateau_sequence[i];
        let apart: usize = if target >= current_size {
            target - current_size
        } else {
            current_size - target
        };
        total = add_up(total, apart);
        let mut update_ops: usize = update_ops_for_plateau(
            target,
            load.update_rounds,
            load.max_update_samples_per_plateau,
        );
        let mut app_ops: usize = app_ops_for_plateau(
            target,
            load.app_rounds,
            load.max_app_samples_per_payload,
            load.payload_count,
        );
        let mut extra: usize = 0;
        if load.external_device_count > 0 && target >= 2 {
            if load.external_coverage_lane {
                let required: usize = required_turns(target, load);
                if update_ops < required {
                    update_ops = required;
                }
                let sends: usize = lane_sends_per_payload(target, load);
                assert(load.lane(plateau_sequence@[i as int] as int));
                assert(0 <= sends * load.payload_count) by (nonlinear_arith);
                let lane_ops: usize = sends * load.payload_count;
                if app_ops < lane_ops {
                    app_ops = lane_ops;
                }
                if load.min_profiled_samples_per_operation > 0 {
                    let devices: usize = if load.external_device_count < target - 1 {
                        load.external_device_count
                    } else {
                        target - 1
                    };
                    extra = times(times(devices, load.min_profiled_samples_per_operation), 18);
                }
            } else if app_sends_per_payload_for_plateau(
                target,
                load.app_rounds,
                load.max_app_samples_per_payload,
            ) == 1 {
                extra = load.payload_count;
            }
        }
        total = add_up(total, extra);
        total = add_up(total, update_ops);
        total = add_up(total, app_ops);
        current_size = target;
        assert(extra == load.extra(target as int));
        assert(update_ops == load.updates(target as int));
        assert(app_ops == load.messages(target as int));
        assert(plateau_sequence@.take(i + 1).drop_last() =~= plateau_sequence@.take(i as int));
        i = i + 1;
    }
    assert(plateau_sequence@.take(i as int) =~= plateau_sequence@);
    total
}

/// How much of the work is done.
#[derive(Debug, Clone, Copy)]
pub struct Progress {
    total_units: usize,
    completed_units: usize,
}

impl Progress {
    pub closed spec fn total(self) -> usize {
        self.total_units
    }

    pub closed spec fn completed(self) -> usize {
        self.completed_units
    }

    /// There is work, and not more of it is done than there is.
    pub open spec fn wf(self) -> bool {
        self.total() > 0 && self.completed() <= self.total()
    }

    /// Nothing is done yet. There is always at least one unit.
    pub fn new(total_units: usize) -> (progress: Progress)
        ensures
            progress.wf(),
            progress.total() == greatest(total_units as int, 1),
            progress.completed() == 0,
    {
        Progress {
            total_units: if total_units > 1 {
                total_units
            } else {
                1
            },
            completed_units: 0,
        }
    }

    /// Some units are done, but never more than there are.
    pub fn tick_units(&mut self, units: usize)
        requires
            old(self).wf(),
        ensures
            final(self).wf(),
            final(self).total() == old(self).total(),
            final(self).completed() == least(
                old(self).completed() + units,
                old(self).total() as int,
            ),
    {
        if units <= self.total_units - self.completed_units {
            self.completed_units = self.completed_units + units;
        } else {
            self.completed_units = self.total_units;
        }
    }

    /// The units that are done.
    pub fn completed_units(&self) -> (units: usize)
        ensures
            units == self.completed(),
    {
        self.completed_units
    }

    /// All units.
    pub fn total_units(&self) -> (units: usize)
        ensures
            units == self.total(),
    {
        self.total_units
    }
}

/// A number with at least two digits.
pub open spec fn two_digits(n: nat) -> Seq<char> {
    if n < 10 {
        "0"@ + text::decimal(n)
    } else {
        text::decimal(n)
    }
}

fn two_digit_text(n: u64) -> (out: String)
    ensures
        out@ == two_digits(n as nat),
{
    if n < 10 {
        let mut out: String = "0".to_owned();
        out.append(decimal_text(n as u128).as_str());
        out
    } else {
        decimal_text(n as u128)
    }
}

/// A duration in hours, minutes and seconds.
pub open spec fn hms(total_seconds: u64) -> Seq<char> {
    two_digits((total_seconds / 3600) as nat) + ":"@ + two_digits(
        (total_seconds % 3600 / 60) as nat,
    ) + ":"@ + two_digits((total_seconds % 60) as nat)
}

/// A duration in hours, minutes and seconds.
pub fn format_hms(total_seconds: u64) -> (out: String)
    ensures
        out@ == hms(total_seconds),
{
    let mut out: String = two_digit_text(total_seconds / 3600);
    out.append(":");
    out.append(two_digit_text(total_seconds % 3600 / 60).as_str());
    out.append(":");
    out.append(two_digit_text(total_seconds % 60).as_str());
    out
}

// ---------------------------------------------------------------------------
// Limits
// ---------------------------------------------------------------------------

/// The largest number of requests at a time; zero means the default.
pub fn effective_max_fanout_parallelism(configured: usize) -> (value: usize)
    ensures
        value == (if configured > 0 {
            configured
        } else {
            DEFAULT_MAX_FANOUT_PARALLELISM
        }),
{
    if configured > 0 {
        configured
    } else {
        DEFAULT_MAX_FANOUT_PARALLELISM
    }
}

/// The smallest number of requests at a time, between one and the largest.
pub fn effective_min_fanout_parallelism(configured: usize, max_parallelism: usize) -> (value: usize)
    ensures
        value == least(greatest(configured as int, 1), greatest(max_parallelism as int, 1)),
{
    let wanted: usize = if configured > 0 {
        configured
    } else {
        DEFAULT_MIN_FANOUT_PARALLELISM
    };
    let most: usize = if max_parallelism > 1 {
        max_parallelism
    } else {
        1
    };
    if wanted < most {
        wanted
    } else {
        most
    }
}

/// Whether the number of requests at a time adapts; by default it does from 256 workers on.
pub fn effective_fanout_adaptive(configured: Option<bool>, worker_count: usize) -> (value: bool)
    ensures
        value == (match configured {
            Some(chosen) => chosen,
            None => worker_count >= 256,
        }),
{
    match configured {
        Some(chosen) => chosen,
        None => worker_count >= 256,
    }
}

/// The latency from which on requests are too slow; zero means the default.
pub fn effective_fanout_p95_threshold_ms(configured: u128) -> (value: u128)
    ensures
        value == (if configured > 0 {
            configured
        } else {
            FANOUT_LATENCY_SPIKE_P95_MS
        }),
{
    if configured > 0 {
        configured
    } else {
        FANOUT_LATENCY_SPIKE_P95_MS
    }
}

/// The idle connections kept for each host; zero means the default.
pub fn effective_http_pool_max_idle_per_host(configured: usize) -> (value: usize)
    ensures
        value == (if configured > 0 {
            configured
        } else {
            DEFAULT_HTTP_POOL_MAX_IDLE_PER_HOST
        }),
{
    if configured > 0 {
        configured
    } else {
        DEFAULT_HTTP_POOL_MAX_IDLE_PER_HOST
    }
}

/// A number from the environment, or a default where it is not set or spells none.
pub fn number_or(value: Option<&str>, default: u64) -> (number: u64)
    ensures
        number == (match value {
            Some(given) => match text::spelled_up_to(given@, u64::MAX as nat) {
                Some(n) => n as u64,
                None => default,
            },
            None => default,
        }),
{
    match value {
        Some(given) => match text::parse_u64(given) {
            Some(n) => n,
            None => default,
        },
        None => default,
    }
}

// ---------------------------------------------------------------------------
// Payloads
// ---------------------------------------------------------------------------

/// The bytes that a character takes in UTF-8.
pub open spec fn char_bytes(c: char) -> nat {
    if (c as u32) < 0x80 {
        1
    } else if (c as u32) < 0x800 {
        2
    } else if (c as u32) < 0x1_0000 {
        3
    } else {
        4
    }
}

/// The bytes that a text takes in UTF-8.
pub open spec fn byte_len(s: Seq<char>) -> nat
    decreases s.len(),
{
    if s.len() == 0 {
        0
    } else {
        byte_len(s.drop_last()) + char_bytes(s.last())
    }
}

/// The first `n` characters of a text that is repeated without end.
pub open spec fn repeated(s: Seq<char>, n: nat) -> Seq<char> {
    Seq::new(n, |i: int| s[i % (s.len() as int)])
}

/// The repeated text can be cut after `len` bytes without cutting a character.
pub open spec fn cuts_cleanly(s: Seq<char>, len: int) -> bool {
    exists|n: nat| byte_len(#[trigger] repeated(s, n)) == len
}

/// The text that a payload repeats.
pub open spec fn payload_seed(
    plateau_size: usize,
    payload_size: usize,
    seq_no: usize,
    actor_id: Seq<char>,
) -> Seq<char> {
    "plateau="@ + text::decimal(plateau_size as nat) + ";payload="@ + text::decimal(
        payload_size as nat,
    ) + ";seq="@ + text::decimal(seq_no as nat) + ";actor="@ + actor_id + ";"@
}

proof fn lemma_repeated_grows(s: Seq<char>, n: nat)
    requires
        s.len() > 0,
    ensures
        repeated(s, n + 1) == repeated(s, n).push(s[(n as int) % (s.len() as int)]),
        byte_len(repeated(s, n + 1)) == byte_len(repeated(s, n)) + char_bytes(
            s[(n as int) % (s.len() as int)],
        ),
{
    assert(repeated(s, n + 1) =~= repeated(s, n).push(s[(n as int) % (s.len() as int)]));
    assert(repeated(s, n + 1).drop_last() =~= repeated(s, n));
}

proof fn lemma_more_is_longer(s: Seq<char>, n: nat, m: nat)
    requires
        s.len() > 0,
        n <= m,
    ensures
        byte_len(repeated(s, n)) + (m - n) <= byte_len(repeated(s, m)),
    decreases m,
{
    if n < m {
        lemma_more_is_longer(s, n, (m - 1) as nat);
        lemma_repeated_grows(s, (m - 1) as nat);
    }
}

/// A payload whose text has only ASCII characters can be cut anywhere.
pub proof fn law_ascii_payload_cuts_cleanly(s: Seq<char>, len: nat)
    requires
        s.len() > 0,
        forall|i: int| 0 <= i < s.len() ==> (#[trigger] s[i] as u32) < 0x80,
    ensures
        byte_len(repeated(s, len)) == len,
        cuts_cleanly(s, len as int),
    decreases len,
{
    if len == 0 {
        assert(repeated(s, 0) =~= Seq::<char>::empty());
    } else {
        law_ascii_payload_cuts_cleanly(s, (len - 1) as nat);
        lemma_repeated_grows(s, (len - 1) as nat);
        vstd::arithmetic::div_mod::lemma_mod_bound(len - 1, s.len() as int);
    }
}

fn utf8_width(c: char) -> (width: usize)
    ensures
        width == char_bytes(c),
{
    let code: u32 = c as u32;
    if code < 0x80 {
        1
    } else if code < 0x800 {
        2
    } else if code < 0x1_0000 {
        3
    } else {
        4
    }
}

fn seed_text(plateau_size: usize, payload_size: usize, seq_no: usize, actor_id: &str) -> (out:
    String)
    ensures
        out@ == payload_seed(plateau_size, payload_size, seq_no, actor_id@),
        out@.len() > 0,
{
    let mut out: String = "plateau=".to_owned();
    out.append(decimal_text(plateau_size as u128).as_str());
    out.append(";payload=");
    out.append(decimal_text(payload_size as u128).as_str());
    out.append(";seq=");
    out.append(decimal_text(seq_no as u128).as_str());
    out.append(";actor=");
    out.append(actor_id);
    out.append(";");
    proof {
        reveal_strlit(";");
    }
    out
}

/// As much of the repeated text as fits into `len` bytes, and whether it fills them.
fn fill(seed: &str, len: usize) -> (filled: (String, bool))
    requires
        seed@.len() > 0,
    ensures
        filled.1 == cuts_cleanly(seed@, len as int),
        filled.1 ==> byte_len(filled.0@) == len && filled.0@ == repeated(seed@, filled.0@.len()),
{
    let chars: Vec<char> = text::chars_of(seed);
    let mut out: String = String::new();
    let mut bytes: usize = 0;
    let mut at: usize = 0;
    let ghost mut n: nat = 0;
    assert(repeated(seed@, 0) =~= Seq::<char>::empty());
    proof {
        vstd::arithmetic::div_mod::lemma_small_mod(0, seed@.len());
    }
    while bytes < len
        invariant
            chars@ == seed@,
            seed@.len() > 0,
            at < chars@.len(),
            at == (n as int) % (seed@.len() as int),
            out@ == repeated(seed@, n),
            out@.len() == n,
            bytes == byte_len(out@),
            bytes <= len,
        decreases len - bytes,
    {
        let c: char = chars[at];
        let width: usize = utf8_width(c);
        proof {
            lemma_repeated_grows(seed@, n);
        }
        if width > len - bytes {
            proof {
                if cuts_cleanly(seed@, len as int) {
                    let m = choose|m: nat| byte_len(#[trigger] repeated(seed@, m)) == len;
                    if m <= n {
                        lemma_more_is_longer(seed@, m, n);
                    } else {
                        lemma_more_is_longer(seed@, n + 1, m);
                    }
                }
            }
            return (out, false);
        }
        out.push(c);
        bytes = bytes + width;
        proof {
            let l = seed@.len() as int;
            if at + 1 < l {
                vstd::arithmetic::div_mod::lemma_add_mod_noop(n as int, 1, l);
                if l > 1 {
                    vstd::arithmetic::div_mod::lemma_small_mod(1, l as nat);
                }
                vstd::arithmetic::div_mod::lemma_small_mod((at + 1) as nat, l as nat);
            } else {
                vstd::arithmetic::div_mod::lemma_add_mod_noop(n as int, 1, l);
                if l > 1 {
                    vstd::arithmetic::div_mod::lemma_small_mod(1, l as nat);
                }
                vstd::arithmetic::div_mod::lemma_mod_self_0(l);
            }
        }
        let last: usize = chars.len() - 1;
        at = if at < last {
            at + 1
        } else {
            0
        };
        proof {
            n = n + 1;
        }
    }
    assert(byte_len(repeated(seed@, n)) == len);
    (out, true)
}

/// Whether a payload of `len` bytes can be made without cutting a character.
pub fn payload_fits(
    len: usize,
    plateau_size: usize,
    payload_size: usize,
    seq_no: usize,
    actor_id: &str,
) -> (yes: bool)
    ensures
        yes == cuts_cleanly(
            payload_seed(plateau_size, payload_size, seq_no, actor_id@),
            len as int,
        ),
{
    let seed: String = seed_text(plateau_size, payload_size, seq_no, actor_id);
    fill(seed.as_str(), len).1
}

/// A payload of `len` bytes that tells where it comes from.
pub fn deterministic_payload(
    len: usize,
    plateau_size: usize,
    payload_size: usize,
    seq_no: usize,
    actor_id: &str,
) -> (out: String)
    requires
        cuts_cleanly(payload_seed(plateau_size, payload_size, seq_no, actor_id@), len as int),
    ensures
        byte_len(out@) == len,
        out@ == repeated(
            payload_seed(plateau_size, payload_size, seq_no, actor_id@),
            out@.len(),
        ),
{
    let seed: String = seed_text(plateau_size, payload_size, seq_no, actor_id);
    fill(seed.as_str(), len).0
}

/// Without devices, another plateau adds one unit for each member that joins or leaves on the way there,
/// one for each update, and, for each payload, one for each message: as many as the rounds take for each
/// member, but no more than the caps allow. In a group of one there are no messages. All that as long
/// as it can be counted. A run without plateaus is one unit, to create the group.
pub proof fn law_units_of_a_plateau(plateaus: Seq<usize>, target: usize, load: Workload)
    requires
        load.external_device_count == 0,
        total_units(plateaus.push(target), load) < usize::MAX,
    ensures
        total_units(Seq::empty(), load) == 1,
        ({
            let before = if plateaus.len() == 0 {
                1
            } else {
                plateaus.last() as int
            };
            let way = total_units(plateaus.push(target), load) - total_units(plateaus, load);
            let capped = |raw: int, cap: usize|
                if raw < cap {
                    raw
                } else {
                    cap as int
                };
            let updates = capped(
                load.update_rounds * target,
                load.max_update_samples_per_plateau,
            );
            let sends = if target < 2 {
                0
            } else {
                capped(load.app_rounds * target, load.max_app_samples_per_payload)
            };
            way == (if target > before {
                target - before
            } else {
                before - target
            }) + updates + sends * load.payload_count
        }),
{
    let more = plateaus.push(target);
    assert(more.drop_last() =~= plateaus);
    assert(more.last() == target);
    if plateaus.len() > 0 {
        assert(more[more.len() - 2] == plateaus.last());
    }
    lemma_units_positive(plateaus, load);
    assert(load.update_rounds * target >= 0) by (nonlinear_arith)
        requires
            load.update_rounds >= 0,
            target >= 0,
    ;
    assert(load.app_rounds * target >= 0) by (nonlinear_arith)
        requires
            load.app_rounds >= 0,
            target >= 0,
    ;
    let sends = load.sends(target as int);
    assert(sends * load.payload_count >= 0) by (nonlinear_arith)
        requires
            sends >= 0,
            load.payload_count >= 0,
    ;
}

proof fn lemma_units_positive(plateaus: Seq<usize>, load: Workload)
    requires
        load.external_device_count == 0,
    ensures
        total_units(plateaus, load) >= 1,
    decreases plateaus.len(),
{
    if plateaus.len() > 0 {
        lemma_units_positive(plateaus.drop_last(), load);
        let target = plateaus.last();
        let sends = load.sends(target as int);
        assert(load.update_rounds * target >= 0) by (nonlinear_arith)
            requires
                load.update_rounds >= 0,
                target >= 0,
        ;
        assert(load.app_rounds * target >= 0) by (nonlinear_arith)
            requires
                load.app_rounds >= 0,
                target >= 0,
        ;
        assert(sends * load.payload_count >= 0) by (nonlinear_arith)
            requires
                sends >= 0,
                load.payload_count >= 0,
        ;
    }
}

} // verus!
