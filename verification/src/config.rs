//! What a run is told, and whether that makes sense.

use vstd::prelude::*;

use crate::flags::{PayloadSizes, PlateauOrder, ProfiledFailurePolicy, StepSize};
use crate::staircase;
use crate::staircase::sizes_text;
use crate::text;
use crate::text::{chars_of, decimal_text, str_eq};
use crate::workers;
use crate::workers::{active_external_indices, WorkerSpec};

verus! {

/// What a run is told.
#[derive(Debug)]
pub struct StaircaseConfig {
    pub preflight_only: bool,
    pub ds_url: String,
    pub workers: Vec<WorkerSpec>,
    pub min_size: usize,
    pub max_size: Option<usize>,
    pub step_size: StepSize,
    pub plateau_sizes: Vec<usize>,
    pub plateau_order: PlateauOrder,
    pub roundtrips: usize,
    pub update_rounds: usize,
    pub app_rounds: usize,
    pub max_update_samples_per_plateau: usize,
    pub max_app_samples_per_payload: usize,
    pub min_profiled_samples_per_operation: usize,
    pub max_commit_receive_samples_per_plateau: usize,
    pub commit_receive_sampling_seed: u64,
    pub payload_sizes: PayloadSizes,
    pub scenario_seed: u64,
    pub run_id: String,
    pub scenario: String,
    pub output_dir: String,
    pub worker_health_timeout_seconds: u64,
    pub worker_health_poll_ms: u64,
    pub max_fanout_parallelism: usize,
    pub min_fanout_parallelism: usize,
    pub fanout_adaptive: Option<bool>,
    pub fanout_p95_threshold_ms: u128,
    pub http_pool_max_idle_per_host: usize,
    pub process_pending_fanout: bool,
    pub profile_only_singletons: bool,
    pub external_coverage_lane: bool,
    pub no_aggregate: bool,
    pub failure_experiment: bool,
    pub profiled_failure_policy: ProfiledFailurePolicy,
    pub remove_rejoin: bool,
}

// ---------------------------------------------------------------------------
// The id and the directory of a run
// ---------------------------------------------------------------------------

/// A character that may be in the id of a run.
pub open spec fn id_char(c: char) -> bool {
    ||| 'a' <= c <= 'z'
    ||| 'A' <= c <= 'Z'
    ||| '0' <= c <= '9'
    ||| c == '.'
    ||| c == '_'
    ||| c == '-'
}

/// Why an id cannot name a run, if it cannot: an id is a file name without surprises.
pub open spec fn run_id_refused(run_id: Seq<char>) -> Option<Seq<char>> {
    if run_id.len() == 0 {
        Some("Run ID must not be empty"@)
    } else if run_id == "/"@ || run_id == "."@ || run_id == ".."@ {
        Some("Run ID must not be '"@ + run_id + "'"@)
    } else if run_id.contains('/') {
        Some("Run ID must not contain '/'"@)
    } else if exists|i: int| 0 <= i < run_id.len() && !id_char(#[trigger] run_id[i]) {
        Some("Run ID must only contain [A-Za-z0-9._-], got '"@ + run_id + "'"@)
    } else {
        None
    }
}

/// Whether an id can name a run.
pub fn validate_run_id(run_id: &str) -> (result: Result<(), String>)
    ensures
        match result {
            Ok(_) => run_id_refused(run_id@) is None,
            Err(why) => run_id_refused(run_id@) == Some(why@),
        },
        result is Ok ==> run_id@.len() > 0 && forall|i: int|
            0 <= i < run_id@.len() ==> id_char(#[trigger] run_id@[i]),
{
    let chars: Vec<char> = chars_of(run_id);
    if chars.len() == 0 {
        return Err("Run ID must not be empty".to_owned());
    }
    if str_eq(run_id, "/") || str_eq(run_id, ".") || str_eq(run_id, "..") {
        let mut why: String = "Run ID must not be '".to_owned();
        why.append(run_id);
        why.append("'");
        return Err(why);
    }
    let mut slash: bool = false;
    let mut odd: bool = false;
    let mut i: usize = 0;
    while i < chars.len()
        invariant
            i <= chars@.len(),
            slash == exists|j: int| 0 <= j < i && #[trigger] chars@[j] == '/',
            odd == exists|j: int| 0 <= j < i && !id_char(#[trigger] chars@[j]),
        decreases chars@.len() - i,
    {
        let c: char = chars[i];
        if c == '/' {
            slash = true;
        }
        let fine: bool = ('a' <= c && c <= 'z') || ('A' <= c && c <= 'Z') || ('0' <= c && c <= '9')
            || c == '.' || c == '_' || c == '-';
        if !fine {
            odd = true;
        }
        assert(chars@[i as int] == c);
        i = i + 1;
    }
    if slash {
        return Err("Run ID must not contain '/'".to_owned());
    }
    assert(!run_id@.contains('/'));
    if odd {
        let mut why: String = "Run ID must only contain [A-Za-z0-9._-], got '".to_owned();
        why.append(run_id);
        why.append("'");
        return Err(why);
    }
    Ok(())
}

/// The path of a file in a directory; an absolute path stays as it is.
pub open spec fn path_in(dir: Seq<char>, name: Seq<char>) -> Seq<char> {
    if name.len() > 0 && name[0] == '/' {
        name
    } else if dir.len() == 0 || dir.last() == '/' {
        dir + name
    } else {
        dir + "/"@ + name
    }
}

/// The directory of a run.
pub fn run_dir_for(output_dir: &str, run_id: &str) -> (path: String)
    ensures
        path@ == path_in(output_dir@, run_id@),
{
    let dir: Vec<char> = chars_of(output_dir);
    let name: Vec<char> = chars_of(run_id);
    if name.len() > 0 && name[0] == '/' {
        return run_id.to_owned();
    }
    let mut path: String = output_dir.to_owned();
    if dir.len() > 0 && dir[dir.len() - 1] != '/' {
        path.append("/");
    }
    path.append(run_id);
    path
}

/// The directory of a run with a valid id is within the directory of all runs, and different ids
/// have different directories.
pub proof fn law_run_dirs(dir: Seq<char>, a: Seq<char>, b: Seq<char>)
    requires
        run_id_refused(a) is None,
        run_id_refused(b) is None,
    ensures
        text::has_prefix(path_in(dir, a), dir),
        path_in(dir, a).len() > dir.len(),
        a != b ==> path_in(dir, a) != path_in(dir, b),
{
    reveal_strlit("/");
    assert(!a.contains('/') && !b.contains('/'));
    assert(a[0] != '/') by {
        assert(a.contains(a[0]));
    }
    assert(b[0] != '/') by {
        assert(b.contains(b[0]));
    }
    let x = path_in(dir, a);
    let y = path_in(dir, b);
    let n = x.len() - a.len();
    assert(x.take(dir.len() as int) =~= dir);
    assert(x.skip(n) =~= a);
    if x == y {
        assert(y.skip(y.len() - b.len()) =~= b);
        assert(y.len() - b.len() == n);
    }
}

// ---------------------------------------------------------------------------
// The whole configuration
// ---------------------------------------------------------------------------

/// The sizes rise.
pub open spec fn rises(sizes: Seq<usize>) -> bool {
    forall|i: int| 0 <= i < sizes.len() - 1 ==> #[trigger] sizes[i] < sizes[i + 1]
}

/// Why a configuration makes no sense, if it makes none.
pub open spec fn config_refused(config: StaircaseConfig, worker_count: usize) -> Option<Seq<char>> {
    let max_size = match config.max_size {
        Some(size) => size,
        None => worker_count,
    };
    let given = config.plateau_sizes@;
    if config.min_size == 0 {
        Some("--min-size must be at least 1"@)
    } else if !config.step_size.positive() {
        Some("--step-size must be at least 1"@)
    } else if config.roundtrips == 0 {
        Some("--roundtrips must be at least 1"@)
    } else if config.payload_sizes.sources() == 0 {
        Some("At least one payload size is required"@)
    } else if config.min_profiled_samples_per_operation > 0 && (!config.external_coverage_lane
        || workers::places(config.workers@, workers::profiled_external()).len() == 0) {
        Some(
            "--min-external-samples-per-operation requires --external-coverage-lane and at least one profile-enabled external device"@,
        )
    } else if max_size == 0 {
        Some("--max-size must be at least 1"@)
    } else if max_size > worker_count {
        Some(
            "--max-size "@ + text::decimal(max_size as nat)
                + " exceeds number of supplied workers "@ + text::decimal(worker_count as nat),
        )
    } else if config.min_size > max_size {
        Some(
            "--min-size "@ + text::decimal(config.min_size as nat) + " cannot exceed --max-size "@
                + text::decimal(max_size as nat),
        )
    } else if given.len() == 0 {
        None
    } else if config.plateau_order != PlateauOrder::Ascending {
        Some("--plateau-sizes requires --plateau-order ascending"@)
    } else if given.contains(0) {
        Some("--plateau-sizes values must be at least 1"@)
    } else if !rises(given) {
        Some(
            "--plateau-sizes must be strictly increasing; got "@ + staircase::sizes_shown(given),
        )
    } else if given[0] < config.min_size || given.last() > max_size {
        Some(
            "--plateau-sizes "@ + staircase::sizes_shown(given) + " must stay within --min-size "@
                + text::decimal(config.min_size as nat) + " and --max-size "@ + text::decimal(
                max_size as nat,
            ),
        )
    } else {
        None
    }
}

/// The largest group size of a run, if the configuration makes sense.
pub fn validate_config(config: &StaircaseConfig, worker_count: usize) -> (result: Result<
    usize,
    String,
>)
    ensures
        match result {
            Ok(max_size) => {
                &&& config_refused(*config, worker_count) is None
                &&& max_size == (match config.max_size {
                    Some(size) => size,
                    None => worker_count,
                })
                &&& config.min_size <= max_size <= worker_count
            },
            Err(why) => config_refused(*config, worker_count) == Some(why@),
        },
{
    if config.min_size == 0 {
        return Err("--min-size must be at least 1".to_owned());
    }
    if !config.step_size.is_valid() {
        return Err("--step-size must be at least 1".to_owned());
    }
    if config.roundtrips == 0 {
        return Err("--roundtrips must be at least 1".to_owned());
    }
    if config.payload_sizes.is_empty() {
        return Err("At least one payload size is required".to_owned());
    }
    if config.min_profiled_samples_per_operation > 0 && (!config.external_coverage_lane
        || active_external_indices(config.workers.as_slice()).len() == 0) {
        return Err(
            "--min-external-samples-per-operation requires --external-coverage-lane and at least one profile-enabled external device".to_owned(),
        );
    }
    let max_size: usize = match config.max_size {
        Some(size) => size,
        None => worker_count,
    };
    if max_size == 0 {
        return Err("--max-size must be at least 1".to_owned());
    }
    if max_size > worker_count {
        let mut why: String = "--max-size ".to_owned();
        why.append(decimal_text(max_size as u128).as_str());
        why.append(" exceeds number of supplied workers ");
        why.append(decimal_text(worker_count as u128).as_str());
        return Err(why);
    }
    if config.min_size > max_size {
        let mut why: String = "--min-size ".to_owned();
        why.append(decimal_text(config.min_size as u128).as_str());
        why.append(" cannot exceed --max-size ");
        why.append(decimal_text(max_size as u128).as_str());
        return Err(why);
    }
    let sizes: &Vec<usize> = &config.plateau_sizes;
    if sizes.len() == 0 {
        return Ok(max_size);
    }
    if config.plateau_order != PlateauOrder::Ascending {
        return Err("--plateau-sizes requires --plateau-order ascending".to_owned());
    }
    let mut zero: bool = false;
    let mut falls: bool = false;
    let mut i: usize = 0;
    let end: usize = sizes.len();
    while i < end
        invariant
            i <= end == sizes@.len(),
            zero == sizes@.take(i as int).contains(0),
            falls == exists|j: int| 0 <= j < i && j + 1 < sizes@.len() && #[trigger] sizes@[j]
                >= sizes@[j + 1],
        decreases end - i,
    {
        proof {
            let before = sizes@.take(i as int);
            let now = sizes@.take(i + 1);
            assert(now =~= before.push(sizes@[i as int]));
            if before.contains(0) {
                let j = choose|j: int| 0 <= j < before.len() && before[j] == 0;
                assert(now[j] == 0);
            }
            assert(now[i as int] == sizes@[i as int]);
            if now.contains(0) && sizes@[i as int] != 0 {
                let j = choose|j: int| 0 <= j < now.len() && now[j] == 0;
                assert(before[j] == 0);
            }
        }
        if sizes[i] == 0 {
            zero = true;
        }
        if i + 1 < end && sizes[i] >= sizes[i + 1] {
            falls = true;
        }
        i = i + 1;
    }
    assert(sizes@.take(i as int) =~= sizes@);
    if zero {
        return Err("--plateau-sizes values must be at least 1".to_owned());
    }
    if falls {
        let mut why: String = "--plateau-sizes must be strictly increasing; got ".to_owned();
        why.append(sizes_text(sizes).as_str());
        assert(!rises(sizes@));
        return Err(why);
    }
    assert(rises(sizes@));
    if sizes[0] < config.min_size || sizes[end - 1] > max_size {
        let mut why: String = "--plateau-sizes ".to_owned();
        why.append(sizes_text(sizes).as_str());
        why.append(" must stay within --min-size ");
        why.append(decimal_text(config.min_size as u128).as_str());
        why.append(" and --max-size ");
        why.append(decimal_text(max_size as u128).as_str());
        return Err(why);
    }
    Ok(max_size)
}

} // verus!
