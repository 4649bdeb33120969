//! Telling the clients of many containers something at once, one request for each container, and
//! asking those that failed once more.

use vstd::prelude::*;

use crate::command;
use crate::command::BatchFanoutCommand;
use crate::expect;
use crate::expect::{receive_commit_reconciled_by_state, ExpectedReceiveCommitState};
use crate::failure;
use crate::failure::{
    classify_fanout_failures, is_profiled_resource_budget_failure,
    partition_batch_failures_by_reconciled_state, retry_batch_commands_for_failures,
    BatchFanoutError, Failure, FailureKind, FanoutFailure, WorkerFailure,
};
use crate::fanout;
use crate::fanout::{latency_percentiles, plain_latencies, slowest_ids, FanoutSummary};
use crate::table::IdSet;
use crate::text;
use crate::text::{contains, str_eq};
use crate::transport::GroupStateSnapshot;
use crate::units;
use crate::units::add_up;
use crate::workers;
use crate::workers::{find_known, WorkerSpec};

verus! {

/// How often the clients that failed are asked once more.
pub const DEFAULT_FANOUT_RETRY_PASSES: usize = 1;

// ---------------------------------------------------------------------------
// One container
// ---------------------------------------------------------------------------

/// The answer of one client.
#[derive(Debug)]
pub struct BatchItemResult {
    pub client_id: String,
    pub status: String,
    pub message: String,
}

/// What became of the request to one container.
#[derive(Debug)]
pub enum PhysicalOutcome {
    /// The clients answered.
    Answered(Vec<BatchItemResult>),
    /// The answer could not be read.
    Unreadable { error: String },
    /// The answer was an error status.
    BadStatus { status: String, body: String },
    /// No answer came.
    NotSent { error: String },
}

/// The request to one container.
#[derive(Debug)]
pub struct BatchPhysicalAttempt {
    pub physical_id: String,
    pub successes: Vec<WorkerSpec>,
    pub failures: Vec<FanoutFailure>,
    pub latency_ms: u128,
    pub timeout_count: usize,
    pub connect_error_count: usize,
}

/// The known clients that answered that all went well.
pub open spec fn well_answered(
    answers: Seq<BatchItemResult>,
    known: Seq<WorkerSpec>,
) -> Seq<WorkerSpec>
    decreases answers.len(),
{
    if answers.len() == 0 {
        Seq::empty()
    } else {
        let before = well_answered(answers.drop_last(), known);
        let last = answers.last();
        match workers::known_as(known, last.client_id@) {
            Some(worker) => if last.status@ == "ok"@ {
                before.push(worker)
            } else {
                before
            },
            None => before,
        }
    }
}

/// A failure that is only a text, of a worker.
pub open spec fn fails_with(f: FanoutFailure, worker: WorkerSpec, message: Seq<char>) -> bool {
    &&& f.worker == worker
    &&& f.error.kind == FailureKind::Plain
    &&& f.error.origin is None
    &&& f.error.text@ == message
}

/// `failures` are those of the known clients that answered that something went wrong.
pub open spec fn badly_answered(
    answers: Seq<BatchItemResult>,
    known: Seq<WorkerSpec>,
    failures: Seq<FanoutFailure>,
) -> bool
    decreases answers.len(),
{
    if answers.len() == 0 {
        failures.len() == 0
    } else {
        let last = answers.last();
        match workers::known_as(known, last.client_id@) {
            Some(worker) => if last.status@ == "ok"@ {
                badly_answered(answers.drop_last(), known, failures)
            } else {
                &&& failures.len() > 0
                &&& badly_answered(answers.drop_last(), known, failures.drop_last())
                &&& fails_with(
                    failures.last(),
                    worker,
                    "client "@ + last.client_id@ + " batch error: "@ + last.message@,
                )
            },
            None => badly_answered(answers.drop_last(), known, failures),
        }
    }
}

/// `failures` are one for each known client of the commands, all with the same text.
pub open spec fn all_failed(
    cmds: Seq<command::BatchView>,
    known: Seq<WorkerSpec>,
    message: Seq<char>,
    failures: Seq<FanoutFailure>,
) -> bool
    decreases cmds.len(),
{
    if cmds.len() == 0 {
        failures.len() == 0
    } else {
        match workers::known_as(known, cmds.last().client_id) {
            Some(worker) => {
                &&& failures.len() > 0
                &&& all_failed(cmds.drop_last(), known, message, failures.drop_last())
                &&& fails_with(failures.last(), worker, message)
            },
            None => all_failed(cmds.drop_last(), known, message, failures),
        }
    }
}

fn fail_all(cmds: &[BatchFanoutCommand], known: &[WorkerSpec], message: &str) -> (failures: Vec<
    FanoutFailure,
>)
    ensures
        all_failed(command::items(cmds@), known@, message@, failures@),
{
    let ghost list = command::items(cmds@);
    let mut failures: Vec<FanoutFailure> = Vec::new();
    let mut i: usize = 0;
    assert(list.take(0) =~= Seq::<command::BatchView>::empty());
    while i < cmds.len()
        invariant
            i <= cmds@.len(),
            list == command::items(cmds@),
            all_failed(list.take(i as int), known@, message@, failures@),
        decreases cmds@.len() - i,
    {
        let ghost before = failures@;
        assert(list.take(i + 1).drop_last() =~= list.take(i as int));
        assert(list.take(i + 1).last() == cmds@[i as int]@);
        if let Some(worker) = find_known(known, cmds[i].client_id.as_str()) {
            failures.push(
                FanoutFailure {
                    worker: worker.clone(),
                    error: WorkerFailure::plain(message.to_owned()),
                },
            );
            assert(failures@.drop_last() =~= before);
        }
        i = i + 1;
    }
    assert(list.take(i as int) =~= list);
    failures
}

/// A request that took too long, by its text.
pub open spec fn took_too_long(error: Seq<char>) -> bool {
    ||| text::occurs(error, "timeout"@)
    ||| text::occurs(error, "timed out"@)
    ||| text::occurs(error, "deadline"@)
}

/// A request that reached nobody, by its text.
pub open spec fn reached_nobody(error: Seq<char>) -> bool {
    ||| text::occurs(error, "unreachable"@)
    ||| text::occurs(error, "connect"@)
    ||| text::occurs(error, "refused"@)
}

/// What the request to one container came to.
pub open spec fn attempt_meant(
    attempt: BatchPhysicalAttempt,
    cmds: Seq<command::BatchView>,
    known: Seq<WorkerSpec>,
    outcome: PhysicalOutcome,
) -> bool {
    match outcome {
        PhysicalOutcome::Answered(answers) => {
            &&& attempt.successes@ == well_answered(answers@, known)
            &&& badly_answered(answers@, known, attempt.failures@)
            &&& attempt.timeout_count == 0
            &&& attempt.connect_error_count == 0
        },
        PhysicalOutcome::Unreadable { error } => {
            &&& attempt.successes@.len() == 0
            &&& all_failed(cmds, known, "batch response parse error: "@ + error@, attempt.failures@)
            &&& attempt.timeout_count == 0
            &&& attempt.connect_error_count == 0
        },
        PhysicalOutcome::BadStatus { status, body } => {
            &&& attempt.successes@.len() == 0
            &&& all_failed(
                cmds,
                known,
                "batch HTTP error: "@ + status@ + " "@ + body@,
                attempt.failures@,
            )
            &&& attempt.timeout_count == 0
            &&& attempt.connect_error_count == 0
        },
        PhysicalOutcome::NotSent { error } => {
            &&& attempt.successes@.len() == 0
            &&& all_failed(cmds, known, "batch request error: "@ + error@, attempt.failures@)
            &&& attempt.timeout_count == (if took_too_long(error@) {
                cmds.len()
            } else {
                0
            })
            &&& attempt.connect_error_count == (if reached_nobody(error@) {
                cmds.len()
            } else {
                0
            })
        },
    }
}

/// What the request to one container came to.
pub fn batch_fanout_collect_physical(
    physical_id: &str,
    cmds: &[BatchFanoutCommand],
    known: &[WorkerSpec],
    outcome: &PhysicalOutcome,
    latency_ms: u128,
) -> (attempt: BatchPhysicalAttempt)
    ensures
        attempt.physical_id@ == physical_id@,
        attempt.latency_ms == latency_ms,
        attempt_meant(attempt, command::items(cmds@), known@, *outcome),
{
    let mut successes: Vec<WorkerSpec> = Vec::new();
    let mut timeout_count: usize = 0;
    let mut connect_error_count: usize = 0;
    let failures: Vec<FanoutFailure> = match outcome {
        PhysicalOutcome::Answered(answers) => {
            let mut failures: Vec<FanoutFailure> = Vec::new();
            let mut i: usize = 0;
            assert(answers@.take(0) =~= Seq::<BatchItemResult>::empty());
            while i < answers.len()
                invariant
                    i <= answers@.len(),
                    successes@ == well_answered(answers@.take(i as int), known@),
                    badly_answered(answers@.take(i as int), known@, failures@),
                decreases answers@.len() - i,
            {
                let ghost before = failures@;
                assert(answers@.take(i + 1).drop_last() =~= answers@.take(i as int));
                assert(answers@.take(i + 1).last() == answers@[i as int]);
                if let Some(worker) = find_known(known, answers[i].client_id.as_str()) {
                    if str_eq(answers[i].status.as_str(), "ok") {
                        successes.push(worker.clone());
                    } else {
                        let mut message: String = "client ".to_owned();
                        message.append(answers[i].client_id.as_str());
                        message.append(" batch error: ");
                        message.append(answers[i].message.as_str());
                        failures.push(
                            FanoutFailure {
                                worker: worker.clone(),
                                error: WorkerFailure::plain(message),
                            },
                        );
                        assert(failures@.drop_last() =~= before);
                    }
                }
                i = i + 1;
            }
            assert(answers@.take(i as int) =~= answers@);
            failures
        },
        PhysicalOutcome::Unreadable { error } => {
            let mut message: String = "batch response parse error: ".to_owned();
            message.append(error.as_str());
            fail_all(cmds, known, message.as_str())
        },
        PhysicalOutcome::BadStatus { status, body } => {
            let mut message: String = "batch HTTP error: ".to_owned();
            message.append(status.as_str());
            message.append(" ");
            message.append(body.as_str());
            fail_all(cmds, known, message.as_str())
        },
        PhysicalOutcome::NotSent { error } => {
            let e: &str = error.as_str();
            if contains(e, "timeout") || contains(e, "timed out") || contains(e, "deadline") {
                timeout_count = cmds.len();
            }
            if contains(e, "unreachable") || contains(e, "connect") || contains(e, "refused") {
                connect_error_count = cmds.len();
            }
            let mut message: String = "batch request error: ".to_owned();
            message.append(e);
            fail_all(cmds, known, message.as_str())
        },
    };
    BatchPhysicalAttempt {
        physical_id: physical_id.to_owned(),
        successes: successes,
        failures: failures,
        latency_ms: latency_ms,
        timeout_count: timeout_count,
        connect_error_count: connect_error_count,
    }
}

// ---------------------------------------------------------------------------
// One pass over all containers
// ---------------------------------------------------------------------------

/// What one pass over all containers came to.
#[derive(Debug)]
pub struct BatchPass {
    pub success_count: usize,
    pub failures: Vec<FanoutFailure>,
    pub latencies: Vec<(String, u128)>,
    pub request_count: usize,
    pub timeout_count: usize,
    pub connect_error_count: usize,
    pub effective_parallelism: usize,
}

/// The successes of some requests, as far as they can be counted.
pub open spec fn successes_of(attempts: Seq<BatchPhysicalAttempt>) -> int
    decreases attempts.len(),
{
    if attempts.len() == 0 {
        0
    } else {
        units::saturated(
            successes_of(attempts.drop_last()) + attempts.last().successes@.len(),
        )
    }
}

/// The failures of some requests.
pub open spec fn failures_of(attempts: Seq<BatchPhysicalAttempt>) -> Seq<FanoutFailure>
    decreases attempts.len(),
{
    if attempts.len() == 0 {
        Seq::empty()
    } else {
        failures_of(attempts.drop_last()) + attempts.last().failures@
    }
}

/// The clients whose requests took too long, as far as they can be counted.
pub open spec fn slow_clients(attempts: Seq<BatchPhysicalAttempt>) -> int
    decreases attempts.len(),
{
    if attempts.len() == 0 {
        0
    } else {
        units::saturated(slow_clients(attempts.drop_last()) + attempts.last().timeout_count)
    }
}

/// The clients whose requests reached nobody, as far as they can be counted.
pub open spec fn lost_clients(attempts: Seq<BatchPhysicalAttempt>) -> int
    decreases attempts.len(),
{
    if attempts.len() == 0 {
        0
    } else {
        units::saturated(lost_clients(attempts.drop_last()) + attempts.last().connect_error_count)
    }
}

/// The latencies of some requests, by container.
pub open spec fn latencies_of(attempts: Seq<BatchPhysicalAttempt>) -> Seq<(Seq<char>, u128)> {
    attempts.map_values(|a: BatchPhysicalAttempt| (a.physical_id@, a.latency_ms))
}

/// A pass put together from its requests.
pub open spec fn gathered(
    pass: BatchPass,
    attempts: Seq<BatchPhysicalAttempt>,
    effective_parallelism: usize,
) -> bool {
    &&& pass.success_count == successes_of(attempts)
    &&& pass.failures@ == failures_of(attempts)
    &&& fanout::timed(pass.latencies@) == latencies_of(attempts)
    &&& pass.request_count == attempts.len()
    &&& pass.timeout_count == slow_clients(attempts)
    &&& pass.connect_error_count == lost_clients(attempts)
    &&& pass.effective_parallelism == effective_parallelism
}

/// Puts a pass together from its requests, in the order in which they came back.
pub fn gather(attempts: &Vec<BatchPhysicalAttempt>, effective_parallelism: usize) -> (pass:
    BatchPass)
    ensures
        gathered(pass, attempts@, effective_parallelism),
{
    let mut pass: BatchPass = BatchPass {
        success_count: 0,
        failures: Vec::new(),
        latencies: Vec::new(),
        request_count: attempts.len(),
        timeout_count: 0,
        connect_error_count: 0,
        effective_parallelism: effective_parallelism,
    };
    let mut i: usize = 0;
    assert(attempts@.take(0) =~= Seq::<BatchPhysicalAttempt>::empty());
    assert(fanout::timed(pass.latencies@) =~= latencies_of(attempts@.take(0)));
    while i < attempts.len()
        invariant
            i <= attempts@.len(),
            pass.success_count == successes_of(attempts@.take(i as int)),
            pass.failures@ == failures_of(attempts@.take(i as int)),
            fanout::timed(pass.latencies@) == latencies_of(attempts@.take(i as int)),
            pass.request_count == attempts@.len(),
            pass.timeout_count == slow_clients(attempts@.take(i as int)),
            pass.connect_error_count == lost_clients(attempts@.take(i as int)),
            pass.effective_parallelism == effective_parallelism,
        decreases attempts@.len() - i,
    {
        let attempt: &BatchPhysicalAttempt = &attempts[i];
        let ghost known = pass.latencies@;
        let ghost past = pass.failures@;
        assert(attempts@.take(i + 1).drop_last() =~= attempts@.take(i as int));
        assert(attempts@.take(i + 1).last() == *attempt);
        pass.success_count = add_up(pass.success_count, attempt.successes.len());
        pass.timeout_count = add_up(pass.timeout_count, attempt.timeout_count);
        pass.connect_error_count = add_up(pass.connect_error_count, attempt.connect_error_count);
        pass.latencies.push((attempt.physical_id.clone(), attempt.latency_ms));
        assert(fanout::timed(pass.latencies@) =~= fanout::timed(known).push(
            (attempt.physical_id@, attempt.latency_ms),
        ));
        assert(latencies_of(attempts@.take(i + 1)) =~= latencies_of(attempts@.take(i as int)).push(
            (attempt.physical_id@, attempt.latency_ms),
        ));
        let mut k: usize = 0;
        assert(pass.failures@ =~= past + attempt.failures@.take(0));
        while k < attempt.failures.len()
            invariant
                k <= attempt.failures@.len(),
                pass.failures@ == past + attempt.failures@.take(k as int),
                pass.success_count == successes_of(attempts@.take(i + 1)),
                fanout::timed(pass.latencies@) == latencies_of(attempts@.take(i + 1)),
                pass.request_count == attempts@.len(),
                pass.timeout_count == slow_clients(attempts@.take(i + 1)),
                pass.connect_error_count == lost_clients(attempts@.take(i + 1)),
                pass.effective_parallelism == effective_parallelism,
            decreases attempt.failures@.len() - k,
        {
            pass.failures.push(attempt.failures[k].clone());
            k = k + 1;
            assert(pass.failures@ =~= past + attempt.failures@.take(k as int));
        }
        assert(attempt.failures@.take(k as int) =~= attempt.failures@);
        i = i + 1;
    }
    assert(attempts@.take(i as int) =~= attempts@);
    pass
}

// ---------------------------------------------------------------------------
// All passes
// ---------------------------------------------------------------------------

/// What is expected of each client, by its id.
pub open spec fn expected_of(
    expected: Seq<(String, ExpectedReceiveCommitState)>,
    id: Seq<char>,
) -> Option<expect::ExpectedView>
    decreases expected.len(),
{
    if expected.len() == 0 {
        None
    } else if expected.last().0@ == id {
        Some(expected.last().1@)
    } else {
        expected_of(expected.drop_last(), id)
    }
}

fn find_expected<'a>(expected: &'a Vec<(String, ExpectedReceiveCommitState)>, id: &str) -> (found:
    Option<&'a ExpectedReceiveCommitState>)
    ensures
        match found {
            Some(state) => expected_of(expected@, id@) == Some(state@),
            None => expected_of(expected@, id@) is None,
        },
{
    let mut i: usize = expected.len();
    assert(expected@.take(i as int) =~= expected@);
    while i > 0
        invariant
            i <= expected@.len(),
            expected_of(expected@, id@) == expected_of(expected@.take(i as int), id@),
        decreases i,
    {
        assert(expected@.take(i as int).last() == expected@[i - 1]);
        assert(expected@.take(i as int).drop_last() =~= expected@.take(i - 1));
        i = i - 1;
        if str_eq(expected[i].0.as_str(), id) {
            return Some(&expected[i].1);
        }
    }
    None
}

/// How far telling the clients is.
#[derive(Debug)]
pub enum PackedStage {
    /// The commands are sent.
    Sending,
    /// The states of clients that failed are asked for, one after the other.
    Reconciling,
    /// Nothing is left to do.
    Over,
}

/// What is done next.
#[derive(Debug)]
pub enum PackedAction {
    /// Send the commands, one request for each container.
    SendPass,
    /// Ask for the state of a client that failed.
    ShowState(WorkerSpec),
    /// All clients were told.
    Done,
}

/// Telling the clients of many containers something at once.
pub struct PackedFanout {
    pub recipients: usize,
    pub max_parallelism: usize,
    pub expected: Option<Vec<(String, ExpectedReceiveCommitState)>>,
    /// The commands of the pass that is under way.
    pub commands: Vec<(String, Vec<BatchFanoutCommand>)>,
    pub pass: usize,
    pub stage: PackedStage,
    /// The pass that is being looked into.
    pub current: BatchPass,
    /// How many of its failures were looked into.
    pub at: usize,
    /// Those failures, as they stand now.
    pub looked_into: Vec<FanoutFailure>,
    /// The clients among them that turned out to have succeeded.
    pub reconciled: IdSet,
    pub failures: Vec<FanoutFailure>,
    pub success_count: usize,
    pub latencies: Vec<(String, u128)>,
    pub request_count: usize,
    pub retry_pass_count: usize,
    pub timeout_count: usize,
    pub connect_error_count: usize,
    pub effective_parallelism: usize,
}

/// The numbers that are counted over all passes.
pub struct Tally {
    pub successes: int,
    pub requests: int,
    pub retry_passes: int,
    pub timeouts: int,
    pub connects: int,
    pub parallelism: int,
    pub latencies: Seq<(Seq<char>, u128)>,
}

impl PackedFanout {
    /// What was counted so far.
    pub open spec fn tally(self) -> Tally {
        Tally {
            successes: self.success_count as int,
            requests: self.request_count as int,
            retry_passes: self.retry_pass_count as int,
            timeouts: self.timeout_count as int,
            connects: self.connect_error_count as int,
            parallelism: self.effective_parallelism as int,
            latencies: fanout::timed(self.latencies@),
        }
    }

    /// The state of the client is needed to look into its failure.
    pub open spec fn needs_state(self, f: FanoutFailure) -> bool {
        &&& self.expected is Some
        &&& expected_of(self.expected->0@, f.worker.id@) is Some
        &&& !(failure::measured_alone(f.worker) && failure::out_of_budget(
            f.error.kind,
            f.error.text@,
        ))
    }

    /// The first failure from `from` on that needs a client's state.
    pub open spec fn next_needed(self, from: int) -> int
        decreases self.current.failures@.len() - from,
    {
        if from >= self.current.failures@.len() {
            self.current.failures@.len() as int
        } else if self.needs_state(self.current.failures@[from]) {
            from
        } else {
            self.next_needed(from + 1)
        }
    }

    /// As many failures were looked into as the count says.
    pub open spec fn wf(self) -> bool {
        &&& self.at <= self.current.failures@.len()
        &&& self.looked_into@.len() == self.at
        &&& self.pass <= DEFAULT_FANOUT_RETRY_PASSES + 1
        &&& self.stage is Sending ==> self.pass <= DEFAULT_FANOUT_RETRY_PASSES
        &&& self.stage is Reconciling ==> self.pass <= DEFAULT_FANOUT_RETRY_PASSES && self.at
            < self.current.failures@.len() && self.needs_state(
            self.current.failures@[self.at as int],
        )
        &&& self.expected is None ==> self.reconciled@ == Set::<Seq<char>>::empty()
    }

    /// What does not change while the clients are told.
    pub open spec fn same_task(self, other: PackedFanout) -> bool {
        &&& self.recipients == other.recipients
        &&& self.max_parallelism == other.max_parallelism
        &&& self.expected == other.expected
    }

    /// Nobody was told yet. Without commands there is nothing to do.
    pub fn new(
        recipients: usize,
        max_parallelism: usize,
        commands: Vec<(String, Vec<BatchFanoutCommand>)>,
        expected: Option<Vec<(String, ExpectedReceiveCommitState)>>,
    ) -> (made: (PackedFanout, PackedAction))
        ensures
            made.0.wf(),
            made.0.recipients == recipients,
            made.0.max_parallelism == max_parallelism,
            made.0.expected == expected,
            command::packed(made.0.commands@) == command::packed(commands@),
            made.0.pass == 0,
            made.0.failures@.len() == 0,
            made.0.tally() == (Tally {
                successes: 0,
                requests: 0,
                retry_passes: 0,
                timeouts: 0,
                connects: 0,
                parallelism: 0,
                latencies: Seq::empty(),
            }),
            if commands@.len() == 0 {
                made.0.stage is Over && made.1 is Done
            } else {
                made.0.stage is Sending && made.1 is SendPass
            },
    {
        let empty: bool = commands.len() == 0;
        let fanout: PackedFanout = PackedFanout {
            recipients: recipients,
            max_parallelism: max_parallelism,
            expected: expected,
            commands: commands,
            pass: 0,
            stage: if empty {
                PackedStage::Over
            } else {
                PackedStage::Sending
            },
            current: BatchPass {
                success_count: 0,
                failures: Vec::new(),
                latencies: Vec::new(),
                request_count: 0,
                timeout_count: 0,
                connect_error_count: 0,
                effective_parallelism: 0,
            },
            at: 0,
            looked_into: Vec::new(),
            reconciled: IdSet::new(),
            failures: Vec::new(),
            success_count: 0,
            latencies: Vec::new(),
            request_count: 0,
            retry_pass_count: 0,
            timeout_count: 0,
            connect_error_count: 0,
            effective_parallelism: 0,
        };
        assert(fanout::timed(fanout.latencies@) =~= Seq::<(Seq<char>, u128)>::empty());
        if empty {
            (fanout, PackedAction::Done)
        } else {
            (fanout, PackedAction::SendPass)
        }
    }

    /// The failures that remain when all of a pass were looked into.
    pub open spec fn remaining(
        looked_into: Seq<FanoutFailure>,
        reconciled: Set<Seq<char>>,
    ) -> Seq<FanoutFailure> {
        failure::failures_in(looked_into, reconciled, false)
    }

    /// What is counted when all failures of a pass were looked into.
    pub open spec fn counted(
        self,
        looked_into: Seq<FanoutFailure>,
        reconciled: Set<Seq<char>>,
    ) -> Tally {
        let before = self.tally();
        let remaining = PackedFanout::remaining(looked_into, reconciled);
        let made_up = failure::failures_in(looked_into, reconciled, true).len();
        Tally {
            successes: units::saturated(
                units::saturated(before.successes + self.current.success_count) + made_up,
            ),
            requests: units::saturated(before.requests + self.current.request_count),
            retry_passes: if self.pass > 0 {
                units::saturated(before.retry_passes + 1)
            } else {
                before.retry_passes
            },
            timeouts: units::saturated(
                before.timeouts + units::greatest(
                    self.current.timeout_count as int,
                    failure::timeouts_in(remaining) as int,
                ),
            ),
            connects: units::saturated(
                before.connects + units::greatest(
                    self.current.connect_error_count as int,
                    failure::connects_in(remaining) as int,
                ),
            ),
            parallelism: units::greatest(
                before.parallelism,
                self.current.effective_parallelism as int,
            ),
            latencies: before.latencies + fanout::timed(self.current.latencies@),
        }
    }

    /// What follows once the failures before `upto` need no more looking into: the state of the
    /// next client, or, at the end of the pass, the next pass over the clients that still fail.
    pub open spec fn goes_on(
        self,
        looked_into: Seq<FanoutFailure>,
        reconciled: Set<Seq<char>>,
        after: PackedFanout,
        action: PackedAction,
    ) -> bool {
        let all = self.current.failures@;
        let from = looked_into.len() as int;
        let next = self.next_needed(from);
        let looked = looked_into + all.subrange(from, next);
        if next < all.len() {
            &&& after.stage is Reconciling
            &&& action == PackedAction::ShowState(all[next].worker)
            &&& after.at == next
            &&& after.looked_into@ == looked
            &&& after.reconciled@ == reconciled
            &&& after.current == self.current
            &&& after.pass == self.pass
            &&& after.commands == self.commands
            &&& after.failures@ == self.failures@
            &&& after.tally() == self.tally()
        } else {
            let again = failure::retried(
                command::packed(self.commands@),
                failure::failed_ids(PackedFanout::remaining(looked, reconciled)),
            );
            &&& after.failures@ == PackedFanout::remaining(looked, reconciled)
            &&& after.tally() == self.counted(looked, reconciled)
            &&& after.pass == self.pass + 1
            &&& command::packed(after.commands@) == again
            &&& if again.len() == 0 || self.pass == DEFAULT_FANOUT_RETRY_PASSES {
                after.stage is Over && action is Done
            } else {
                after.stage is Sending && action is SendPass
            }
        }
    }

    /// Looks into failures until a client's state is needed or the pass is over.
    fn go_on(&mut self) -> (action: PackedAction)
        requires
            old(self).at <= old(self).current.failures@.len(),
            old(self).looked_into@.len() == old(self).at,
            old(self).pass <= DEFAULT_FANOUT_RETRY_PASSES,
            old(self).expected is None ==> old(self).reconciled@ == Set::<Seq<char>>::empty(),
        ensures
            final(self).wf(),
            final(self).same_task(*old(self)),
            old(self).goes_on(
                old(self).looked_into@,
                old(self).reconciled@,
                *final(self),
                action,
            ),
    {
        let ghost start = *self;
        let ghost all = self.current.failures@;
        let ghost from = self.at as int;
        assert(all.subrange(from, from) =~= Seq::<FanoutFailure>::empty());
        assert(start.looked_into@ + all.subrange(from, from) =~= start.looked_into@);
        while self.at < self.current.failures.len()
            invariant
                start == *old(self),
                from <= self.at <= all.len(),
                all == start.current.failures@,
                from == start.looked_into@.len(),
                start.next_needed(from) == start.next_needed(self.at as int),
                self.looked_into@ == start.looked_into@ + all.subrange(from, self.at as int),
                self.current == start.current,
                self.expected == start.expected,
                self.reconciled == start.reconciled,
                self.pass == start.pass,
                self.pass <= DEFAULT_FANOUT_RETRY_PASSES,
                self.commands == start.commands,
                self.failures == start.failures,
                self.same_task(start),
                self.tally() == start.tally(),
                start.expected is None ==> start.reconciled@ == Set::<Seq<char>>::empty(),
            decreases all.len() - self.at,
        {
            let wanted: bool = match &self.expected {
                None => false,
                Some(expected) => find_expected(
                    expected,
                    self.current.failures[self.at].worker.id.as_str(),
                ).is_some() && !is_profiled_resource_budget_failure(
                    &self.current.failures[self.at].worker,
                    &self.current.failures[self.at].error,
                ),
            };
            assert(wanted == start.needs_state(all[self.at as int]));
            if wanted {
                self.stage = PackedStage::Reconciling;
                return PackedAction::ShowState(self.current.failures[self.at].worker.clone());
            }
            let same: FanoutFailure = self.current.failures[self.at].clone();
            self.looked_into.push(same);
            assert(all.subrange(from, self.at + 1) =~= all.subrange(from, self.at as int).push(
                all[self.at as int],
            ));
            assert(self.looked_into@ =~= start.looked_into@ + all.subrange(from, self.at + 1));
            self.at = self.at + 1;
        }
        let mut looked_into: Vec<FanoutFailure> = Vec::new();
        std::mem::swap(&mut looked_into, &mut self.looked_into);
        let (made_up, remaining): (Vec<WorkerSpec>, Vec<FanoutFailure>) =
            partition_batch_failures_by_reconciled_state(looked_into, &self.reconciled);
        let (timeouts, connects) = classify_fanout_failures(remaining.as_slice());
        self.request_count = add_up(self.request_count, self.current.request_count);
        if self.current.effective_parallelism > self.effective_parallelism {
            self.effective_parallelism = self.current.effective_parallelism;
        }
        if self.pass > 0 {
            self.retry_pass_count = add_up(self.retry_pass_count, 1);
        }
        self.timeout_count = add_up(
            self.timeout_count,
            if self.current.timeout_count > timeouts {
                self.current.timeout_count
            } else {
                timeouts
            },
        );
        self.connect_error_count = add_up(
            self.connect_error_count,
            if self.current.connect_error_count > connects {
                self.current.connect_error_count
            } else {
                connects
            },
        );
        let again: Vec<(String, Vec<BatchFanoutCommand>)> = retry_batch_commands_for_failures(
            self.commands.as_slice(),
            remaining.as_slice(),
        );
        self.success_count = add_up(
            add_up(self.success_count, self.current.success_count),
            made_up.len(),
        );
        let mut k: usize = 0;
        let ghost known = fanout::timed(self.latencies@);
        let ghost added = self.current.latencies@;
        assert(known + fanout::timed(added.take(0)) =~= known);
        let ghost counted = *self;
        while k < self.current.latencies.len()
            invariant
                k <= added.len(),
                added == self.current.latencies@,
                self.looked_into@.len() == 0,
                fanout::timed(self.latencies@) == known + fanout::timed(added.take(k as int)),
                self.current == counted.current,
                self.expected == counted.expected,
                self.reconciled == counted.reconciled,
                self.pass == counted.pass,
                self.commands == counted.commands,
                self.same_task(counted),
                self.success_count == counted.success_count,
                self.request_count == counted.request_count,
                self.retry_pass_count == counted.retry_pass_count,
                self.timeout_count == counted.timeout_count,
                self.connect_error_count == counted.connect_error_count,
                self.effective_parallelism == counted.effective_parallelism,
            decreases added.len() - k,
        {
            let ghost before = self.latencies@;
            let entry: (String, u128) = (
                self.current.latencies[k].0.clone(),
                self.current.latencies[k].1,
            );
            self.latencies.push(entry);
            proof {
                assert(fanout::timed(self.latencies@) =~= fanout::timed(before).push(
                    (added[k as int].0@, added[k as int].1),
                ));
                assert(fanout::timed(added.take(k + 1)) =~= fanout::timed(
                    added.take(k as int),
                ).push((added[k as int].0@, added[k as int].1)));
                assert(fanout::timed(self.latencies@) =~= known + fanout::timed(added.take(k + 1)));
            }
            k = k + 1;
        }
        assert(added.take(k as int) =~= added);
        self.failures = remaining;
        self.commands = again;
        self.current.failures = Vec::new();
        self.at = 0;
        self.reconciled = IdSet::new();
        let last_pass: bool = self.pass == DEFAULT_FANOUT_RETRY_PASSES;
        self.pass = self.pass + 1;
        assert(command::packed(self.commands@).len() == self.commands@.len());
        if self.commands.len() == 0 || last_pass {
            self.stage = PackedStage::Over;
            PackedAction::Done
        } else {
            self.stage = PackedStage::Sending;
            PackedAction::SendPass
        }
    }

    /// What follows after the requests of a pass came back.
    pub fn take_pass(&mut self, pass: BatchPass) -> (action: PackedAction)
        requires
            old(self).wf(),
            old(self).stage is Sending,
        ensures
            final(self).wf(),
            final(self).same_task(*old(self)),
            (PackedFanout { current: pass, ..*old(self) }).goes_on(
                Seq::empty(),
                Set::empty(),
                *final(self),
                action,
            ),
    {
        self.current = pass;
        self.at = 0;
        self.looked_into = Vec::new();
        self.reconciled = IdSet::new();
        let ghost begun = *self;
        let ghost given = PackedFanout { current: pass, ..*old(self) };
        proof {
            lemma_next_needed_same(begun, given, 0);
        }
        self.go_on()
    }

    /// What a client's state makes of its failure: whether the client turned out to have
    /// succeeded, and the failure as it stands now.
    pub open spec fn looked_at(
        self,
        f: FanoutFailure,
        observed: Result<GroupStateSnapshot, Failure>,
        now: FanoutFailure,
        succeeded: bool,
    ) -> bool {
        match expect::reconciled(
            f.worker.id@,
            expected_of(self.expected->0@, f.worker.id@)->0,
            expect::observed_view(observed),
            f.error.text@,
        ) {
            Ok(yes) => now == f && succeeded == yes,
            Err(message) => !succeeded && if text::occurs(message, "could not query worker"@) {
                now == f
            } else {
                fails_with(
                    now,
                    f.worker,
                    "batch receive reconciliation failed: "@ + message + "; original_error="@
                        + f.error.text@,
                )
            },
        }
    }

    /// What follows after the state of a client that failed came in.
    pub fn take_state(&mut self, observed: Result<GroupStateSnapshot, Failure>) -> (action:
        PackedAction)
        requires
            old(self).wf(),
            old(self).stage is Reconciling,
        ensures
            final(self).wf(),
            final(self).same_task(*old(self)),
            exists|now: FanoutFailure, succeeded: bool| #[trigger]
                old(self).looked_at(
                    old(self).current.failures@[old(self).at as int],
                    observed,
                    now,
                    succeeded,
                ) && old(self).goes_on(
                    old(self).looked_into@.push(now),
                    if succeeded {
                        old(self).reconciled@.insert(
                            old(self).current.failures@[old(self).at as int].worker.id@,
                        )
                    } else {
                        old(self).reconciled@
                    },
                    *final(self),
                    action,
                ),
    {
        let ghost start = *self;
        let ghost f = self.current.failures@[self.at as int];
        let failure: FanoutFailure = self.current.failures[self.at].clone();
        let mut now: FanoutFailure = self.current.failures[self.at].clone();
        let mut succeeded: bool = false;
        match &self.expected {
            None => {},
            Some(expected) => {
                match find_expected(expected, failure.worker.id.as_str()) {
                    None => {},
                    Some(wanted) => {
                        match receive_commit_reconciled_by_state(
                            &failure.worker,
                            wanted,
                            &observed,
                            failure.error.text.as_str(),
                        ) {
                            Ok(yes) => {
                                succeeded = yes;
                            },
                            Err(error) => {
                                let message: String = error.message();
                                if !contains(message.as_str(), "could not query worker") {
                                    let mut text: String =
                                        "batch receive reconciliation failed: ".to_owned();
                                    text.append(message.as_str());
                                    text.append("; original_error=");
                                    text.append(failure.error.text.as_str());
                                    now = FanoutFailure {
                                        worker: failure.worker.clone(),
                                        error: WorkerFailure::plain(text),
                                    };
                                }
                            },
                        }
                    },
                }
            },
        }
        assert(start.looked_at(f, observed, now, succeeded));
        if succeeded {
            self.reconciled.insert(failure.worker.id.as_str());
        }
        let ghost kept = now;
        let end: usize = self.current.failures.len();
        assert(self.at < end);
        self.looked_into.push(now);
        self.at = self.at + 1;
        let ghost begun = *self;
        proof {
            lemma_next_needed_same(begun, start, self.at as int);
            assert(begun.looked_into@ == start.looked_into@.push(kept));
        }
        self.go_on()
    }

    /// What became of telling the clients.
    pub fn summary(&self, wall_ms: u128) -> (summary: FanoutSummary)
        ensures
            summary.request_count == self.request_count,
            summary.recipient_count == self.recipients,
            summary.success_count == self.success_count,
            summary.failure_count == self.failures@.len(),
            summary.timeout_count == self.timeout_count,
            summary.connect_error_count == self.connect_error_count,
            summary.max_parallelism == self.max_parallelism,
            summary.effective_parallelism == self.effective_parallelism,
            summary.retry_pass_count == self.retry_pass_count,
            summary.wall_ms == wall_ms,
            fanout::summarises(summary, self.latencies@),
    {
        let (p50, p95, p99, max) = latency_percentiles(&plain_latencies(&self.latencies));
        FanoutSummary {
            request_count: self.request_count,
            recipient_count: self.recipients,
            success_count: self.success_count,
            failure_count: self.failures.len(),
            timeout_count: self.timeout_count,
            connect_error_count: self.connect_error_count,
            max_parallelism: self.max_parallelism,
            effective_parallelism: self.effective_parallelism,
            retry_pass_count: self.retry_pass_count,
            wall_ms: wall_ms,
            latency_p50_ms: p50,
            latency_p95_ms: p95,
            latency_p99_ms: p99,
            latency_max_ms: max,
            slowest_worker_ids: slowest_ids(&self.latencies),
        }
    }

    /// The result of telling the clients: a failure where some of them still fail.
    pub fn result(self, phase: &str, operation: &str) -> (result: Result<(), Failure>)
        ensures
            if self.failures@.len() == 0 {
                result is Ok
            } else {
                result is Err && result->Err_0@ == (failure::FailureView::Batch {
                    phase: phase@,
                    operation: operation@,
                    failures: self.failures@,
                })
            },
    {
        if self.failures.len() == 0 {
            Ok(())
        } else {
            Err(
                Failure::Batch(
                    BatchFanoutError {
                        phase: phase.to_owned(),
                        operation: operation.to_owned(),
                        failures: self.failures,
                    },
                ),
            )
        }
    }
}

proof fn lemma_next_needed_same(a: PackedFanout, b: PackedFanout, from: int)
    requires
        a.current.failures@ == b.current.failures@,
        a.expected == b.expected,
    ensures
        a.next_needed(from) == b.next_needed(from),
    decreases a.current.failures@.len() - from,
{
    if from < a.current.failures@.len() {
        lemma_next_needed_same(a, b, from + 1);
    }
}

/// What one container answered. Each answer of a known client is a success or a failure: a success where
/// its status is "ok", and otherwise a failure of that client. Where no answer can be read, each known
/// client that was told something has failed.
pub proof fn law_answers_of_a_container(
    attempt: BatchPhysicalAttempt,
    cmds: Seq<command::BatchView>,
    known: Seq<WorkerSpec>,
    outcome: PhysicalOutcome,
)
    requires
        attempt_meant(attempt, cmds, known, outcome),
    ensures
        outcome matches PhysicalOutcome::Answered(answers) ==> {
            &&& attempt.successes@.len() + attempt.failures@.len() == answers@.filter(
                |a: BatchItemResult| workers::known_as(known, a.client_id@) is Some,
            ).len()
            &&& attempt.successes@.len() == answers@.filter(
                |a: BatchItemResult|
                    workers::known_as(known, a.client_id@) is Some && a.status@ == "ok"@,
            ).len()
        },
        !(outcome is Answered) ==> {
            &&& attempt.successes@.len() == 0
            &&& attempt.failures@.len() == cmds.filter(
                |c: command::BatchView| workers::known_as(known, c.client_id) is Some,
            ).len()
        },
        outcome matches PhysicalOutcome::NotSent { error } ==> {
            &&& attempt.timeout_count == (if text::occurs(error@, "timeout"@) || text::occurs(
                error@,
                "timed out"@,
            ) || text::occurs(error@, "deadline"@) {
                cmds.len()
            } else {
                0
            })
        },
{
    if let PhysicalOutcome::Answered(answers) = outcome {
        lemma_answers(answers@, known, attempt.failures@);
    } else {
        let message = match outcome {
            PhysicalOutcome::Unreadable { error } => "batch response parse error: "@ + error@,
            PhysicalOutcome::BadStatus { status, body } => "batch HTTP error: "@ + status@ + " "@
                + body@,
            PhysicalOutcome::NotSent { error } => "batch request error: "@ + error@,
            PhysicalOutcome::Answered(_) => Seq::empty(),
        };
        lemma_all_failed(cmds, known, message, attempt.failures@);
    }
}

proof fn lemma_answers(
    answers: Seq<BatchItemResult>,
    known: Seq<WorkerSpec>,
    failures: Seq<FanoutFailure>,
)
    requires
        badly_answered(answers, known, failures),
    ensures
        well_answered(answers, known).len() + failures.len() == answers.filter(
            |a: BatchItemResult| workers::known_as(known, a.client_id@) is Some,
        ).len(),
        well_answered(answers, known).len() == answers.filter(
            |a: BatchItemResult|
                workers::known_as(known, a.client_id@) is Some && a.status@ == "ok"@,
        ).len(),
    decreases answers.len(),
{
    reveal(Seq::filter);
    if answers.len() > 0 {
        let last = answers.last();
        let counts = workers::known_as(known, last.client_id@) is Some && last.status@ != "ok"@;
        lemma_answers(
            answers.drop_last(),
            known,
            if counts {
                failures.drop_last()
            } else {
                failures
            },
        );
    }
}

proof fn lemma_all_failed(
    cmds: Seq<command::BatchView>,
    known: Seq<WorkerSpec>,
    message: Seq<char>,
    failures: Seq<FanoutFailure>,
)
    requires
        all_failed(cmds, known, message, failures),
    ensures
        failures.len() == cmds.filter(
            |c: command::BatchView| workers::known_as(known, c.client_id) is Some,
        ).len(),
    decreases cmds.len(),
{
    reveal(Seq::filter);
    if cmds.len() > 0 {
        lemma_all_failed(
            cmds.drop_last(),
            known,
            message,
            if workers::known_as(known, cmds.last().client_id) is Some {
                failures.drop_last()
            } else {
                failures
            },
        );
    }
}

/// Where a pass is over, each of its failures that was looked into either remains or counts as a success
/// after all, as far as it can be counted. Clients that still fail are told again, unless they were told
/// twice already; nobody else is.
pub proof fn law_pass_is_counted(
    fanout: PackedFanout,
    looked_into: Seq<FanoutFailure>,
    reconciled: Set<Seq<char>>,
    after: PackedFanout,
    action: PackedAction,
)
    requires
        fanout.wf(),
        !(fanout.stage is Over),
        looked_into.len() <= fanout.current.failures@.len(),
        fanout.goes_on(looked_into, reconciled, after, action),
        !(action is ShowState),
        fanout.success_count + fanout.current.success_count + fanout.current.failures@.len()
            <= usize::MAX,
    ensures
        after.success_count + after.failures@.len() == fanout.success_count
            + fanout.current.success_count + fanout.current.failures@.len(),
        forall|k: int|
            0 <= k < after.failures@.len() ==> !reconciled.contains(
                (#[trigger] after.failures@[k]).worker.id@,
            ),
        fanout.pass == 0 ==> after.retry_pass_count == fanout.retry_pass_count,
        fanout.pass > 0 && fanout.retry_pass_count < usize::MAX ==> after.retry_pass_count
            == fanout.retry_pass_count + 1,
        action is SendPass ==> fanout.pass == 0 && after.failures@.len() > 0,
        action is Done ==> fanout.pass == 1 || command::packed(after.commands@).len() == 0,
{
    let all = fanout.current.failures@;
    let from = looked_into.len() as int;
    lemma_next_within(fanout, from);
    let next = fanout.next_needed(from);
    let looked = looked_into + all.subrange(from, next);
    assert(looked.len() == all.len());
    if looked.len() > 0 {
        failure::law_failures_are_parted(looked, reconciled, looked[0]);
    } else {
        assert(failure::failures_in(looked, reconciled, true).len() == 0);
        assert(failure::failures_in(looked, reconciled, false).len() == 0);
    }
    assert forall|k: int| 0 <= k < after.failures@.len() implies !reconciled.contains(
        (#[trigger] after.failures@[k]).worker.id@,
    ) by {
        let f = after.failures@[k];
        failure::law_failures_are_parted(looked, reconciled, f);
        assert(after.failures@.contains(f));
    }
    let again = command::packed(after.commands@);
    if after.failures@.len() == 0 && again.len() > 0 {
        let items = again[0].1;
        failure::law_only_failures_are_retried(
            command::packed(fanout.commands@),
            after.failures@,
            again[0].0,
            items[0],
        );
        assert(items.len() > 0);
        assert(items.contains(items[0]));
        assert(failure::goes_to(again, again[0].0, items[0]));
    }
}

proof fn lemma_next_within(fanout: PackedFanout, from: int)
    requires
        0 <= from <= fanout.current.failures@.len(),
    ensures
        from <= fanout.next_needed(from) <= fanout.current.failures@.len(),
    decreases fanout.current.failures@.len() - from,
{
    if from < fanout.current.failures@.len() {
        lemma_next_within(fanout, from + 1);
    }
}

} // verus!
