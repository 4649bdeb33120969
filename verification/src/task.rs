//! What the runner has to do next, in terms of single requests, and what became of it.

use vstd::prelude::*;

use crate::command;
use crate::command::{
    build_batch_commands, BatchFanoutCommand, BenchmarkCursor, Command, CommitSampling,
    PendingKind, RequestIds,
};
use crate::expect;
use crate::expect::{ExpectedGroupState, ExpectedReceiveCommitState};
use crate::failure;
use crate::failure::Failure;
use crate::sampling;
use crate::sampling::build_commit_receive_sampling_map;
use crate::table::{Counts, IdSet};
use crate::text;
use crate::text::str_eq;
use crate::transport;
use crate::transport::{CommandResponse, GroupStateSnapshot};
use crate::workers;
use crate::workers::{is_external_device, WorkerSpec};

verus! {

/// How commits are spread in a run.
#[derive(Debug, Clone, Copy, PartialEq, Eq, Structural)]
pub struct Spread {
    /// Whether a worker handles all that waits for it, rather than one commit.
    pub pending: bool,
    pub max_samples: usize,
    pub seed: u64,
}

// ---------------------------------------------------------------------------
// A commit for many workers
// ---------------------------------------------------------------------------

/// A commit that many workers have to handle.
#[derive(Debug)]
pub struct CommitFanout {
    pub recipients: Vec<WorkerSpec>,
    /// The recipients that the commit removes.
    pub removed: IdSet,
    pub expected: ExpectedGroupState,
    pub spread: Spread,
    pub create_op: &'static str,
    pub plateau_size: usize,
    pub seq_no: usize,
    pub phase: &'static str,
    pub cursor: BenchmarkCursor,
}

/// The ids of the recipients whose handling is measured, in the order of their numbers.
pub open spec fn measured_ids(
    recipients: Seq<WorkerSpec>,
    spread: Spread,
    plateau_size: usize,
    epoch: u64,
    seq_no: usize,
) -> Seq<Seq<char>> {
    sampling::ids_at(
        recipients,
        sampling::measured_indices(
            recipients,
            spread.max_samples,
            sampling::first_state(spread.seed, plateau_size, epoch, seq_no),
        ),
    )
}

impl CommitFanout {
    /// The ids of the recipients whose handling is measured.
    pub open spec fn measured(&self) -> Seq<Seq<char>> {
        measured_ids(
            self.recipients@,
            self.spread,
            self.plateau_size,
            self.expected.epoch,
            self.seq_no,
        )
    }

    /// How the handling by a worker is measured.
    pub open spec fn sampling_of(&self, w: WorkerSpec) -> command::SamplingView {
        let names = self.measured();
        command::SamplingView {
            profile: names.to_set().contains(w.id@),
            op: Some(self.create_op@),
            policy: Some("edge_middle_seeded_v1"@),
            seed: Some(self.spread.seed),
            index: if sampling::numbered(names).dom().contains(w.id@) {
                Some(sampling::numbered(names)[w.id@])
            } else {
                None
            },
            count: Some(names.to_set().len() as usize),
            population: Some(self.recipients@.len() as usize),
        }
    }

    /// The command for each worker.
    pub open spec fn command_for(&self) -> spec_fn(WorkerSpec) -> command::BatchView {
        |w: WorkerSpec|
            command::BatchView {
                client_id: w.id@,
                request_id: None,
                command: if self.spread.pending {
                    command::CommandView::ProcessPending {
                        kinds: Some(seq![PendingKind::Commits]),
                        max_messages: None,
                        expected_epoch: Some(self.expected.epoch),
                        sampling: self.sampling_of(w),
                    }
                } else {
                    command::CommandView::ReceiveCommit { sampling: self.sampling_of(w) }
                },
                expected_epoch: Some(self.expected.epoch),
                phase: Some(self.phase@),
                profile: if self.measured().to_set().contains(w.id@) {
                    Some(true)
                } else {
                    None
                },
                marks: self.cursor@,
            }
    }

    /// The commands for all recipients, packed by container.
    pub fn commands(&self, ids: &mut RequestIds) -> (out: Vec<(String, Vec<BatchFanoutCommand>)>)
        ensures
            final(ids).process == old(ids).process,
            (command::packed(out@), final(ids).next) == command::commands_for(
                self.recipients@,
                command::packs_by(self.recipients@, self.command_for()),
                old(ids).process,
                old(ids).next,
            ),
    {
        let (sampled_ids, index_map, sample_count): (IdSet, Counts, usize) =
            build_commit_receive_sampling_map(
            self.recipients.as_slice(),
            self.spread.max_samples,
            self.spread.seed,
            self.plateau_size,
            self.expected.epoch,
            self.seq_no,
        );
        let population: usize = self.recipients.len();
        let command_for = |w: &WorkerSpec| -> (item: BatchFanoutCommand)
            requires
                sampled_ids@ == self.measured().to_set(),
                index_map@ == sampling::numbered(self.measured()),
                sample_count == self.measured().to_set().len(),
                population == self.recipients@.len(),
            ensures
                item@ == self.command_for()(*w),
        {
            let sampled: bool = sampled_ids.contains(w.id.as_str());
            let sampling: CommitSampling = CommitSampling {
                profile: sampled,
                commit_create_op: Some(self.create_op.to_owned()),
                commit_receive_sampling_policy: Some("edge_middle_seeded_v1".to_owned()),
                commit_receive_sampling_seed: Some(self.spread.seed),
                commit_receive_sample_index: index_map.get(w.id.as_str()),
                commit_receive_sample_count: Some(sample_count),
                commit_receive_population_size: Some(population),
            };
            let kinds: Vec<PendingKind> = vec![PendingKind::Commits];
            assert(kinds@ =~= seq![PendingKind::Commits]);
            let command: Command = if self.spread.pending {
                Command::ProcessPending {
                    kinds: Some(kinds),
                    max_messages: None,
                    expected_epoch: Some(self.expected.epoch),
                    sampling: sampling,
                }
            } else {
                Command::ReceiveCommit { sampling: sampling }
            };
            let profile: Option<bool> = if sampled {
                Some(true)
            } else {
                None
            };
            BatchFanoutCommand::new(
                w.id.as_str(),
                command,
                Some(self.expected.epoch),
                self.phase,
                profile,
            ).with_benchmark_cursor(&self.cursor)
        };
        let ghost process = ids.process;
        let ghost number = ids.next;
        let out: Vec<(String, Vec<BatchFanoutCommand>)> = build_batch_commands(
            self.recipients.as_slice(),
            command_for,
            ids,
        );
        proof {
            let packs = choose|packs: Seq<Seq<command::BatchView>>| #[trigger]
                command::packs_made(command_for, self.recipients@, packs) && (
                command::packed(out@),
                ids.next,
            ) == command::commands_for(self.recipients@, packs, process, number);
            command::lemma_packs_by(command_for, self.recipients@, packs, self.command_for());
        }
        out
    }

    /// What is expected of a recipient.
    pub open spec fn expected_of(&self, w: WorkerSpec) -> expect::ExpectedView {
        if self.removed@.contains(w.id@) {
            expect::ExpectedView::Removed { expected_epoch: self.expected.epoch }
        } else {
            expect::ExpectedView::Group(self.expected@)
        }
    }

    /// What is expected of each recipient, by its id.
    pub fn expected_by_client(&self) -> (out: Vec<(String, ExpectedReceiveCommitState)>)
        ensures
            out@.len() == self.recipients@.len(),
            forall|i: int|
                0 <= i < out@.len() ==> (#[trigger] out@[i]).0@ == self.recipients@[i].id@
                    && out@[i].1@ == self.expected_of(self.recipients@[i]),
    {
        let mut out: Vec<(String, ExpectedReceiveCommitState)> = Vec::new();
        let mut i: usize = 0;
        while i < self.recipients.len()
            invariant
                i <= self.recipients@.len(),
                out@.len() == i,
                forall|j: int|
                    0 <= j < i ==> (#[trigger] out@[j]).0@ == self.recipients@[j].id@
                        && out@[j].1@ == self.expected_of(self.recipients@[j]),
            decreases self.recipients@.len() - i,
        {
            let state: ExpectedReceiveCommitState = if self.removed.contains(
                self.recipients[i].id.as_str(),
            ) {
                ExpectedReceiveCommitState::Removed { expected_epoch: self.expected.epoch }
            } else {
                ExpectedReceiveCommitState::Group(self.expected.clone())
            };
            out.push((self.recipients[i].id.clone(), state));
            i = i + 1;
        }
        out
    }

    /// The commit, its recipients and how it is spread.
    pub open spec fn is(
        &self,
        recipients: Seq<WorkerSpec>,
        removed: Set<Seq<char>>,
        expected: transport::StateView,
        spread: Spread,
        create_op: Seq<char>,
        plateau_size: usize,
        seq_no: usize,
        phase: Seq<char>,
        marks: command::Marks,
    ) -> bool {
        &&& self.recipients@ == recipients
        &&& self.removed@ == removed
        &&& self.expected@ == expected
        &&& self.spread == spread
        &&& self.create_op@ == create_op
        &&& self.plateau_size == plateau_size
        &&& self.seq_no == seq_no
        &&& self.phase@ == phase
        &&& self.cursor@ == marks
    }
}

// ---------------------------------------------------------------------------
// A message for many workers
// ---------------------------------------------------------------------------

/// An application message that many workers have to take.
#[derive(Debug)]
pub struct MessageFanout {
    pub recipients: Vec<WorkerSpec>,
    /// The worker whose handling is measured, besides all devices.
    pub sampled_id: String,
    pub cursor: BenchmarkCursor,
}

impl MessageFanout {
    /// The handling by a worker is measured.
    pub open spec fn measures(&self, w: WorkerSpec) -> bool {
        w.id@ == self.sampled_id@ || workers::external(w)
    }

    /// The command for each worker.
    pub open spec fn command_for(&self) -> spec_fn(WorkerSpec) -> command::BatchView {
        |w: WorkerSpec|
            command::BatchView {
                client_id: w.id@,
                request_id: None,
                command: command::CommandView::ReceiveApplicationMessage {
                    profile: self.measures(w),
                },
                expected_epoch: None,
                phase: Some("application.fanout_receive_application_message"@),
                profile: if self.measures(w) {
                    Some(true)
                } else {
                    None
                },
                marks: self.cursor@,
            }
    }

    /// The commands for all recipients, packed by container.
    pub fn commands(&self, ids: &mut RequestIds) -> (out: Vec<(String, Vec<BatchFanoutCommand>)>)
        ensures
            final(ids).process == old(ids).process,
            (command::packed(out@), final(ids).next) == command::commands_for(
                self.recipients@,
                command::packs_by(self.recipients@, self.command_for()),
                old(ids).process,
                old(ids).next,
            ),
    {
        let command_for = |w: &WorkerSpec| -> (item: BatchFanoutCommand)
            ensures
                item@ == self.command_for()(*w),
        {
            let profile: bool = str_eq(w.id.as_str(), self.sampled_id.as_str())
                || is_external_device(w);
            let marked: Option<bool> = if profile {
                Some(true)
            } else {
                None
            };
            BatchFanoutCommand::new(
                w.id.as_str(),
                Command::ReceiveApplicationMessage { profile: profile },
                None,
                "application.fanout_receive_application_message",
                marked,
            ).with_benchmark_cursor(&self.cursor)
        };
        let ghost process = ids.process;
        let ghost number = ids.next;
        let out: Vec<(String, Vec<BatchFanoutCommand>)> = build_batch_commands(
            self.recipients.as_slice(),
            command_for,
            ids,
        );
        proof {
            let packs = choose|packs: Seq<Seq<command::BatchView>>| #[trigger]
                command::packs_made(command_for, self.recipients@, packs) && (
                command::packed(out@),
                ids.next,
            ) == command::commands_for(self.recipients@, packs, process, number);
            command::lemma_packs_by(command_for, self.recipients@, packs, self.command_for());
        }
        out
    }
}

// ---------------------------------------------------------------------------
// Orders
// ---------------------------------------------------------------------------

/// What has to be done next.
#[derive(Debug)]
pub enum Order {
    /// Send a command and expect an answer that contains a text.
    Send {
        worker: WorkerSpec,
        command: Command,
        ok_fragment: String,
        phase: Option<String>,
        cursor: Option<BenchmarkCursor>,
    },
    /// Send a command and take the answer as it is.
    Ask {
        worker: WorkerSpec,
        command: Command,
        phase: String,
        cursor: BenchmarkCursor,
    },
    /// Send a command again and again until the answer contains a text; an error with another text
    /// means that it is too early.
    SendUntilOk {
        worker: WorkerSpec,
        command: Command,
        ok_fragment: String,
        too_early: &'static str,
    },
    /// Ask for a worker's group state.
    ShowState { worker: WorkerSpec },
    /// Have a worker handle its own commit.
    Handle {
        worker: WorkerSpec,
        expected: ExpectedGroupState,
        pending: bool,
        phase: &'static str,
        cursor: BenchmarkCursor,
    },
    /// Have many workers handle a commit.
    SpreadCommit {
        phase: &'static str,
        group_size: usize,
        operation: &'static str,
        task: CommitFanout,
    },
    /// Have many workers take a message.
    SpreadMessage {
        phase: &'static str,
        group_size: usize,
        operation: &'static str,
        task: MessageFanout,
    },
    /// Write down the failure of a worker.
    Record {
        cursor: BenchmarkCursor,
        worker: WorkerSpec,
        error: Failure,
        action: &'static str,
        reassigned_to: Option<WorkerSpec>,
    },
    /// Write down the failures of several workers.
    RecordAll {
        cursor: BenchmarkCursor,
        error: Failure,
        action: &'static str,
        reassigned_to: Option<WorkerSpec>,
    },
    /// Ask all workers for their group states.
    Gather { workers: Vec<WorkerSpec> },
    /// Report that some work is done.
    Tick { units: usize, label: String },
}

/// What became of an order.
#[derive(Debug)]
pub enum Report {
    /// The message of the expected answer.
    Sent(Result<String, Failure>),
    /// The answer as it is.
    Answered(Result<CommandResponse, Failure>),
    /// The worker's group state.
    State(Result<GroupStateSnapshot, Failure>),
    /// The commit was handled.
    Handled(Result<(), Failure>),
    /// The commit or message was handled by all.
    Spread(Result<(), Failure>),
    /// Whether the run may go on without the worker.
    Recorded(Result<bool, Failure>),
    /// The workers that the run goes on without, if it may.
    AllRecorded(Result<Option<Vec<WorkerSpec>>, Failure>),
    /// The group states of all workers, in the order in which they came.
    Gathered(Result<Vec<(WorkerSpec, GroupStateSnapshot)>, Failure>),
    /// The work was reported.
    Ticked,
}

/// What follows: an order, or the end.
#[derive(Debug)]
pub enum Next<T> {
    Do(Order),
    Done(T),
}

impl Report {
    /// What was ordered went well.
    pub open spec fn is_good(self) -> bool {
        match self {
            Report::Sent(result) => result is Ok,
            Report::Answered(result) => result is Ok,
            Report::State(result) => result is Ok,
            Report::Handled(result) => result is Ok,
            Report::Spread(result) => result is Ok,
            Report::Recorded(result) => result is Ok,
            Report::AllRecorded(result) => result is Ok,
            Report::Gathered(result) => result is Ok,
            Report::Ticked => true,
        }
    }

    /// A group state that can be followed by another epoch.
    pub open spec fn is_state(self) -> bool {
        self is State && (self->State_0 is Ok ==> self->State_0->Ok_0.epoch < u64::MAX)
    }
}

impl Order {
    /// A worker is sent a command, whatever it is to answer.
    pub open spec fn commands(self, worker: WorkerSpec, command: command::CommandView) -> bool {
        match self {
            Order::Send { worker: w, command: c, .. } => w == worker && c@ == command,
            Order::Ask { worker: w, command: c, .. } => w == worker && c@ == command,
            Order::SendUntilOk { worker: w, command: c, .. } => w == worker && c@ == command,
            _ => false,
        }
    }

    /// The place in the run that an order names, if it names one.
    pub open spec fn place(self) -> Option<command::Marks> {
        match self {
            Order::Send { cursor, .. } => match cursor {
                Some(cursor) => Some(cursor@),
                None => None,
            },
            Order::Ask { cursor, .. } => Some(cursor@),
            Order::Handle { cursor, .. } => Some(cursor@),
            Order::SpreadCommit { task, .. } => Some(task.cursor@),
            Order::SpreadMessage { task, .. } => Some(task.cursor@),
            Order::Record { cursor, .. } => Some(cursor@),
            Order::RecordAll { cursor, .. } => Some(cursor@),
            _ => None,
        }
    }

    /// The order to send a command.
    pub open spec fn sends(
        self,
        worker: WorkerSpec,
        command: command::CommandView,
        ok_fragment: Seq<char>,
        phase: Option<Seq<char>>,
        marks: command::Marks,
    ) -> bool {
        match self {
            Order::Send { worker: w, command: c, ok_fragment: f, phase: p, cursor: m } => {
                &&& w == worker
                &&& c@ == command
                &&& f@ == ok_fragment
                &&& text::maybe(p) == phase
                &&& command::marks_of(m) == marks
            },
            _ => false,
        }
    }

    /// The order to send a command and take any answer.
    pub open spec fn asks(
        self,
        worker: WorkerSpec,
        command: command::CommandView,
        phase: Seq<char>,
        marks: command::Marks,
    ) -> bool {
        match self {
            Order::Ask { worker: w, command: c, phase: p, cursor: m } => {
                &&& w == worker
                &&& c@ == command
                &&& p@ == phase
                &&& m@ == marks
            },
            _ => false,
        }
    }

    /// The order to send a command until it is not too early.
    pub open spec fn sends_until_ok(
        self,
        worker: WorkerSpec,
        command: command::CommandView,
        ok_fragment: Seq<char>,
        too_early: Seq<char>,
    ) -> bool {
        match self {
            Order::SendUntilOk { worker: w, command: c, ok_fragment: f, too_early: t } => {
                &&& w == worker
                &&& c@ == command
                &&& f@ == ok_fragment
                &&& t@ == too_early
            },
            _ => false,
        }
    }

    /// The order to ask for a worker's state.
    pub open spec fn shows(self, worker: WorkerSpec) -> bool {
        self == (Order::ShowState { worker })
    }

    /// The order to have a worker handle its own commit.
    pub open spec fn handles(
        self,
        worker: WorkerSpec,
        expected: transport::StateView,
        pending: bool,
        phase: Seq<char>,
        marks: command::Marks,
    ) -> bool {
        match self {
            Order::Handle { worker: w, expected: e, pending: p, phase: f, cursor: m } => {
                &&& w == worker
                &&& e@ == expected
                &&& p == pending
                &&& f@ == phase
                &&& m@ == marks
            },
            _ => false,
        }
    }

    /// The order to spread a commit.
    pub open spec fn spreads(
        self,
        phase: Seq<char>,
        group_size: usize,
        operation: Seq<char>,
        recipients: Seq<WorkerSpec>,
        removed: Set<Seq<char>>,
        expected: transport::StateView,
        spread: Spread,
        create_op: Seq<char>,
        plateau_size: usize,
        seq_no: usize,
        item_phase: Seq<char>,
        marks: command::Marks,
    ) -> bool {
        match self {
            Order::SpreadCommit { phase: p, group_size: g, operation: o, task } => {
                &&& p@ == phase
                &&& g == group_size
                &&& o@ == operation
                &&& task.is(
                    recipients,
                    removed,
                    expected,
                    spread,
                    create_op,
                    plateau_size,
                    seq_no,
                    item_phase,
                    marks,
                )
            },
            _ => false,
        }
    }

    /// The order to spread a message.
    pub open spec fn spreads_message(
        self,
        phase: Seq<char>,
        group_size: usize,
        operation: Seq<char>,
        recipients: Seq<WorkerSpec>,
        sampled_id: Seq<char>,
        marks: command::Marks,
    ) -> bool {
        match self {
            Order::SpreadMessage { phase: p, group_size: g, operation: o, task } => {
                &&& p@ == phase
                &&& g == group_size
                &&& o@ == operation
                &&& task.recipients@ == recipients
                &&& task.sampled_id@ == sampled_id
                &&& task.cursor@ == marks
            },
            _ => false,
        }
    }

    /// The order to write down the failure of a worker.
    pub open spec fn records(
        self,
        marks: command::Marks,
        worker: WorkerSpec,
        error: failure::FailureView,
        action: Seq<char>,
        reassigned_to: Option<WorkerSpec>,
    ) -> bool {
        match self {
            Order::Record { cursor, worker: w, error: e, action: a, reassigned_to: r } => {
                &&& cursor@ == marks
                &&& w == worker
                &&& e@ == error
                &&& a@ == action
                &&& r == reassigned_to
            },
            _ => false,
        }
    }

    /// The order to write down the failures of several workers.
    pub open spec fn records_all(
        self,
        marks: command::Marks,
        error: failure::FailureView,
        action: Seq<char>,
        reassigned_to: Option<WorkerSpec>,
    ) -> bool {
        match self {
            Order::RecordAll { cursor, error: e, action: a, reassigned_to: r } => {
                &&& cursor@ == marks
                &&& e@ == error
                &&& a@ == action
                &&& r == reassigned_to
            },
            _ => false,
        }
    }

    /// The order to ask all workers for their states.
    pub open spec fn gathers(self, workers: Seq<WorkerSpec>) -> bool {
        match self {
            Order::Gather { workers: w } => w@ == workers,
            _ => false,
        }
    }

    /// The order to report that work is done.
    pub open spec fn ticks(self, units: usize, label: Seq<char>) -> bool {
        match self {
            Order::Tick { units: u, label: l } => u == units && l@ == label,
            _ => false,
        }
    }
}

/// A worker other than one given, or nothing.
pub open spec fn other_than(active: Seq<WorkerSpec>, id: Seq<char>) -> Option<WorkerSpec>
    decreases active.len(),
{
    if active.len() == 0 {
        None
    } else if active[0].id@ != id {
        Some(active[0])
    } else {
        other_than(active.drop_first(), id)
    }
}

/// The first worker other than one given.
pub fn first_other(active: &[WorkerSpec], id: &str) -> (found: Option<WorkerSpec>)
    ensures
        found == other_than(active@, id@),
{
    let mut i: usize = 0;
    assert(active@.skip(0) =~= active@);
    while i < active.len()
        invariant
            i <= active@.len(),
            other_than(active@, id@) == other_than(active@.skip(i as int), id@),
        decreases active@.len() - i,
    {
        assert(active@.skip(i as int)[0] == active@[i as int]);
        if !str_eq(active[i].id.as_str(), id) {
            return Some(active[i].clone());
        }
        assert(active@.skip(i as int).drop_first() =~= active@.skip(i + 1));
        i = i + 1;
    }
    None
}

/// Workers whose ids are not in a set.
pub open spec fn outside(set: Set<Seq<char>>) -> spec_fn(WorkerSpec) -> bool {
    |w: WorkerSpec| !set.contains(w.id@)
}

/// The members of a list that are, or are not, in a set.
pub open spec fn members_in(
    members: Seq<Seq<char>>,
    set: Set<Seq<char>>,
    within: bool,
) -> Seq<Seq<char>>
    decreases members.len(),
{
    if members.len() == 0 {
        Seq::empty()
    } else {
        let before = members_in(members.drop_last(), set, within);
        if set.contains(members.last()) == within {
            before.push(members.last())
        } else {
            before
        }
    }
}

/// The members of a list that are, or are not, in a set.
pub fn split_members(members: &Vec<String>, set: &IdSet, within: bool) -> (out: Vec<String>)
    ensures
        text::texts(out@) == members_in(text::texts(members@), set@, within),
        out@.len() <= members@.len(),
{
    let ghost all = text::texts(members@);
    let mut out: Vec<String> = Vec::new();
    let mut i: usize = 0;
    assert(all.take(0) =~= Seq::<Seq<char>>::empty());
    assert(text::texts(out@) =~= Seq::<Seq<char>>::empty());
    while i < members.len()
        invariant
            i <= members@.len(),
            all == text::texts(members@),
            text::texts(out@) == members_in(all.take(i as int), set@, within),
            out@.len() <= i,
        decreases members@.len() - i,
    {
        assert(all.take(i + 1).drop_last() =~= all.take(i as int));
        assert(all.take(i + 1).last() == members@[i as int]@);
        if set.contains(members[i].as_str()) == within {
            let ghost before = out@;
            out.push(members[i].clone());
            assert(text::texts(out@) =~= text::texts(before).push(members@[i as int]@));
        }
        i = i + 1;
    }
    assert(all.take(i as int) =~= all);
    out
}

/// The other worker, if there is one, is a member and has another id; without one all have the id.
pub proof fn lemma_other_than(active: Seq<WorkerSpec>, id: Seq<char>)
    ensures
        match other_than(active, id) {
            Some(w) => active.contains(w) && w.id@ != id,
            None => forall|i: int| 0 <= i < active.len() ==> (#[trigger] active[i]).id@ == id,
        },
    decreases active.len(),
{
    if active.len() > 0 {
        let rest = active.drop_first();
        lemma_other_than(rest, id);
        if active[0].id@ != id {
            assert(active.contains(active[0]));
        } else {
            match other_than(rest, id) {
                Some(w) => {
                    let k = choose|k: int| 0 <= k < rest.len() && rest[k] == w;
                    assert(active[k + 1] == w);
                },
                None => {
                    assert forall|i: int| 0 <= i < active.len() implies (#[trigger] active[i]).id@
                        == id by {
                        if i > 0 {
                            assert(rest[i - 1] == active[i]);
                        }
                    }
                },
            }
        }
    }
}

// ---------------------------------------------------------------------------
// Whom commands reach
// ---------------------------------------------------------------------------

/// There is a command at a place of what is sent.
pub open spec fn is_sent(
    sent: Seq<(Seq<char>, Seq<command::BatchView>)>,
    pack: int,
    place: int,
) -> bool {
    0 <= pack < sent.len() && 0 <= place < sent[pack].1.len()
}

/// Workers with different ids stay so where some of them are picked.
proof fn lemma_those_distinct(list: Seq<WorkerSpec>, wanted: spec_fn(WorkerSpec) -> bool)
    requires
        workers::distinct(list),
    ensures
        workers::distinct(workers::those(list, wanted)),
    decreases list.len(),
{
    if list.len() > 0 {
        let front = list.drop_last();
        let ids = workers::ids(list);
        assert forall|a: int, b: int| 0 <= a < b < front.len() implies workers::ids(front)[a]
            != workers::ids(front)[b] by {
            assert(ids[a] != ids[b]);
        }
        assert(workers::ids(front).no_duplicates());
        lemma_those_distinct(front, wanted);
        let before = workers::those(front, wanted);
        let after = workers::those(list, wanted);
        workers::lemma_those(front, wanted);
        assert forall|a: int, b: int| 0 <= a < b < after.len() implies workers::ids(after)[a]
            != workers::ids(after)[b] by {
            if b < before.len() {
                assert(workers::ids(before)[a] != workers::ids(before)[b]);
            } else {
                assert(before.contains(before[a]));
                let k = choose|k: int| 0 <= k < front.len() && front[k] == before[a];
                assert(ids[k] != ids[list.len() - 1]);
            }
        }
        assert(workers::ids(after).no_duplicates());
    }
}

/// The command at a place of what is sent is a worker's own, but for its request id, and goes to the
/// worker's container.
pub open spec fn is_for(
    sent: Seq<(Seq<char>, Seq<command::BatchView>)>,
    pack: int,
    place: int,
    made: spec_fn(WorkerSpec) -> command::BatchView,
    w: WorkerSpec,
) -> bool {
    let item = sent[pack].1[place];
    &&& sent[pack].0 == w.physical_worker_id@
    &&& item.client_id == made(w).client_id
    &&& item.command == made(w).command
    &&& item.expected_epoch == made(w).expected_epoch
    &&& item.phase == made(w).phase
    &&& item.profile == made(w).profile
    &&& item.marks == made(w).marks
}

/// What is sent at a place is the command of a worker of that container.
proof fn lemma_sent_to(
    recipients: Seq<WorkerSpec>,
    made: spec_fn(WorkerSpec) -> command::BatchView,
    process: u32,
    number: u64,
    g: int,
    m: int,
)
    requires
        is_sent(
            command::commands_for(
                recipients,
                command::packs_by(recipients, made),
                process,
                number,
            ).0,
            g,
            m,
        ),
    ensures
        ({
            let sent = command::commands_for(
                recipients,
                command::packs_by(recipients, made),
                process,
                number,
            ).0;
            let w = command::pack_workers(recipients, g)[m];
            &&& m < command::pack_workers(recipients, g).len()
            &&& g < workers::containers(recipients).len()
            &&& recipients.contains(w)
            &&& w.physical_worker_id@ == workers::containers(recipients)[g]
            &&& is_for(sent, g, m, made, w)
        }),
{
    let packs = command::packs_by(recipients, made);
    let all = workers::containers(recipients);
    command::law_one_pack_for_each_container(recipients, packs, process, number);
    let list = command::pack_workers(recipients, g);
    workers::lemma_those(recipients, workers::in_container(all[g]));
    assert(list.contains(list[m]));
    assert(command::is_place(packs, g, m));
    command::law_every_command_has_an_id(recipients, packs, process, number, g, m);
    assert(packs[g][m] == made(list[m]));
}

/// Each worker's own command is sent.
proof fn lemma_sent(
    recipients: Seq<WorkerSpec>,
    made: spec_fn(WorkerSpec) -> command::BatchView,
    process: u32,
    number: u64,
    i: int,
) -> (place: (int, int))
    requires
        0 <= i < recipients.len(),
    ensures
        ({
            let sent = command::commands_for(
                recipients,
                command::packs_by(recipients, made),
                process,
                number,
            ).0;
            &&& is_sent(sent, place.0, place.1)
            &&& is_for(sent, place.0, place.1, made, recipients[i])
        }),
{
    let packs = command::packs_by(recipients, made);
    let all = workers::containers(recipients);
    command::law_one_pack_for_each_container(recipients, packs, process, number);
    workers::lemma_containers(recipients);
    let w = recipients[i];
    assert(all.contains(w.physical_worker_id@));
    let g = choose|g: int| 0 <= g < all.len() && all[g] == w.physical_worker_id@;
    let list = command::pack_workers(recipients, g);
    workers::lemma_those(recipients, workers::in_container(all[g]));
    assert(recipients.contains(w));
    assert(workers::in_container(all[g])(w));
    assert(list.contains(w));
    let m = choose|m: int| 0 <= m < list.len() && list[m] == w;
    lemma_sent_to(recipients, made, process, number, g, m);
    (g, m)
}

/// What is sent at two places is for different workers.
proof fn lemma_sent_once(
    recipients: Seq<WorkerSpec>,
    made: spec_fn(WorkerSpec) -> command::BatchView,
    process: u32,
    number: u64,
    g: int,
    m: int,
    h: int,
    n: int,
)
    requires
        workers::distinct(recipients),
        is_sent(
            command::commands_for(
                recipients,
                command::packs_by(recipients, made),
                process,
                number,
            ).0,
            g,
            m,
        ),
        is_sent(
            command::commands_for(
                recipients,
                command::packs_by(recipients, made),
                process,
                number,
            ).0,
            h,
            n,
        ),
        g != h || m != n,
    ensures
        command::pack_workers(recipients, g)[m].id@ != command::pack_workers(recipients, h)[n].id@,
{
    let all = workers::containers(recipients);
    workers::lemma_containers(recipients);
    lemma_sent_to(recipients, made, process, number, g, m);
    lemma_sent_to(recipients, made, process, number, h, n);
    let a = command::pack_workers(recipients, g)[m];
    let b = command::pack_workers(recipients, h)[n];
    let ids = workers::ids(recipients);
    if g == h {
        let wanted = workers::in_container(all[g]);
        lemma_those_distinct(recipients, wanted);
        let inner = workers::ids(workers::those(recipients, wanted));
        assert(inner[m] != inner[n]);
    } else if a.id@ == b.id@ {
        let i = choose|i: int| 0 <= i < recipients.len() && recipients[i] == a;
        let j = choose|j: int| 0 <= j < recipients.len() && recipients[j] == b;
        assert(ids[i] == ids[j]);
        assert(i == j);
        assert(all[g] == all[h]);
    }
}

/// A command is the one that tells a worker to handle the commit, and the epoch that it leads to.
pub open spec fn tells_of_commit(fanout: CommitFanout, item: command::BatchView, w: WorkerSpec) -> bool {
    &&& item.client_id == w.id@
    &&& item.expected_epoch == Some(fanout.expected.epoch)
    &&& item.marks == fanout.cursor@
    &&& match item.command {
        command::CommandView::ProcessPending { kinds, max_messages, expected_epoch, sampling } => {
            &&& fanout.spread.pending
            &&& kinds == Some(seq![PendingKind::Commits])
            &&& max_messages is None
            &&& expected_epoch == Some(fanout.expected.epoch)
            &&& sampling.profile == (item.profile == Some(true))
        },
        command::CommandView::ReceiveCommit { sampling } => {
            &&& !fanout.spread.pending
            &&& sampling.profile == (item.profile == Some(true))
        },
        _ => false,
    }
}

/// Who is told of a commit. Each recipient is told to handle it, once if no two have one id, and nobody
/// else is. All are told the epoch that the commit leads to. A recipient that the commit removes is
/// expected to find itself removed, and each other one to be in the group as it is then.
pub proof fn law_commit_reaches_all(
    fanout: CommitFanout,
    process: u32,
    number: u64,
    i: int,
    g: int,
    m: int,
    h: int,
    n: int,
)
    ensures
        ({
            let sent = command::commands_for(
                fanout.recipients@,
                command::packs_by(fanout.recipients@, fanout.command_for()),
                process,
                number,
            ).0;
            &&& 0 <= i < fanout.recipients@.len() ==> exists|a: int, b: int| #[trigger]
                is_sent(sent, a, b) && sent[a].0 == fanout.recipients@[i].physical_worker_id@
                    && tells_of_commit(fanout, sent[a].1[b], fanout.recipients@[i])
            &&& is_sent(sent, g, m) ==> exists|k: int|
                0 <= k < fanout.recipients@.len() && tells_of_commit(
                    fanout,
                    sent[g].1[m],
                    #[trigger] fanout.recipients@[k],
                )
            &&& workers::distinct(fanout.recipients@) && is_sent(sent, g, m) && is_sent(sent, h, n)
                && (g != h || m != n) ==> sent[g].1[m].client_id != sent[h].1[n].client_id
        }),
        forall|w: WorkerSpec|
            match #[trigger] fanout.expected_of(w) {
                expect::ExpectedView::Removed { expected_epoch } => fanout.removed@.contains(w.id@)
                    && expected_epoch == fanout.expected.epoch,
                expect::ExpectedView::Group(state) => !fanout.removed@.contains(w.id@) && state
                    == fanout.expected@,
            },
{
    let made = fanout.command_for();
    let recipients = fanout.recipients@;
    let sent = command::commands_for(
        recipients,
        command::packs_by(recipients, made),
        process,
        number,
    ).0;
    if 0 <= i < recipients.len() {
        let (a, b) = lemma_sent(recipients, made, process, number, i);
        assert(is_sent(sent, a, b) && tells_of_commit(fanout, sent[a].1[b], recipients[i]));
    }
    if is_sent(sent, g, m) {
        lemma_sent_to(recipients, made, process, number, g, m);
        let w = command::pack_workers(recipients, g)[m];
        let k = choose|k: int| 0 <= k < recipients.len() && recipients[k] == w;
        assert(tells_of_commit(fanout, sent[g].1[m], recipients[k]));
        if workers::distinct(recipients) && is_sent(sent, h, n) && (g != h || m != n) {
            lemma_sent_to(recipients, made, process, number, h, n);
            lemma_sent_once(recipients, made, process, number, g, m, h, n);
        }
    }
}

/// A command is the one that tells a worker to take the message.
pub open spec fn tells_of_message(fanout: MessageFanout, item: command::BatchView, w: WorkerSpec) -> bool {
    let measured = w.id@ == fanout.sampled_id@ || workers::external(w);
    &&& item.client_id == w.id@
    &&& item.expected_epoch is None
    &&& item.marks == fanout.cursor@
    &&& item.profile == (if measured {
        Some(true)
    } else {
        None
    })
    &&& item.command matches command::CommandView::ReceiveApplicationMessage { profile } && profile
        == measured
}

/// Who takes a message. Each recipient is told to take it, once if no two have one id, and nobody else
/// is. The handling is measured of the one that was sampled and of each device, and of nobody else.
pub proof fn law_message_reaches_all(
    fanout: MessageFanout,
    process: u32,
    number: u64,
    i: int,
    g: int,
    m: int,
    h: int,
    n: int,
)
    ensures
        ({
            let sent = command::commands_for(
                fanout.recipients@,
                command::packs_by(fanout.recipients@, fanout.command_for()),
                process,
                number,
            ).0;
            &&& 0 <= i < fanout.recipients@.len() ==> exists|a: int, b: int| #[trigger]
                is_sent(sent, a, b) && sent[a].0 == fanout.recipients@[i].physical_worker_id@
                    && tells_of_message(fanout, sent[a].1[b], fanout.recipients@[i])
            &&& is_sent(sent, g, m) ==> exists|k: int|
                0 <= k < fanout.recipients@.len() && tells_of_message(
                    fanout,
                    sent[g].1[m],
                    #[trigger] fanout.recipients@[k],
                )
            &&& workers::distinct(fanout.recipients@) && is_sent(sent, g, m) && is_sent(sent, h, n)
                && (g != h || m != n) ==> sent[g].1[m].client_id != sent[h].1[n].client_id
        }),
{
    let made = fanout.command_for();
    let recipients = fanout.recipients@;
    let sent = command::commands_for(
        recipients,
        command::packs_by(recipients, made),
        process,
        number,
    ).0;
    if 0 <= i < recipients.len() {
        let (a, b) = lemma_sent(recipients, made, process, number, i);
        assert(is_sent(sent, a, b) && tells_of_message(fanout, sent[a].1[b], recipients[i]));
    }
    if is_sent(sent, g, m) {
        lemma_sent_to(recipients, made, process, number, g, m);
        let w = command::pack_workers(recipients, g)[m];
        let k = choose|k: int| 0 <= k < recipients.len() && recipients[k] == w;
        assert(tells_of_message(fanout, sent[g].1[m], recipients[k]));
        if workers::distinct(recipients) && is_sent(sent, h, n) && (g != h || m != n) {
            lemma_sent_to(recipients, made, process, number, h, n);
            lemma_sent_once(recipients, made, process, number, g, m, h, n);
        }
    }
}

} // verus!
