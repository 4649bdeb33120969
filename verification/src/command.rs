//! The commands that the runner sends to workers, where in the run each of them belongs, and how
//! the commands of many clients are packed for their containers.

use vstd::prelude::*;

use crate::batch::MembershipBatchDecision;
use crate::text;
use crate::text::{copy_maybe, copy_texts, decimal_text, split_once, trim_end_matches};
use crate::workers;
use crate::workers::{physical_groups, WorkerSpec};

verus! {

// ---------------------------------------------------------------------------
// Commands
// ---------------------------------------------------------------------------

/// What a worker may have waiting for it.
#[derive(Debug, Clone, Copy, PartialEq, Eq, Structural)]
pub enum PendingKind {
    Commits,
    Welcomes,
    ApplicationMessages,
}

/// How the handling of a commit is measured.
#[derive(Debug)]
pub struct CommitSampling {
    pub profile: bool,
    pub commit_create_op: Option<String>,
    pub commit_receive_sampling_policy: Option<String>,
    pub commit_receive_sampling_seed: Option<u64>,
    pub commit_receive_sample_index: Option<usize>,
    pub commit_receive_sample_count: Option<usize>,
    pub commit_receive_population_size: Option<usize>,
}

/// How the handling of a commit is measured.
pub struct SamplingView {
    pub profile: bool,
    pub op: Option<Seq<char>>,
    pub policy: Option<Seq<char>>,
    pub seed: Option<u64>,
    pub index: Option<usize>,
    pub count: Option<usize>,
    pub population: Option<usize>,
}

impl View for CommitSampling {
    type V = SamplingView;

    open spec fn view(&self) -> SamplingView {
        SamplingView {
            profile: self.profile,
            op: text::maybe(self.commit_create_op),
            policy: text::maybe(self.commit_receive_sampling_policy),
            seed: self.commit_receive_sampling_seed,
            index: self.commit_receive_sample_index,
            count: self.commit_receive_sample_count,
            population: self.commit_receive_population_size,
        }
    }
}

impl SamplingView {
    /// The handling is not measured.
    pub open spec fn unmeasured() -> SamplingView {
        SamplingView {
            profile: false,
            op: None,
            policy: None,
            seed: None,
            index: None,
            count: None,
            population: None,
        }
    }
}

impl Clone for CommitSampling {
    fn clone(&self) -> (copy: CommitSampling)
        ensures
            copy == *self,
    {
        CommitSampling {
            profile: self.profile,
            commit_create_op: copy_maybe(&self.commit_create_op),
            commit_receive_sampling_policy: copy_maybe(&self.commit_receive_sampling_policy),
            commit_receive_sampling_seed: self.commit_receive_sampling_seed,
            commit_receive_sample_index: self.commit_receive_sample_index,
            commit_receive_sample_count: self.commit_receive_sample_count,
            commit_receive_population_size: self.commit_receive_population_size,
        }
    }
}

impl CommitSampling {
    /// The handling is not measured.
    pub fn unmeasured() -> (sampling: CommitSampling)
        ensures
            sampling@ == SamplingView::unmeasured(),
    {
        CommitSampling {
            profile: false,
            commit_create_op: None,
            commit_receive_sampling_policy: None,
            commit_receive_sampling_seed: None,
            commit_receive_sample_index: None,
            commit_receive_sample_count: None,
            commit_receive_population_size: None,
        }
    }
}

/// What a worker is told to do.
#[derive(Debug)]
pub enum Command {
    CreateGroup,
    GenerateKeyPackage,
    AddMembers { members: Vec<String> },
    RemoveMembers { members: Vec<String> },
    JoinFromWelcome,
    SelfUpdate,
    SendApplicationMessage { message: String },
    ReceiveApplicationMessage { profile: bool },
    ReceiveCommit { sampling: CommitSampling },
    ProcessPending {
        kinds: Option<Vec<PendingKind>>,
        max_messages: Option<usize>,
        expected_epoch: Option<u64>,
        sampling: CommitSampling,
    },
    ShowGroupState,
}

/// What a worker is told to do.
pub enum CommandView {
    CreateGroup,
    GenerateKeyPackage,
    AddMembers { members: Seq<Seq<char>> },
    RemoveMembers { members: Seq<Seq<char>> },
    JoinFromWelcome,
    SelfUpdate,
    SendApplicationMessage { message: Seq<char> },
    ReceiveApplicationMessage { profile: bool },
    ReceiveCommit { sampling: SamplingView },
    ProcessPending {
        kinds: Option<Seq<PendingKind>>,
        max_messages: Option<usize>,
        expected_epoch: Option<u64>,
        sampling: SamplingView,
    },
    ShowGroupState,
}

impl View for Command {
    type V = CommandView;

    open spec fn view(&self) -> CommandView {
        match self {
            Command::CreateGroup => CommandView::CreateGroup,
            Command::GenerateKeyPackage => CommandView::GenerateKeyPackage,
            Command::AddMembers { members } => CommandView::AddMembers {
                members: text::texts(members@),
            },
            Command::RemoveMembers { members } => CommandView::RemoveMembers {
                members: text::texts(members@),
            },
            Command::JoinFromWelcome => CommandView::JoinFromWelcome,
            Command::SelfUpdate => CommandView::SelfUpdate,
            Command::SendApplicationMessage { message } => CommandView::SendApplicationMessage {
                message: message@,
            },
            Command::ReceiveApplicationMessage { profile } => CommandView::ReceiveApplicationMessage {
                profile: *profile,
            },
            Command::ReceiveCommit { sampling } => CommandView::ReceiveCommit {
                sampling: sampling@,
            },
            Command::ProcessPending {
                kinds,
                max_messages,
                expected_epoch,
                sampling,
            } => CommandView::ProcessPending {
                kinds: match kinds {
                    Some(list) => Some(list@),
                    None => None,
                },
                max_messages: *max_messages,
                expected_epoch: *expected_epoch,
                sampling: sampling@,
            },
            Command::ShowGroupState => CommandView::ShowGroupState,
        }
    }
}

impl CommandView {
    /// The name of a command.
    pub open spec fn kind(self) -> Seq<char> {
        match self {
            CommandView::CreateGroup => "CreateGroup"@,
            CommandView::GenerateKeyPackage => "GenerateKeyPackage"@,
            CommandView::AddMembers { members: _ } => "AddMembers"@,
            CommandView::RemoveMembers { members: _ } => "RemoveMembers"@,
            CommandView::JoinFromWelcome => "JoinFromWelcome"@,
            CommandView::SelfUpdate => "SelfUpdate"@,
            CommandView::SendApplicationMessage { message: _ } => "SendApplicationMessage"@,
            CommandView::ReceiveApplicationMessage { profile: _ } => "ReceiveApplicationMessage"@,
            CommandView::ReceiveCommit { sampling: _ } => "ReceiveCommit"@,
            CommandView::ProcessPending {
                kinds: _,
                max_messages: _,
                expected_epoch: _,
                sampling: _,
            } => "ProcessPending"@,
            CommandView::ShowGroupState => "ShowGroupState"@,
        }
    }
}

impl Command {
    /// The name of a command.
    pub fn kind(&self) -> (name: &'static str)
        ensures
            name@ == self@.kind(),
    {
        match self {
            Command::CreateGroup => "CreateGroup",
            Command::GenerateKeyPackage => "GenerateKeyPackage",
            Command::AddMembers { members: _ } => "AddMembers",
            Command::RemoveMembers { members: _ } => "RemoveMembers",
            Command::JoinFromWelcome => "JoinFromWelcome",
            Command::SelfUpdate => "SelfUpdate",
            Command::SendApplicationMessage { message: _ } => "SendApplicationMessage",
            Command::ReceiveApplicationMessage { profile: _ } => "ReceiveApplicationMessage",
            Command::ReceiveCommit { sampling: _ } => "ReceiveCommit",
            Command::ProcessPending {
                kinds: _,
                max_messages: _,
                expected_epoch: _,
                sampling: _,
            } => "ProcessPending",
            Command::ShowGroupState => "ShowGroupState",
        }
    }
}

impl Clone for Command {
    fn clone(&self) -> (copy: Command)
        ensures
            copy@ == self@,
    {
        match self {
            Command::CreateGroup => Command::CreateGroup,
            Command::GenerateKeyPackage => Command::GenerateKeyPackage,
            Command::AddMembers { members } => Command::AddMembers { members: copy_texts(members) },
            Command::RemoveMembers { members } => Command::RemoveMembers {
                members: copy_texts(members),
            },
            Command::JoinFromWelcome => Command::JoinFromWelcome,
            Command::SelfUpdate => Command::SelfUpdate,
            Command::SendApplicationMessage { message } => Command::SendApplicationMessage {
                message: message.clone(),
            },
            Command::ReceiveApplicationMessage { profile } => Command::ReceiveApplicationMessage {
                profile: *profile,
            },
            Command::ReceiveCommit { sampling } => Command::ReceiveCommit {
                sampling: sampling.clone(),
            },
            Command::ProcessPending {
                kinds,
                max_messages,
                expected_epoch,
                sampling,
            } => Command::ProcessPending {
                kinds: copy_kinds(kinds),
                max_messages: *max_messages,
                expected_epoch: *expected_epoch,
                sampling: sampling.clone(),
            },
            Command::ShowGroupState => Command::ShowGroupState,
        }
    }
}

fn copy_kinds(kinds: &Option<Vec<PendingKind>>) -> (copy: Option<Vec<PendingKind>>)
    ensures
        match kinds {
            Some(list) => copy is Some && copy->0@ == list@,
            None => copy is None,
        },
{
    match kinds {
        None => None,
        Some(list) => {
            let mut copy: Vec<PendingKind> = Vec::new();
            let mut i: usize = 0;
            while i < list.len()
                invariant
                    i <= list@.len(),
                    copy@ == list@.take(i as int),
                decreases list@.len() - i,
            {
                copy.push(list[i]);
                i = i + 1;
                assert(copy@ =~= list@.take(i as int));
            }
            assert(copy@ =~= list@);
            Some(copy)
        },
    }
}

// ---------------------------------------------------------------------------
// Where in the run
// ---------------------------------------------------------------------------

/// The place in the run that an operation belongs to.
#[derive(Debug)]
pub struct BenchmarkCursor {
    pub plateau_index: usize,
    pub target_size: usize,
    pub active_size: usize,
    pub phase: String,
    pub operation: String,
    pub operation_seq: Option<usize>,
    pub payload_size: Option<usize>,
    pub membership_batch_requested: Option<usize>,
    pub membership_batch_effective: Option<usize>,
    pub membership_batch_group_cap: Option<usize>,
    pub membership_batch_transition_cap: Option<usize>,
    pub membership_batch_source: Option<String>,
}

/// The place in the run that an operation belongs to, as far as it is known.
pub struct Marks {
    pub plateau_index: Option<usize>,
    pub target_size: Option<usize>,
    pub active_size: Option<usize>,
    pub phase: Option<Seq<char>>,
    pub operation: Option<Seq<char>>,
    pub operation_seq: Option<usize>,
    pub payload_size: Option<usize>,
    pub batch_requested: Option<usize>,
    pub batch_effective: Option<usize>,
    pub batch_group_cap: Option<usize>,
    pub batch_transition_cap: Option<usize>,
    pub batch_source: Option<Seq<char>>,
}

impl Marks {
    /// Nothing is known.
    pub open spec fn none() -> Marks {
        Marks {
            plateau_index: None,
            target_size: None,
            active_size: None,
            phase: None,
            operation: None,
            operation_seq: None,
            payload_size: None,
            batch_requested: None,
            batch_effective: None,
            batch_group_cap: None,
            batch_transition_cap: None,
            batch_source: None,
        }
    }

    /// A phase and an operation of a plateau.
    pub open spec fn at(
        plateau_index: usize,
        target_size: usize,
        active_size: usize,
        phase: Seq<char>,
        operation: Seq<char>,
    ) -> Marks {
        Marks {
            plateau_index: Some(plateau_index),
            target_size: Some(target_size),
            active_size: Some(active_size),
            phase: Some(phase),
            operation: Some(operation),
            ..Marks::none()
        }
    }

    /// The same place, at one of the operations.
    pub open spec fn numbered(self, seq: usize, payload_size: Option<usize>) -> Marks {
        Marks { operation_seq: Some(seq), payload_size: payload_size, ..self }
    }

    /// The same place, with the batch that was decided.
    pub open spec fn batched(self, decision: MembershipBatchDecision) -> Marks {
        Marks {
            batch_requested: Some(decision.requested),
            batch_effective: Some(decision.effective),
            batch_group_cap: Some(decision.group_cap),
            batch_transition_cap: Some(decision.transition_cap),
            batch_source: Some(decision.source@),
            ..self
        }
    }
}

impl View for BenchmarkCursor {
    type V = Marks;

    open spec fn view(&self) -> Marks {
        Marks {
            plateau_index: Some(self.plateau_index),
            target_size: Some(self.target_size),
            active_size: Some(self.active_size),
            phase: Some(self.phase@),
            operation: Some(self.operation@),
            operation_seq: self.operation_seq,
            payload_size: self.payload_size,
            batch_requested: self.membership_batch_requested,
            batch_effective: self.membership_batch_effective,
            batch_group_cap: self.membership_batch_group_cap,
            batch_transition_cap: self.membership_batch_transition_cap,
            batch_source: text::maybe(self.membership_batch_source),
        }
    }
}

impl Clone for BenchmarkCursor {
    fn clone(&self) -> (copy: BenchmarkCursor)
        ensures
            copy == *self,
    {
        BenchmarkCursor {
            plateau_index: self.plateau_index,
            target_size: self.target_size,
            active_size: self.active_size,
            phase: self.phase.clone(),
            operation: self.operation.clone(),
            operation_seq: self.operation_seq,
            payload_size: self.payload_size,
            membership_batch_requested: self.membership_batch_requested,
            membership_batch_effective: self.membership_batch_effective,
            membership_batch_group_cap: self.membership_batch_group_cap,
            membership_batch_transition_cap: self.membership_batch_transition_cap,
            membership_batch_source: copy_maybe(&self.membership_batch_source),
        }
    }
}

impl BenchmarkCursor {
    /// A phase and an operation of a plateau.
    pub fn new(
        plateau_index: usize,
        target_size: usize,
        active_size: usize,
        phase: &str,
        operation: &str,
    ) -> (cursor: BenchmarkCursor)
        ensures
            cursor@ == Marks::at(plateau_index, target_size, active_size, phase@, operation@),
    {
        BenchmarkCursor {
            plateau_index: plateau_index,
            target_size: target_size,
            active_size: active_size,
            phase: phase.to_owned(),
            operation: operation.to_owned(),
            operation_seq: None,
            payload_size: None,
            membership_batch_requested: None,
            membership_batch_effective: None,
            membership_batch_group_cap: None,
            membership_batch_transition_cap: None,
            membership_batch_source: None,
        }
    }

    /// The same place, at one of the operations.
    pub fn at_operation(self, operation_seq: usize, payload_size: Option<usize>) -> (cursor:
        BenchmarkCursor)
        ensures
            cursor@ == self@.numbered(operation_seq, payload_size),
    {
        let mut cursor: BenchmarkCursor = self;
        cursor.operation_seq = Some(operation_seq);
        cursor.payload_size = payload_size;
        cursor
    }

    /// The same place, with the batch that was decided.
    pub fn with_membership_batch(self, decision: &MembershipBatchDecision) -> (cursor:
        BenchmarkCursor)
        ensures
            cursor@ == self@.batched(*decision),
    {
        let mut cursor: BenchmarkCursor = self;
        cursor.membership_batch_requested = Some(decision.requested);
        cursor.membership_batch_effective = Some(decision.effective);
        cursor.membership_batch_group_cap = Some(decision.group_cap);
        cursor.membership_batch_transition_cap = Some(decision.transition_cap);
        cursor.membership_batch_source = Some(decision.source.to_owned());
        cursor
    }
}

// ---------------------------------------------------------------------------
// Requests
// ---------------------------------------------------------------------------

/// Gives every request of a process an id of its own.
#[derive(Debug)]
pub struct RequestIds {
    pub process: u32,
    pub next: u64,
}

/// The id of a request.
pub open spec fn request_id(
    process: u32,
    worker: Seq<char>,
    kind: Seq<char>,
    number: u64,
) -> Seq<char> {
    "runner-"@ + text::decimal(process as nat) + "-"@ + worker + "-"@ + kind + "-"@ + text::decimal(
        number as nat,
    )
}

/// Requests with different numbers have different ids, whatever their workers and commands are
/// called.
pub proof fn law_request_ids_differ(
    process: u32,
    worker: Seq<char>,
    kind: Seq<char>,
    number: u64,
    other_process: u32,
    other_worker: Seq<char>,
    other_kind: Seq<char>,
    other_number: u64,
)
    requires
        number != other_number,
    ensures
        request_id(process, worker, kind, number) != request_id(
            other_process,
            other_worker,
            other_kind,
            other_number,
        ),
{
    let a = request_id(process, worker, kind, number);
    let b = request_id(other_process, other_worker, other_kind, other_number);
    let m = text::decimal(number as nat);
    let n = text::decimal(other_number as nat);
    text::law_decimal_reads_back(number as nat);
    text::law_decimal_reads_back(other_number as nat);
    reveal_strlit("-");
    let dash = a.len() - m.len() - 1;
    let other_dash = b.len() - n.len() - 1;
    assert(a[dash] == '-');
    assert(b[other_dash] == '-');
    assert(a.skip(dash + 1) =~= m);
    assert(b.skip(other_dash + 1) =~= n);
    if a == b {
        if dash < other_dash {
            assert(m[other_dash - dash - 1] == a[other_dash]);
        } else if other_dash < dash {
            assert(n[dash - other_dash - 1] == b[dash]);
        }
    }
}

impl RequestIds {
    /// The ids of a process, counted from one.
    pub fn new(process: u32) -> (ids: RequestIds)
        ensures
            ids.process == process,
            ids.next == 1,
    {
        RequestIds { process: process, next: 1 }
    }

    /// The next id. After the largest number the count starts over.
    pub fn assign(&mut self, worker: &WorkerSpec, command: &Command) -> (id: String)
        ensures
            id@ == request_id(old(self).process, worker.id@, command@.kind(), old(self).next),
            final(self).process == old(self).process,
            final(self).next == old(self).next.wrapping_add(1),
    {
        let mut id: String = "runner-".to_owned();
        id.append(decimal_text(self.process as u128).as_str());
        id.append("-");
        id.append(worker.id.as_str());
        id.append("-");
        id.append(command.kind());
        id.append("-");
        id.append(decimal_text(self.next as u128).as_str());
        self.next = self.next.wrapping_add(1);
        id
    }
}

/// What a request carries besides its command.
#[derive(Debug)]
pub struct WorkerCommandContext {
    pub request_id: String,
    pub expected_epoch: Option<u64>,
    pub phase: Option<String>,
    pub cursor: Option<BenchmarkCursor>,
    pub device_kind: Option<String>,
}

/// The place that a cursor stands for, or none.
pub open spec fn marks_of(cursor: Option<BenchmarkCursor>) -> Marks {
    match cursor {
        Some(place) => place@,
        None => Marks::none(),
    }
}

impl WorkerCommandContext {
    /// What a request for a worker carries.
    pub fn with_metadata(
        worker: &WorkerSpec,
        command: &Command,
        expected_epoch: Option<u64>,
        phase: Option<&str>,
        cursor: Option<&BenchmarkCursor>,
        ids: &mut RequestIds,
    ) -> (context: WorkerCommandContext)
        ensures
            context.request_id@ == request_id(
                old(ids).process,
                worker.id@,
                command@.kind(),
                old(ids).next,
            ),
            final(ids).process == old(ids).process,
            final(ids).next == old(ids).next.wrapping_add(1),
            context.expected_epoch == expected_epoch,
            text::maybe(context.phase) == (match phase {
                Some(name) => Some(name@),
                None => None,
            }),
            marks_of(context.cursor) == (match cursor {
                Some(place) => place@,
                None => Marks::none(),
            }),
            text::maybe(context.device_kind) == (if worker.device_kind@.len() == 0 {
                None
            } else {
                Some(worker.device_kind@)
            }),
    {
        WorkerCommandContext {
            request_id: ids.assign(worker, command),
            expected_epoch: expected_epoch,
            phase: match phase {
                Some(name) => Some(name.to_owned()),
                None => None,
            },
            cursor: match cursor {
                Some(place) => Some(place.clone()),
                None => None,
            },
            device_kind: if worker.device_kind.as_str().is_empty() {
                None
            } else {
                Some(worker.device_kind.clone())
            },
        }
    }
}

// ---------------------------------------------------------------------------
// Commands for many clients
// ---------------------------------------------------------------------------

/// The command for one client of a container.
#[derive(Debug)]
pub struct BatchFanoutCommand {
    pub client_id: String,
    pub request_id: Option<String>,
    pub command: Command,
    pub expected_epoch: Option<u64>,
    pub phase: Option<String>,
    pub profile: Option<bool>,
    pub benchmark_plateau_index: Option<usize>,
    pub benchmark_target_size: Option<usize>,
    pub benchmark_active_size: Option<usize>,
    pub benchmark_phase: Option<String>,
    pub benchmark_operation: Option<String>,
    pub benchmark_operation_seq: Option<usize>,
    pub benchmark_payload_size: Option<usize>,
    pub membership_batch_requested: Option<usize>,
    pub membership_batch_effective: Option<usize>,
    pub membership_batch_group_cap: Option<usize>,
    pub membership_batch_transition_cap: Option<usize>,
    pub membership_batch_source: Option<String>,
}

/// The command for one client of a container.
pub struct BatchView {
    pub client_id: Seq<char>,
    pub request_id: Option<Seq<char>>,
    pub command: CommandView,
    pub expected_epoch: Option<u64>,
    pub phase: Option<Seq<char>>,
    pub profile: Option<bool>,
    pub marks: Marks,
}

impl View for BatchFanoutCommand {
    type V = BatchView;

    open spec fn view(&self) -> BatchView {
        BatchView {
            client_id: self.client_id@,
            request_id: text::maybe(self.request_id),
            command: self.command@,
            expected_epoch: self.expected_epoch,
            phase: text::maybe(self.phase),
            profile: self.profile,
            marks: Marks {
                plateau_index: self.benchmark_plateau_index,
                target_size: self.benchmark_target_size,
                active_size: self.benchmark_active_size,
                phase: text::maybe(self.benchmark_phase),
                operation: text::maybe(self.benchmark_operation),
                operation_seq: self.benchmark_operation_seq,
                payload_size: self.benchmark_payload_size,
                batch_requested: self.membership_batch_requested,
                batch_effective: self.membership_batch_effective,
                batch_group_cap: self.membership_batch_group_cap,
                batch_transition_cap: self.membership_batch_transition_cap,
                batch_source: text::maybe(self.membership_batch_source),
            },
        }
    }
}

impl Clone for BatchFanoutCommand {
    fn clone(&self) -> (copy: BatchFanoutCommand)
        ensures
            copy@ == self@,
    {
        BatchFanoutCommand {
            client_id: self.client_id.clone(),
            request_id: copy_maybe(&self.request_id),
            command: self.command.clone(),
            expected_epoch: self.expected_epoch,
            phase: copy_maybe(&self.phase),
            profile: self.profile,
            benchmark_plateau_index: self.benchmark_plateau_index,
            benchmark_target_size: self.benchmark_target_size,
            benchmark_active_size: self.benchmark_active_size,
            benchmark_phase: copy_maybe(&self.benchmark_phase),
            benchmark_operation: copy_maybe(&self.benchmark_operation),
            benchmark_operation_seq: self.benchmark_operation_seq,
            benchmark_payload_size: self.benchmark_payload_size,
            membership_batch_requested: self.membership_batch_requested,
            membership_batch_effective: self.membership_batch_effective,
            membership_batch_group_cap: self.membership_batch_group_cap,
            membership_batch_transition_cap: self.membership_batch_transition_cap,
            membership_batch_source: copy_maybe(&self.membership_batch_source),
        }
    }
}

impl BatchFanoutCommand {
    /// A command for a client, at no known place of the run and without a request id.
    pub fn new(
        client_id: &str,
        command: Command,
        expected_epoch: Option<u64>,
        phase: &str,
        profile: Option<bool>,
    ) -> (item: BatchFanoutCommand)
        ensures
            item@ == (BatchView {
                client_id: client_id@,
                request_id: None,
                command: command@,
                expected_epoch: expected_epoch,
                phase: Some(phase@),
                profile: profile,
                marks: Marks::none(),
            }),
    {
        BatchFanoutCommand {
            client_id: client_id.to_owned(),
            request_id: None,
            command: command,
            expected_epoch: expected_epoch,
            phase: Some(phase.to_owned()),
            profile: profile,
            benchmark_plateau_index: None,
            benchmark_target_size: None,
            benchmark_active_size: None,
            benchmark_phase: None,
            benchmark_operation: None,
            benchmark_operation_seq: None,
            benchmark_payload_size: None,
            membership_batch_requested: None,
            membership_batch_effective: None,
            membership_batch_group_cap: None,
            membership_batch_transition_cap: None,
            membership_batch_source: None,
        }
    }

    /// The same command, at a place of the run.
    pub fn with_benchmark_cursor(self, cursor: &BenchmarkCursor) -> (item: BatchFanoutCommand)
        ensures
            item@ == (BatchView { marks: cursor@, ..self@ }),
    {
        let mut item: BatchFanoutCommand = self;
        item.benchmark_plateau_index = Some(cursor.plateau_index);
        item.benchmark_target_size = Some(cursor.target_size);
        item.benchmark_active_size = Some(cursor.active_size);
        item.benchmark_phase = Some(cursor.phase.clone());
        item.benchmark_operation = Some(cursor.operation.clone());
        item.benchmark_operation_seq = cursor.operation_seq;
        item.benchmark_payload_size = cursor.payload_size;
        item.membership_batch_requested = cursor.membership_batch_requested;
        item.membership_batch_effective = cursor.membership_batch_effective;
        item.membership_batch_group_cap = cursor.membership_batch_group_cap;
        item.membership_batch_transition_cap = cursor.membership_batch_transition_cap;
        item.membership_batch_source = copy_maybe(&cursor.membership_batch_source);
        item
    }
}

/// The contents of a list of commands.
pub open spec fn items(list: Seq<BatchFanoutCommand>) -> Seq<BatchView> {
    list.map_values(|item: BatchFanoutCommand| item@)
}

/// The contents of the commands of some containers.
pub open spec fn packed(list: Seq<(String, Vec<BatchFanoutCommand>)>) -> Seq<
    (Seq<char>, Seq<BatchView>),
> {
    list.map_values(|group: (String, Vec<BatchFanoutCommand>)| (group.0@, items(group.1@)))
}

/// A command as it is sent: with the id it has, or with a new one.
pub open spec fn identified(item: BatchView, worker: WorkerSpec, process: u32, number: u64) -> BatchView {
    if item.request_id is Some {
        item
    } else {
        BatchView {
            request_id: Some(request_id(process, worker.id@, item.command.kind(), number)),
            ..item
        }
    }
}

/// The number after the ones that the commands without an id take.
pub open spec fn number_after(list: Seq<BatchView>, number: u64) -> u64
    decreases list.len(),
{
    if list.len() == 0 {
        number
    } else {
        let before = number_after(list.drop_last(), number);
        if list.last().request_id is Some {
            before
        } else {
            before.wrapping_add(1)
        }
    }
}

/// The commands as they are sent, the ids counted on from `number`.
pub open spec fn all_identified(
    list: Seq<BatchView>,
    workers: Seq<WorkerSpec>,
    process: u32,
    number: u64,
) -> Seq<BatchView>
    decreases list.len(),
{
    if list.len() == 0 {
        Seq::empty()
    } else {
        all_identified(list.drop_last(), workers, process, number).push(
            identified(
                list.last(),
                workers[list.len() - 1],
                process,
                number_after(list.drop_last(), number),
            ),
        )
    }
}

/// The workers of the container that a pack of commands is for, in their order.
pub open spec fn pack_workers(workers: Seq<WorkerSpec>, pack: int) -> Seq<WorkerSpec> {
    workers::those(workers, workers::in_container(workers::containers(workers)[pack]))
}

/// A pack of commands for each container, with a command for each of its workers.
pub open spec fn packs_fit(workers: Seq<WorkerSpec>, packs: Seq<Seq<BatchView>>) -> bool {
    &&& packs.len() == workers::containers(workers).len()
    &&& forall|g: int|
        0 <= g < packs.len() ==> (#[trigger] packs[g]).len() == pack_workers(workers, g).len()
}

/// The packs from the first up to `upto` as they are sent.
pub open spec fn packed_upto(
    workers: Seq<WorkerSpec>,
    packs: Seq<Seq<BatchView>>,
    process: u32,
    number: u64,
    upto: int,
) -> (Seq<(Seq<char>, Seq<BatchView>)>, u64)
    decreases upto,
{
    if upto <= 0 {
        (Seq::empty(), number)
    } else {
        let before = packed_upto(workers, packs, process, number, upto - 1);
        let pack = packs[upto - 1];
        (
            before.0.push(
                (
                    workers::containers(workers)[upto - 1],
                    all_identified(pack, pack_workers(workers, upto - 1), process, before.1),
                ),
            ),
            number_after(pack, before.1),
        )
    }
}

/// Packs of commands as they are sent, each with its container, and the number of the next request.
pub open spec fn commands_for(
    workers: Seq<WorkerSpec>,
    packs: Seq<Seq<BatchView>>,
    process: u32,
    number: u64,
) -> (Seq<(Seq<char>, Seq<BatchView>)>, u64) {
    packed_upto(workers, packs, process, number, workers::containers(workers).len() as int)
}

/// A command that `command_for` may have returned for a worker.
pub open spec fn may_be_made<F: Fn(&WorkerSpec) -> BatchFanoutCommand>(
    command_for: F,
    worker: WorkerSpec,
    item: BatchView,
) -> bool {
    exists|made: BatchFanoutCommand| #[trigger]
        call_ensures(command_for, (&worker,), made) && made@ == item
}

/// Packs that hold, for each worker of their containers, what `command_for` returned for it.
pub open spec fn packs_made<F: Fn(&WorkerSpec) -> BatchFanoutCommand>(
    command_for: F,
    workers: Seq<WorkerSpec>,
    packs: Seq<Seq<BatchView>>,
) -> bool {
    &&& packs_fit(workers, packs)
    &&& forall|g: int, m: int|
        0 <= g < packs.len() && 0 <= m < packs[g].len() ==> may_be_made(
            command_for,
            pack_workers(workers, g)[m],
            #[trigger] packs[g][m],
        )
}

/// Packs in which the command for each worker is a function of the worker.
pub open spec fn packs_by(
    workers: Seq<WorkerSpec>,
    made: spec_fn(WorkerSpec) -> BatchView,
) -> Seq<Seq<BatchView>> {
    Seq::new(
        workers::containers(workers).len(),
        |g: int| pack_workers(workers, g).map_values(made),
    )
}

/// Where each command is a function of its worker, the packs are too.
pub proof fn lemma_packs_by<F: Fn(&WorkerSpec) -> BatchFanoutCommand>(
    command_for: F,
    workers: Seq<WorkerSpec>,
    packs: Seq<Seq<BatchView>>,
    made: spec_fn(WorkerSpec) -> BatchView,
)
    requires
        packs_made(command_for, workers, packs),
        forall|w: &WorkerSpec, item: BatchFanoutCommand| #[trigger]
            call_ensures(command_for, (w,), item) ==> item@ == made(*w),
    ensures
        packs == packs_by(workers, made),
{
    assert forall|g: int| 0 <= g < packs.len() implies #[trigger] packs[g] == packs_by(
        workers,
        made,
    )[g] by {
        assert forall|m: int| 0 <= m < packs[g].len() implies packs[g][m] == packs_by(
            workers,
            made,
        )[g][m] by {
            let worker = pack_workers(workers, g)[m];
            assert(may_be_made(command_for, worker, packs[g][m]));
            let item = choose|item: BatchFanoutCommand| #[trigger]
                call_ensures(command_for, (&worker,), item) && item@ == packs[g][m];
            assert(item@ == made(worker));
        }
        assert(packs[g] =~= packs_by(workers, made)[g]);
    }
    assert(packs =~= packs_by(workers, made));
}

// ---------------------------------------------------------------------------
// The ids of packed commands
// ---------------------------------------------------------------------------

/// How many numbers there are.
pub open spec fn numbers() -> int {
    0x1_0000_0000_0000_0000
}

/// How many commands of a pack get an id.
pub open spec fn unnamed(list: Seq<BatchView>) -> nat
    decreases list.len(),
{
    if list.len() == 0 {
        0
    } else {
        unnamed(list.drop_last()) + (if list.last().request_id is Some {
            0nat
        } else {
            1nat
        })
    }
}

/// How many commands of the packs up to `upto` get an id.
pub open spec fn unnamed_upto(packs: Seq<Seq<BatchView>>, upto: int) -> nat
    decreases upto,
{
    if upto <= 0 {
        0
    } else {
        unnamed_upto(packs, upto - 1) + unnamed(packs[upto - 1])
    }
}

/// There is a command at a place of a pack.
pub open spec fn is_place(packs: Seq<Seq<BatchView>>, pack: int, place: int) -> bool {
    0 <= pack < packs.len() && 0 <= place < packs[pack].len()
}

/// A command without an id stands at a place of a pack.
pub open spec fn is_unnamed(packs: Seq<Seq<BatchView>>, pack: int, place: int) -> bool {
    is_place(packs, pack, place) && packs[pack][place].request_id is None
}

/// The id that a command of a pack is sent with.
pub open spec fn sent_id(
    workers: Seq<WorkerSpec>,
    packs: Seq<Seq<BatchView>>,
    process: u32,
    number: u64,
    pack: int,
    place: int,
) -> Option<Seq<char>> {
    commands_for(workers, packs, process, number).0[pack].1[place].request_id
}

/// How many commands before a place of a pack get an id.
spec fn unnamed_before(packs: Seq<Seq<BatchView>>, pack: int, place: int) -> nat {
    unnamed_upto(packs, pack) + unnamed(packs[pack].take(place))
}

/// A count that starts over may do so at any time.
proof fn lemma_counted_on(from: int, by: int)
    ensures
        (from % numbers() + by) % numbers() == (from + by) % numbers(),
{
    vstd::arithmetic::div_mod::lemma_add_mod_noop(from % numbers(), by, numbers());
    vstd::arithmetic::div_mod::lemma_add_mod_noop(from, by, numbers());
}

proof fn lemma_number_after(list: Seq<BatchView>, number: u64)
    ensures
        number_after(list, number) == (number + unnamed(list)) % numbers(),
    decreases list.len(),
{
    if list.len() > 0 {
        lemma_number_after(list.drop_last(), number);
        let sum = number + unnamed(list.drop_last());
        assert((sum % numbers() + 1) % numbers() == (sum + 1) % numbers());
    }
}

proof fn lemma_unnamed(list: Seq<BatchView>, upto: int)
    requires
        0 <= upto <= list.len(),
    ensures
        unnamed(list.take(upto)) <= unnamed(list) <= list.len(),
        upto < list.len() && list[upto].request_id is None ==> unnamed(list.take(upto)) < unnamed(
            list,
        ),
    decreases list.len(),
{
    if list.len() > 0 {
        let front = list.drop_last();
        if upto < list.len() {
            lemma_unnamed(front, upto);
            assert(front.take(upto) =~= list.take(upto));
            assert(upto == front.len() ==> list.take(upto) =~= front);
        } else {
            lemma_unnamed(front, front.len() as int);
            assert(list.take(upto) =~= list);
        }
    } else {
        assert(list.take(upto) =~= list);
    }
}

proof fn lemma_unnamed_upto(packs: Seq<Seq<BatchView>>, fewer: int, more: int)
    requires
        0 <= fewer <= more,
    ensures
        unnamed_upto(packs, fewer) <= unnamed_upto(packs, more),
    decreases more,
{
    if fewer < more {
        lemma_unnamed_upto(packs, fewer, more - 1);
    }
}

/// No more commands get an id than there are workers.
proof fn lemma_unnamed_fits(workers: Seq<WorkerSpec>, packs: Seq<Seq<BatchView>>, upto: int)
    requires
        packs_fit(workers, packs),
        0 <= upto <= packs.len(),
    ensures
        unnamed_upto(packs, upto) <= workers::held_by(
            workers,
            workers::containers(workers).take(upto),
        ) <= workers.len(),
    decreases upto,
{
    let all = workers::containers(workers);
    workers::lemma_containers(workers);
    assert(all.take(upto).no_duplicates());
    workers::lemma_held_by(workers, all.take(upto));
    if upto > 0 {
        lemma_unnamed_fits(workers, packs, upto - 1);
        assert(all.take(upto).drop_last() =~= all.take(upto - 1));
        let pack = packs[upto - 1];
        lemma_unnamed(pack, pack.len() as int);
    }
}

proof fn lemma_all_identified(
    list: Seq<BatchView>,
    workers: Seq<WorkerSpec>,
    process: u32,
    number: u64,
)
    ensures
        all_identified(list, workers, process, number).len() == list.len(),
        forall|i: int|
            0 <= i < list.len() ==> #[trigger] all_identified(list, workers, process, number)[i]
                == identified(list[i], workers[i], process, number_after(list.take(i), number)),
    decreases list.len(),
{
    if list.len() > 0 {
        let front = list.drop_last();
        lemma_all_identified(front, workers, process, number);
        assert forall|i: int| 0 <= i < list.len() implies #[trigger] all_identified(
            list,
            workers,
            process,
            number,
        )[i] == identified(list[i], workers[i], process, number_after(list.take(i), number)) by {
            if i < front.len() {
                assert(front.take(i) =~= list.take(i));
                assert(all_identified(list, workers, process, number)[i] == all_identified(
                    front,
                    workers,
                    process,
                    number,
                )[i]);
            } else {
                assert(list.take(i) =~= front);
            }
        }
    }
}

/// The packs up to `upto` take their numbers one after the other.
proof fn lemma_packed_upto(
    workers: Seq<WorkerSpec>,
    packs: Seq<Seq<BatchView>>,
    process: u32,
    number: u64,
    upto: int,
)
    requires
        0 <= upto,
    ensures
        packed_upto(workers, packs, process, number, upto).0.len() == upto,
        packed_upto(workers, packs, process, number, upto).1 == (number + unnamed_upto(packs, upto))
            % numbers(),
        forall|g: int|
            0 <= g < upto ==> (#[trigger] packed_upto(workers, packs, process, number, upto).0[g])
                == (
                workers::containers(workers)[g],
                all_identified(
                    packs[g],
                    pack_workers(workers, g),
                    process,
                    packed_upto(workers, packs, process, number, g).1,
                ),
            ),
    decreases upto,
{
    if upto > 0 {
        lemma_packed_upto(workers, packs, process, number, upto - 1);
        let before = packed_upto(workers, packs, process, number, upto - 1);
        let pack = packs[upto - 1];
        lemma_number_after(pack, before.1);
        let sum = number + unnamed_upto(packs, upto - 1);
        lemma_counted_on(sum, unnamed(pack) as int);
        assert forall|g: int| 0 <= g < upto - 1 implies (#[trigger] packed_upto(
            workers,
            packs,
            process,
            number,
            upto,
        ).0[g]) == before.0[g] by {}
    }
}

/// What a command is sent as.
proof fn lemma_sent(
    workers: Seq<WorkerSpec>,
    packs: Seq<Seq<BatchView>>,
    process: u32,
    number: u64,
    pack: int,
    place: int,
)
    requires
        packs_fit(workers, packs),
        is_place(packs, pack, place),
    ensures
        commands_for(workers, packs, process, number).0[pack].1[place] == identified(
            packs[pack][place],
            pack_workers(workers, pack)[place],
            process,
            ((number + unnamed_before(packs, pack, place)) % numbers()) as u64,
        ),
{
    let all = workers::containers(workers).len() as int;
    lemma_packed_upto(workers, packs, process, number, all);
    lemma_packed_upto(workers, packs, process, number, pack);
    let first = packed_upto(workers, packs, process, number, pack).1;
    let group = pack_workers(workers, pack);
    assert(commands_for(workers, packs, process, number).0[pack].1 == all_identified(
        packs[pack],
        group,
        process,
        first,
    ));
    lemma_all_identified(packs[pack], group, process, first);
    lemma_number_after(packs[pack].take(place), first);
    lemma_counted_on(
        number + unnamed_upto(packs, pack),
        unnamed(packs[pack].take(place)) as int,
    );
}

/// Every command is sent with an id, one that it has already stays, and nothing else of it changes.
pub proof fn law_every_command_has_an_id(
    workers: Seq<WorkerSpec>,
    packs: Seq<Seq<BatchView>>,
    process: u32,
    number: u64,
    pack: int,
    place: int,
)
    requires
        packs_fit(workers, packs),
        is_place(packs, pack, place),
    ensures
        sent_id(workers, packs, process, number, pack, place) is Some,
        packs[pack][place].request_id is Some ==> sent_id(
            workers,
            packs,
            process,
            number,
            pack,
            place,
        ) == packs[pack][place].request_id,
        commands_for(workers, packs, process, number).0[pack].1[place] == (BatchView {
            request_id: sent_id(workers, packs, process, number, pack, place),
            ..packs[pack][place]
        }),
{
    lemma_sent(workers, packs, process, number, pack, place);
}

/// The workers are packed by their containers: there is one pack for each container, none is there
/// twice, and each pack is as long as its container has workers.
pub proof fn law_one_pack_for_each_container(
    workers: Seq<WorkerSpec>,
    packs: Seq<Seq<BatchView>>,
    process: u32,
    number: u64,
)
    requires
        packs_fit(workers, packs),
    ensures
        ({
            let sent = commands_for(workers, packs, process, number).0;
            &&& sent.len() == workers::containers(workers).len()
            &&& forall|g: int|
                0 <= g < sent.len() ==> (#[trigger] sent[g]).0 == workers::containers(workers)[g]
                    && sent[g].1.len() == pack_workers(workers, g).len()
            &&& forall|g: int, h: int|
                0 <= g < h < sent.len() ==> (#[trigger] sent[g]).0 != (#[trigger] sent[h]).0
            &&& forall|i: int|
                0 <= i < workers.len() ==> exists|g: int|
                    0 <= g < sent.len() && (#[trigger] sent[g]).0 == (
                    #[trigger] workers[i]).physical_worker_id@
        }),
{
    let all = workers::containers(workers);
    let sent = commands_for(workers, packs, process, number).0;
    workers::lemma_containers(workers);
    lemma_packed_upto(workers, packs, process, number, all.len() as int);
    assert forall|g: int| 0 <= g < sent.len() implies (#[trigger] sent[g]).0 == all[g]
        && sent[g].1.len() == pack_workers(workers, g).len() by {
        lemma_all_identified(
            packs[g],
            pack_workers(workers, g),
            process,
            packed_upto(workers, packs, process, number, g).1,
        );
    }
    assert forall|i: int| 0 <= i < workers.len() implies exists|g: int|
        0 <= g < sent.len() && (#[trigger] sent[g]).0 == (
        #[trigger] workers[i]).physical_worker_id@ by {
        let id = workers[i].physical_worker_id@;
        assert(all.contains(id));
        let g = choose|g: int| 0 <= g < all.len() && all[g] == id;
        assert(sent[g].0 == id);
    }
}

/// The count of the requests goes on by the number of commands that get an id, and starts over after
/// the largest number.
pub proof fn law_ids_are_counted(
    workers: Seq<WorkerSpec>,
    packs: Seq<Seq<BatchView>>,
    process: u32,
    number: u64,
)
    requires
        packs_fit(workers, packs),
    ensures
        commands_for(workers, packs, process, number).1 == (number + unnamed_upto(
            packs,
            packs.len() as int,
        )) % numbers(),
        unnamed_upto(packs, packs.len() as int) <= workers.len(),
{
    lemma_packed_upto(workers, packs, process, number, packs.len() as int);
    lemma_unnamed_fits(workers, packs, packs.len() as int);
    assert(workers::containers(workers).take(packs.len() as int) =~= workers::containers(workers));
}

proof fn lemma_unnamed_before(packs: Seq<Seq<BatchView>>, pack: int, place: int)
    requires
        is_unnamed(packs, pack, place),
    ensures
        unnamed_before(packs, pack, place) < unnamed_upto(packs, pack + 1) <= unnamed_upto(
            packs,
            packs.len() as int,
        ),
{
    lemma_unnamed(packs[pack], place);
    lemma_unnamed_upto(packs, pack + 1, packs.len() as int);
}

proof fn lemma_unnamed_in_order(
    packs: Seq<Seq<BatchView>>,
    pack: int,
    place: int,
    later_pack: int,
    later_place: int,
)
    requires
        is_unnamed(packs, pack, place),
        is_unnamed(packs, later_pack, later_place),
        pack < later_pack || (pack == later_pack && place < later_place),
    ensures
        unnamed_before(packs, pack, place) < unnamed_before(packs, later_pack, later_place),
{
    if pack < later_pack {
        lemma_unnamed_before(packs, pack, place);
        lemma_unnamed_upto(packs, pack + 1, later_pack);
    } else {
        let upto = packs[pack].take(later_place);
        lemma_unnamed(upto, place);
        assert(upto.take(place) =~= packs[pack].take(place));
        assert(upto[place] == packs[pack][place]);
    }
}

/// Numbers that are fewer than all numbers apart differ.
proof fn lemma_numbers_differ(number: u64, a: int, b: int)
    requires
        0 <= a < b < a + numbers(),
    ensures
        (number + a) % numbers() != (number + b) % numbers(),
{
    let x = number + a;
    let y = number + b;
    vstd::arithmetic::div_mod::lemma_fundamental_div_mod(x, numbers());
    vstd::arithmetic::div_mod::lemma_fundamental_div_mod(y, numbers());
}

/// Of the commands of one call that get a new id no two get the same.
pub proof fn law_new_ids_differ(
    workers: Seq<WorkerSpec>,
    packs: Seq<Seq<BatchView>>,
    process: u32,
    number: u64,
    pack: int,
    place: int,
    other_pack: int,
    other_place: int,
)
    requires
        packs_fit(workers, packs),
        workers.len() <= usize::MAX,
        is_unnamed(packs, pack, place),
        is_unnamed(packs, other_pack, other_place),
        pack != other_pack || place != other_place,
    ensures
        sent_id(workers, packs, process, number, pack, place) != sent_id(
            workers,
            packs,
            process,
            number,
            other_pack,
            other_place,
        ),
{
    let a = unnamed_before(packs, pack, place);
    let b = unnamed_before(packs, other_pack, other_place);
    lemma_unnamed_before(packs, pack, place);
    lemma_unnamed_before(packs, other_pack, other_place);
    law_ids_are_counted(workers, packs, process, number);
    lemma_sent(workers, packs, process, number, pack, place);
    lemma_sent(workers, packs, process, number, other_pack, other_place);
    if pack < other_pack || (pack == other_pack && place < other_place) {
        lemma_unnamed_in_order(packs, pack, place, other_pack, other_place);
        lemma_numbers_differ(number, a as int, b as int);
    } else {
        lemma_unnamed_in_order(packs, other_pack, other_place, pack, place);
        lemma_numbers_differ(number, b as int, a as int);
    }
    law_request_ids_differ(
        process,
        pack_workers(workers, pack)[place].id@,
        packs[pack][place].command.kind(),
        ((number + a) % numbers()) as u64,
        process,
        pack_workers(workers, other_pack)[other_place].id@,
        packs[other_pack][other_place].command.kind(),
        ((number + b) % numbers()) as u64,
    );
}

/// An id that a later call gives out is none that an earlier one gave out, as long as no more ids are
/// given out from the one call to the other than there are numbers. `issued` is how many are given
/// out from the start of the earlier call to the start of the later one.
pub proof fn law_later_ids_differ(
    workers: Seq<WorkerSpec>,
    packs: Seq<Seq<BatchView>>,
    process: u32,
    number: u64,
    pack: int,
    place: int,
    issued: nat,
    later_workers: Seq<WorkerSpec>,
    later_packs: Seq<Seq<BatchView>>,
    later_number: u64,
    later_pack: int,
    later_place: int,
)
    requires
        packs_fit(workers, packs),
        packs_fit(later_workers, later_packs),
        unnamed_upto(packs, packs.len() as int) <= issued,
        later_number == (number + issued) % numbers(),
        issued + unnamed_upto(later_packs, later_packs.len() as int) <= numbers(),
        is_unnamed(packs, pack, place),
        is_unnamed(later_packs, later_pack, later_place),
    ensures
        sent_id(workers, packs, process, number, pack, place) != sent_id(
            later_workers,
            later_packs,
            process,
            later_number,
            later_pack,
            later_place,
        ),
{
    let a = unnamed_before(packs, pack, place);
    let b = unnamed_before(later_packs, later_pack, later_place);
    lemma_unnamed_before(packs, pack, place);
    lemma_unnamed_before(later_packs, later_pack, later_place);
    lemma_sent(workers, packs, process, number, pack, place);
    lemma_sent(later_workers, later_packs, process, later_number, later_pack, later_place);
    lemma_counted_on(number + issued, b as int);
    lemma_numbers_differ(number, a as int, (issued + b) as int);
    law_request_ids_differ(
        process,
        pack_workers(workers, pack)[place].id@,
        packs[pack][place].command.kind(),
        ((number + a) % numbers()) as u64,
        process,
        pack_workers(later_workers, later_pack)[later_place].id@,
        later_packs[later_pack][later_place].command.kind(),
        ((later_number + b) % numbers()) as u64,
    );
}

// ---------------------------------------------------------------------------
// Packing
// ---------------------------------------------------------------------------

/// Makes a command for each worker and packs them by container. A command without a request id
/// gets one.
pub fn build_batch_commands<F: Fn(&WorkerSpec) -> BatchFanoutCommand>(
    workers: &[WorkerSpec],
    command_for: F,
    ids: &mut RequestIds,
) -> (out: Vec<(String, Vec<BatchFanoutCommand>)>)
    requires
        forall|w: &WorkerSpec| #[trigger] call_requires(command_for, (w,)),
    ensures
        final(ids).process == old(ids).process,
        exists|packs: Seq<Seq<BatchView>>| #[trigger]
            packs_made(command_for, workers@, packs) && (packed(out@), final(ids).next)
                == commands_for(workers@, packs, old(ids).process, old(ids).next),
{
    let ghost process = ids.process;
    let ghost number = ids.next;
    let groups: Vec<(String, Vec<&WorkerSpec>)> = physical_groups(workers);
    let mut out: Vec<(String, Vec<BatchFanoutCommand>)> = Vec::new();
    let ghost mut packs: Seq<Seq<BatchView>> = Seq::empty();
    let mut g: usize = 0;
    assert(packed(out@) =~= Seq::<(Seq<char>, Seq<BatchView>)>::empty());
    while g < groups.len()
        invariant
            g <= groups@.len(),
            workers::grouped(groups@, workers@),
            forall|w: &WorkerSpec| #[trigger] call_requires(command_for, (w,)),
            ids.process == process,
            packs.len() == g,
            forall|h: int|
                0 <= h < g ==> (#[trigger] packs[h]).len() == pack_workers(workers@, h).len(),
            forall|h: int, m: int|
                0 <= h < g && 0 <= m < packs[h].len() ==> may_be_made(
                    command_for,
                    pack_workers(workers@, h)[m],
                    #[trigger] packs[h][m],
                ),
            (packed(out@), ids.next) == packed_upto(workers@, packs, process, number, g as int),
        decreases groups@.len() - g,
    {
        let ghost first = ids.next;
        let ghost before = out@;
        let ghost container = groups@[g as int].0@;
        let ghost group = pack_workers(workers@, g as int);
        assert(groups@[g as int].1@.map_values(|w: &WorkerSpec| *w) == group);
        let mut cmds: Vec<BatchFanoutCommand> = Vec::new();
        let ghost mut pack: Seq<BatchView> = Seq::empty();
        let mut m: usize = 0;
        assert(items(cmds@) =~= Seq::<BatchView>::empty());
        while m < groups[g].1.len()
            invariant
                g < groups@.len(),
                m <= groups@[g as int].1@.len(),
                groups@[g as int].1@.map_values(|w: &WorkerSpec| *w) == group,
                forall|w: &WorkerSpec| #[trigger] call_requires(command_for, (w,)),
                ids.process == process,
                pack.len() == m,
                forall|k: int|
                    0 <= k < m ==> may_be_made(command_for, group[k], #[trigger] pack[k]),
                ids.next == number_after(pack, first),
                items(cmds@) == all_identified(pack, group, process, first),
            decreases groups@[g as int].1@.len() - m,
        {
            let worker: &WorkerSpec = groups[g].1[m];
            let ghost sent = cmds@;
            let ghost taken = ids.next;
            assert(*worker == group[m as int]);
            let mut item: BatchFanoutCommand = command_for(worker);
            let ghost plain = item;
            if item.request_id.is_none() {
                item.request_id = Some(ids.assign(worker, &item.command));
            }
            cmds.push(item);
            proof {
                let earlier = pack;
                pack = pack.push(plain@);
                assert(pack.drop_last() =~= earlier);
                assert(items(cmds@) =~= items(sent).push(item@));
                assert(item@ == identified(plain@, group[m as int], process, taken));
                assert(call_ensures(command_for, (worker,), plain));
                assert(may_be_made(command_for, group[m as int], pack[m as int]));
            }
            m = m + 1;
        }
        let name: String = groups[g].0.clone();
        out.push((name, cmds));
        proof {
            let earlier = packs;
            packs = packs.push(pack);
            assert(packed(out@) =~= packed(before).push((container, items(cmds@))));
            lemma_packs_so_far(workers@, earlier, packs, process, number, g as int);
        }
        g = g + 1;
    }
    assert(packs_made(command_for, workers@, packs));
    out
}

/// Packs that come later do not change those before them.
proof fn lemma_packs_so_far(
    workers: Seq<WorkerSpec>,
    packs: Seq<Seq<BatchView>>,
    more: Seq<Seq<BatchView>>,
    process: u32,
    number: u64,
    upto: int,
)
    requires
        0 <= upto <= packs.len(),
        upto <= more.len(),
        forall|g: int| 0 <= g < upto ==> packs[g] == more[g],
    ensures
        packed_upto(workers, packs, process, number, upto) == packed_upto(
            workers,
            more,
            process,
            number,
            upto,
        ),
    decreases upto,
{
    if upto > 0 {
        lemma_packs_so_far(workers, packs, more, process, number, upto - 1);
    }
}

/// The worker that the first known client of some commands stands for.
pub open spec fn first_known(cmds: Seq<BatchView>, known: Seq<WorkerSpec>) -> Option<WorkerSpec>
    decreases cmds.len(),
{
    if cmds.len() == 0 {
        None
    } else {
        match workers::known_as(known, cmds[0].client_id) {
            Some(worker) => Some(worker),
            None => first_known(cmds.drop_first(), known),
        }
    }
}

/// The address of the container that a worker runs in: what stands before `/client/` in its own
/// address, without slashes at the end.
pub open spec fn is_base_of(url: Seq<char>, base: Seq<char>) -> bool {
    if text::occurs(url, "/client/"@) {
        exists|at: int| #[trigger]
            text::first_at(url, "/client/"@, at) && base == text::without_trailing(
                url.take(at),
                '/',
            )
    } else {
        base == text::without_trailing(url, '/')
    }
}

/// The address that the commands of a container are sent to.
pub fn batch_physical_base_url(
    physical_id: &str,
    cmds: &[BatchFanoutCommand],
    known: &[WorkerSpec],
) -> (url: String)
    ensures
        match first_known(items(cmds@), known@) {
            Some(worker) => is_base_of(worker.url@, url@),
            None => url@ == "http://"@ + physical_id@ + ":8080"@,
        },
{
    let ghost list = items(cmds@);
    let mut c: usize = 0;
    assert(list.skip(0) =~= list);
    while c < cmds.len()
        invariant
            c <= cmds@.len(),
            list == items(cmds@),
            first_known(list, known@) == first_known(list.skip(c as int), known@),
        decreases cmds@.len() - c,
    {
        assert(list.skip(c as int)[0] == cmds@[c as int]@);
        match workers::find_known(known, cmds[c].client_id.as_str()) {
            Some(worker) => {
                match split_once(worker.url.as_str(), "/client/") {
                    Some((base, _rest)) => {
                        proof {
                            let at = choose|at: int|
                                {
                                    &&& #[trigger] text::first_at(worker.url@, "/client/"@, at)
                                    &&& base@ == worker.url@.take(at)
                                };
                            assert(text::occurs_at(worker.url@, "/client/"@, at));
                        }
                        return trim_end_matches(base.as_str(), '/');
                    },
                    None => {
                        return trim_end_matches(worker.url.as_str(), '/');
                    },
                }
            },
            None => {},
        }
        assert(list.skip(c as int).drop_first() =~= list.skip(c + 1));
        c = c + 1;
    }
    let mut url: String = "http://".to_owned();
    url.append(physical_id);
    url.append(":8080");
    url
}

} // verus!
