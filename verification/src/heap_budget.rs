//! The heap that a worker may use, and what it says when it used too much.

use vstd::prelude::*;

use crate::record;
use crate::text;
use crate::text::{
    chars_of, decimal_text, join, parse_index, parse_u64, replace_char, str_eq, text_of,
    to_ascii_lowercase, trim,
};

verus! {

// ---------------------------------------------------------------------------
// The budget
// ---------------------------------------------------------------------------

/// The heap that a worker may use.
#[derive(Clone, Debug)]
pub struct EmbeddedHeapBudgetConfig {
    pub enabled: bool,
    pub memory_model: String,
    pub app_heap_budget: String,
    pub app_heap_budget_bytes: u64,
    pub docker_memory_limit: String,
    pub resource_profile_id: String,
    pub resource_profile_index: Option<usize>,
}

impl Default for EmbeddedHeapBudgetConfig {
    fn default() -> (config: EmbeddedHeapBudgetConfig)
        ensures
            !config.enabled,
            config.memory_model@.len() == 0,
            config.app_heap_budget@.len() == 0,
            config.app_heap_budget_bytes == 0,
            config.docker_memory_limit@.len() == 0,
            config.resource_profile_id@.len() == 0,
            config.resource_profile_index is None,
    {
        EmbeddedHeapBudgetConfig {
            enabled: false,
            memory_model: String::new(),
            app_heap_budget: String::new(),
            app_heap_budget_bytes: 0,
            docker_memory_limit: String::new(),
            resource_profile_id: String::new(),
            resource_profile_index: None,
        }
    }
}

/// How many digits a text begins with.
pub open spec fn digit_run(s: Seq<char>) -> nat
    decreases s.len(),
{
    if s.len() == 0 || !text::is_digit(s[0]) {
        0
    } else {
        1 + digit_run(s.drop_first())
    }
}

/// The bytes of a unit, in small letters.
pub open spec fn unit_bytes(unit: Seq<char>) -> Option<nat> {
    if unit == ""@ || unit == "b"@ {
        Some(1)
    } else if unit == "k"@ || unit == "kb"@ || unit == "kib"@ {
        Some(1024)
    } else if unit == "m"@ || unit == "mb"@ || unit == "mib"@ {
        Some(1024 * 1024)
    } else if unit == "g"@ || unit == "gb"@ || unit == "gib"@ {
        Some(1024 * 1024 * 1024)
    } else {
        None
    }
}

/// The bytes that a text stands for: a number and perhaps a unit.
pub open spec fn bytes_meant(raw: Seq<char>) -> Option<u64> {
    let given = text::trimmed(raw);
    let n = digit_run(given) as int;
    match (
        text::spelled_up_to(given.take(n), u64::MAX as nat),
        unit_bytes(text::lowered(given.skip(n))),
    ) {
        (Some(value), Some(unit)) => if value * unit <= u64::MAX {
            Some((value * unit) as u64)
        } else {
            None
        },
        _ => None,
    }
}

fn bytes_of_unit(unit: &str) -> (bytes: Option<u64>)
    ensures
        match bytes {
            Some(n) => unit_bytes(unit@) == Some(n as nat),
            None => unit_bytes(unit@) is None,
        },
{
    if str_eq(unit, "") || str_eq(unit, "b") {
        Some(1)
    } else if str_eq(unit, "k") || str_eq(unit, "kb") || str_eq(unit, "kib") {
        Some(1024)
    } else if str_eq(unit, "m") || str_eq(unit, "mb") || str_eq(unit, "mib") {
        Some(1024 * 1024)
    } else if str_eq(unit, "g") || str_eq(unit, "gb") || str_eq(unit, "gib") {
        Some(1024 * 1024 * 1024)
    } else {
        None
    }
}

/// The bytes that a text stands for.
pub fn parse_memory_to_bytes(raw: &str) -> (bytes: Option<u64>)
    ensures
        bytes == bytes_meant(raw@),
{
    let given: String = trim(raw);
    let chars: Vec<char> = chars_of(given.as_str());
    let mut n: usize = 0;
    assert(chars@.skip(0) =~= chars@);
    while n < chars.len() && '0' <= chars[n] && chars[n] <= '9'
        invariant
            n <= chars@.len(),
            digit_run(chars@) == n + digit_run(chars@.skip(n as int)),
        decreases chars@.len() - n,
    {
        assert(chars@.skip(n as int)[0] == chars@[n as int]);
        assert(chars@.skip(n as int).drop_first() =~= chars@.skip(n + 1));
        n = n + 1;
    }
    assert(n < chars@.len() ==> chars@.skip(n as int)[0] == chars@[n as int]);
    assert(digit_run(chars@) == n);
    let digits: String = text_of(&chars, 0, n);
    let unit: String = text_of(&chars, n, chars.len());
    assert(digits@ =~= chars@.take(n as int));
    assert(unit@ =~= chars@.skip(n as int));
    let value: u64 = match parse_u64(digits.as_str()) {
        Some(value) => value,
        None => {
            return None;
        },
    };
    let lowered: String = to_ascii_lowercase(unit.as_str());
    match bytes_of_unit(lowered.as_str()) {
        Some(multiplier) => value.checked_mul(multiplier),
        None => None,
    }
}

/// The number of bytes that is configured: a number of its own, or else the one of the label.
pub open spec fn configured_bytes(label: Seq<char>, bytes: Option<Seq<char>>) -> u64 {
    let given = match bytes {
        Some(raw) => text::spelled_up_to(raw, u64::MAX as nat),
        None => None,
    };
    match given {
        Some(n) => n as u64,
        None => match bytes_meant(label) {
            Some(n) => n,
            None => 0,
        },
    }
}

/// The budget from what the settings say; settings may be missing.
pub fn budget_from_settings(
    memory_model: &Option<String>,
    app_heap_budget: &Option<String>,
    app_heap_budget_bytes: &Option<String>,
    docker_memory_limit: &Option<String>,
    resource_profile_id: &Option<String>,
    resource_profile_index: &Option<String>,
) -> (config: EmbeddedHeapBudgetConfig)
    ensures
        config.memory_model@ == text_or_empty(text::maybe(*memory_model)),
        config.app_heap_budget@ == text_or_empty(text::maybe(*app_heap_budget)),
        config.app_heap_budget_bytes == configured_bytes(
            config.app_heap_budget@,
            text::maybe(*app_heap_budget_bytes),
        ),
        config.enabled == (config.memory_model@ == "app-heap-budget"@
            && config.app_heap_budget_bytes > 0),
        config.docker_memory_limit@ == text_or_empty(text::maybe(*docker_memory_limit)),
        config.resource_profile_id@ == text_or_empty(text::maybe(*resource_profile_id)),
        match config.resource_profile_index {
            Some(n) => resource_profile_index is Some && text::spelled_up_to(
                resource_profile_index->0@,
                usize::MAX as nat,
            ) == Some(n as nat),
            None => resource_profile_index is None || text::spelled_up_to(
                resource_profile_index->0@,
                usize::MAX as nat,
            ) is None,
        },
{
    let model: String = or_empty(memory_model);
    let label: String = or_empty(app_heap_budget);
    let given: Option<u64> = match app_heap_budget_bytes {
        Some(raw) => parse_u64(raw.as_str()),
        None => None,
    };
    let meant: Option<u64> = match given {
        Some(n) => Some(n),
        None => parse_memory_to_bytes(label.as_str()),
    };
    let bytes: u64 = match meant {
        Some(n) => n,
        None => 0,
    };
    let index: Option<usize> = match resource_profile_index {
        Some(raw) => parse_index(raw.as_str()),
        None => None,
    };
    EmbeddedHeapBudgetConfig {
        enabled: str_eq(model.as_str(), "app-heap-budget") && bytes > 0,
        memory_model: model,
        app_heap_budget: label,
        app_heap_budget_bytes: bytes,
        docker_memory_limit: or_empty(docker_memory_limit),
        resource_profile_id: or_empty(resource_profile_id),
        resource_profile_index: index,
    }
}

/// A text, or the empty one where it is missing.
pub open spec fn text_or_empty(text: Option<Seq<char>>) -> Seq<char> {
    match text {
        Some(text) => text,
        None => Seq::empty(),
    }
}

fn or_empty(text: &Option<String>) -> (out: String)
    ensures
        out@ == text_or_empty(text::maybe(*text)),
{
    match text {
        Some(text) => text.clone(),
        None => {
            let none: String = String::new();
            assert(none@ =~= Seq::<char>::empty());
            none
        },
    }
}

// ---------------------------------------------------------------------------
// Operations
// ---------------------------------------------------------------------------

/// The family of operations that a command belongs to.
pub open spec fn family_of(command: Seq<char>, operation: Option<Seq<char>>) -> Seq<char> {
    if command == "GenerateKeyPackage"@ {
        "key_package_create"@
    } else if command == "AddMembers"@ {
        "add_commit_create"@
    } else if command == "JoinFromWelcome"@ {
        "welcome_receive"@
    } else if command == "SendApplicationMessage"@ {
        "application_message_create"@
    } else if command == "ReceiveApplicationMessage"@ {
        "application_message_receive"@
    } else if command == "SelfUpdate"@ {
        "update_commit_create"@
    } else if command == "RemoveMembers"@ {
        "remove_commit_create"@
    } else if command == "ReceiveCommit"@ {
        "commit_receive"@
    } else if command == "ProcessPending"@ {
        match operation {
            Some(given) => given,
            None => "process_pending"@,
        }
    } else if command == "CreateGroup"@ {
        "create_group"@
    } else {
        command
    }
}

/// The family of operations that a command belongs to.
pub fn operation_family_for_command(command_name: &str, benchmark_operation: Option<&str>) -> (
family: String)
    ensures
        family@ == family_of(command_name@, text::named(benchmark_operation)),
{
    if str_eq(command_name, "GenerateKeyPackage") {
        "key_package_create".to_owned()
    } else if str_eq(command_name, "AddMembers") {
        "add_commit_create".to_owned()
    } else if str_eq(command_name, "JoinFromWelcome") {
        "welcome_receive".to_owned()
    } else if str_eq(command_name, "SendApplicationMessage") {
        "application_message_create".to_owned()
    } else if str_eq(command_name, "ReceiveApplicationMessage") {
        "application_message_receive".to_owned()
    } else if str_eq(command_name, "SelfUpdate") {
        "update_commit_create".to_owned()
    } else if str_eq(command_name, "RemoveMembers") {
        "remove_commit_create".to_owned()
    } else if str_eq(command_name, "ReceiveCommit") {
        "commit_receive".to_owned()
    } else if str_eq(command_name, "ProcessPending") {
        match benchmark_operation {
            Some(given) => given.to_owned(),
            None => "process_pending".to_owned(),
        }
    } else if str_eq(command_name, "CreateGroup") {
        "create_group".to_owned()
    } else {
        command_name.to_owned()
    }
}

/// The name of a family of operations in a sentence.
pub open spec fn family_shown(family: Seq<char>) -> Seq<char> {
    if family == "key_package_create"@ {
        "KeyPackageCreate"@
    } else if family == "add_commit_create"@ {
        "AddCommitCreate"@
    } else if family == "welcome_receive"@ {
        "WelcomeReceive"@
    } else if family == "application_message_create"@ {
        "ApplicationMessageCreate"@
    } else if family == "application_message_receive"@ {
        "ApplicationMessageReceive"@
    } else if family == "update_commit_create"@ {
        "UpdateCommitCreate"@
    } else if family == "remove_commit_create"@ {
        "RemoveCommitCreate"@
    } else if family == "commit_receive"@ {
        "CommitReceive"@
    } else if family == "create_group"@ {
        "CreateGroup"@
    } else if family == "process_pending"@ {
        "ProcessPending"@
    } else {
        "OpenMLSOperation"@
    }
}

/// The name of a family of operations in a sentence.
pub fn display_operation(operation_family: &str) -> (name: &'static str)
    ensures
        name@ == family_shown(operation_family@),
{
    if str_eq(operation_family, "key_package_create") {
        "KeyPackageCreate"
    } else if str_eq(operation_family, "add_commit_create") {
        "AddCommitCreate"
    } else if str_eq(operation_family, "welcome_receive") {
        "WelcomeReceive"
    } else if str_eq(operation_family, "application_message_create") {
        "ApplicationMessageCreate"
    } else if str_eq(operation_family, "application_message_receive") {
        "ApplicationMessageReceive"
    } else if str_eq(operation_family, "update_commit_create") {
        "UpdateCommitCreate"
    } else if str_eq(operation_family, "remove_commit_create") {
        "RemoveCommitCreate"
    } else if str_eq(operation_family, "commit_receive") {
        "CommitReceive"
    } else if str_eq(operation_family, "create_group") {
        "CreateGroup"
    } else if str_eq(operation_family, "process_pending") {
        "ProcessPending"
    } else {
        "OpenMLSOperation"
    }
}

/// A number of bytes in a sentence, in the largest unit that divides it.
pub open spec fn budget_shown(bytes: u64) -> Seq<char> {
    if bytes >= 1048576 && bytes % 1048576 == 0 {
        text::decimal((bytes / 1048576) as nat) + " MiB"@
    } else if bytes >= 1024 && bytes % 1024 == 0 {
        text::decimal((bytes / 1024) as nat) + " KiB"@
    } else {
        text::decimal(bytes as nat) + " bytes"@
    }
}

/// A number of bytes in a sentence.
pub fn display_budget(bytes: u64) -> (out: String)
    ensures
        out@ == budget_shown(bytes),
{
    if bytes >= 1048576 && bytes % 1048576 == 0 {
        let mut out: String = decimal_text((bytes / 1048576) as u128);
        out.append(" MiB");
        out
    } else if bytes >= 1024 && bytes % 1024 == 0 {
        let mut out: String = decimal_text((bytes / 1024) as u128);
        out.append(" KiB");
        out
    } else {
        let mut out: String = decimal_text(bytes as u128);
        out.append(" bytes");
        out
    }
}

// ---------------------------------------------------------------------------
// Failures
// ---------------------------------------------------------------------------

/// Which operation of which worker used the heap.
#[derive(Debug)]
pub struct OperationAttribution {
    pub operation_family: String,
    pub benchmark_operation: String,
    pub span_or_phase: String,
    pub member_count: Option<usize>,
    pub epoch: Option<u64>,
    pub worker_id: String,
    pub resource_profile_id: String,
    pub resource_profile_index: Option<usize>,
    pub app_heap_budget: String,
    pub app_heap_budget_bytes: u64,
}

impl Clone for OperationAttribution {
    fn clone(&self) -> (copy: OperationAttribution)
        ensures
            copy == *self,
    {
        OperationAttribution {
            operation_family: self.operation_family.clone(),
            benchmark_operation: self.benchmark_operation.clone(),
            span_or_phase: self.span_or_phase.clone(),
            member_count: self.member_count,
            epoch: self.epoch,
            worker_id: self.worker_id.clone(),
            resource_profile_id: self.resource_profile_id.clone(),
            resource_profile_index: self.resource_profile_index,
            app_heap_budget: self.app_heap_budget.clone(),
            app_heap_budget_bytes: self.app_heap_budget_bytes,
        }
    }
}

/// What is known of the heap at one moment, and of the moment at which the budget was exceeded.
#[derive(Debug, Clone, Copy, PartialEq, Eq)]
pub struct HeapBudgetSnapshot {
    pub budget_exceeded: bool,
    pub configured_heap_budget_bytes: u64,
    pub failure_current_live_heap_bytes: u64,
    pub failure_peak_live_heap_bytes: u64,
    pub failure_operation_peak_live_heap_bytes: u64,
    pub failure_total_allocated_bytes: u64,
    pub failure_allocation_count: u64,
    pub failure_deallocation_count: u64,
    pub failed_allocation_size_bytes: Option<u64>,
}

/// An operation that exceeded the budget.
#[derive(Debug)]
pub struct HeapBudgetFailure {
    pub attribution: OperationAttribution,
    pub snapshot: HeapBudgetSnapshot,
}

/// The failure of an operation, if it exceeded the budget.
pub fn failure_if_exceeded(attribution: &OperationAttribution, snapshot: HeapBudgetSnapshot) -> (
failure: Option<HeapBudgetFailure>)
    ensures
        failure == (if snapshot.budget_exceeded {
            Some(HeapBudgetFailure { attribution: *attribution, snapshot: snapshot })
        } else {
            None
        }),
{
    if snapshot.budget_exceeded {
        Some(HeapBudgetFailure { attribution: attribution.clone(), snapshot: snapshot })
    } else {
        None
    }
}

/// A number, or nothing where it is missing.
pub open spec fn number_or_empty(n: Option<nat>) -> Seq<char> {
    match n {
        Some(n) => text::decimal(n),
        None => Seq::empty(),
    }
}

fn number_text(n: Option<u64>) -> (out: String)
    ensures
        out@ == number_or_empty(
            match n {
                Some(n) => Some(n as nat),
                None => None,
            },
        ),
{
    match n {
        Some(n) => decimal_text(n as u128),
        None => {
            let none: String = String::new();
            assert(none@ =~= Seq::<char>::empty());
            none
        },
    }
}

/// A value with its label.
pub open spec fn labelled(pair: (Seq<char>, Seq<char>)) -> Seq<char> {
    pair.0 + "="@ + pair.1
}

/// Values with their labels.
pub open spec fn all_labelled(pairs: Seq<(Seq<char>, Seq<char>)>) -> Seq<Seq<char>> {
    pairs.map_values(|pair: (Seq<char>, Seq<char>)| labelled(pair))
}

fn label(key: &str, value: &str) -> (out: String)
    ensures
        out@ == labelled((key@, value@)),
{
    let mut out: String = key.to_owned();
    out.append("=");
    out.append(value);
    out
}

impl HeapBudgetFailure {
    /// The values that are told of a failure, with their labels.
    pub open spec fn told(self) -> Seq<(Seq<char>, Seq<char>)> {
        let who = self.attribution;
        let heap = self.snapshot;
        seq![
            ("failure_class"@, "app_heap_budget_exceeded"@),
            ("memory_model"@, "app-heap-budget"@),
            ("operation_family"@, who.operation_family@),
            ("benchmark_operation"@, who.benchmark_operation@),
            ("span_or_phase"@, who.span_or_phase@),
            (
                "member_count"@,
                number_or_empty(
                    match who.member_count {
                        Some(n) => Some(n as nat),
                        None => None,
                    },
                ),
            ),
            (
                "epoch"@,
                number_or_empty(
                    match who.epoch {
                        Some(n) => Some(n as nat),
                        None => None,
                    },
                ),
            ),
            ("worker_id"@, who.worker_id@),
            ("resource_profile_id"@, who.resource_profile_id@),
            (
                "resource_profile_index"@,
                number_or_empty(
                    match who.resource_profile_index {
                        Some(n) => Some(n as nat),
                        None => None,
                    },
                ),
            ),
            ("app_heap_budget"@, who.app_heap_budget@),
            ("app_heap_budget_bytes"@, text::decimal(who.app_heap_budget_bytes as nat)),
            (
                "configured_heap_budget_bytes"@,
                text::decimal(heap.configured_heap_budget_bytes as nat),
            ),
            (
                "current_live_heap_bytes"@,
                text::decimal(heap.failure_current_live_heap_bytes as nat),
            ),
            ("peak_live_heap_bytes"@, text::decimal(heap.failure_peak_live_heap_bytes as nat)),
            (
                "operation_peak_live_heap_bytes"@,
                text::decimal(heap.failure_operation_peak_live_heap_bytes as nat),
            ),
            ("total_allocated_bytes"@, text::decimal(heap.failure_total_allocated_bytes as nat)),
            ("allocation_count"@, text::decimal(heap.failure_allocation_count as nat)),
            ("deallocation_count"@, text::decimal(heap.failure_deallocation_count as nat)),
            (
                "failed_allocation_size_bytes"@,
                number_or_empty(
                    match heap.failed_allocation_size_bytes {
                        Some(n) => Some(n as nat),
                        None => None,
                    },
                ),
            ),
        ]
    }

    /// The sentence on a failure.
    pub open spec fn sentence(self) -> Seq<char> {
        let who = self.attribution;
        let start = "The profiled singleton exceeded the "@ + budget_shown(
            who.app_heap_budget_bytes,
        ) + " application heap budget during "@ + family_shown(who.operation_family@);
        match (who.member_count, who.epoch) {
            (Some(members), Some(epoch)) => start + " at member_count = "@ + text::decimal(
                members as nat,
            ) + ", epoch = "@ + text::decimal(epoch as nat) + "."@,
            (Some(members), None) => start + " at member_count = "@ + text::decimal(members as nat)
                + "."@,
            (None, Some(epoch)) => start + " at epoch = "@ + text::decimal(epoch as nat) + "."@,
            (None, None) => start + "."@,
        }
    }

    /// The message on a failure.
    pub open spec fn message(self) -> Seq<char> {
        "APP_HEAP_BUDGET_EXCEEDED "@ + text::joined(all_labelled(self.told()), " "@) + " detail=\""@
            + text::swapped(self.sentence(), '"', '\'') + "\""@
    }

    /// The sentence on a failure.
    fn human_detail(&self) -> (out: String)
        ensures
            out@ == self.sentence(),
    {
        let mut out: String = "The profiled singleton exceeded the ".to_owned();
        out.append(display_budget(self.attribution.app_heap_budget_bytes).as_str());
        out.append(" application heap budget during ");
        out.append(display_operation(self.attribution.operation_family.as_str()));
        match (self.attribution.member_count, self.attribution.epoch) {
            (Some(members), Some(epoch)) => {
                out.append(" at member_count = ");
                out.append(decimal_text(members as u128).as_str());
                out.append(", epoch = ");
                out.append(decimal_text(epoch as u128).as_str());
                out.append(".");
            },
            (Some(members), None) => {
                out.append(" at member_count = ");
                out.append(decimal_text(members as u128).as_str());
                out.append(".");
            },
            (None, Some(epoch)) => {
                out.append(" at epoch = ");
                out.append(decimal_text(epoch as u128).as_str());
                out.append(".");
            },
            (None, None) => {
                out.append(".");
            },
        }
        out
    }

    /// The message that a worker answers with when it exceeded the budget.
    pub fn to_worker_error_message(&self) -> (out: String)
        ensures
            out@ == self.message(),
    {
        let who: &OperationAttribution = &self.attribution;
        let heap: &HeapBudgetSnapshot = &self.snapshot;
        let members: Option<u64> = match who.member_count {
            Some(n) => Some(n as u64),
            None => None,
        };
        let index: Option<u64> = match who.resource_profile_index {
            Some(n) => Some(n as u64),
            None => None,
        };
        let budget: String = decimal_text(who.app_heap_budget_bytes as u128);
        let configured: String = decimal_text(heap.configured_heap_budget_bytes as u128);
        let current: String = decimal_text(heap.failure_current_live_heap_bytes as u128);
        let peak: String = decimal_text(heap.failure_peak_live_heap_bytes as u128);
        let operation_peak: String = decimal_text(
            heap.failure_operation_peak_live_heap_bytes as u128,
        );
        let total: String = decimal_text(heap.failure_total_allocated_bytes as u128);
        let allocations: String = decimal_text(heap.failure_allocation_count as u128);
        let deallocations: String = decimal_text(heap.failure_deallocation_count as u128);
        let parts: Vec<String> = vec![
            label("failure_class", "app_heap_budget_exceeded"),
            label("memory_model", "app-heap-budget"),
            label("operation_family", who.operation_family.as_str()),
            label("benchmark_operation", who.benchmark_operation.as_str()),
            label("span_or_phase", who.span_or_phase.as_str()),
            label("member_count", number_text(members).as_str()),
            label("epoch", number_text(who.epoch).as_str()),
            label("worker_id", who.worker_id.as_str()),
            label("resource_profile_id", who.resource_profile_id.as_str()),
            label("resource_profile_index", number_text(index).as_str()),
            label("app_heap_budget", who.app_heap_budget.as_str()),
            label("app_heap_budget_bytes", budget.as_str()),
            label("configured_heap_budget_bytes", configured.as_str()),
            label("current_live_heap_bytes", current.as_str()),
            label("peak_live_heap_bytes", peak.as_str()),
            label("operation_peak_live_heap_bytes", operation_peak.as_str()),
            label("total_allocated_bytes", total.as_str()),
            label("allocation_count", allocations.as_str()),
            label("deallocation_count", deallocations.as_str()),
            label(
                "failed_allocation_size_bytes",
                number_text(heap.failed_allocation_size_bytes).as_str(),
            ),
        ];
        assert(text::texts(parts@) =~= all_labelled(self.told()));
        let mut out: String = "APP_HEAP_BUDGET_EXCEEDED ".to_owned();
        out.append(join(&parts, " ").as_str());
        out.append(" detail=\"");
        out.append(replace_char(self.human_detail().as_str(), '"', '\'').as_str());
        out.append("\"");
        out
    }
}

// ---------------------------------------------------------------------------
// Reading a failure back
// ---------------------------------------------------------------------------

/// A value that can be read back from a message: it has no white space and no quotes.
pub open spec fn clean(value: Seq<char>) -> bool {
    &&& text::one_word(value)
    &&& !value.contains('"')
}

/// The place of a label among those that are told.
spec fn label_rank(label: Seq<char>) -> int {
    if label.len() == 5 {
        6
    } else if label.len() == 9 {
        7
    } else if label.len() == 12 {
        if label[3] == 'o' { 1 } else { 5 }
    } else if label.len() == 13 {
        if label[0] == 'f' { 0 } else { 4 }
    } else if label.len() == 15 {
        10
    } else if label.len() == 16 {
        if label[0] == 'o' { 2 } else { 17 }
    } else if label.len() == 18 {
        18
    } else if label.len() == 19 {
        if label[0] == 'b' { 3 } else { 8 }
    } else if label.len() == 20 {
        14
    } else if label.len() == 21 {
        if label[0] == 'a' { 11 } else { 16 }
    } else if label.len() == 22 {
        9
    } else if label.len() == 23 {
        13
    } else if label.len() == 28 {
        if label[0] == 'c' { 12 } else { 19 }
    } else if label.len() == 30 {
        15
    } else {
        -1
    }
}

/// A label has no white space and no `=`.
pub open spec fn is_label(label: Seq<char>) -> bool {
    &&& label.len() > 0
    &&& text::one_word(label)
    &&& !label.contains('=')
}

impl HeapBudgetFailure {
    /// The values that come from outside can be read back.
    pub open spec fn is_clean(self) -> bool {
        &&& clean(self.attribution.operation_family@)
        &&& clean(self.attribution.benchmark_operation@)
        &&& clean(self.attribution.span_or_phase@)
        &&& clean(self.attribution.worker_id@)
        &&& clean(self.attribution.resource_profile_id@)
        &&& clean(self.attribution.app_heap_budget@)
    }
}

proof fn lemma_label_0()
    ensures
        label_rank("failure_class"@) == 0,
        is_label("failure_class"@),
{
    reveal_strlit("failure_class");
}

proof fn lemma_label_1()
    ensures
        label_rank("memory_model"@) == 1,
        is_label("memory_model"@),
{
    reveal_strlit("memory_model");
}

proof fn lemma_label_2()
    ensures
        label_rank("operation_family"@) == 2,
        is_label("operation_family"@),
{
    reveal_strlit("operation_family");
}

proof fn lemma_label_3()
    ensures
        label_rank("benchmark_operation"@) == 3,
        is_label("benchmark_operation"@),
{
    reveal_strlit("benchmark_operation");
}

proof fn lemma_label_4()
    ensures
        label_rank("span_or_phase"@) == 4,
        is_label("span_or_phase"@),
{
    reveal_strlit("span_or_phase");
}

proof fn lemma_label_5()
    ensures
        label_rank("member_count"@) == 5,
        is_label("member_count"@),
{
    reveal_strlit("member_count");
}

proof fn lemma_label_6()
    ensures
        label_rank("epoch"@) == 6,
        is_label("epoch"@),
{
    reveal_strlit("epoch");
}

proof fn lemma_label_7()
    ensures
        label_rank("worker_id"@) == 7,
        is_label("worker_id"@),
{
    reveal_strlit("worker_id");
}

proof fn lemma_label_8()
    ensures
        label_rank("resource_profile_id"@) == 8,
        is_label("resource_profile_id"@),
{
    reveal_strlit("resource_profile_id");
}

proof fn lemma_label_9()
    ensures
        label_rank("resource_profile_index"@) == 9,
        is_label("resource_profile_index"@),
{
    reveal_strlit("resource_profile_index");
}

proof fn lemma_label_10()
    ensures
        label_rank("app_heap_budget"@) == 10,
        is_label("app_heap_budget"@),
{
    reveal_strlit("app_heap_budget");
}

proof fn lemma_label_11()
    ensures
        label_rank("app_heap_budget_bytes"@) == 11,
        is_label("app_heap_budget_bytes"@),
{
    reveal_strlit("app_heap_budget_bytes");
}

proof fn lemma_label_12()
    ensures
        label_rank("configured_heap_budget_bytes"@) == 12,
        is_label("configured_heap_budget_bytes"@),
{
    reveal_strlit("configured_heap_budget_bytes");
}

proof fn lemma_label_13()
    ensures
        label_rank("current_live_heap_bytes"@) == 13,
        is_label("current_live_heap_bytes"@),
{
    reveal_strlit("current_live_heap_bytes");
}

proof fn lemma_label_14()
    ensures
        label_rank("peak_live_heap_bytes"@) == 14,
        is_label("peak_live_heap_bytes"@),
{
    reveal_strlit("peak_live_heap_bytes");
}

proof fn lemma_label_15()
    ensures
        label_rank("operation_peak_live_heap_bytes"@) == 15,
        is_label("operation_peak_live_heap_bytes"@),
{
    reveal_strlit("operation_peak_live_heap_bytes");
}

proof fn lemma_label_16()
    ensures
        label_rank("total_allocated_bytes"@) == 16,
        is_label("total_allocated_bytes"@),
{
    reveal_strlit("total_allocated_bytes");
}

proof fn lemma_label_17()
    ensures
        label_rank("allocation_count"@) == 17,
        is_label("allocation_count"@),
{
    reveal_strlit("allocation_count");
}

proof fn lemma_label_18()
    ensures
        label_rank("deallocation_count"@) == 18,
        is_label("deallocation_count"@),
{
    reveal_strlit("deallocation_count");
}

proof fn lemma_label_19()
    ensures
        label_rank("failed_allocation_size_bytes"@) == 19,
        is_label("failed_allocation_size_bytes"@),
{
    reveal_strlit("failed_allocation_size_bytes");
}

/// The labels differ, and none has white space or `=`.
proof fn lemma_labels(failure: HeapBudgetFailure)
    ensures
        failure.told().len() == 20,
        forall|i: int|
            0 <= i < 20 ==> label_rank((#[trigger] failure.told()[i]).0) == i && is_label(
                failure.told()[i].0,
            ),
{
    lemma_label_0();
    lemma_label_1();
    lemma_label_2();
    lemma_label_3();
    lemma_label_4();
    lemma_label_5();
    lemma_label_6();
    lemma_label_7();
    lemma_label_8();
    lemma_label_9();
    lemma_label_10();
    lemma_label_11();
    lemma_label_12();
    lemma_label_13();
    lemma_label_14();
    lemma_label_15();
    lemma_label_16();
    lemma_label_17();
    lemma_label_18();
    lemma_label_19();
}

/// A number can be read back.
proof fn lemma_number_clean(n: nat)
    ensures
        clean(text::decimal(n)),
{
    text::law_decimal_reads_back(n);
    let s = text::decimal(n);
    assert forall|i: int| 0 <= i < s.len() implies !text::white_space(#[trigger] s[i]) && s[i]
        != '"' by {
        assert(text::is_digit(s[i]));
    }
}

/// Every value that is told can be read back.
proof fn lemma_told_clean(failure: HeapBudgetFailure)
    requires
        failure.is_clean(),
    ensures
        forall|i: int| 0 <= i < 20 ==> clean((#[trigger] failure.told()[i]).1),
{
    let who = failure.attribution;
    let heap = failure.snapshot;
    reveal_strlit("app_heap_budget_exceeded");
    reveal_strlit("app-heap-budget");
    if who.member_count is Some {
        lemma_number_clean(who.member_count->0 as nat);
    }
    if who.epoch is Some {
        lemma_number_clean(who.epoch->0 as nat);
    }
    if who.resource_profile_index is Some {
        lemma_number_clean(who.resource_profile_index->0 as nat);
    }
    if heap.failed_allocation_size_bytes is Some {
        lemma_number_clean(heap.failed_allocation_size_bytes->0 as nat);
    }
    lemma_number_clean(who.app_heap_budget_bytes as nat);
    lemma_number_clean(heap.configured_heap_budget_bytes as nat);
    lemma_number_clean(heap.failure_current_live_heap_bytes as nat);
    lemma_number_clean(heap.failure_peak_live_heap_bytes as nat);
    lemma_number_clean(heap.failure_operation_peak_live_heap_bytes as nat);
    lemma_number_clean(heap.failure_total_allocated_bytes as nat);
    lemma_number_clean(heap.failure_allocation_count as nat);
    lemma_number_clean(heap.failure_deallocation_count as nat);
}

/// A word that begins with a label and `=` has that label.
proof fn lemma_same_label(a: Seq<char>, value: Seq<char>, b: Seq<char>)
    requires
        is_label(a),
        is_label(b),
        text::has_prefix(labelled((a, value)), b + "="@),
    ensures
        a == b,
{
    reveal_strlit("=");
    let word = labelled((a, value));
    let prefix = b + "="@;
    assert(word.subrange(0, prefix.len() as int) == prefix);
    if a.len() < b.len() {
        assert(word[a.len() as int] == '=');
        assert(prefix[a.len() as int] == b[a.len() as int]);
        assert(word.subrange(0, prefix.len() as int)[a.len() as int] == word[a.len() as int]);
        assert(b.contains('='));
    } else {
        assert(prefix[b.len() as int] == '=');
        assert(word.subrange(0, prefix.len() as int)[b.len() as int] == word[b.len() as int]);
        if b.len() < a.len() {
            assert(word[b.len() as int] == a[b.len() as int]);
            assert(a.contains('='));
        }
        assert forall|i: int| 0 <= i < a.len() implies a[i] == b[i] by {
            assert(word.subrange(0, prefix.len() as int)[i] == word[i]);
            assert(prefix[i] == b[i]);
        }
        assert(a =~= b);
    }
}

/// The value of a label among labelled words is the one of the first word with that label.
proof fn lemma_field_at(parts: Seq<Seq<char>>, prefix: Seq<char>, at: int)
    requires
        0 <= at < parts.len(),
        text::has_prefix(parts[at], prefix),
        forall|i: int| 0 <= i < at ==> !text::has_prefix(#[trigger] parts[i], prefix),
    ensures
        record::field_in(parts, prefix) == Some(
            text::without_trailing(
                text::without_leading(parts[at].skip(prefix.len() as int), '"'),
                '"',
            ),
        ),
    decreases at,
{
    if at > 0 {
        assert(!text::has_prefix(parts[0], prefix));
        let rest = parts.drop_first();
        assert forall|i: int| 0 <= i < at - 1 implies !text::has_prefix(
            #[trigger] rest[i],
            prefix,
        ) by {
            assert(rest[i] == parts[i + 1]);
        }
        lemma_field_at(rest, prefix, at - 1);
    }
}

impl HeapBudgetFailure {
    /// The sentence of a message, with its label.
    spec fn quoted_sentence(self) -> Seq<char> {
        "detail=\""@ + text::swapped(self.sentence(), '"', '\'') + "\""@
    }
}

/// The words of a message: its mark, then each labelled value, then the sentence.
proof fn lemma_message_words(failure: HeapBudgetFailure)
    requires
        failure.is_clean(),
    ensures
        ({
            let all = text::words(failure.message());
            let parts = all_labelled(failure.told());
            &&& parts.len() == 20
            &&& all == seq!["APP_HEAP_BUDGET_EXCEEDED"@] + (parts + text::words(
                failure.quoted_sentence(),
            ))
            &&& all.len() > 20
            &&& all[0] == "APP_HEAP_BUDGET_EXCEEDED"@
            &&& forall|i: int| 0 <= i < 20 ==> all[i + 1] == #[trigger] parts[i]
        }),
{
    lemma_labels(failure);
    lemma_told_clean(failure);
    reveal_strlit(" ");
    reveal_strlit("=");
    reveal_strlit("APP_HEAP_BUDGET_EXCEEDED ");
    reveal_strlit("APP_HEAP_BUDGET_EXCEEDED");
    reveal_strlit(" detail=\"");
    reveal_strlit("detail=\"");
    let told = failure.told();
    let parts = all_labelled(told);
    assert forall|i: int| 0 <= i < parts.len() implies (#[trigger] parts[i]).len() > 0
        && text::one_word(parts[i]) by {
        let pair = told[i];
        assert(is_label(pair.0) && clean(pair.1));
        assert(parts[i] == labelled(pair));
        assert forall|k: int| 0 <= k < parts[i].len() implies !text::white_space(
            #[trigger] parts[i][k],
        ) by {
            if k < pair.0.len() {
                assert(parts[i][k] == pair.0[k]);
            } else if k > pair.0.len() {
                assert(parts[i][k] == pair.1[k - pair.0.len() - 1]);
            }
        }
    }
    assert(" "@ =~= seq![' ']);
    text::lemma_words_joined(parts);
    let middle = text::joined(parts, " "@);
    let mark = "APP_HEAP_BUDGET_EXCEEDED"@;
    let sentence = failure.quoted_sentence();
    assert("APP_HEAP_BUDGET_EXCEEDED "@ =~= mark + seq![' ']);
    assert(" detail=\""@ =~= seq![' '] + "detail=\""@);
    assert(failure.message() =~= mark + seq![' '] + (middle + seq![' '] + sentence));
    text::lemma_words_apart(mark, middle + seq![' '] + sentence);
    text::lemma_words_apart(middle, sentence);
    text::lemma_word(mark);
    let all = text::words(failure.message());
    assert(all =~= seq![mark] + (parts + text::words(sentence)));
}

/// Each value that a failure tells is read back from its message under its label. The mark of the
/// message is none of the labelled values.
pub proof fn law_failure_reads_back(failure: HeapBudgetFailure, i: int)
    requires
        failure.is_clean(),
        0 <= i < failure.told().len(),
    ensures
        record::field(failure.message(), failure.told()[i].0) == Some(failure.told()[i].1),
{
    lemma_labels(failure);
    lemma_told_clean(failure);
    lemma_message_words(failure);
    reveal_strlit("=");
    reveal_strlit("APP_HEAP_BUDGET_EXCEEDED");
    let told = failure.told();
    let parts = all_labelled(told);
    let all = text::words(failure.message());
    let key = told[i].0;
    let value = told[i].1;
    let prefix = key + "="@;
    assert(is_label(key) && clean(value));
    assert(parts[i] == labelled(told[i]));
    assert(all[i + 1] == key + "="@ + value);
    assert(all[i + 1].subrange(0, prefix.len() as int) =~= prefix);
    assert forall|j: int| 0 <= j < i + 1 implies !text::has_prefix(#[trigger] all[j], prefix) by {
        if j == 0 {
            if text::has_prefix(all[0], prefix) {
                assert(all[0].subrange(0, prefix.len() as int)[key.len() as int]
                    == prefix[key.len() as int]);
            }
        } else {
            assert(all[(j - 1) + 1] == parts[j - 1]);
            assert(parts[j - 1] == labelled(told[j - 1]));
            assert(is_label(told[j - 1].0));
            if text::has_prefix(all[j], prefix) {
                lemma_same_label(told[j - 1].0, told[j - 1].1, key);
                assert(label_rank(told[j - 1].0) == j - 1 && label_rank(key) == i);
            }
        }
    }
    lemma_field_at(all, prefix, i + 1);
    assert(all[i + 1].skip(prefix.len() as int) =~= value);
    if value.len() > 0 {
        assert(value.contains(value[0]) && value.contains(value.last()));
    }
}

/// Each `=` of a text stands behind a blank.
spec fn apart(s: Seq<char>) -> bool {
    forall|i: int| 0 <= i < s.len() && #[trigger] s[i] == '=' ==> i > 0 && s[i - 1] == ' '
}

proof fn lemma_apart_together(a: Seq<char>, b: Seq<char>)
    requires
        apart(a),
        apart(b),
    ensures
        apart(a + b),
{
    let s = a + b;
    assert forall|i: int| 0 <= i < s.len() && #[trigger] s[i] == '=' implies i > 0 && s[i - 1]
        == ' ' by {
        if i < a.len() {
            assert(a[i] == '=');
        } else {
            assert(b[i - a.len()] == '=');
        }
    }
}

proof fn lemma_number_apart(n: nat)
    ensures
        apart(text::decimal(n)),
{
    text::law_decimal_reads_back(n);
    let s = text::decimal(n);
    assert forall|i: int| 0 <= i < s.len() implies #[trigger] s[i] != '=' by {
        assert(text::is_digit(s[i]));
    }
}

proof fn lemma_family_apart(family: Seq<char>)
    ensures
        apart(family_shown(family)),
{
    reveal_strlit("KeyPackageCreate");
    reveal_strlit("AddCommitCreate");
    reveal_strlit("WelcomeReceive");
    reveal_strlit("ApplicationMessageCreate");
    reveal_strlit("ApplicationMessageReceive");
    reveal_strlit("UpdateCommitCreate");
    reveal_strlit("RemoveCommitCreate");
    reveal_strlit("CommitReceive");
    reveal_strlit("CreateGroup");
    reveal_strlit("ProcessPending");
    reveal_strlit("OpenMLSOperation");
}

proof fn lemma_budget_apart(bytes: u64)
    ensures
        apart(budget_shown(bytes)),
{
    reveal_strlit(" MiB");
    reveal_strlit(" KiB");
    reveal_strlit(" bytes");
    lemma_number_apart((bytes / 1048576) as nat);
    lemma_number_apart((bytes / 1024) as nat);
    lemma_number_apart(bytes as nat);
    lemma_apart_together(text::decimal((bytes / 1048576) as nat), " MiB"@);
    lemma_apart_together(text::decimal((bytes / 1024) as nat), " KiB"@);
    lemma_apart_together(text::decimal(bytes as nat), " bytes"@);
}

/// The sentence on a failure starts with one short word, and each `=` in it stands alone.
proof fn lemma_sentence_apart(failure: HeapBudgetFailure)
    ensures
        apart(failure.sentence()),
        failure.sentence().len() > 4,
        failure.sentence()[0] == 'T',
        failure.sentence()[1] == 'h',
        failure.sentence()[2] == 'e',
        failure.sentence()[3] == ' ',
        failure.sentence()[4] == 'p',
{
    let who = failure.attribution;
    let a = "The profiled singleton exceeded the "@;
    let b = a + budget_shown(who.app_heap_budget_bytes);
    let c = b + " application heap budget during "@;
    let start = c + family_shown(who.operation_family@);
    reveal_strlit("The profiled singleton exceeded the ");
    reveal_strlit(" application heap budget during ");
    reveal_strlit(" at member_count = ");
    reveal_strlit(", epoch = ");
    reveal_strlit(" at epoch = ");
    reveal_strlit(".");
    lemma_budget_apart(who.app_heap_budget_bytes);
    lemma_family_apart(who.operation_family@);
    lemma_apart_together(a, budget_shown(who.app_heap_budget_bytes));
    lemma_apart_together(b, " application heap budget during "@);
    lemma_apart_together(c, family_shown(who.operation_family@));
    match (who.member_count, who.epoch) {
        (Some(members), Some(epoch)) => {
            let d = start + " at member_count = "@;
            let e = d + text::decimal(members as nat);
            let f = e + ", epoch = "@;
            let g = f + text::decimal(epoch as nat);
            lemma_number_apart(members as nat);
            lemma_number_apart(epoch as nat);
            lemma_apart_together(start, " at member_count = "@);
            lemma_apart_together(d, text::decimal(members as nat));
            lemma_apart_together(e, ", epoch = "@);
            lemma_apart_together(f, text::decimal(epoch as nat));
            lemma_apart_together(g, "."@);
        },
        (Some(members), None) => {
            let d = start + " at member_count = "@;
            let e = d + text::decimal(members as nat);
            lemma_number_apart(members as nat);
            lemma_apart_together(start, " at member_count = "@);
            lemma_apart_together(d, text::decimal(members as nat));
            lemma_apart_together(e, "."@);
        },
        (None, Some(epoch)) => {
            let d = start + " at epoch = "@;
            let e = d + text::decimal(epoch as nat);
            lemma_number_apart(epoch as nat);
            lemma_apart_together(start, " at epoch = "@);
            lemma_apart_together(d, text::decimal(epoch as nat));
            lemma_apart_together(e, "."@);
        },
        (None, None) => {
            lemma_apart_together(start, "."@);
        },
    }
}

/// Where each `=` stands behind a blank, it is the first character of its word.
proof fn lemma_words_of_apart(s: Seq<char>)
    requires
        apart(s),
    ensures
        forall|k: int, j: int|
            0 <= k < text::words(s).len() && 0 < j < text::words(s)[k].len() ==> #[trigger] text::words(
                s,
            )[k][j] != '=',
    decreases s.len(),
{
    if s.len() > 0 {
        let front = s.drop_last();
        assert(apart(front)) by {
            assert forall|i: int| 0 <= i < front.len() && #[trigger] front[i] == '=' implies i > 0
                && front[i - 1] == ' ' by {
                assert(s[i] == '=');
            }
        }
        lemma_words_of_apart(front);
        assert(s[s.len() - 1] == '=' ==> s.len() > 1 && s[s.len() - 2] == ' ');
        let all = text::words(s);
        let before = text::words(front);
        assert forall|k: int, j: int|
            0 <= k < all.len() && 0 < j < all[k].len() implies #[trigger] all[k][j] != '=' by {
            if k < before.len() && all[k] == before[k] {
                assert(before[k][j] != '=');
            } else if j < all[k].len() - 1 {
                assert(all[k][j] == before[k][j]);
            }
        }
    }
}

proof fn lemma_no_field(parts: Seq<Seq<char>>, prefix: Seq<char>)
    requires
        forall|i: int| 0 <= i < parts.len() ==> !text::has_prefix(#[trigger] parts[i], prefix),
    ensures
        record::field_in(parts, prefix) is None,
    decreases parts.len(),
{
    if parts.len() > 0 {
        assert(!text::has_prefix(parts[0], prefix));
        let rest = parts.drop_first();
        assert forall|i: int| 0 <= i < rest.len() implies !text::has_prefix(
            #[trigger] rest[i],
            prefix,
        ) by {
            assert(rest[i] == parts[i + 1]);
        }
        lemma_no_field(rest, prefix);
    }
}

/// No word of the quoted sentence but the first has a label.
proof fn lemma_quoted_words(failure: HeapBudgetFailure, key: Seq<char>)
    requires
        is_label(key),
        key != "detail"@,
    ensures
        forall|i: int|
            0 <= i < text::words(failure.quoted_sentence()).len() ==> !text::has_prefix(
                #[trigger] text::words(failure.quoted_sentence())[i],
                key + "="@,
            ),
{
    reveal_strlit("=");
    reveal_strlit("detail");
    reveal_strlit("detail=\"");
    reveal_strlit("\"");
    lemma_sentence_apart(failure);
    let prefix = key + "="@;
    let inner = text::swapped(failure.sentence(), '"', '\'');
    let quoted = failure.quoted_sentence();
    let head = "detail=\""@ + inner.take(3);
    let tail = inner.skip(4) + "\""@;
    assert(quoted =~= head + seq![' '] + tail);
    text::lemma_words_apart(head, tail);
    assert(text::one_word(head));
    text::lemma_word(head);
    assert(apart(tail)) by {
        assert forall|i: int| 0 <= i < tail.len() && #[trigger] tail[i] == '=' implies i > 0
            && tail[i - 1] == ' ' by {
            assert(failure.sentence()[i + 4] == '=');
            assert(failure.sentence()[i + 3] == ' ');
        }
    }
    lemma_words_of_apart(tail);
    let words = text::words(quoted);
    assert forall|i: int| 0 <= i < words.len() implies !text::has_prefix(
        #[trigger] words[i],
        prefix,
    ) by {
        if text::has_prefix(words[i], prefix) {
            assert(words[i].subrange(0, prefix.len() as int)[key.len() as int]
                == prefix[key.len() as int]);
            if i == 0 {
                assert(words[0] == head);
                assert(is_label("detail"@));
                let value = head.skip(7);
                assert(head =~= labelled(("detail"@, value)));
                lemma_same_label("detail"@, value, key);
            } else {
                assert(words[i] == text::words(tail)[i - 1]);
                assert(text::words(tail)[i - 1][key.len() as int] == '=');
            }
        }
    }
}

/// A label that is none of those that a failure tells, and not the one of its sentence, is not
/// found in its message.
pub proof fn law_other_labels_are_not_found(failure: HeapBudgetFailure, key: Seq<char>)
    requires
        failure.is_clean(),
        is_label(key),
        key != "detail"@,
        forall|i: int| 0 <= i < failure.told().len() ==> (#[trigger] failure.told()[i]).0 != key,
    ensures
        record::field(failure.message(), key) is None,
{
    lemma_labels(failure);
    lemma_message_words(failure);
    lemma_quoted_words(failure, key);
    reveal_strlit("=");
    reveal_strlit("APP_HEAP_BUDGET_EXCEEDED");
    let told = failure.told();
    let parts = all_labelled(told);
    let all = text::words(failure.message());
    let prefix = key + "="@;
    assert forall|j: int| 0 <= j < all.len() implies !text::has_prefix(#[trigger] all[j], prefix) by {
        if text::has_prefix(all[j], prefix) {
            if j == 0 {
                assert(all[0].subrange(0, prefix.len() as int)[key.len() as int]
                    == prefix[key.len() as int]);
            } else if j <= 20 {
                assert(all[(j - 1) + 1] == parts[j - 1]);
                assert(parts[j - 1] == labelled(told[j - 1]));
                assert(is_label(told[j - 1].0));
                lemma_same_label(told[j - 1].0, told[j - 1].1, key);
            } else {
                assert(all[j] == text::words(failure.quoted_sentence())[j - 21]);
            }
        }
    }
    lemma_no_field(all, prefix);
}

/// A number that a failure does not know is told as an empty value, and read back as one.
pub proof fn law_unknown_numbers_are_empty(failure: HeapBudgetFailure)
    requires
        failure.is_clean(),
    ensures
        failure.attribution.member_count is None ==> record::field(
            failure.message(),
            "member_count"@,
        ) == Some(Seq::<char>::empty()),
        failure.attribution.epoch is None ==> record::field(failure.message(), "epoch"@) == Some(
            Seq::<char>::empty(),
        ),
{
    law_failure_reads_back(failure, 5);
    law_failure_reads_back(failure, 6);
    assert(failure.told()[5].0 == "member_count"@);
    assert(failure.told()[6].0 == "epoch"@);
}

/// A number that a failure tells is read back from its message.
proof fn lemma_number_told(failure: HeapBudgetFailure, i: int, key: Seq<char>, n: u64)
    requires
        failure.is_clean(),
        0 <= i < failure.told().len(),
        failure.told()[i].0 == key,
        failure.told()[i].1 == text::decimal(n as nat),
    ensures
        record::number_field(failure.message(), key, u64::MAX as nat) == Some(n as nat),
{
    law_failure_reads_back(failure, i);
    text::law_decimal_reads_back(n as nat);
}

/// What is known of the heap of an operation that exceeded its budget stands among the measurements
/// later, column by column, once the message on it was read.
pub proof fn law_heap_among_the_measurements(
    failure: HeapBudgetFailure,
    blank: record::HeapFacts,
    facts: record::HeapFacts,
)
    requires
        failure.is_clean(),
        blank.is_unknown(),
        facts.told(blank, failure.message()),
    ensures
        text::maybe(facts.memory_model) == Some("app-heap-budget"@),
        text::maybe(facts.app_heap_budget) == Some(failure.attribution.app_heap_budget@),
        facts.app_heap_budget_bytes == Some(failure.attribution.app_heap_budget_bytes),
        facts.heap_current_live_bytes == Some(failure.snapshot.failure_current_live_heap_bytes),
        facts.heap_peak_live_bytes == Some(failure.snapshot.failure_peak_live_heap_bytes),
        facts.heap_operation_peak_live_bytes == Some(failure.snapshot.failure_operation_peak_live_heap_bytes),
        facts.heap_total_allocated_bytes == Some(failure.snapshot.failure_total_allocated_bytes),
        facts.heap_allocation_count == Some(failure.snapshot.failure_allocation_count),
        facts.heap_deallocation_count == Some(failure.snapshot.failure_deallocation_count),
        failure.snapshot.failed_allocation_size_bytes is Some
            ==> facts.heap_failed_allocation_size_bytes
            == failure.snapshot.failed_allocation_size_bytes,
        text::maybe(facts.operation_family) == Some(failure.attribution.operation_family@),
        failure.attribution.member_count is Some ==> facts.member_count
            == failure.attribution.member_count && facts.member_count_before
            == failure.attribution.member_count,
        failure.attribution.epoch is Some ==> facts.group_epoch == failure.attribution.epoch,
{
    law_failure_reads_back(failure, 1);
    law_failure_reads_back(failure, 2);
    law_failure_reads_back(failure, 10);
    lemma_number_told(failure, 11, "app_heap_budget_bytes"@, failure.attribution.app_heap_budget_bytes);
    lemma_number_told(failure, 13, "current_live_heap_bytes"@, failure.snapshot.failure_current_live_heap_bytes);
    lemma_number_told(failure, 14, "peak_live_heap_bytes"@, failure.snapshot.failure_peak_live_heap_bytes);
    lemma_number_told(failure, 15, "operation_peak_live_heap_bytes"@, failure.snapshot.failure_operation_peak_live_heap_bytes);
    lemma_number_told(failure, 16, "total_allocated_bytes"@, failure.snapshot.failure_total_allocated_bytes);
    lemma_number_told(failure, 17, "allocation_count"@, failure.snapshot.failure_allocation_count);
    lemma_number_told(failure, 18, "deallocation_count"@, failure.snapshot.failure_deallocation_count);
    if let Some(n) = failure.snapshot.failed_allocation_size_bytes {
        lemma_number_told(failure, 19, "failed_allocation_size_bytes"@, n);
    }
    if let Some(n) = failure.attribution.epoch {
        lemma_number_told(failure, 6, "epoch"@, n);
    }
    if let Some(n) = failure.attribution.member_count {
        law_failure_reads_back(failure, 5);
        text::law_decimal_reads_back(n as nat);
    }
}

} // verus!
