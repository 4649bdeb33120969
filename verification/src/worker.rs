//! A worker process: what it is started with, the clients it holds, and whom a command is for.

use vstd::prelude::*;

use crate::table::IdSet;
use crate::text;
use crate::text::{parse_index, split, str_eq, trim};
use crate::transport::CommandResponse;
use crate::units::number_or;

verus! {

pub const DEFAULT_COMMAND_QUEUE_CAPACITY: usize = 128;

pub const DEFAULT_PACKED_INTERNAL_PARALLELISM: usize = 4;

pub const DEFAULT_IDEMPOTENCY_CACHE_SIZE: usize = 16_384;

pub const DEFAULT_IDEMPOTENCY_CACHE_TTL_SECONDS: u64 = 21_600;

// ---------------------------------------------------------------------------
// Arguments
// ---------------------------------------------------------------------------

/// What was read of the arguments.
#[derive(Debug)]
pub struct GivenArgs {
    pub name: Option<String>,
    pub clients: Option<Vec<String>>,
    pub profile_enabled_ids: Option<Vec<String>>,
    pub profile_path_template: Option<String>,
    pub packed_parallelism: Option<usize>,
    pub ds_url: Option<String>,
    pub relay_url: Option<String>,
    /// Every address to listen at, in the order in which they were given. The last one counts.
    pub listen_addrs: Vec<String>,
    /// The arguments end where an address to listen at should stand.
    pub listen_addr_missing: bool,
}

/// What was read of the arguments.
#[verifier::ext_equal]
pub struct GivenView {
    pub name: Option<Seq<char>>,
    pub clients: Option<Seq<Seq<char>>>,
    pub profile_enabled_ids: Option<Seq<Seq<char>>>,
    pub profile_path_template: Option<Seq<char>>,
    pub packed_parallelism: Option<nat>,
    pub ds_url: Option<Seq<char>>,
    pub relay_url: Option<Seq<char>>,
    pub listen_addrs: Seq<Seq<char>>,
    pub listen_addr_missing: bool,
}

/// The contents of a list of texts that may be missing.
pub open spec fn maybe_list(list: Option<Vec<String>>) -> Option<Seq<Seq<char>>> {
    match list {
        Some(list) => Some(text::texts(list@)),
        None => None,
    }
}

impl View for GivenArgs {
    type V = GivenView;

    open spec fn view(&self) -> GivenView {
        GivenView {
            name: text::maybe(self.name),
            clients: maybe_list(self.clients),
            profile_enabled_ids: maybe_list(self.profile_enabled_ids),
            profile_path_template: text::maybe(self.profile_path_template),
            packed_parallelism: match self.packed_parallelism {
                Some(n) => Some(n as nat),
                None => None,
            },
            ds_url: text::maybe(self.ds_url),
            relay_url: text::maybe(self.relay_url),
            listen_addrs: text::texts(self.listen_addrs@),
            listen_addr_missing: self.listen_addr_missing,
        }
    }
}

/// Nothing was read.
pub open spec fn nothing_given() -> GivenView {
    GivenView {
        name: None,
        clients: None,
        profile_enabled_ids: None,
        profile_path_template: None,
        packed_parallelism: None,
        ds_url: None,
        relay_url: None,
        listen_addrs: Seq::empty(),
        listen_addr_missing: false,
    }
}

/// The items of a list with commas, without the space around them.
pub open spec fn listed(raw: Seq<char>) -> Seq<Seq<char>> {
    text::pieces(raw, ',').map_values(|piece: Seq<char>| text::trimmed(piece))
}

/// Whether an argument takes the one after it as its value.
pub open spec fn takes_value(flag: Seq<char>) -> bool {
    ||| flag == "--name"@
    ||| flag == "--clients"@
    ||| flag == "--profile-enabled-client-ids"@
    ||| flag == "--profile-path-template"@
    ||| flag == "--packed-worker-internal-parallelism"@
    ||| flag == "--ds-url"@
    ||| flag == "--relay-url"@
    ||| flag == "--listen-addr"@
}

impl GivenView {
    /// What is known after one more argument and its value, if there is one: a text without a value
    /// is forgotten, a list or a number without one stays.
    pub open spec fn with(self, flag: Seq<char>, value: Option<Seq<char>>) -> GivenView {
        if flag == "--name"@ {
            GivenView { name: value, ..self }
        } else if flag == "--clients"@ {
            match value {
                Some(raw) => GivenView { clients: Some(listed(raw)), ..self },
                None => self,
            }
        } else if flag == "--profile-enabled-client-ids"@ {
            match value {
                Some(raw) => GivenView { profile_enabled_ids: Some(listed(raw)), ..self },
                None => self,
            }
        } else if flag == "--profile-path-template"@ {
            GivenView { profile_path_template: value, ..self }
        } else if flag == "--packed-worker-internal-parallelism"@ {
            match value {
                Some(raw) => GivenView {
                    packed_parallelism: text::spelled_up_to(raw, usize::MAX as nat),
                    ..self
                },
                None => self,
            }
        } else if flag == "--ds-url"@ {
            GivenView { ds_url: value, ..self }
        } else if flag == "--relay-url"@ {
            GivenView { relay_url: value, ..self }
        } else if flag == "--listen-addr"@ {
            match value {
                Some(raw) => GivenView { listen_addrs: self.listen_addrs.push(raw), ..self },
                None => GivenView { listen_addr_missing: true, ..self },
            }
        } else {
            self
        }
    }
}

/// What is known once the arguments from a place on are read.
pub open spec fn given_from(args: Seq<Seq<char>>, at: int, before: GivenView) -> GivenView
    decreases args.len() - at,
{
    if at < 0 || at >= args.len() {
        before
    } else if takes_value(args[at]) {
        if at + 1 < args.len() {
            given_from(args, at + 2, before.with(args[at], Some(args[at + 1])))
        } else {
            before.with(args[at], None)
        }
    } else {
        given_from(args, at + 1, before)
    }
}

/// The items of a list with commas, without the space around them.
fn list_items(raw: &str) -> (items: Vec<String>)
    ensures
        text::texts(items@) == listed(raw@),
{
    let pieces: Vec<String> = split(raw, ',');
    let ghost cut = text::pieces(raw@, ',');
    let mut items: Vec<String> = Vec::new();
    let mut i: usize = 0;
    while i < pieces.len()
        invariant
            i <= pieces@.len(),
            cut == text::texts(pieces@),
            items@.len() == i,
            forall|j: int| 0 <= j < i ==> (#[trigger] items@[j])@ == text::trimmed(cut[j]),
        decreases pieces@.len() - i,
    {
        assert(cut[i as int] == pieces@[i as int]@);
        items.push(trim(pieces[i].as_str()));
        i = i + 1;
    }
    assert(text::texts(items@) =~= listed(raw@));
    items
}

/// Whether an argument takes the one after it as its value.
fn wants_value(flag: &str) -> (yes: bool)
    ensures
        yes == takes_value(flag@),
{
    str_eq(flag, "--name") || str_eq(flag, "--clients") || str_eq(
        flag,
        "--profile-enabled-client-ids",
    ) || str_eq(flag, "--profile-path-template") || str_eq(
        flag,
        "--packed-worker-internal-parallelism",
    ) || str_eq(flag, "--ds-url") || str_eq(flag, "--relay-url") || str_eq(flag, "--listen-addr")
}

/// A copy of a borrowed text that may be missing.
fn owned(value: Option<&str>) -> (out: Option<String>)
    ensures
        text::maybe(out) == text::named(value),
{
    match value {
        Some(value) => Some(value.to_owned()),
        None => None,
    }
}

impl GivenArgs {
    /// Reads one more argument and its value, if there is one.
    fn note(&mut self, flag: &str, value: Option<&str>)
        requires
            takes_value(flag@),
        ensures
            final(self)@ == old(self)@.with(flag@, text::named(value)),
    {
        let ghost start = self@;
        let ghost wanted = start.with(flag@, text::named(value));
        if str_eq(flag, "--name") {
            self.name = owned(value);
        } else if str_eq(flag, "--clients") {
            match value {
                Some(raw) => {
                    self.clients = Some(list_items(raw));
                },
                None => {},
            }
        } else if str_eq(flag, "--profile-enabled-client-ids") {
            match value {
                Some(raw) => {
                    self.profile_enabled_ids = Some(list_items(raw));
                },
                None => {},
            }
        } else if str_eq(flag, "--profile-path-template") {
            self.profile_path_template = owned(value);
        } else if str_eq(flag, "--packed-worker-internal-parallelism") {
            match value {
                Some(raw) => {
                    self.packed_parallelism = parse_index(raw);
                },
                None => {},
            }
        } else if str_eq(flag, "--ds-url") {
            self.ds_url = owned(value);
        } else if str_eq(flag, "--relay-url") {
            self.relay_url = owned(value);
        } else {
            match value {
                Some(raw) => {
                    let addr: String = raw.to_owned();
                    let ghost before = self.listen_addrs@;
                    self.listen_addrs.push(addr);
                    assert(text::texts(self.listen_addrs@) =~= text::texts(before).push(raw@));
                },
                None => {
                    self.listen_addr_missing = true;
                },
            }
        }
        assert(self@ =~= wanted);
    }
}

/// Reads the arguments, without the name of the program.
pub fn read_args(args: &Vec<String>) -> (given: GivenArgs)
    ensures
        given@ == given_from(text::texts(args@), 0, nothing_given()),
{
    let ghost all = text::texts(args@);
    let mut given: GivenArgs = GivenArgs {
        name: None,
        clients: None,
        profile_enabled_ids: None,
        profile_path_template: None,
        packed_parallelism: None,
        ds_url: None,
        relay_url: None,
        listen_addrs: Vec::new(),
        listen_addr_missing: false,
    };
    assert(given@ =~= nothing_given());
    let mut i: usize = 0;
    while i < args.len()
        invariant
            i <= args@.len(),
            all == text::texts(args@),
            given_from(all, i as int, given@) == given_from(all, 0, nothing_given()),
        decreases args@.len() - i,
    {
        let flag: &str = args[i].as_str();
        assert(all[i as int] == flag@);
        if wants_value(flag) {
            if i + 1 < args.len() {
                assert(all[i + 1] == args@[i + 1]@);
                given.note(flag, Some(args[i + 1].as_str()));
                i = i + 2;
            } else {
                given.note(flag, None);
                i = i + 1;
                assert(given_from(all, i as int, given@) == given@);
            }
        } else {
            i = i + 1;
        }
    }
    given
}

/// What a worker process is started with.
#[derive(Debug)]
pub struct WorkerArgs {
    pub name: String,
    pub client_ids: Vec<String>,
    pub profile_enabled_ids: Option<Vec<String>>,
    pub profile_path_template: Option<String>,
    pub internal_parallelism: usize,
    pub ds_url: String,
    pub relay_url: String,
}

/// What is missing in the arguments.
pub open spec fn missing_arg(given: GivenView) -> Option<Seq<char>> {
    if given.listen_addr_missing {
        Some("Missing value after --listen-addr"@)
    } else if given.name is None {
        Some("Missing --name"@)
    } else if given.ds_url is None {
        Some("Missing --ds-url"@)
    } else if given.relay_url is None {
        Some("Missing --relay-url"@)
    } else {
        None
    }
}

impl WorkerArgs {
    /// What a worker process is started with: without a list of clients it holds the one that bears
    /// its name.
    pub open spec fn is_from(self, given: GivenView) -> bool {
        &&& Some(self.name@) == given.name
        &&& text::texts(self.client_ids@) == (match given.clients {
            Some(ids) => ids,
            None => seq![self.name@],
        })
        &&& maybe_list(self.profile_enabled_ids) == given.profile_enabled_ids
        &&& text::maybe(self.profile_path_template) == given.profile_path_template
        &&& self.internal_parallelism as nat == (match given.packed_parallelism {
            Some(n) => n,
            None => DEFAULT_PACKED_INTERNAL_PARALLELISM as nat,
        })
        &&& Some(self.ds_url@) == given.ds_url
        &&& Some(self.relay_url@) == given.relay_url
    }
}

impl GivenArgs {
    /// What the worker process is started with, unless something is missing.
    pub fn finish(self) -> (args: Result<WorkerArgs, String>)
        ensures
            match missing_arg(self@) {
                Some(error) => args is Err && args->Err_0@ == error,
                None => args is Ok && args->Ok_0.is_from(self@),
            },
    {
        if self.listen_addr_missing {
            return Err("Missing value after --listen-addr".to_owned());
        }
        let name: String = match self.name {
            Some(name) => name,
            None => {
                return Err("Missing --name".to_owned());
            },
        };
        let ds_url: String = match self.ds_url {
            Some(url) => url,
            None => {
                return Err("Missing --ds-url".to_owned());
            },
        };
        let relay_url: String = match self.relay_url {
            Some(url) => url,
            None => {
                return Err("Missing --relay-url".to_owned());
            },
        };
        let client_ids: Vec<String> = match self.clients {
            Some(ids) => ids,
            None => {
                let mut ids: Vec<String> = Vec::new();
                ids.push(name.as_str().to_owned());
                assert(text::texts(ids@) =~= seq![name@]);
                ids
            },
        };
        let internal_parallelism: usize = match self.packed_parallelism {
            Some(n) => n,
            None => DEFAULT_PACKED_INTERNAL_PARALLELISM,
        };
        Ok(
            WorkerArgs {
                name,
                client_ids,
                profile_enabled_ids: self.profile_enabled_ids,
                profile_path_template: self.profile_path_template,
                internal_parallelism,
                ds_url,
                relay_url,
            },
        )
    }
}

// ---------------------------------------------------------------------------
// Settings
// ---------------------------------------------------------------------------

/// A setting as a number, if it is there and spells one.
pub open spec fn setting(value: Option<Seq<char>>, max: nat) -> Option<nat> {
    match value {
        Some(raw) => text::spelled_up_to(raw, max),
        None => None,
    }
}

/// How many commands may wait for a client: a setting that is a number above zero, or the default.
pub fn command_queue_capacity(value: Option<&str>) -> (capacity: usize)
    ensures
        capacity as nat == (match setting(text::named(value), usize::MAX as nat) {
            Some(n) => if n > 0 {
                n
            } else {
                DEFAULT_COMMAND_QUEUE_CAPACITY as nat
            },
            None => DEFAULT_COMMAND_QUEUE_CAPACITY as nat,
        }),
        capacity > 0,
{
    let read: Option<usize> = match value {
        Some(raw) => parse_index(raw),
        None => None,
    };
    match read {
        Some(n) => if n > 0 {
            n
        } else {
            DEFAULT_COMMAND_QUEUE_CAPACITY
        },
        None => DEFAULT_COMMAND_QUEUE_CAPACITY,
    }
}

/// How many answers are kept for requests that come again: a setting that is a number, or the
/// default.
pub fn idempotency_cache_size(value: Option<&str>) -> (size: usize)
    ensures
        size as nat == (match setting(text::named(value), usize::MAX as nat) {
            Some(n) => n,
            None => DEFAULT_IDEMPOTENCY_CACHE_SIZE as nat,
        }),
{
    let read: Option<usize> = match value {
        Some(raw) => parse_index(raw),
        None => None,
    };
    match read {
        Some(n) => n,
        None => DEFAULT_IDEMPOTENCY_CACHE_SIZE,
    }
}

/// For how many seconds answers are kept: a setting that is a number, or the default.
pub fn idempotency_cache_ttl(value: Option<&str>) -> (seconds: u64)
    ensures
        seconds as nat == (match setting(text::named(value), u64::MAX as nat) {
            Some(n) => n,
            None => DEFAULT_IDEMPOTENCY_CACHE_TTL_SECONDS as nat,
        }),
{
    number_or(value, DEFAULT_IDEMPOTENCY_CACHE_TTL_SECONDS)
}

// ---------------------------------------------------------------------------
// Clients
// ---------------------------------------------------------------------------

/// The place where a client's id goes in the path of its measurements.
pub open spec fn id_mark() -> Seq<char> {
    "{client_id}"@
}

/// A text with each mark replaced, from the front.
pub open spec fn replaced(template: Seq<char>, mark: Seq<char>, with: Seq<char>) -> Seq<char>
    decreases template.len(),
{
    if template.len() == 0 || mark.len() == 0 {
        template
    } else if text::has_prefix(template, mark) {
        with + replaced(template.skip(mark.len() as int), mark, with)
    } else {
        seq![template[0]] + replaced(template.skip(1), mark, with)
    }
}

/// A text with each mark replaced, from the front.
fn replace_marks(template: &str, with: &str) -> (out: String)
    ensures
        out@ == replaced(template@, id_mark(), with@),
{
    proof {
        reveal_strlit("{client_id}");
    }
    let chars: Vec<char> = text::chars_of(template);
    let mark: Vec<char> = text::chars_of("{client_id}");
    let width: usize = mark.len();
    let mut out: String = String::new();
    let mut i: usize = 0;
    assert(chars@.skip(0) =~= template@);
    while i < chars.len()
        invariant
            i <= chars@.len(),
            chars@ == template@,
            mark@ == id_mark(),
            width == mark@.len(),
            width == 11,
            out@ + replaced(chars@.skip(i as int), id_mark(), with@) == replaced(
                template@,
                id_mark(),
                with@,
            ),
        decreases chars@.len() - i,
    {
        let ghost rest = chars@.skip(i as int);
        let ghost before = out@;
        if begins_here(&chars, &mark, i) {
            assert(rest.skip(width as int) =~= chars@.skip(i + width));
            out.append(with);
            assert(out@ + replaced(chars@.skip(i + width), id_mark(), with@) =~= before + replaced(
                rest,
                id_mark(),
                with@,
            ));
            i = i + width;
        } else {
            assert(rest.skip(1) =~= chars@.skip(i + 1));
            out.push(chars[i]);
            assert(out@ + replaced(chars@.skip(i + 1), id_mark(), with@) =~= before + replaced(
                rest,
                id_mark(),
                with@,
            ));
            i = i + 1;
        }
    }
    assert(out@ + replaced(chars@.skip(i as int), id_mark(), with@) =~= out@);
    out
}

/// Whether a run of characters begins at a place.
fn begins_here(chars: &Vec<char>, mark: &Vec<char>, at: usize) -> (yes: bool)
    requires
        at <= chars@.len(),
    ensures
        yes == text::has_prefix(chars@.skip(at as int), mark@),
{
    let ghost rest = chars@.skip(at as int);
    let total: usize = chars.len();
    if total - at < mark.len() {
        return false;
    }
    let mut k: usize = 0;
    while k < mark.len()
        invariant
            k <= mark@.len(),
            total == chars@.len(),
            at + mark@.len() <= chars@.len(),
            rest == chars@.skip(at as int),
            forall|j: int| 0 <= j < k ==> rest[j] == mark@[j],
        decreases mark@.len() - k,
    {
        if chars[at + k] != mark[k] {
            assert(rest[k as int] != mark@[k as int]);
            assert(rest.take(mark@.len() as int)[k as int] != mark@[k as int]);
            return false;
        }
        assert(rest[k as int] == mark@[k as int]);
        k = k + 1;
    }
    assert(rest.take(mark@.len() as int) =~= mark@);
    true
}

/// A client that a worker process holds: whether it is measured, and where its measurements go.
#[derive(Debug)]
pub struct ClientSlot {
    pub client_id: String,
    pub profile_enabled: bool,
    pub profile_path: Option<String>,
}

impl ClientSlot {
    /// A client among those that a worker process is started with. Without a list of measured
    /// clients all are.
    pub open spec fn is_for(self, args: WorkerArgs, id: Seq<char>) -> bool {
        let measured = match args.profile_enabled_ids {
            Some(ids) => text::texts(ids@),
            None => text::texts(args.client_ids@),
        };
        &&& self.client_id@ == id
        &&& self.profile_enabled == measured.contains(id)
        &&& text::maybe(self.profile_path) == (match args.profile_path_template {
            Some(template) => if measured.contains(id) {
                Some(replaced(template@, id_mark(), id))
            } else {
                None
            },
            None => None,
        })
    }
}

/// The clients that a worker process holds.
pub fn client_slots(args: &WorkerArgs) -> (slots: Vec<ClientSlot>)
    ensures
        slots@.len() == args.client_ids@.len(),
        forall|i: int|
            0 <= i < slots@.len() ==> (#[trigger] slots@[i]).is_for(
                *args,
                args.client_ids@[i]@,
            ),
{
    let measured: &Vec<String> = match &args.profile_enabled_ids {
        Some(ids) => ids,
        None => &args.client_ids,
    };
    let mut set: IdSet = IdSet::new();
    let mut k: usize = 0;
    while k < measured.len()
        invariant
            k <= measured@.len(),
            set@ == text::texts(measured@).take(k as int).to_set(),
        decreases measured@.len() - k,
    {
        let ghost list = text::texts(measured@);
        let _ = set.insert(measured[k].as_str());
        assert(list.take(k + 1) =~= list.take(k as int).push(list[k as int]));
        assert(list.take(k + 1).to_set() =~= list.take(k as int).to_set().insert(list[k as int]))
            by {
            let before = list.take(k as int);
            let after = list.take(k + 1);
            assert(after[k as int] == list[k as int]);
            assert forall|x: Seq<char>| before.contains(x) implies after.contains(x) by {
                let j = choose|j: int| 0 <= j < before.len() && before[j] == x;
                assert(after[j] == x);
            }
        }
        k = k + 1;
    }
    assert(text::texts(measured@).take(k as int) =~= text::texts(measured@));
    let mut slots: Vec<ClientSlot> = Vec::new();
    let mut i: usize = 0;
    while i < args.client_ids.len()
        invariant
            i <= args.client_ids@.len(),
            slots@.len() == i,
            set@ == text::texts(measured@).to_set(),
            *measured == (match args.profile_enabled_ids {
                Some(ids) => ids,
                None => args.client_ids,
            }),
            forall|j: int|
                0 <= j < i ==> (#[trigger] slots@[j]).is_for(*args, args.client_ids@[j]@),
        decreases args.client_ids@.len() - i,
    {
        let id: &str = args.client_ids[i].as_str();
        let profile_enabled: bool = set.contains(id);
        let profile_path: Option<String> = if profile_enabled {
            match &args.profile_path_template {
                Some(template) => Some(replace_marks(template.as_str(), id)),
                None => None,
            }
        } else {
            None
        };
        slots.push(ClientSlot { client_id: id.to_owned(), profile_enabled, profile_path });
        i = i + 1;
    }
    slots
}

// ---------------------------------------------------------------------------
// Whom a command is for
// ---------------------------------------------------------------------------

/// Whether all ids of a list are the same one.
pub open spec fn only_one(ids: Seq<Seq<char>>) -> bool {
    &&& ids.len() > 0
    &&& forall|i: int| 0 <= i < ids.len() ==> #[trigger] ids[i] == ids[0]
}

/// The client that a command without a name is for: there has to be only one.
pub fn sole_client(ids: &Vec<String>) -> (client: Result<String, String>)
    ensures
        match client {
            Ok(id) => only_one(text::texts(ids@)) && id@ == ids@[0]@,
            Err(error) => !only_one(text::texts(ids@)) && error@
                == "Multi-client worker requires /client/:id/command or /batch-command"@,
        },
{
    let ghost all = text::texts(ids@);
    let mut same: bool = ids.len() > 0;
    let mut i: usize = 0;
    while same && i < ids.len()
        invariant
            i <= ids@.len(),
            all == text::texts(ids@),
            same ==> ids@.len() > 0,
            same ==> forall|j: int| 0 <= j < i ==> #[trigger] all[j] == all[0],
            !same ==> !only_one(all),
        decreases ids@.len() - i, same as int,
    {
        assert(all[i as int] == ids@[i as int]@ && all[0] == ids@[0]@);
        if str_eq(ids[i].as_str(), ids[0].as_str()) {
            i = i + 1;
        } else {
            same = false;
        }
    }
    if same {
        Ok(ids[0].as_str().to_owned())
    } else {
        Err("Multi-client worker requires /client/:id/command or /batch-command".to_owned())
    }
}

/// What is said of a client that the process does not hold.
pub fn client_not_found(id: &str) -> (error: String)
    ensures
        error@ == "client "@ + id@ + " not found"@,
{
    let mut error: String = "client ".to_owned();
    error.append(id);
    error.append(" not found");
    error
}

// ---------------------------------------------------------------------------
// Answers
// ---------------------------------------------------------------------------

/// An answer that is kept: the request's id, when it was given, and what it says.
pub type KeptAnswer = (Seq<char>, u128, (Seq<char>, Seq<char>));

/// The place of the answer to a request, or the number of answers where there is none.
pub open spec fn answer_place(answers: Seq<KeptAnswer>, id: Seq<char>) -> int
    decreases answers.len(),
{
    if answers.len() == 0 || answers[0].0 == id {
        0
    } else {
        1 + answer_place(answers.drop_first(), id)
    }
}

/// The answers to the latest requests: how many are kept, for how long, and which.
pub struct CacheView {
    pub size: usize,
    pub ttl_ms: u128,
    pub answers: Seq<KeptAnswer>,
}

impl CacheView {
    /// No more answers than are kept, and none twice for one request.
    pub open spec fn wf(self) -> bool {
        &&& self.answers.len() <= self.size
        &&& forall|i: int, j: int|
            0 <= i < j < self.answers.len() ==> (#[trigger] self.answers[i]).0 != (
            #[trigger] self.answers[j]).0
    }

    /// The answer to a request that comes again, unless it is too old.
    pub open spec fn answer(self, id: Seq<char>, now_ms: u128) -> Option<(Seq<char>, Seq<char>)> {
        let place = answer_place(self.answers, id);
        if place < self.answers.len() && now_ms <= self.answers[place].1 + self.ttl_ms {
            Some(self.answers[place].2)
        } else {
            None
        }
    }

    /// The answers with another one: a new answer to a request takes the place of the old one, and
    /// where there are too many the oldest go.
    pub open spec fn with(
        self,
        id: Seq<char>,
        said: (Seq<char>, Seq<char>),
        now_ms: u128,
    ) -> CacheView {
        let place = answer_place(self.answers, id);
        let more = if place < self.answers.len() {
            self.answers.update(place, (id, now_ms, said))
        } else {
            self.answers.push((id, now_ms, said))
        };
        CacheView {
            answers: if more.len() > self.size {
                more.skip(more.len() - self.size)
            } else {
                more
            },
            ..self
        }
    }
}

proof fn lemma_answer_place(answers: Seq<KeptAnswer>, id: Seq<char>)
    ensures
        0 <= answer_place(answers, id) <= answers.len(),
        answer_place(answers, id) < answers.len() ==> answers[answer_place(answers, id)].0 == id,
        forall|i: int|
            0 <= i < answer_place(answers, id) ==> (#[trigger] answers[i]).0 != id,
    decreases answers.len(),
{
    if answers.len() > 0 && answers[0].0 != id {
        let rest = answers.drop_first();
        lemma_answer_place(rest, id);
        assert forall|i: int| 0 <= i < answer_place(answers, id) implies (
        #[trigger] answers[i]).0 != id by {
            if i > 0 {
                assert(rest[i - 1] == answers[i]);
            }
        }
    }
}

proof fn lemma_place_is(answers: Seq<KeptAnswer>, id: Seq<char>, at: int)
    requires
        0 <= at <= answers.len(),
        at < answers.len() ==> answers[at].0 == id,
        forall|i: int| 0 <= i < at ==> (#[trigger] answers[i]).0 != id,
    ensures
        answer_place(answers, id) == at,
{
    lemma_answer_place(answers, id);
    let place = answer_place(answers, id);
    if place < at {
        assert(answers[place].0 == id);
    } else if at < place {
        assert(answers[at].0 == id);
    }
}

/// A request that comes again within the time gets the answer that was kept last for it, and not
/// one that is older: what it asks for is carried out once.
pub proof fn law_answer_is_kept(
    cache: CacheView,
    id: Seq<char>,
    said: (Seq<char>, Seq<char>),
    now_ms: u128,
    later_ms: u128,
)
    requires
        cache.wf(),
        cache.size > 0,
    ensures
        cache.with(id, said, now_ms).wf(),
        cache.with(id, said, now_ms).answer(id, later_ms) == (if later_ms <= now_ms + cache.ttl_ms {
            Some(said)
        } else {
            None
        }),
{
    lemma_kept_wf(cache, id, said, now_ms);
    let place = answer_place(cache.answers, id);
    let next = cache.with(id, said, now_ms);
    lemma_answer_place(cache.answers, id);
    if place < cache.answers.len() {
        assert forall|i: int| 0 <= i < place implies (#[trigger] next.answers[i]).0 != id by {
            assert(next.answers[i] == cache.answers[i]);
        }
        lemma_place_is(next.answers, id, place);
    } else {
        let at = next.answers.len() - 1;
        let gone = if cache.answers.len() + 1 > cache.size {
            1int
        } else {
            0int
        };
        assert forall|i: int| 0 <= i < at implies (#[trigger] next.answers[i]).0 != id by {
            assert(next.answers[i] == cache.answers[i + gone]);
        }
        lemma_place_is(next.answers, id, at);
    }
}

proof fn lemma_kept_wf(
    cache: CacheView,
    id: Seq<char>,
    said: (Seq<char>, Seq<char>),
    now_ms: u128,
)
    requires
        cache.wf(),
    ensures
        cache.with(id, said, now_ms).wf(),
        cache.with(id, said, now_ms).size == cache.size,
{
    let place = answer_place(cache.answers, id);
    let next = cache.with(id, said, now_ms);
    lemma_answer_place(cache.answers, id);
    let more = if place < cache.answers.len() {
        cache.answers.update(place, (id, now_ms, said))
    } else {
        cache.answers.push((id, now_ms, said))
    };
    let gone = more.len() - next.answers.len();
    assert forall|i: int, j: int| 0 <= i < j < next.answers.len() implies (
    #[trigger] next.answers[i]).0 != (#[trigger] next.answers[j]).0 by {
        assert(next.answers[i] == more[i + gone] && next.answers[j] == more[j + gone]);
        if place < cache.answers.len() {
            assert(more[i + gone].0 == cache.answers[i + gone].0);
            assert(more[j + gone].0 == cache.answers[j + gone].0);
        } else {
            assert(more[i + gone] == cache.answers[i + gone]);
        }
    }
}

/// What is done about a request.
#[derive(Debug)]
pub enum Turn {
    Answered(CommandResponse),
    CarryOut,
}

/// What is answered to a request that was carried out.
pub open spec fn outcome(result: Result<String, String>) -> (Seq<char>, Seq<char>) {
    match result {
        Ok(message) => ("ok"@, message@),
        Err(why) => ("error"@, why@),
    }
}

/// The answers to the latest requests of a client, so that a request that comes again is not
/// carried out twice.
#[derive(Debug)]
pub struct CompletedCommandCache {
    size: usize,
    ttl_ms: u128,
    answers: Vec<(String, u128, CommandResponse)>,
}

impl View for CompletedCommandCache {
    type V = CacheView;

    closed spec fn view(&self) -> CacheView {
        CacheView {
            size: self.size,
            ttl_ms: self.ttl_ms,
            answers: self.answers@.map_values(
                |kept: (String, u128, CommandResponse)| (kept.0@, kept.1, kept.2.said()),
            ),
        }
    }
}

impl CompletedCommandCache {
    /// Room for `size` answers, each of which counts for `ttl_seconds`.
    pub fn new(size: usize, ttl_seconds: u64) -> (cache: CompletedCommandCache)
        ensures
            cache@.size == size,
            cache@.ttl_ms == ttl_seconds * 1000,
            cache@.answers == Seq::<KeptAnswer>::empty(),
            cache@.wf(),
    {
        let cache: CompletedCommandCache = CompletedCommandCache {
            size: size,
            ttl_ms: ttl_seconds as u128 * 1000,
            answers: Vec::new(),
        };
        assert(cache@.answers =~= Seq::<KeptAnswer>::empty());
        cache
    }

    fn place(&self, id: &str) -> (place: usize)
        ensures
            place == answer_place(self@.answers, id@),
            place <= self@.answers.len(),
            self@.answers.len() == self.answers@.len(),
    {
        let mut i: usize = 0;
        while i < self.answers.len() && !str_eq(self.answers[i].0.as_str(), id)
            invariant
                i <= self.answers@.len(),
                self@.answers.len() == self.answers@.len(),
                forall|j: int| 0 <= j < i ==> (#[trigger] self@.answers[j]).0 != id@,
            decreases self.answers@.len() - i,
        {
            assert(self@.answers[i as int].0 == self.answers@[i as int].0@);
            i = i + 1;
        }
        proof {
            if i < self.answers@.len() {
                assert(self@.answers[i as int].0 == self.answers@[i as int].0@);
            }
            lemma_place_is(self@.answers, id@, i as int);
        }
        i
    }

    /// The answer to a request that comes again at a given time, unless it is too old.
    pub fn get(&self, id: &str, now_ms: u128) -> (answer: Option<CommandResponse>)
        ensures
            (match answer {
                Some(response) => Some(response.said()),
                None => None,
            }) == self@.answer(id@, now_ms),
    {
        let place: usize = self.place(id);
        if place < self.answers.len() {
            let kept: &(String, u128, CommandResponse) = &self.answers[place];
            assert(self@.answers[place as int] == (kept.0@, kept.1, kept.2.said()));
            if now_ms <= kept.1 || now_ms - kept.1 <= self.ttl_ms {
                return Some(kept.2.copy());
            }
        }
        None
    }

    /// What is done about a request: one that was answered already is answered the same, any other
    /// is carried out.
    pub fn turn(&self, request_id: &Option<String>, now_ms: u128) -> (turn: Turn)
        ensures
            match text::maybe(*request_id) {
                Some(id) => match self@.answer(id, now_ms) {
                    Some(said) => turn is Answered && turn->Answered_0.said() == said,
                    None => turn is CarryOut,
                },
                None => turn is CarryOut,
            },
    {
        match request_id {
            Some(id) => match self.get(id.as_str(), now_ms) {
                Some(response) => Turn::Answered(response),
                None => Turn::CarryOut,
            },
            None => Turn::CarryOut,
        }
    }

    /// The answer to a request that was carried out: whether it went well, and what came of it. It
    /// is kept where the request has an id.
    pub fn finish(
        &mut self,
        request_id: Option<String>,
        result: Result<String, String>,
        now_ms: u128,
    ) -> (response: CommandResponse)
        requires
            old(self)@.wf(),
        ensures
            response.said() == outcome(result),
            final(self)@ == (match text::maybe(request_id) {
                Some(id) => old(self)@.with(id, outcome(result), now_ms),
                None => old(self)@,
            }),
            final(self)@.wf(),
    {
        let response: CommandResponse = match result {
            Ok(message) => CommandResponse { status: "ok".to_owned(), message: message },
            Err(why) => CommandResponse { status: "error".to_owned(), message: why },
        };
        match request_id {
            Some(id) => {
                let kept: CommandResponse = response.copy();
                self.insert(id, kept, now_ms);
            },
            None => {},
        }
        response
    }

    /// Keeps the answer to a request that was given at a given time.
    pub fn insert(&mut self, id: String, response: CommandResponse, now_ms: u128)
        requires
            old(self)@.wf(),
        ensures
            final(self)@ == old(self)@.with(id@, response.said(), now_ms),
            final(self)@.wf(),
    {
        let ghost before = self@;
        let place: usize = self.place(id.as_str());
        let ghost new: KeptAnswer = (id@, now_ms, response.said());
        proof {
            lemma_kept_wf(before, id@, response.said(), now_ms);
        }
        if place < self.answers.len() {
            self.answers.set(place, (id, now_ms, response));
            assert(self@.answers =~= before.answers.update(place as int, new));
        } else {
            self.answers.push((id, now_ms, response));
            assert(self@.answers =~= before.answers.push(new));
            if self.answers.len() > self.size {
                let ghost more = self@.answers;
                self.answers.remove(0);
                assert(self@.answers =~= more.skip(1));
            }
        }
    }
}

/// An answer to another request leaves an answer as it is. Only where there is no room for another one
/// does the oldest go.
pub proof fn law_other_answers_stay(
    cache: CacheView,
    id: Seq<char>,
    said: (Seq<char>, Seq<char>),
    now_ms: u128,
    other: Seq<char>,
    later_ms: u128,
)
    requires
        cache.wf(),
        cache.size > 0,
        other != id,
        cache.answers.len() < cache.size || other != cache.answers[0].0 || exists|i: int|
            0 <= i < cache.answers.len() && (#[trigger] cache.answers[i]).0 == id,
    ensures
        cache.with(id, said, now_ms).answer(other, later_ms) == cache.answer(other, later_ms),
{
    let place = answer_place(cache.answers, id);
    let next = cache.with(id, said, now_ms);
    lemma_answer_place(cache.answers, id);
    lemma_answer_place(cache.answers, other);
    lemma_answer_place(next.answers, other);
    let at = answer_place(cache.answers, other);
    let gone = if place < cache.answers.len() || cache.answers.len() < cache.size {
        0int
    } else {
        1int
    };
    if at < cache.answers.len() {
        assert forall|i: int| 0 <= i < at - gone implies (#[trigger] next.answers[i]).0 != other by {
            if i + gone != place {
                assert(next.answers[i] == cache.answers[i + gone]);
            }
        }
        assert(next.answers[at - gone] == cache.answers[at]);
        lemma_place_is(next.answers, other, at - gone);
    } else {
        let found = answer_place(next.answers, other);
        if found < next.answers.len() {
            if found + gone < cache.answers.len() && found + gone != place {
                assert(next.answers[found] == cache.answers[found + gone]);
            }
        }
    }
}

} // verus!
