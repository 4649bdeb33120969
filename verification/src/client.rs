//! A client of a group: the keys it holds, the group it is in, and the commit it waits for.

use openmls::group::{MlsGroup, StagedCommit};
use openmls::messages::group_info::GroupInfo;
use openmls::prelude::{CredentialWithKey, KeyPackage, MlsMessageOut};
use openmls_basic_credential::SignatureKeyPair;
use openmls_rust_crypto::OpenMlsRustCrypto;
use vstd::prelude::*;
use vstd::utf8::encode_utf8;

use crate::mls;
use crate::mls::{Body, BodyKind, Content, GroupView, MemberEntry, PendingView};
use crate::relay;
use crate::text;
use crate::text::text_of;

verus! {

/// The number of the ciphersuite `MLS_128_DHKEMX25519_AES128GCM_SHA256_Ed25519`, which every client
/// uses.
pub const CIPHERSUITE: u16 = 1;

/// The number of the protocol version that key packages have to have.
pub const PROTOCOL_VERSION: u16 = 1;

/// Whether invitations hold the ratchet tree of the group.
pub const RATCHET_TREE_IN_INVITATIONS: bool = true;

// ---------------------------------------------------------------------------
// Types
// ---------------------------------------------------------------------------

/// A client of a group.
pub struct Client {
    pub name: String,
    crypto: OpenMlsRustCrypto,
    signature_keypair: SignatureKeyPair,
    credential_with_key: CredentialWithKey,
    group: Option<MlsGroup>,
    pending_commit_bytes: Option<Vec<u8>>,
    pending_welcome_bytes: Option<Vec<u8>>,
    pending_welcome_recipients: Vec<String>,
}

/// What making a commit gives: the bytes to publish.
pub struct EpochChangeOutput {
    pub commit_bytes: Vec<u8>,
}

/// What receiving a commit comes to.
pub enum CommitReceiveOutcome {
    OwnCommitAccepted {
        self_removed: bool,
        welcome_recipients: Vec<String>,
        welcome_bytes: Option<Vec<u8>>,
    },
    ExternalCommitApplied { self_removed: bool },
}

/// What a measurement of receiving a commit is to be labelled with. What a commit does to a client
/// does not depend on it.
#[derive(Debug, Clone)]
pub struct CommitReceiveProfileOptions {
    pub enabled: bool,
    pub commit_create_op: Option<String>,
    pub commit_receive_sampling_policy: Option<String>,
    pub commit_receive_sampling_seed: Option<u64>,
    pub commit_receive_sample_index: Option<usize>,
    pub commit_receive_sample_count: Option<usize>,
    pub commit_receive_population_size: Option<usize>,
}

impl Default for CommitReceiveProfileOptions {
    fn default() -> (options: Self)
        ensures
            options == (CommitReceiveProfileOptions {
                enabled: false,
                commit_create_op: None,
                commit_receive_sampling_policy: None,
                commit_receive_sampling_seed: None,
                commit_receive_sample_index: None,
                commit_receive_sample_count: None,
                commit_receive_population_size: None,
            }),
    {
        CommitReceiveProfileOptions {
            enabled: false,
            commit_create_op: None,
            commit_receive_sampling_policy: None,
            commit_receive_sampling_seed: None,
            commit_receive_sample_index: None,
            commit_receive_sample_count: None,
            commit_receive_population_size: None,
        }
    }
}

// ---------------------------------------------------------------------------
// What is known of a client
// ---------------------------------------------------------------------------

/// What is known of a client: its name, its group, and the commit and the invitation it made last.
#[verifier::ext_equal]
pub struct ClientView {
    pub name: Seq<char>,
    pub group: Option<GroupView>,
    pub pending_commit: Option<Seq<u8>>,
    pub pending_welcome: Option<Seq<u8>>,
    pub recipients: Seq<Seq<char>>,
}

/// A client without a group and without a commit.
pub open spec fn fresh_view(name: Seq<char>) -> ClientView {
    ClientView {
        name,
        group: None,
        pending_commit: None,
        pending_welcome: None,
        recipients: Seq::empty(),
    }
}

impl ClientView {
    /// The client with another group.
    pub open spec fn with_group(self, group: GroupView) -> ClientView {
        ClientView { group: Some(group), ..self }
    }

    /// The client once it waits for a commit of its own.
    pub open spec fn waiting(
        self,
        commit: Seq<u8>,
        welcome: Option<Seq<u8>>,
        recipients: Seq<Seq<char>>,
    ) -> ClientView {
        ClientView {
            pending_commit: Some(commit),
            pending_welcome: welcome,
            recipients,
            ..self
        }
    }

    /// The client once it waits for no commit of its own.
    pub open spec fn idle(self) -> ClientView {
        ClientView {
            pending_commit: None,
            pending_welcome: None,
            recipients: Seq::empty(),
            ..self
        }
    }

    /// Whether bytes are the commit that the client waits for.
    pub open spec fn waits_for(self, commit: Seq<u8>) -> bool {
        self.pending_commit == Some(commit)
    }

    /// Whether a client of this name is among the members.
    pub open spec fn is_in(self, members: Seq<(Seq<u8>, u32)>) -> bool {
        exists|i: int| 0 <= i < members.len() && (#[trigger] members[i]).0 == encode_utf8(self.name)
    }
}

/// What a client whose group cannot be used says.
pub open spec fn not_in_a_group() -> Seq<char> {
    "Client is not in a group"@
}

/// The first place of an identity among the members.
pub open spec fn is_first(members: Seq<(Seq<u8>, u32)>, identity: Seq<u8>, at: int) -> bool {
    &&& 0 <= at < members.len()
    &&& members[at].0 == identity
    &&& forall|i: int| 0 <= i < at ==> (#[trigger] members[i]).0 != identity
}

/// Whether some member has an identity.
pub open spec fn is_known(members: Seq<(Seq<u8>, u32)>, identity: Seq<u8>) -> bool {
    exists|i: int| 0 <= i < members.len() && (#[trigger] members[i]).0 == identity
}

/// The leaf of the first member of an identity.
pub open spec fn leaf_of(members: Seq<(Seq<u8>, u32)>, identity: Seq<u8>) -> u32
    decreases members.len(),
{
    if members.len() == 0 {
        0
    } else if members[0].0 == identity {
        members[0].1
    } else {
        leaf_of(members.drop_first(), identity)
    }
}

/// What is said of a name that no member has.
pub open spec fn not_found(name: Seq<char>) -> Seq<char> {
    "Member '"@ + name + "' not found in group"@
}

// ---------------------------------------------------------------------------
// How a client changes
// ---------------------------------------------------------------------------

/// That a client made a commit: its group stays as it is but for the commit, which is pending, moves
/// it into the next epoch and leaves it with some members, and the client waits for that commit, with
/// the invitation that goes with it and the names of the invited.
pub open spec fn stages(
    before: ClientView,
    after: ClientView,
    members: Seq<(Seq<u8>, u32)>,
    commit: Seq<u8>,
    welcome: Option<Seq<u8>>,
    recipients: Seq<Seq<char>>,
) -> bool {
    before.group matches Some(group) && group.epoch < u64::MAX && after == before.with_group(
        staged(group, members),
    ).waiting(commit, welcome, recipients)
}

/// A group in which a commit of the client's own is pending that leaves it with some members.
pub open spec fn staged(group: GroupView, members: Seq<(Seq<u8>, u32)>) -> GroupView {
    GroupView { pending: Some(PendingView { epoch: (group.epoch + 1) as u64, members }), ..group }
}

/// That making a commit failed: nothing that is known of the client changed but perhaps what is
/// pending in its group.
pub open spec fn stages_not(before: ClientView, after: ClientView) -> bool {
    match before.group {
        None => after == before,
        Some(group) => exists|pending: Option<PendingView>|
            after == #[trigger] before.with_group((GroupView { pending, ..group })),
    }
}

/// That a client let go of the commit it waits for.
pub open spec fn rolls_back(before: ClientView, after: ClientView) -> bool {
    before.group matches Some(group) && after == before.with_group(
        (GroupView { pending: None, ..group }),
    ).idle()
}

/// The group once the client's own commit is taken in: it is in the epoch that the commit moves it
/// into, with the members that the commit leaves. Where no commit is pending it stays as it is.
pub open spec fn with_own(group: GroupView) -> GroupView {
    match group.pending {
        Some(pending) => GroupView {
            id: group.id,
            epoch: pending.epoch,
            members: pending.members,
            pending: None,
        },
        None => group,
    }
}

/// The group once the commit of another is taken in: it is in its next epoch, with the members that
/// the commit leaves.
pub open spec fn with_other(group: GroupView, members: Seq<(Seq<u8>, u32)>) -> GroupView {
    GroupView { id: group.id, epoch: (group.epoch + 1) as u64, members, pending: None }
}

/// The client once its group has the members that a commit left: a client that is no longer among
/// them starts over.
pub open spec fn settled(view: ClientView, group: GroupView) -> ClientView {
    if view.is_in(group.members) {
        view.with_group(group)
    } else {
        fresh_view(view.name)
    }
}

/// That a client took its own commit in.
pub open spec fn accepts_own(
    before: ClientView,
    after: ClientView,
    self_removed: bool,
    recipients: Seq<Seq<char>>,
    welcome: Option<Seq<u8>>,
) -> bool {
    &&& recipients == before.recipients
    &&& welcome == before.pending_welcome
    &&& before.group matches Some(group) && self_removed == !before.is_in(with_own(group).members)
        && after == settled(before.idle(), with_own(group))
}

/// That a client took in the commit of another that leaves the group with some members. A commit of
/// its own that the client waits for stays noted.
pub open spec fn applies_other(
    before: ClientView,
    after: ClientView,
    members: Seq<(Seq<u8>, u32)>,
    self_removed: bool,
) -> bool {
    before.group matches Some(group) && group.epoch < u64::MAX && self_removed == !before.is_in(
        members,
    ) && after == settled(before, with_other(group, members))
}

/// That nothing that is known of a client changed but perhaps its group: what a merge that fails comes
/// to.
pub open spec fn keeps_all_but_group(before: ClientView, after: ClientView) -> bool {
    &&& before.group is Some
    &&& after.group is Some
    &&& after == before.with_group(after.group->0)
}

/// What an attempt to take in what was processed comes to: a commit is taken in or cannot be merged,
/// and all else is refused.
pub open spec fn takes_content(
    before: ClientView,
    after: ClientView,
    content: Content,
    outcome: Result<CommitReceiveOutcome, String>,
) -> bool {
    match content {
        Content::Commit(commit) => match outcome {
            Ok(CommitReceiveOutcome::ExternalCommitApplied { self_removed }) => applies_other(
                before,
                after,
                mls::staged_members_of(commit),
                self_removed,
            ),
            Ok(_) => false,
            Err(error) => error@ == "Could not merge staged commit"@ && keeps_all_but_group(
                before,
                after,
            ),
        },
        _ => outcome is Err && outcome->Err_0@ == "Expected a staged commit message"@ && after
            == before,
    }
}

// ---------------------------------------------------------------------------
// Laws
// ---------------------------------------------------------------------------

/// To let go of a commit undoes making it: where the client waited for none before, everything
/// known of it is as it was.
pub proof fn law_rollback_undoes(
    before: ClientView,
    made: ClientView,
    after: ClientView,
    members: Seq<(Seq<u8>, u32)>,
    commit: Seq<u8>,
    welcome: Option<Seq<u8>>,
    recipients: Seq<Seq<char>>,
)
    requires
        before.idle() == before,
        before.group matches Some(group) ==> group.pending is None,
        stages(before, made, members, commit, welcome, recipients),
        rolls_back(made, after),
    ensures
        after == before,
{
    assert(after.group->0 =~= before.group->0);
    assert(after =~= before.idle());
}

/// A client that made a commit and then receives it takes it for its own, is one epoch on in the
/// same group unless the commit took it out, has the members that the commit leaves, and hands out the
/// invitation and the names that it made the commit with.
pub proof fn law_own_commit(
    before: ClientView,
    made: ClientView,
    after: ClientView,
    members: Seq<(Seq<u8>, u32)>,
    commit: Seq<u8>,
    welcome: Option<Seq<u8>>,
    recipients: Seq<Seq<char>>,
    removed: bool,
    told: Seq<Seq<char>>,
    handed: Option<Seq<u8>>,
)
    requires
        stages(before, made, members, commit, welcome, recipients),
        accepts_own(made, after, removed, told, handed),
    ensures
        made.waits_for(commit),
        told == recipients,
        handed == welcome,
        after.pending_commit is None,
        removed == !before.is_in(members),
        !removed ==> after.group is Some && after.group->0.epoch == before.group->0.epoch + 1
            && after.group->0.id == before.group->0.id && after.group->0.members == members,
        removed ==> after == fresh_view(before.name),
{
}

/// A commit of another moves the client on by one epoch in the same group, with the members that the
/// commit leaves, unless it took the client out.
pub proof fn law_other_commit(
    before: ClientView,
    after: ClientView,
    members: Seq<(Seq<u8>, u32)>,
    removed: bool,
)
    requires
        applies_other(before, after, members, removed),
    ensures
        !removed ==> after.group is Some && after.group->0.epoch == before.group->0.epoch + 1
            && after.group->0.id == before.group->0.id && after.group->0.members == members,
        removed ==> after == fresh_view(before.name),
{
}

/// A member that is taken out is no member any more once the client that took it out has received its
/// own commit, and every other member still is one, where it was.
pub proof fn law_removed_are_gone(
    before: ClientView,
    made: ClientView,
    after: ClientView,
    leaves: Seq<u32>,
    commit: Seq<u8>,
    told: Seq<Seq<char>>,
    handed: Option<Seq<u8>>,
    removed: bool,
)
    requires
        before.group is Some,
        stages(
            before,
            made,
            mls::without_leaves(before.group->0.members, leaves),
            commit,
            None,
            Seq::empty(),
        ),
        accepts_own(made, after, removed, told, handed),
        !removed,
    ensures
        after.group is Some,
        forall|i: int|
            0 <= i < leaves.len() ==> !mls::sits_at(
                after.group->0.members,
                #[trigger] leaves[i],
            ),
        forall|member: (Seq<u8>, u32)|
            after.group->0.members.contains(member) <==> before.group->0.members.contains(member)
                && !leaves.contains(member.1),
{
    let members = before.group->0.members;
    let left = mls::without_leaves(members, leaves);
    let kept = |member: (Seq<u8>, u32)| !leaves.contains(member.1);
    broadcast use vstd::seq_lib::group_filter_ensures;

    assert(left == members.filter(kept));
    assert forall|i: int| 0 <= i < leaves.len() implies !mls::sits_at(left, #[trigger] leaves[i]) by {
        if mls::sits_at(left, leaves[i]) {
            let k = choose|k: int| 0 <= k < left.len() && (#[trigger] left[k]).1 == leaves[i];
            assert(kept(members.filter(kept)[k]));
        }
    }
    assert forall|member: (Seq<u8>, u32)|
        left.contains(member) <==> members.contains(member) && !leaves.contains(member.1) by {
        if left.contains(member) {
            let k = choose|k: int| 0 <= k < left.len() && left[k] == member;
            assert(kept(members.filter(kept)[k]));
            members.lemma_filter_contains_rev(kept, member);
        }
        if members.contains(member) && kept(member) {
            let k = choose|k: int| 0 <= k < members.len() && members[k] == member;
            members.lemma_filter_contains(kept, k);
        }
    }
}

/// Those who are taken in are members once the client that took them in has received its own commit,
/// and every member that there was still is one, where it was.
pub proof fn law_added_are_members(
    before: ClientView,
    made: ClientView,
    after: ClientView,
    members: Seq<(Seq<u8>, u32)>,
    identities: Seq<Seq<u8>>,
    commit: Seq<u8>,
    welcome: Option<Seq<u8>>,
    recipients: Seq<Seq<char>>,
    told: Seq<Seq<char>>,
    handed: Option<Seq<u8>>,
    removed: bool,
)
    requires
        before.group is Some,
        before.is_in(before.group->0.members),
        mls::grown(before.group->0.members, members, identities),
        stages(before, made, members, commit, welcome, recipients),
        accepts_own(made, after, removed, told, handed),
    ensures
        !removed,
        after.group is Some,
        forall|i: int|
            0 <= i < identities.len() ==> is_known(
                after.group->0.members,
                #[trigger] identities[i],
            ),
        forall|i: int|
            0 <= i < before.group->0.members.len() ==> after.group->0.members.contains(
                #[trigger] before.group->0.members[i],
            ),
{
    let old_members = before.group->0.members;
    let at = choose|i: int|
        0 <= i < old_members.len() && (#[trigger] old_members[i]).0 == encode_utf8(before.name);
    assert(members.contains(old_members[at]));
    let to = choose|i: int| 0 <= i < members.len() && members[i] == old_members[at];
    assert(members[to].0 == encode_utf8(before.name));
    assert(before.is_in(members));
    assert forall|i: int| 0 <= i < identities.len() implies is_known(
        members,
        #[trigger] identities[i],
    ) by {
        assert(mls::is_new(old_members, members, identities[i]));
        let k = choose|k: int|
            0 <= k < members.len() && (#[trigger] members[k]).0 == identities[i] && !mls::sits_at(
                old_members,
                members[k].1,
            );
        assert(members[k].0 == identities[i]);
    }
}

// ---------------------------------------------------------------------------
// Helpers
// ---------------------------------------------------------------------------

/// Whether two runs of bytes are the same.
pub(crate) fn same_bytes(a: &[u8], b: &[u8]) -> (same: bool)
    ensures
        same == (a@ == b@),
{
    if a.len() != b.len() {
        return false;
    }
    let mut i: usize = 0;
    while i < a.len()
        invariant
            i <= a@.len(),
            a@.len() == b@.len(),
            forall|j: int| 0 <= j < i ==> a@[j] == b@[j],
        decreases a@.len() - i,
    {
        if a[i] != b[i] {
            assert(a@[i as int] != b@[i as int]);
            return false;
        }
        i = i + 1;
    }
    assert(a@ =~= b@);
    true
}

/// Bytes as two digits each, to the base of sixteen, with small letters.
pub fn hex_encode(bytes: &Vec<u8>) -> (out: String)
    ensures
        out@ == relay::hex_of(bytes@),
{
    let mut chars: Vec<char> = Vec::new();
    let mut i: usize = 0;
    while i < bytes.len()
        invariant
            i <= bytes@.len(),
            chars@ == relay::hex_of(bytes@.take(i as int)),
        decreases bytes@.len() - i,
    {
        let byte: u8 = bytes[i];
        assert(bytes@.take(i + 1).drop_last() =~= bytes@.take(i as int));
        chars.push(hex_char(byte / 16));
        chars.push(hex_char(byte % 16));
        i = i + 1;
    }
    assert(bytes@.take(i as int) =~= bytes@);
    let end: usize = chars.len();
    let out: String = text_of(&chars, 0, end);
    assert(chars@.subrange(0, end as int) =~= chars@);
    out
}

/// A digit of a number to the base of sixteen.
fn hex_char(n: u8) -> (c: char)
    requires
        n < 16,
    ensures
        c == relay::hex_digit(n),
{
    if n < 10 {
        (n + 48) as char
    } else {
        (n + 87) as char
    }
}

/// Whether an identity is among the members.
fn has_identity(members: &Vec<MemberEntry>, identity: &[u8]) -> (yes: bool)
    ensures
        yes == is_known(mls::entries(members@), identity@),
{
    let ghost list = mls::entries(members@);
    let mut i: usize = 0;
    while i < members.len()
        invariant
            i <= members@.len(),
            list == mls::entries(members@),
            forall|j: int| 0 <= j < i ==> (#[trigger] list[j]).0 != identity@,
        decreases members@.len() - i,
    {
        if same_bytes(members[i].identity.as_slice(), identity) {
            assert(list[i as int].0 == identity@);
            return true;
        }
        assert(list[i as int].0 != identity@);
        i = i + 1;
    }
    false
}

/// The first member of an identity has its leaf.
pub proof fn lemma_leaf_of(members: Seq<(Seq<u8>, u32)>, identity: Seq<u8>, at: int)
    requires
        is_first(members, identity, at),
    ensures
        leaf_of(members, identity) == members[at].1,
    decreases members.len(),
{
    if at > 0 {
        assert(members[0].0 != identity);
        let rest = members.drop_first();
        assert forall|i: int| 0 <= i < at - 1 implies (#[trigger] rest[i]).0 != identity by {
            assert(rest[i] == members[i + 1]);
        }
        lemma_leaf_of(rest, identity, at - 1);
    }
}

/// The leaf of the first member of a name.
fn find_leaf(members: &Vec<MemberEntry>, name: &str) -> (leaf: Option<u32>)
    ensures
        leaf == (if is_known(mls::entries(members@), encode_utf8(name@)) {
            Some(leaf_of(mls::entries(members@), encode_utf8(name@)))
        } else {
            None
        }),
{
    let ghost list = mls::entries(members@);
    let identity: &[u8] = name.as_bytes();
    let mut i: usize = 0;
    while i < members.len()
        invariant
            i <= members@.len(),
            list == mls::entries(members@),
            identity@ == encode_utf8(name@),
            forall|j: int| 0 <= j < i ==> (#[trigger] list[j]).0 != identity@,
        decreases members@.len() - i,
    {
        if same_bytes(members[i].identity.as_slice(), identity) {
            assert(list[i as int].0 == identity@);
            proof {
                lemma_leaf_of(list, identity@, i as int);
            }
            return Some(members[i].leaf);
        }
        assert(list[i as int].0 != identity@);
        i = i + 1;
    }
    None
}

// ---------------------------------------------------------------------------
// The client
// ---------------------------------------------------------------------------

/// The first of some names that no member has.
pub open spec fn first_unknown(
    members: Seq<(Seq<u8>, u32)>,
    names: Seq<Seq<char>>,
    at: int,
) -> bool {
    &&& 0 <= at < names.len()
    &&& !is_known(members, encode_utf8(names[at]))
    &&& forall|i: int|
        0 <= i < at ==> is_known(members, encode_utf8(#[trigger] names[i]))
}

/// The leaf of the first member of each name.
pub open spec fn leaves_of(members: Seq<(Seq<u8>, u32)>, names: Seq<Seq<char>>) -> Seq<u32> {
    names.map_values(|name: Seq<char>| leaf_of(members, encode_utf8(name)))
}

/// Members as text.
pub open spec fn names_of(members: Seq<(Seq<u8>, u32)>) -> Seq<Seq<char>> {
    members.map_values(|member: (Seq<u8>, u32)| mls::lossy_text(member.0))
}

impl View for Client {
    type V = ClientView;

    closed spec fn view(&self) -> ClientView {
        ClientView {
            name: self.name@,
            group: match self.group {
                Some(group) => Some(mls::group_view(group)),
                None => None,
            },
            pending_commit: mls::maybe_bytes(self.pending_commit_bytes),
            pending_welcome: mls::maybe_bytes(self.pending_welcome_bytes),
            recipients: text::texts(self.pending_welcome_recipients@),
        }
    }
}

impl Client {
    /// The bytes that the client is known by are those of its name. Nothing but the client itself
    /// changes its group by what is pending in it, and what additions say of it holds its tree.
    pub closed spec fn wf(&self) -> bool {
        &&& mls::identity_of(self.credential_with_key) == encode_utf8(self.name@)
        &&& self.group matches Some(group) ==> mls::unmixed(group) && mls::tells_tree(group)
    }

    /// Whether something can come of processing the message that bytes hold, in the client's group as
    /// it is.
    pub closed spec fn hears(&self, bytes: Seq<u8>, made: Result<Content, String>) -> bool {
        self.group matches Some(group) && mls::processed(mls::protocol_in(bytes), group, made)
    }

    /// Whether a commit was staged on the client's group as it is.
    pub closed spec fn has_staged(&self, commit: StagedCommit) -> bool {
        self.group matches Some(group) && mls::staged_for(commit, group, self.crypto)
    }

    /// A client with new keys.
    fn fresh(name: &str) -> (client: Result<Self, String>)
        ensures
            client is Ok && client->Ok_0.wf() && client->Ok_0@ == fresh_view(name@),
    {
        let crypto = mls::new_crypto();
        let signature_keypair = match mls::new_key_pair(CIPHERSUITE) {
            Ok(keys) => keys,
            Err(error) => {
                return Err(error);
            },
        };
        let credential_with_key = mls::new_credential(name, &signature_keypair);
        let client = Client {
            name: name.to_owned(),
            crypto,
            signature_keypair,
            credential_with_key,
            group: None,
            pending_commit_bytes: None,
            pending_welcome_bytes: None,
            pending_welcome_recipients: Vec::new(),
        };
        assert(client@ =~= fresh_view(name@));
        Ok(client)
    }

    /// A client with new keys, in no group.
    pub fn new(name: &str) -> (client: Result<Self, String>)
        ensures
            client is Ok && client->Ok_0.wf() && client->Ok_0@ == fresh_view(name@),
    {
        Self::fresh(name)
    }

    /// Starts over under the same name.
    fn reset_local_state_fully(&mut self) -> (done: Result<(), String>)
        requires
            old(self).wf(),
        ensures
            final(self).wf(),
            done is Ok,
            final(self)@ == fresh_view(old(self)@.name),
    {
        match Self::fresh(self.name.as_str()) {
            Ok(client) => {
                *self = client;
                Ok(())
            },
            Err(error) => Err(error),
        }
    }

    /// The id of the group, as digits to the base of sixteen.
    pub fn group_id_hex(&self) -> (id: Result<String, String>)
        ensures
            match self@.group {
                Some(group) => id is Ok && id->Ok_0@ == relay::hex_of(group.id),
                None => id is Err && id->Err_0@ == not_in_a_group(),
            },
    {
        match &self.group {
            Some(group) => Ok(hex_encode(&mls::group_id(group))),
            None => Err("Client is not in a group".to_owned()),
        }
    }

    /// The epoch of the group.
    pub fn current_epoch_u64(&self) -> (epoch: Result<u64, String>)
        ensures
            match self@.group {
                Some(group) => epoch == Ok::<u64, String>(group.epoch),
                None => epoch is Err && epoch->Err_0@ == not_in_a_group(),
            },
    {
        match &self.group {
            Some(group) => Ok(mls::group_epoch(group)),
            None => Err("Client is not in a group".to_owned()),
        }
    }

    /// The names of the members, in the order of their leaves.
    pub fn member_names(&self) -> (names: Result<Vec<String>, String>)
        ensures
            match self@.group {
                Some(group) => names is Ok && text::texts(names->Ok_0@) == names_of(group.members),
                None => names is Err && names->Err_0@ == not_in_a_group(),
            },
    {
        match &self.group {
            Some(group) => {
                let members = mls::group_members(group);
                let ghost list = mls::members_of(*group);
                let mut names: Vec<String> = Vec::new();
                let mut i: usize = 0;
                while i < members.len()
                    invariant
                        i <= members@.len(),
                        list == mls::entries(members@),
                        text::texts(names@) == names_of(list.take(i as int)),
                    decreases members@.len() - i,
                {
                    let name = mls::text_from_bytes(&members[i].identity);
                    assert(list[i as int].0 == members@[i as int].identity@);
                    assert(list.take(i + 1) =~= list.take(i as int).push(list[i as int]));
                    assert(names_of(list.take(i + 1)) =~= names_of(list.take(i as int)).push(
                        name@,
                    ));
                    assert(text::texts(names@.push(name)) =~= text::texts(names@).push(name@));
                    names.push(name);
                    i = i + 1;
                }
                assert(list.take(i as int) =~= list);
                Ok(names)
            },
            None => Err("Client is not in a group".to_owned()),
        }
    }

    /// Is in a group from now on, if there is one. What the client waits for stays noted.
    pub fn enter_group(&mut self, made: Result<MlsGroup, String>) -> (done: Result<(), String>)
        requires
            old(self).wf(),
            made matches Ok(group) ==> mls::unmixed(group) && mls::tells_tree(group),
        ensures
            final(self).wf(),
            match made {
                Ok(group) => done is Ok && final(self)@ == old(self)@.with_group(
                    mls::group_view(group),
                ),
                Err(error) => done == Err::<(), String>(error) && final(self)@ == old(self)@,
            },
    {
        match made {
            Ok(group) => {
                self.group = Some(group);
                assert(self@ =~= old(self)@.with_group(mls::group_view(group)));
                Ok(())
            },
            Err(error) => Err(error),
        }
    }

    /// Opens a group whose one member is the client. Whether one can be made rests on the machine's
    /// source of chance and on the key store; `enter_group` says what becomes of it.
    pub fn create_group(&mut self) -> (done: Result<(), String>)
        requires
            old(self).wf(),
        ensures
            final(self).wf(),
            done is Err ==> final(self)@ == old(self)@,
            done is Ok ==> exists|id: Seq<u8>|
                final(self)@ == #[trigger] old(self)@.with_group(
                    first_group(id, old(self)@.name),
                ),
    {
        let made = mls::new_group(
            RATCHET_TREE_IN_INVITATIONS,
            &self.crypto,
            &self.signature_keypair,
            &self.credential_with_key,
        );
        proof {
            if made is Ok {
                let group = made->Ok_0;
                assert(mls::group_view(group) =~= first_group(mls::id_of(group), self.name@));
            }
        }
        self.enter_group(made)
    }

    /// A new key package, for others to add the client by: it says that its holder is known by the
    /// client's name. Whether one can be made rests on the machine's source of chance and on the key
    /// store; `key_package_output` says what becomes of it.
    pub fn generate_key_package(&mut self) -> (bytes: Result<Vec<u8>, String>)
        requires
            old(self).wf(),
        ensures
            final(self).wf(),
            final(self)@ == old(self)@,
            exists|made: Result<KeyPackage, String>| #[trigger]
                is_package_output(made, bytes) && (made matches Ok(package)
                    ==> mls::package_identity_of(package) == encode_utf8(old(self)@.name)
                    && mls::package_suite_of(package) == CIPHERSUITE),
    {
        let made = mls::new_key_package(
            CIPHERSUITE,
            &self.crypto,
            &self.signature_keypair,
            &self.credential_with_key,
        );
        let ghost given = made;
        let bytes = key_package_output(made);
        assert(is_package_output(given, bytes));
        bytes
    }

    /// Waits for no commit.
    fn clear_pending_local_state(&mut self)
        requires
            old(self).wf(),
        ensures
            final(self).wf(),
            final(self)@ == old(self)@.idle(),
    {
        self.pending_commit_bytes = None;
        self.pending_welcome_bytes = None;
        self.pending_welcome_recipients = Vec::new();
        assert(self@ =~= old(self)@.idle());
    }

    /// Waits for a commit. Where a message cannot be written nothing changes.
    pub fn store_pending_epoch_change(
        &mut self,
        commit_message: &MlsMessageOut,
        welcome_message: Option<&MlsMessageOut>,
        welcome_recipients: Vec<String>,
    ) -> (output: Result<EpochChangeOutput, String>)
        requires
            old(self).wf(),
        ensures
            final(self).wf(),
            stores(
                old(self)@,
                final(self)@,
                stored(
                    mls::wire_of(*commit_message),
                    match welcome_message {
                        Some(welcome) => Some(mls::wire_of(*welcome)),
                        None => None,
                    },
                ),
                text::texts(welcome_recipients@),
                output,
            ),
    {
        let commit_bytes = match mls::message_bytes(commit_message) {
            Some(bytes) => bytes,
            None => {
                return Err("Could not serialize commit message".to_owned());
            },
        };
        let welcome_bytes = match welcome_message {
            Some(welcome) => match mls::message_bytes(welcome) {
                Some(bytes) => Some(bytes),
                None => {
                    return Err("Could not serialize welcome message".to_owned());
                },
            },
            None => None,
        };
        self.pending_commit_bytes = Some(copy_bytes(&commit_bytes));
        self.pending_welcome_bytes = welcome_bytes;
        self.pending_welcome_recipients = welcome_recipients;
        Ok(EpochChangeOutput { commit_bytes })
    }

    /// Starts over if the client is no longer a member of its group, and says whether it did.
    pub fn cleanup_if_removed(&mut self) -> (removed: Result<bool, String>)
        requires
            old(self).wf(),
        ensures
            final(self).wf(),
            match old(self)@.group {
                None => removed is Err && removed->Err_0@ == not_in_a_group() && final(self)@
                    == old(self)@,
                Some(group) => removed == Ok::<bool, String>(!old(self)@.is_in(group.members))
                    && final(self)@ == (if old(self)@.is_in(group.members) {
                    old(self)@
                } else {
                    fresh_view(old(self)@.name)
                }),
            },
    {
        let still_member = match &self.group {
            Some(group) => {
                let members = mls::group_members(group);
                has_identity(&members, self.name.as_str().as_bytes())
            },
            None => {
                return Err("Client is not in a group".to_owned());
            },
        };
        if still_member {
            return Ok(false);
        }
        match self.reset_local_state_fully() {
            Ok(_) => Ok(true),
            Err(error) => Err(error),
        }
    }
}

/// What becomes of a key package: its bytes, or what went wrong.
pub open spec fn is_package_output(
    made: Result<KeyPackage, String>,
    bytes: Result<Vec<u8>, String>,
) -> bool {
    match made {
        Ok(package) => match mls::key_package_wire_of(package) {
            Some(wire) => bytes is Ok && bytes->Ok_0@ == wire,
            None => bytes is Err && bytes->Err_0@ == "Could not serialize KeyPackage"@,
        },
        Err(error) => bytes == Err::<Vec<u8>, String>(error),
    }
}

/// The bytes of a key package, if there is one and it can be written.
pub fn key_package_output(made: Result<KeyPackage, String>) -> (bytes: Result<Vec<u8>, String>)
    ensures
        is_package_output(made, bytes),
{
    match made {
        Ok(package) => match mls::key_package_bytes(&package) {
            Some(bytes) => Ok(bytes),
            None => Err("Could not serialize KeyPackage".to_owned()),
        },
        Err(error) => Err(error),
    }
}

/// What a client can wait for: the bytes of a commit and of the invitation that goes with it, or what
/// is said of the first of them that cannot be written.
pub open spec fn stored(commit: Option<Seq<u8>>, welcome: Option<Option<Seq<u8>>>) -> Result<
    (Seq<u8>, Option<Seq<u8>>),
    Seq<char>,
> {
    match (commit, welcome) {
        (None, _) => Err("Could not serialize commit message"@),
        (Some(_), Some(None)) => Err("Could not serialize welcome message"@),
        (Some(commit), Some(Some(welcome))) => Ok((commit, Some(welcome))),
        (Some(commit), None) => Ok((commit, None)),
    }
}

/// That a client waits for what it can wait for, and tells what it cannot.
pub open spec fn stores(
    before: ClientView,
    after: ClientView,
    held: Result<(Seq<u8>, Option<Seq<u8>>), Seq<char>>,
    recipients: Seq<Seq<char>>,
    output: Result<EpochChangeOutput, String>,
) -> bool {
    match held {
        Ok((commit, welcome)) => output is Ok && output->Ok_0.commit_bytes@ == commit && after
            == before.waiting(commit, welcome, recipients),
        Err(error) => output is Err && output->Err_0@ == error && after == before,
    }
}

/// A group in its first epoch with one member.
pub open spec fn first_group(id: Seq<u8>, name: Seq<char>) -> GroupView {
    GroupView { id, epoch: 0, members: seq![(encode_utf8(name), 0u32)], pending: None }
}

/// A copy of bytes.
pub(crate) fn copy_bytes(bytes: &Vec<u8>) -> (copy: Vec<u8>)
    ensures
        copy@ == bytes@,
{
    let mut copy: Vec<u8> = Vec::new();
    let mut i: usize = 0;
    while i < bytes.len()
        invariant
            i <= bytes@.len(),
            copy@ == bytes@.take(i as int),
        decreases bytes@.len() - i,
    {
        copy.push(bytes[i]);
        assert(bytes@.take(i + 1) =~= bytes@.take(i as int).push(bytes@[i as int]));
        i = i + 1;
    }
    assert(bytes@.take(i as int) =~= bytes@);
    copy
}

// ---------------------------------------------------------------------------
// Making commits
// ---------------------------------------------------------------------------

/// The contents of a list of bytes.
pub open spec fn all_bytes(list: Seq<Vec<u8>>) -> Seq<Seq<u8>> {
    list.map_values(|bytes: Vec<u8>| bytes@)
}

/// Whether the key packages up to a place are for the protocol version there is.
pub open spec fn versioned_up_to(packages: Seq<Seq<u8>>, end: int) -> bool {
    forall|i: int|
        0 <= i < end ==> mls::package_version_of(
            mls::parsed_key_package(#[trigger] packages[i])->0,
        ) == PROTOCOL_VERSION
}

/// Whether the key packages up to a place can all be read.
pub open spec fn readable_up_to(packages: Seq<Seq<u8>>, end: int) -> bool {
    forall|i: int| 0 <= i < end ==> mls::key_package_parses(#[trigger] packages[i])
}

/// The key packages that bytes hold.
pub open spec fn packages_in(list: Seq<Seq<u8>>) -> Seq<KeyPackage> {
    list.map_values(|bytes: Seq<u8>| mls::key_package_in(bytes))
}

/// The identities of those whose key packages bytes hold.
pub open spec fn holders_in(list: Seq<Seq<u8>>) -> Seq<Seq<u8>> {
    mls::holders(packages_in(list))
}

/// What is wrong with a list of key packages: the first that cannot be read, or one before it that
/// is not valid.
pub open spec fn refuses_packages(packages: Seq<Seq<u8>>, error: Seq<char>) -> bool {
    exists|i: int|
        0 <= i < packages.len() && #[trigger] readable_up_to(packages, i) && error == (
        if mls::key_package_parses(packages[i]) {
            "Invalid KeyPackage"@
        } else {
            "Could not deserialize KeyPackage"@
        })
}

/// What is wrong with what an addition says of the group: it says nothing, without a tree, or with
/// an empty one.
pub open spec fn info_fault(tree: Option<Option<usize>>) -> Option<Seq<char>> {
    match tree {
        None => Some("AddCommit did not produce GroupInfo"@),
        Some(None) => Some("AddCommit GroupInfo is missing the ratchet tree extension"@),
        Some(Some(len)) => if len == 0 {
            Some("AddCommit GroupInfo contains an empty ratchet tree extension"@)
        } else {
            None
        },
    }
}

/// What a group info says of its tree, if there is one.
pub open spec fn told_tree(info: Option<GroupInfo>) -> Option<Option<usize>> {
    match info {
        Some(info) => Some(mls::tree_len_of(info)),
        None => None,
    }
}

/// A copy of a list of texts.
fn copy_list(list: &[String]) -> (copy: Vec<String>)
    ensures
        text::texts(copy@) == text::texts(list@),
{
    let mut copy: Vec<String> = Vec::new();
    let mut i: usize = 0;
    while i < list.len()
        invariant
            i <= list@.len(),
            copy@.len() == i,
            forall|j: int| 0 <= j < i ==> (#[trigger] copy@[j])@ == list@[j]@,
        decreases list@.len() - i,
    {
        let item: String = list[i].as_str().to_owned();
        copy.push(item);
        i = i + 1;
    }
    assert(text::texts(copy@) =~= text::texts(list@));
    copy
}

/// Reads and checks key packages.
fn read_key_packages(list: &[Vec<u8>], crypto: &OpenMlsRustCrypto) -> (packages: Result<
    Vec<KeyPackage>,
    String,
>)
    ensures
        match packages {
            Ok(packages) => packages@ == packages_in(all_bytes(list@)) && readable_up_to(
                all_bytes(list@),
                list@.len() as int,
            ) && versioned_up_to(all_bytes(list@), list@.len() as int),
            Err(error) => refuses_packages(all_bytes(list@), error@),
        },
{
    let ghost all = all_bytes(list@);
    let mut packages: Vec<KeyPackage> = Vec::new();
    let mut i: usize = 0;
    while i < list.len()
        invariant
            i <= list@.len(),
            all == all_bytes(list@),
            packages@ == packages_in(all.take(i as int)),
            readable_up_to(all, i as int),
            versioned_up_to(all, i as int),
        decreases list@.len() - i,
    {
        assert(all[i as int] == list@[i as int]@);
        let package = match mls::read_key_package(&list[i]) {
            Some(package) => package,
            None => {
                return Err("Could not deserialize KeyPackage".to_owned());
            },
        };
        match mls::check_key_package(package, PROTOCOL_VERSION, crypto) {
            Some(package) => {
                assert(packages_in(all.take(i + 1)) =~= packages_in(all.take(i as int)).push(
                    package,
                ));
                packages.push(package);
            },
            None => {
                return Err("Invalid KeyPackage".to_owned());
            },
        }
        i = i + 1;
    }
    assert(all.take(i as int) =~= all);
    Ok(packages)
}

impl Client {
    /// Waits for an addition, if what it says of the group holds a tree.
    pub fn finish_addition(
        &mut self,
        commit_message: &MlsMessageOut,
        welcome_message: &MlsMessageOut,
        group_info: &Option<GroupInfo>,
        member_names: &[String],
    ) -> (output: Result<EpochChangeOutput, String>)
        requires
            old(self).wf(),
        ensures
            final(self).wf(),
            match info_fault(told_tree(*group_info)) {
                Some(fault) => output is Err && output->Err_0@ == fault && final(self)@
                    == old(self)@,
                None => stores(
                    old(self)@,
                    final(self)@,
                    stored(mls::wire_of(*commit_message), Some(mls::wire_of(*welcome_message))),
                    text::texts(member_names@),
                    output,
                ),
            },
    {
        let len = match group_info {
            Some(info) => mls::tree_len(info),
            None => {
                return Err("AddCommit did not produce GroupInfo".to_owned());
            },
        };
        match len {
            Some(len) => if len == 0 {
                return Err(
                    "AddCommit GroupInfo contains an empty ratchet tree extension".to_owned(),
                );
            },
            None => {
                return Err(
                    "AddCommit GroupInfo is missing the ratchet tree extension".to_owned(),
                );
            },
        }
        self.store_pending_epoch_change(
            commit_message,
            Some(welcome_message),
            copy_list(member_names),
        )
    }

    /// Makes a commit that adds the holders of some key packages, and an invitation for them. A
    /// group in the last epoch there is can have no further one.
    pub fn add_members(
        &mut self,
        key_package_bytes_list: &[Vec<u8>],
        member_names: &[String],
    ) -> (output: Result<EpochChangeOutput, String>)
        requires
            old(self).wf(),
        ensures
            final(self).wf(),
            match output {
                Ok(output) => key_package_bytes_list@.len() == member_names@.len()
                    && readable_up_to(
                    all_bytes(key_package_bytes_list@),
                    key_package_bytes_list@.len() as int,
                ) && versioned_up_to(
                    all_bytes(key_package_bytes_list@),
                    key_package_bytes_list@.len() as int,
                ) && exists|
                    members: Seq<(Seq<u8>, u32)>,
                    commit: MlsMessageOut,
                    welcome: MlsMessageOut,
                |
                    !mls::is_welcome(commit) && mls::is_welcome(welcome) && mls::wire_of(commit)
                        == Some(output.commit_bytes@) && mls::wire_of(welcome) is Some
                        && mls::grown(
                        old(self)@.group->0.members,
                        members,
                        holders_in(all_bytes(key_package_bytes_list@)),
                    ) && #[trigger] stages(
                        old(self)@,
                        final(self)@,
                        members,
                        mls::wire_of(commit)->0,
                        mls::wire_of(welcome),
                        text::texts(member_names@),
                    ),
                Err(error) => stages_not(old(self)@, final(self)@),
            },
            output matches Err(error) ==> if key_package_bytes_list@.len() != member_names@.len() {
                final(self)@ == old(self)@ && error@
                    == "Number of key packages does not match number of member names"@
            } else {
                match old(self)@.group {
                    None => final(self)@ == old(self)@ && error@ == not_in_a_group(),
                    Some(group) => if group.members.len() + key_package_bytes_list@.len()
                        > usize::MAX {
                        final(self)@ == old(self)@ && error@ == "AddCommit member count overflow"@
                    } else if !readable_up_to(
                        all_bytes(key_package_bytes_list@),
                        key_package_bytes_list@.len() as int,
                    ) {
                        final(self)@ == old(self)@ && refuses_packages(
                            all_bytes(key_package_bytes_list@),
                            error@,
                        )
                    } else {
                        group.epoch == u64::MAX ==> final(self)@ == old(self)@ && (error@
                            == "Group epoch overflow"@ || refuses_packages(
                            all_bytes(key_package_bytes_list@),
                            error@,
                        ))
                    },
                }
            },
            output is Ok ==> old(self)@.group is Some && old(self)@.group->0.members.len()
                + key_package_bytes_list@.len() <= usize::MAX,
    {
        let ghost start = self@;
        if key_package_bytes_list.len() != member_names.len() {
            assert(stages_not(start, self@)) by {
                lemma_stages_not(start);
            }
            return Err("Number of key packages does not match number of member names".to_owned());
        }
        let (member_count_before, epoch) = match &self.group {
            Some(group) => {
                let members = mls::group_members(group);
                assert(mls::members_of(*group).len() == members@.len());
                (members.len(), mls::group_epoch(group))
            },
            None => {
                return Err("Client is not in a group".to_owned());
            },
        };
        proof {
            lemma_stages_not(start);
        }
        let added_members_count: usize = key_package_bytes_list.len();
        match member_count_before.checked_add(added_members_count) {
            Some(_) => {},
            None => {
                return Err("AddCommit member count overflow".to_owned());
            },
        }
        let packages = match read_key_packages(key_package_bytes_list, &self.crypto) {
            Ok(packages) => packages,
            Err(error) => {
                return Err(error);
            },
        };
        if epoch == u64::MAX {
            return Err("Group epoch overflow".to_owned());
        }
        let made = match &mut self.group {
            Some(group) => mls::commit_additions(
                group,
                &self.crypto,
                &self.signature_keypair,
                &packages,
            ),
            None => {
                return Err("Client is not in a group".to_owned());
            },
        };
        proof {
            lemma_staging(start, self@);
        }
        match made {
            Ok((commit, welcome, group_info)) => {
                let ghost members = self@.group->0.pending->0.members;
                assert(info_fault(told_tree(group_info)) is None);
                let output = self.finish_addition(&commit, &welcome, &group_info, member_names);
                proof {
                    if output is Ok {
                        assert(self@ =~= start.with_group(staged(start.group->0, members)).waiting(
                            mls::wire_of(commit)->0,
                            mls::wire_of(welcome),
                            text::texts(member_names@),
                        ));
                        assert(stages(
                            start,
                            self@,
                            members,
                            mls::wire_of(commit)->0,
                            mls::wire_of(welcome),
                            text::texts(member_names@),
                        ));
                    }
                }
                output
            },
            Err(error) => Err(error),
        }
    }
}

/// A client that did not change made no commit.
proof fn lemma_stages_not(view: ClientView)
    ensures
        stages_not(view, view),
{
    if view.group is Some {
        assert(view =~= view.with_group((GroupView { pending: view.group->0.pending, ..view.group->0 })));
    }
}

/// A client whose group changed only in what is pending made no commit, as far as it waits for none.
proof fn lemma_staging(before: ClientView, after: ClientView)
    requires
        before.group is Some,
        after.group is Some,
        after == before.with_group(after.group->0),
        after.group->0 == (GroupView { pending: after.group->0.pending, ..before.group->0 }),
    ensures
        stages_not(before, after),
{
    assert(after == before.with_group(
        (GroupView { pending: after.group->0.pending, ..before.group->0 }),
    ));
}

impl Client {
    /// The leaf of the first member of a name.
    pub fn find_member_index_by_name(&self, target_name: &str) -> (leaf: Result<u32, String>)
        ensures
            match self@.group {
                None => leaf is Err && leaf->Err_0@ == not_in_a_group(),
                Some(group) => if is_known(group.members, encode_utf8(target_name@)) {
                    leaf == Ok::<u32, String>(leaf_of(group.members, encode_utf8(target_name@)))
                } else {
                    leaf is Err && leaf->Err_0@ == not_found(target_name@)
                },
            },
    {
        match &self.group {
            Some(group) => {
                let members = mls::group_members(group);
                match find_leaf(&members, target_name) {
                    Some(leaf) => Ok(leaf),
                    None => {
                        let mut error: String = "Member '".to_owned();
                        error.append(target_name);
                        error.append("' not found in group");
                        Err(error)
                    },
                }
            },
            None => Err("Client is not in a group".to_owned()),
        }
    }

    /// The leaf of the first member of each name.
    pub fn find_member_indices_by_name(&self, target_names: &[String]) -> (leaves: Result<
        Vec<u32>,
        String,
    >)
        requires
            self@.group is Some,
        ensures
            match leaves {
                Ok(leaves) => leaves@ == leaves_of(
                    self@.group->0.members,
                    text::texts(target_names@),
                ) && forall|i: int|
                    0 <= i < target_names@.len() ==> is_known(
                        self@.group->0.members,
                        encode_utf8((#[trigger] target_names@[i])@),
                    ),
                Err(error) => exists|i: int|
                    #[trigger] first_unknown(
                        self@.group->0.members,
                        text::texts(target_names@),
                        i,
                    ) && error@ == not_found(target_names@[i]@),
            },
    {
        let ghost members = self@.group->0.members;
        let ghost names = text::texts(target_names@);
        let mut leaves: Vec<u32> = Vec::new();
        let mut i: usize = 0;
        while i < target_names.len()
            invariant
                i <= target_names@.len(),
                self@.group is Some,
                members == self@.group->0.members,
                names == text::texts(target_names@),
                leaves@ == leaves_of(members, names.take(i as int)),
                forall|j: int|
                    0 <= j < i ==> is_known(members, encode_utf8(#[trigger] names[j])),
            decreases target_names@.len() - i,
        {
            assert(names[i as int] == target_names@[i as int]@);
            match self.find_member_index_by_name(target_names[i].as_str()) {
                Ok(leaf) => {
                    assert(names.take(i + 1) =~= names.take(i as int).push(names[i as int]));
                    assert(leaves_of(members, names.take(i + 1)) =~= leaves_of(
                        members,
                        names.take(i as int),
                    ).push(leaf));
                    leaves.push(leaf);
                },
                Err(error) => {
                    assert(first_unknown(members, names, i as int));
                    return Err(error);
                },
            }
            i = i + 1;
        }
        assert(names.take(i as int) =~= names);
        assert forall|j: int| 0 <= j < target_names@.len() implies is_known(
            members,
            encode_utf8((#[trigger] target_names@[j])@),
        ) by {
            assert(names[j] == target_names@[j]@);
        }
        Ok(leaves)
    }

    /// Makes a commit that takes members out. A group in the last epoch there is can have no further
    /// one.
    pub fn remove_members(&mut self, target_names: &[String]) -> (output: Result<
        EpochChangeOutput,
        String,
    >)
        requires
            old(self).wf(),
        ensures
            final(self).wf(),
            match output {
                Ok(output) => exists|commit: MlsMessageOut|
                    !mls::is_welcome(commit) && mls::wire_of(commit) == Some(output.commit_bytes@)
                        && #[trigger] stages(
                        old(self)@,
                        final(self)@,
                        mls::without_leaves(
                            old(self)@.group->0.members,
                            leaves_of(old(self)@.group->0.members, text::texts(target_names@)),
                        ),
                        mls::wire_of(commit)->0,
                        None,
                        Seq::empty(),
                    ),
                Err(error) => stages_not(old(self)@, final(self)@),
            },
            match old(self)@.group {
                None => output is Err && output->Err_0@ == not_in_a_group() && final(self)@
                    == old(self)@,
                Some(group) => {
                    &&& forall|i: int| #[trigger]
                        first_unknown(group.members, text::texts(target_names@), i) ==> output is Err
                            && output->Err_0@ == not_found(target_names@[i]@) && final(self)@
                            == old(self)@
                    &&& group.epoch == u64::MAX && (forall|i: int|
                        !#[trigger] first_unknown(group.members, text::texts(target_names@), i))
                        ==> output is Err && output->Err_0@ == "Group epoch overflow"@
                        && final(self)@ == old(self)@
                },
            },
    {
        let ghost start = self@;
        let epoch: u64 = match &self.group {
            Some(group) => mls::group_epoch(group),
            None => {
                return Err("Client is not in a group".to_owned());
            },
        };
        proof {
            lemma_stages_not(start);
        }
        let target_indices = match self.find_member_indices_by_name(target_names) {
            Ok(leaves) => leaves,
            Err(error) => {
                proof {
                    let members = start.group->0.members;
                    let names = text::texts(target_names@);
                    let at = choose|i: int| #[trigger]
                        first_unknown(members, names, i) && error@ == not_found(target_names@[i]@);
                    assert forall|i: int| #[trigger] first_unknown(members, names, i) implies i
                        == at by {
                        assert(names[i] == target_names@[i]@ && names[at] == target_names@[at]@);
                    }
                }
                return Err(error);
            },
        };
        proof {
            let members = start.group->0.members;
            let names = text::texts(target_names@);
            assert forall|i: int| !#[trigger] first_unknown(members, names, i) by {
                if 0 <= i < names.len() {
                    assert(names[i] == target_names@[i]@);
                }
            }
        }
        if epoch == u64::MAX {
            return Err("Group epoch overflow".to_owned());
        }
        let made = match &mut self.group {
            Some(group) => mls::commit_removals(
                group,
                &self.crypto,
                &self.signature_keypair,
                &target_indices,
            ),
            None => {
                return Err("Client is not in a group".to_owned());
            },
        };
        proof {
            lemma_staging(start, self@);
        }
        match made {
            Ok(commit) => self.finish_commit(&commit, Ghost(start)),
            Err(error) => Err(error),
        }
    }

    /// Waits for a commit that goes with no invitation.
    fn finish_commit(&mut self, commit: &MlsMessageOut, Ghost(start): Ghost<ClientView>) -> (output:
        Result<EpochChangeOutput, String>)
        requires
            old(self).wf(),
            start.group is Some,
            start.group->0.epoch < u64::MAX,
            old(self)@.group is Some,
            old(self)@.group->0.pending is Some,
            old(self)@ == start.with_group(
                staged(start.group->0, old(self)@.group->0.pending->0.members),
            ),
        ensures
            final(self).wf(),
            match mls::wire_of(*commit) {
                Some(wire) => output is Ok && output->Ok_0.commit_bytes@ == wire && stages(
                    start,
                    final(self)@,
                    old(self)@.group->0.pending->0.members,
                    wire,
                    None,
                    Seq::empty(),
                ),
                None => output is Err && output->Err_0@ == "Could not serialize commit message"@
                    && final(self)@ == old(self)@ && stages_not(start, final(self)@),
            },
    {
        let none: Vec<String> = Vec::new();
        assert(text::texts(none@) =~= Seq::<Seq<char>>::empty());
        self.store_pending_epoch_change(commit, None, none)
    }

    /// Makes a commit that gives the client new keys. A group in the last epoch there is can have no
    /// further one.
    pub fn self_update(&mut self) -> (output: Result<EpochChangeOutput, String>)
        requires
            old(self).wf(),
        ensures
            final(self).wf(),
            match output {
                Ok(output) => exists|commit: MlsMessageOut|
                    !mls::is_welcome(commit) && mls::wire_of(commit) == Some(output.commit_bytes@)
                        && #[trigger] stages(
                        old(self)@,
                        final(self)@,
                        old(self)@.group->0.members,
                        mls::wire_of(commit)->0,
                        None,
                        Seq::empty(),
                    ),
                Err(error) => stages_not(old(self)@, final(self)@),
            },
            match old(self)@.group {
                None => output is Err && output->Err_0@ == not_in_a_group() && final(self)@
                    == old(self)@,
                Some(group) => group.epoch == u64::MAX ==> output is Err && output->Err_0@
                    == "Group epoch overflow"@ && final(self)@ == old(self)@,
            },
    {
        let ghost start = self@;
        proof {
            lemma_stages_not(start);
        }
        let epoch: u64 = match &self.group {
            Some(group) => mls::group_epoch(group),
            None => {
                return Err("Client is not in a group".to_owned());
            },
        };
        if epoch == u64::MAX {
            return Err("Group epoch overflow".to_owned());
        }
        let made = match &mut self.group {
            Some(group) => mls::commit_update(group, &self.crypto, &self.signature_keypair),
            None => {
                return Err("Client is not in a group".to_owned());
            },
        };
        proof {
            lemma_staging(start, self@);
        }
        match made {
            Ok(commit) => self.finish_commit(&commit, Ghost(start)),
            Err(error) => Err(error),
        }
    }

    /// Lets go of the commit that the client waits for.
    pub fn rollback_pending_commit(&mut self) -> (done: Result<(), String>)
        requires
            old(self).wf(),
        ensures
            final(self).wf(),
            if old(self)@.group is Some {
                done is Ok && rolls_back(old(self)@, final(self)@)
            } else {
                done is Err && done->Err_0@ == not_in_a_group() && final(self)@ == old(self)@
            },
    {
        let ghost start = self@;
        let cleared = match &mut self.group {
            Some(group) => mls::drop_pending(group, &self.crypto),
            None => {
                return Err("Client is not in a group".to_owned());
            },
        };
        if !cleared {
            return Err("Could not clear pending commit".to_owned());
        }
        self.clear_pending_local_state();
        assert(self@ =~= start.with_group((GroupView { pending: None, ..start.group->0 })).idle());
        Ok(())
    }

    /// Enters the group of an invitation.
    pub fn join_from_welcome(&mut self, welcome_bytes: &Vec<u8>) -> (done: Result<(), String>)
        requires
            old(self).wf(),
        ensures
            final(self).wf(),
            match done {
                Ok(_) => mls::body_kind(welcome_bytes@) is Welcome && exists|group: MlsGroup|
                    #[trigger] mls::invites(welcome_bytes@, group) && mls::pending_of(group) is None
                        && final(self)@ == old(self)@.with_group(mls::group_view(group)),
                Err(error) => final(self)@ == old(self)@ && match mls::body_kind(welcome_bytes@) {
                    BodyKind::Unreadable => error@ == "Could not deserialize incoming welcome"@,
                    BodyKind::Welcome => true,
                    _ => error@ == "Expected a welcome message"@,
                },
            },
    {
        let ghost start = self@;
        let welcome = match mls::read_message(welcome_bytes) {
            None => {
                return Err("Could not deserialize incoming welcome".to_owned());
            },
            Some(Body::Welcome(welcome)) => welcome,
            Some(_) => {
                return Err("Expected a welcome message".to_owned());
            },
        };
        let staged = match mls::open_welcome(RATCHET_TREE_IN_INVITATIONS, &self.crypto, welcome) {
            Ok(staged) => staged,
            Err(error) => {
                return Err(error);
            },
        };
        let ghost opening = staged;
        let made = mls::take_welcome(&self.crypto, staged);
        proof {
            if made is Ok {
                assert(mls::opened(mls::welcome_in(welcome_bytes@), opening) && mls::entered(
                    opening,
                    made->Ok_0,
                ));
                assert(mls::invites(welcome_bytes@, made->Ok_0));
            }
        }
        self.enter_group(made)
    }

    /// A message to the group, in bytes.
    pub fn send_application_message(&mut self, plaintext: &Vec<u8>) -> (bytes: Result<
        Vec<u8>,
        String,
    >)
        requires
            old(self).wf(),
        ensures
            final(self).wf(),
            final(self)@ == old(self)@,
            old(self)@.group is None ==> bytes is Err && bytes->Err_0@ == not_in_a_group(),
            old(self)@.group is Some ==> exists|made: Result<MlsMessageOut, String>| #[trigger]
                is_message_output(made, bytes) && (made matches Ok(message)
                    ==> !mls::is_welcome(message) && mls::carries(message, plaintext@)),
    {
        let ghost start = self@;
        let made = match &mut self.group {
            Some(group) => mls::new_message(
                group,
                &self.crypto,
                &self.signature_keypair,
                plaintext,
            ),
            None => {
                return Err("Client is not in a group".to_owned());
            },
        };
        assert(self@ =~= start);
        let ghost given = made;
        let bytes = message_output(made);
        assert(is_message_output(given, bytes));
        bytes
    }
}

/// What becomes of a message: its bytes, or what went wrong.
pub open spec fn is_message_output(
    made: Result<MlsMessageOut, String>,
    bytes: Result<Vec<u8>, String>,
) -> bool {
    match made {
        Ok(message) => match mls::wire_of(message) {
            Some(wire) => bytes is Ok && bytes->Ok_0@ == wire,
            None => bytes is Err && bytes->Err_0@ == "Could not serialize application message"@,
        },
        Err(error) => bytes == Err::<Vec<u8>, String>(error),
    }
}

/// The bytes of a message, if there is one and it can be written.
pub fn message_output(made: Result<MlsMessageOut, String>) -> (bytes: Result<Vec<u8>, String>)
    ensures
        is_message_output(made, bytes),
{
    match made {
        Ok(message) => match mls::message_bytes(&message) {
            Some(bytes) => Ok(bytes),
            None => Err("Could not serialize application message".to_owned()),
        },
        Err(error) => Err(error),
    }
}

/// What a message that was processed says, if it is one for the application.
pub open spec fn is_application_output(content: Content, bytes: Result<Vec<u8>, String>) -> bool {
    match content {
        Content::Application(given) => bytes == Ok::<Vec<u8>, String>(given),
        _ => bytes is Err && bytes->Err_0@ == "Expected an application message"@,
    }
}

/// What a message that was processed says, if it is one for the application.
pub fn application_bytes(content: Content) -> (bytes: Result<Vec<u8>, String>)
    ensures
        is_application_output(content, bytes),
{
    match content {
        Content::Application(bytes) => Ok(bytes),
        _ => Err("Expected an application message".to_owned()),
    }
}

impl Client {
    /// What a message to the group says. A measurement of the call changes nothing in it.
    pub fn receive_application_message(
        &mut self,
        message_bytes: &Vec<u8>,
        _profile: bool,
    ) -> (bytes: Result<Vec<u8>, String>)
        requires
            old(self).wf(),
        ensures
            final(self).wf(),
            final(self)@ == old(self)@,
            old(self)@.group is None ==> bytes is Err && bytes->Err_0@ == not_in_a_group(),
            old(self)@.group is Some ==> match mls::body_kind(message_bytes@) {
                BodyKind::Unreadable => bytes is Err && bytes->Err_0@
                    == "Could not deserialize incoming message"@,
                BodyKind::Protocol => if old(self)@.group->0.epoch == u64::MAX {
                    bytes is Err && bytes->Err_0@ == "Group epoch overflow"@
                } else {
                    exists|made: Result<Content, String>| #[trigger]
                        old(self).hears(message_bytes@, made) && match made {
                            Ok(content) => is_application_output(content, bytes),
                            Err(error) => bytes == Err::<Vec<u8>, String>(error),
                        }
                },
                _ => bytes is Err && bytes->Err_0@ == "Expected a protocol message"@,
            },
    {
        let ghost start = self@;
        let epoch: u64 = match &self.group {
            Some(group) => mls::group_epoch(group),
            None => {
                return Err("Client is not in a group".to_owned());
            },
        };
        let message = match mls::read_message(message_bytes) {
            None => {
                return Err("Could not deserialize incoming message".to_owned());
            },
            Some(Body::Protocol(message)) => message,
            Some(_) => {
                return Err("Expected a protocol message".to_owned());
            },
        };
        if epoch == u64::MAX {
            return Err("Group epoch overflow".to_owned());
        }
        let content = match &mut self.group {
            Some(group) => mls::process(group, &self.crypto, message),
            None => {
                return Err("Client is not in a group".to_owned());
            },
        };
        assert(self@ =~= start);
        assert(old(self).hears(message_bytes@, content));
        match content {
            Ok(content) => application_bytes(content),
            Err(error) => Err(error),
        }
    }

    /// What becomes of the client once its own commit was merged, or could not be: the invitation is
    /// handed out, the client waits for nothing any more, and it starts over if the commit took it
    /// out.
    pub fn finish_own_commit(&mut self, merged: bool) -> (outcome: Result<
        CommitReceiveOutcome,
        String,
    >)
        requires
            old(self).wf(),
        ensures
            final(self).wf(),
            match old(self)@.group {
                None => outcome is Err && outcome->Err_0@ == not_in_a_group() && final(self)@
                    == old(self)@,
                Some(group) => if merged {
                    outcome matches Ok(
                        CommitReceiveOutcome::OwnCommitAccepted {
                            self_removed,
                            welcome_recipients,
                            welcome_bytes,
                        },
                    ) && self_removed == !old(self)@.is_in(group.members) && text::texts(
                        welcome_recipients@,
                    ) == old(self)@.recipients && mls::maybe_bytes(welcome_bytes) == old(
                        self,
                    )@.pending_welcome && final(self)@ == settled(old(self)@.idle(), group)
                } else {
                    outcome is Err && outcome->Err_0@ == "Could not merge local pending commit"@
                        && final(self)@ == old(self)@
                },
            },
    {
        let ghost start = self@;
        if self.group.is_none() {
            return Err("Client is not in a group".to_owned());
        }
        if !merged {
            return Err("Could not merge local pending commit".to_owned());
        }
        let ghost group = self@.group->0;
        let mut welcome_recipients: Vec<String> = Vec::new();
        std::mem::swap(&mut welcome_recipients, &mut self.pending_welcome_recipients);
        let mut welcome_bytes: Option<Vec<u8>> = None;
        std::mem::swap(&mut welcome_bytes, &mut self.pending_welcome_bytes);
        self.pending_commit_bytes = None;
        assert(self@ =~= start.idle());
        match self.cleanup_if_removed() {
            Ok(self_removed) => {
                assert(self@ =~= settled(start.idle(), group));
                Ok(
                    CommitReceiveOutcome::OwnCommitAccepted {
                        self_removed,
                        welcome_recipients,
                        welcome_bytes,
                    },
                )
            },
            Err(error) => Err(error),
        }
    }

    /// What becomes of the client once the commit of another was merged, or could not be: it starts
    /// over if the commit took it out.
    pub fn finish_other_commit(&mut self, merged: bool) -> (outcome: Result<
        CommitReceiveOutcome,
        String,
    >)
        requires
            old(self).wf(),
        ensures
            final(self).wf(),
            match old(self)@.group {
                None => outcome is Err && outcome->Err_0@ == not_in_a_group() && final(self)@
                    == old(self)@,
                Some(group) => if merged {
                    outcome matches Ok(CommitReceiveOutcome::ExternalCommitApplied { self_removed })
                        && self_removed == !old(self)@.is_in(group.members) && final(self)@
                        == settled(old(self)@, group)
                } else {
                    outcome is Err && outcome->Err_0@ == "Could not merge staged commit"@
                        && final(self)@ == old(self)@
                },
            },
    {
        let ghost start = self@;
        if self.group.is_none() {
            return Err("Client is not in a group".to_owned());
        }
        if !merged {
            return Err("Could not merge staged commit".to_owned());
        }
        let ghost group = self@.group->0;
        match self.cleanup_if_removed() {
            Ok(self_removed) => {
                assert(self@ =~= settled(start, group));
                Ok(CommitReceiveOutcome::ExternalCommitApplied { self_removed })
            },
            Err(error) => Err(error),
        }
    }

    /// Takes in the commit that the client waits for. Whether it can be merged rests on the key
    /// store; `finish_own_commit` says what becomes of either.
    fn receive_own_commit(&mut self) -> (outcome: Result<CommitReceiveOutcome, String>)
        requires
            old(self).wf(),
        ensures
            final(self).wf(),
            match outcome {
                Ok(outcome) => outcome matches CommitReceiveOutcome::OwnCommitAccepted {
                    self_removed,
                    welcome_recipients,
                    welcome_bytes,
                } && accepts_own(
                    old(self)@,
                    final(self)@,
                    self_removed,
                    text::texts(welcome_recipients@),
                    mls::maybe_bytes(welcome_bytes),
                ),
                Err(error) => if old(self)@.group is None {
                    error@ == not_in_a_group() && final(self)@ == old(self)@
                } else {
                    error@ == "Could not merge local pending commit"@ && keeps_all_but_group(
                        old(self)@,
                        final(self)@,
                    )
                },
            },
    {
        let ghost start = self@;
        let merged = match &mut self.group {
            Some(group) => mls::merge_pending(group, &self.crypto),
            None => {
                return Err("Client is not in a group".to_owned());
            },
        };
        proof {
            let group = self@.group->0;
            assert(self@ =~= start.with_group(group));
            if merged {
                assert(group =~= with_own(start.group->0));
                assert(settled(self@.idle(), group) =~= settled(start.idle(), group));
            }
        }
        self.finish_own_commit(merged)
    }

    /// Takes in a commit of another that was processed. Whether it can be merged rests on the key
    /// store; `finish_other_commit` says what becomes of either.
    pub fn apply_content(&mut self, content: Content) -> (outcome: Result<
        CommitReceiveOutcome,
        String,
    >)
        requires
            old(self).wf(),
            old(self)@.group is Some,
            content matches Content::Commit(commit) ==> old(self).has_staged(commit)
                && mls::staged_id(commit) == old(self)@.group->0.id && mls::staged_epoch(commit)
                == old(self)@.group->0.epoch + 1,
        ensures
            final(self).wf(),
            takes_content(old(self)@, final(self)@, content, outcome),
    {
        let ghost start = self@;
        let commit = match content {
            Content::Commit(commit) => commit,
            _ => {
                return Err("Expected a staged commit message".to_owned());
            },
        };
        let merged = match &mut self.group {
            Some(group) => mls::merge_staged(group, &self.crypto, commit),
            None => {
                return Err("Client is not in a group".to_owned());
            },
        };
        proof {
            let group = self@.group->0;
            assert(self@ =~= start.with_group(group));
            if merged {
                assert(group =~= with_other(start.group->0, mls::staged_members_of(commit)));
                assert(settled(self@, group) =~= settled(start, group));
            }
        }
        self.finish_other_commit(merged)
    }

    /// Takes in a commit: the one that the client waits for is its own, every other one is
    /// processed.
    pub fn receive_commit(
        &mut self,
        commit_bytes: &Vec<u8>,
        _profile: CommitReceiveProfileOptions,
    ) -> (outcome: Result<CommitReceiveOutcome, String>)
        requires
            old(self).wf(),
        ensures
            final(self).wf(),
            match outcome {
                Ok(
                    CommitReceiveOutcome::OwnCommitAccepted {
                        self_removed,
                        welcome_recipients,
                        welcome_bytes,
                    },
                ) => old(self)@.waits_for(commit_bytes@) && accepts_own(
                    old(self)@,
                    final(self)@,
                    self_removed,
                    text::texts(welcome_recipients@),
                    mls::maybe_bytes(welcome_bytes),
                ),
                Ok(CommitReceiveOutcome::ExternalCommitApplied { self_removed: _ }) => !old(
                    self,
                )@.waits_for(commit_bytes@) && old(self)@.group is Some && mls::body_kind(
                    commit_bytes@,
                ) is Protocol && old(self)@.group->0.epoch < u64::MAX,
                Err(error) => if old(self)@.group is None {
                    error@ == not_in_a_group() && final(self)@ == old(self)@
                } else if old(self)@.waits_for(commit_bytes@) {
                    error@ == "Could not merge local pending commit"@ && keeps_all_but_group(
                        old(self)@,
                        final(self)@,
                    )
                } else {
                    match mls::body_kind(commit_bytes@) {
                        BodyKind::Unreadable => final(self)@ == old(self)@ && error@
                            == "Could not deserialize incoming commit"@,
                        BodyKind::Protocol => old(self)@.group->0.epoch == u64::MAX ==> error@
                            == "Group epoch overflow"@ && final(self)@ == old(self)@,
                        _ => final(self)@ == old(self)@ && error@ == "Expected a protocol message"@,
                    }
                },
            },
            !old(self)@.waits_for(commit_bytes@) && old(self)@.group is Some && mls::body_kind(
                commit_bytes@,
            ) is Protocol && old(self)@.group->0.epoch < u64::MAX ==> exists|
                made: Result<Content, String>,
            | #[trigger]
                old(self).hears(commit_bytes@, made) && match made {
                    Ok(content) => takes_content(old(self)@, final(self)@, content, outcome),
                    Err(error) => outcome is Err && outcome->Err_0 == error && final(self)@
                        == old(self)@,
                },
    {
        let ghost start = self@;
        let is_own_pending_commit = match &self.pending_commit_bytes {
            Some(pending) => same_bytes(pending.as_slice(), commit_bytes.as_slice()),
            None => false,
        };
        if is_own_pending_commit {
            return self.receive_own_commit();
        }
        let epoch: u64 = match &self.group {
            Some(group) => mls::group_epoch(group),
            None => {
                return Err("Client is not in a group".to_owned());
            },
        };
        let message = match mls::read_message(commit_bytes) {
            None => {
                return Err("Could not deserialize incoming commit".to_owned());
            },
            Some(Body::Protocol(message)) => message,
            Some(_) => {
                return Err("Expected a protocol message".to_owned());
            },
        };
        if epoch == u64::MAX {
            return Err("Group epoch overflow".to_owned());
        }
        let content = match &mut self.group {
            Some(group) => mls::process(group, &self.crypto, message),
            None => {
                return Err("Client is not in a group".to_owned());
            },
        };
        assert(self@ =~= start);
        assert(old(self).hears(commit_bytes@, content));
        match content {
            Ok(content) => self.apply_content(content),
            Err(error) => Err(error),
        }
    }
}

} // verus!
