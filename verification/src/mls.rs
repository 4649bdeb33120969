//! What the rest of the library knows of the MLS implementation: the calls that a group member
//! makes, and what each of them leaves behind.

use openmls::group::{
    MlsGroup, MlsGroupCreateConfig, MlsGroupJoinConfig, StagedCommit, StagedWelcome,
};
use openmls::prelude::tls_codec::{Deserialize, Serialize, Size};
use openmls::prelude::{
    BasicCredential, Ciphersuite, CredentialWithKey, KeyPackage, KeyPackageIn, LeafNodeIndex,
    LeafNodeParameters, MlsMessageBodyIn, MlsMessageIn, MlsMessageOut, OpenMlsProvider,
    ProcessedMessageContent, ProtocolMessage, ProtocolVersion, Welcome,
};
use openmls::messages::group_info::GroupInfo;
use openmls_basic_credential::SignatureKeyPair;
use openmls_rust_crypto::OpenMlsRustCrypto;
use vstd::prelude::*;
use vstd::utf8::{decode_utf8, encode_utf8, valid_utf8};

verus! {

// ---------------------------------------------------------------------------
// Types
// ---------------------------------------------------------------------------

/// The cryptography and the key store of one client.
#[verifier::external_type_specification]
#[verifier::external_body]
pub struct ExOpenMlsRustCrypto(OpenMlsRustCrypto);

/// The pair of keys that a client signs with.
#[verifier::external_type_specification]
#[verifier::external_body]
pub struct ExSignatureKeyPair(SignatureKeyPair);

/// Who a client says it is, with the key that it signs with.
#[verifier::external_type_specification]
#[verifier::external_body]
pub struct ExCredentialWithKey(CredentialWithKey);

/// A client's state of a group. It is known here by the names of `GroupView` and of `unmixed`, and by
/// whether it tells of its tree.
#[verifier::external_type_specification]
#[verifier::external_body]
pub struct ExMlsGroup(MlsGroup);

/// A key package that was read but not yet checked.
#[verifier::external_type_specification]
#[verifier::external_body]
pub struct ExKeyPackageIn(KeyPackageIn);

/// A key package whose signatures are good.
#[verifier::external_type_specification]
#[verifier::external_body]
pub struct ExKeyPackage(KeyPackage);

/// A message to be sent.
#[verifier::external_type_specification]
#[verifier::external_body]
pub struct ExMlsMessageOut(MlsMessageOut);

/// What a new member is told of the group.
#[verifier::external_type_specification]
#[verifier::external_body]
pub struct ExGroupInfo(GroupInfo);

/// A message between members that was read but not yet processed.
#[verifier::external_type_specification]
#[verifier::external_body]
pub struct ExProtocolMessage(ProtocolMessage);

/// An invitation that was read but not yet opened.
#[verifier::external_type_specification]
#[verifier::external_body]
pub struct ExWelcome(Welcome);

/// An invitation that was opened but not yet taken.
#[verifier::external_type_specification]
#[verifier::external_body]
pub struct ExStagedWelcome(StagedWelcome);

/// A commit that was processed but not yet merged.
#[verifier::external_type_specification]
#[verifier::external_body]
pub struct ExStagedCommit(StagedCommit);

/// What `MlsMessageIn::extract` finds in a message.
pub enum Body {
    Protocol(ProtocolMessage),
    Welcome(Welcome),
    Other,
}

/// What `ProcessedMessage::into_content` finds in a message.
pub enum Content {
    Application(Vec<u8>),
    Commit(StagedCommit),
    Other,
}

/// What the bytes of a message hold.
pub enum BodyKind {
    Unreadable,
    Protocol,
    Welcome,
    Other,
}

/// A member of a group: the bytes it is known by and its place in the tree.
pub struct MemberEntry {
    pub identity: Vec<u8>,
    pub leaf: u32,
}

// ---------------------------------------------------------------------------
// Names
// ---------------------------------------------------------------------------

/// `MlsGroup::members`: the identity and the leaf of each member, in the order of the leaves.
pub uninterp spec fn members_of(group: MlsGroup) -> Seq<(Seq<u8>, u32)>;

/// `MlsGroup::epoch`.
pub uninterp spec fn epoch_of(group: MlsGroup) -> u64;

/// `MlsGroup::group_id`.
pub uninterp spec fn id_of(group: MlsGroup) -> Seq<u8>;

/// The epoch that a commit which the client made as a member moves the group into, while it is
/// pending: `MlsGroup::pending_commit` with `StagedCommit::epoch`.
pub uninterp spec fn pending_of(group: MlsGroup) -> Option<u64>;

/// Who is a member once the commit that a client made as a member, and which is pending, is merged.
pub uninterp spec fn pending_members_of(group: MlsGroup) -> Seq<(Seq<u8>, u32)>;

/// `MlsGroup::has_pending_proposals`: whether proposals wait for a commit that takes them up.
pub uninterp spec fn has_proposals(group: MlsGroup) -> bool;

/// Whether the client entered the group by a commit of its own that is still pending, as
/// `MlsGroup::external_commit_builder` makes it.
pub uninterp spec fn enters_by_commit(group: MlsGroup) -> bool;

/// `MlsGroup::configuration`: whether what additions say of the group holds its ratchet tree.
pub uninterp spec fn tells_tree(group: MlsGroup) -> bool;

/// Whether an invitation was opened to a group that tells of its ratchet tree.
pub uninterp spec fn opened_with_tree(staged: StagedWelcome) -> bool;

/// Whether a commit was staged by `MlsGroup::process_message` on the group as it is, with the key
/// store.
pub uninterp spec fn staged_for(
    commit: StagedCommit,
    group: MlsGroup,
    crypto: OpenMlsRustCrypto,
) -> bool;

/// Who is a member of the group that a commit was staged for once it is merged.
pub uninterp spec fn staged_members_of(commit: StagedCommit) -> Seq<(Seq<u8>, u32)>;

/// `StagedCommit::epoch`: the epoch that a staged commit moves the group into.
pub uninterp spec fn staged_epoch(commit: StagedCommit) -> u64;

/// The id of the group that a staged commit is for, by `StagedCommit::group_context`.
pub uninterp spec fn staged_id(commit: StagedCommit) -> Seq<u8>;

/// `Credential::serialized_content`: the bytes that a credential says its holder is known by.
pub uninterp spec fn identity_of(credential: CredentialWithKey) -> Seq<u8>;

/// `Serialize::tls_serialize_detached` of a message, on a machine with words of `word_bits` bits: its
/// bytes on the wire, or nothing where they are too many.
pub uninterp spec fn written_message(message: MlsMessageOut, word_bits: int) -> Option<Seq<u8>>;

/// Whether `MlsMessageOut::body` is an invitation.
pub uninterp spec fn is_welcome(message: MlsMessageOut) -> bool;

/// `Serialize::tls_serialize_detached` of a key package, on a machine with words of `word_bits` bits:
/// its bytes on the wire, or nothing where they are too many.
pub uninterp spec fn written_key_package(package: KeyPackage, word_bits: int) -> Option<Seq<u8>>;

/// `Credential::serialized_content` of the credential in a key package.
pub uninterp spec fn package_identity_of(package: KeyPackage) -> Seq<u8>;

/// `KeyPackage::ciphersuite`, by its number.
pub uninterp spec fn package_suite_of(package: KeyPackage) -> u16;

/// The number of the protocol version that a key package which was read says it is for.
pub uninterp spec fn package_version_of(package: KeyPackageIn) -> u16;

/// How many bytes the ratchet tree of a group info takes, if the info has one.
pub uninterp spec fn tree_len_of(info: GroupInfo) -> Option<usize>;

/// The key package that bytes begin with, if they begin with one.
pub uninterp spec fn parsed_key_package(bytes: Seq<u8>) -> Option<KeyPackageIn>;

/// What `KeyPackageIn::validate` makes of a key package that is valid.
pub uninterp spec fn checked_key_package(package: KeyPackageIn) -> KeyPackage;

/// What the bytes of a message hold.
pub uninterp spec fn body_kind(bytes: Seq<u8>) -> BodyKind;

/// The message between members that bytes hold, where they hold one.
pub uninterp spec fn protocol_in(bytes: Seq<u8>) -> ProtocolMessage;

/// The invitation that bytes hold, where they hold one.
pub uninterp spec fn welcome_in(bytes: Seq<u8>) -> Welcome;

/// Whether something can come of `MlsGroup::process_message` on a message, in a given state of the
/// group.
pub uninterp spec fn processed(
    message: ProtocolMessage,
    group: MlsGroup,
    made: Result<Content, String>,
) -> bool;

/// Whether an opened invitation can come of `StagedWelcome::new_from_welcome` on an invitation.
pub uninterp spec fn opened(welcome: Welcome, staged: StagedWelcome) -> bool;

/// Whether a group can come of `StagedWelcome::into_group` on an opened invitation.
pub uninterp spec fn entered(staged: StagedWelcome, group: MlsGroup) -> bool;

/// Whether `MlsGroup::create_message` made a message out of a text.
pub uninterp spec fn carries(message: MlsMessageOut, plaintext: Seq<u8>) -> bool;

/// `String::from_utf8_lossy`: bytes as text, with a mark in place of what is no text.
pub uninterp spec fn lossy_text(bytes: Seq<u8>) -> Seq<char>;

/// The bytes of a message on the wire, if it can be written on this machine.
pub open spec fn wire_of(message: MlsMessageOut) -> Option<Seq<u8>> {
    written_message(message, usize::BITS as int)
}

/// The bytes of a key package on the wire, if it can be written on this machine.
pub open spec fn key_package_wire_of(package: KeyPackage) -> Option<Seq<u8>> {
    written_key_package(package, usize::BITS as int)
}

/// The contents of bytes that may be missing.
pub open spec fn maybe_bytes(bytes: Option<Vec<u8>>) -> Option<Seq<u8>> {
    match bytes {
        Some(bytes) => Some(bytes@),
        None => None,
    }
}

/// Whether bytes begin with a key package.
pub open spec fn key_package_parses(bytes: Seq<u8>) -> bool {
    parsed_key_package(bytes) is Some
}

/// The valid key package that bytes begin with.
pub open spec fn key_package_in(bytes: Seq<u8>) -> KeyPackage {
    checked_key_package(parsed_key_package(bytes)->0)
}

/// Whether a group can be entered by the invitation that bytes hold.
pub open spec fn invites(bytes: Seq<u8>, group: MlsGroup) -> bool {
    exists|staged: StagedWelcome| #[trigger]
        opened(welcome_in(bytes), staged) && entered(staged, group)
}

/// What a commit of the client's own that is pending does: the epoch it moves the group into, and who
/// is a member then.
#[verifier::ext_equal]
pub struct PendingView {
    pub epoch: u64,
    pub members: Seq<(Seq<u8>, u32)>,
}

/// What is known of a client's state of a group.
#[verifier::ext_equal]
pub struct GroupView {
    pub id: Seq<u8>,
    pub epoch: u64,
    pub members: Seq<(Seq<u8>, u32)>,
    pub pending: Option<PendingView>,
}

/// What is known of a client's state of a group.
pub open spec fn group_view(group: MlsGroup) -> GroupView {
    GroupView {
        id: id_of(group),
        epoch: epoch_of(group),
        members: members_of(group),
        pending: match pending_of(group) {
            Some(epoch) => Some(PendingView { epoch, members: pending_members_of(group) }),
            None => None,
        },
    }
}

/// That nothing but the client itself changes the group by what is pending in it: no proposals wait,
/// and the client is in the group already.
pub open spec fn unmixed(group: MlsGroup) -> bool {
    !has_proposals(group) && !enters_by_commit(group)
}

/// The members at other leaves than some.
pub open spec fn without_leaves(members: Seq<(Seq<u8>, u32)>, leaves: Seq<u32>) -> Seq<
    (Seq<u8>, u32),
> {
    members.filter(|member: (Seq<u8>, u32)| !leaves.contains(member.1))
}

/// Whether a member sits at a leaf.
pub open spec fn sits_at(members: Seq<(Seq<u8>, u32)>, leaf: u32) -> bool {
    exists|i: int| 0 <= i < members.len() && (#[trigger] members[i]).1 == leaf
}

/// Whether someone of an identity is a member after an addition, at a leaf that was free before.
pub open spec fn is_new(
    before: Seq<(Seq<u8>, u32)>,
    after: Seq<(Seq<u8>, u32)>,
    identity: Seq<u8>,
) -> bool {
    exists|i: int|
        0 <= i < after.len() && (#[trigger] after[i]).0 == identity && !sits_at(before, after[i].1)
}

/// That members came to others: those who were there still are, where they were, the holders of the
/// identities are there too, at leaves of their own, and nobody else is.
pub open spec fn grown(
    before: Seq<(Seq<u8>, u32)>,
    after: Seq<(Seq<u8>, u32)>,
    identities: Seq<Seq<u8>>,
) -> bool {
    &&& forall|i: int| 0 <= i < before.len() ==> after.contains(#[trigger] before[i])
    &&& forall|i: int|
        0 <= i < identities.len() ==> is_new(before, after, #[trigger] identities[i])
    &&& forall|i: int|
        0 <= i < after.len() ==> before.contains(#[trigger] after[i]) || identities.contains(
            after[i].0,
        )
}

/// The identities of the holders of key packages.
pub open spec fn holders(packages: Seq<KeyPackage>) -> Seq<Seq<u8>> {
    packages.map_values(|package: KeyPackage| package_identity_of(package))
}

/// The kind of what was read from bytes.
pub open spec fn kind_of(body: Option<Body>) -> BodyKind {
    match body {
        None => BodyKind::Unreadable,
        Some(Body::Protocol(_)) => BodyKind::Protocol,
        Some(Body::Welcome(_)) => BodyKind::Welcome,
        Some(Body::Other) => BodyKind::Other,
    }
}

/// The members of a list as the name `members_of` gives them.
pub open spec fn entries(list: Seq<MemberEntry>) -> Seq<(Seq<u8>, u32)> {
    list.map_values(|entry: MemberEntry| (entry.identity@, entry.leaf))
}

// ---------------------------------------------------------------------------
// A client's keys
// ---------------------------------------------------------------------------

/// `OpenMlsRustCrypto::default`: an empty key store.
#[verifier::external_body]
pub(crate) fn new_crypto() -> OpenMlsRustCrypto {
    OpenMlsRustCrypto::default()
}

/// `SignatureKeyPair::new`: a new pair of keys for a ciphersuite, given by its number. Which keys come
/// by chance. For the first ciphersuite they always come, as it has the signature scheme Ed25519, and
/// the one error there is stands for schemes that the crate does not know.
#[verifier::external_body]
pub(crate) fn new_key_pair(suite: u16) -> (keys: Result<SignatureKeyPair, String>)
    ensures
        suite == 1 ==> keys is Ok,
{
    match Ciphersuite::try_from(suite) {
        Ok(suite) => match SignatureKeyPair::new(suite.signature_algorithm()) {
            Ok(keys) => Ok(keys),
            Err(error) => Err(error.to_string()),
        },
        Err(error) => Err(error.to_string()),
    }
}

/// `BasicCredential::new`: a credential whose content is the identity that it was made with, beside
/// the public key of the pair.
#[verifier::external_body]
pub(crate) fn new_credential(name: &str, keys: &SignatureKeyPair) -> (credential: CredentialWithKey)
    ensures
        identity_of(credential) == encode_utf8(name@),
{
    CredentialWithKey {
        credential: BasicCredential::new(name.as_bytes().to_vec()).into(),
        signature_key: keys.to_public_vec().into(),
    }
}

/// `KeyPackageBuilder::build`: a new key package, by chance, for the ciphersuite that is given by its
/// number. It says the same as the credential of who its holder is. Its secret keys go to the key
/// store. Whether one can be made rests on the machine's source of chance, which is left unsaid.
#[verifier::external_body]
pub(crate) fn new_key_package(
    suite: u16,
    crypto: &OpenMlsRustCrypto,
    keys: &SignatureKeyPair,
    credential: &CredentialWithKey,
) -> (made: Result<KeyPackage, String>)
    ensures
        made matches Ok(package) ==> package_identity_of(package) == identity_of(*credential)
            && package_suite_of(package) == suite,
{
    match Ciphersuite::try_from(suite) {
        Ok(suite) => match KeyPackage::builder().build(suite, crypto, keys, credential.clone()) {
            Ok(bundle) => Ok(bundle.key_package().clone()),
            Err(error) => Err(error.to_string()),
        },
        Err(error) => Err(error.to_string()),
    }
}

/// `Serialize::tls_serialize_detached` of a key package: whether it can be written, and its bytes,
/// are a function of the key package and of the width of the machine's words.
#[verifier::external_body]
pub(crate) fn key_package_bytes(package: &KeyPackage) -> (bytes: Option<Vec<u8>>)
    ensures
        maybe_bytes(bytes) == written_key_package(*package, usize::BITS as int),
{
    package.tls_serialize_detached().ok()
}

/// `Deserialize::tls_deserialize` of a key package: whether the bytes begin with one, and with which,
/// is a function of the bytes.
#[verifier::external_body]
pub(crate) fn read_key_package(bytes: &Vec<u8>) -> (package: Option<KeyPackageIn>)
    ensures
        package == parsed_key_package(bytes@),
{
    KeyPackageIn::tls_deserialize(&mut bytes.as_slice()).ok()
}

/// `KeyPackageIn::validate`: the key package, if its signatures are good, its protocol version is the
/// given one and its times fit. What is handed on is a function of what was read. Whether it is handed
/// on is left unsaid, as it goes by the clock.
#[verifier::external_body]
pub(crate) fn check_key_package(
    package: KeyPackageIn,
    version: u16,
    crypto: &OpenMlsRustCrypto,
) -> (checked: Option<KeyPackage>)
    ensures
        checked matches Some(checked) ==> checked == checked_key_package(package)
            && package_version_of(package) == version,
{
    package.validate(crypto.crypto(), ProtocolVersion::from(version)).ok()
}

// ---------------------------------------------------------------------------
// Reading a group
// ---------------------------------------------------------------------------

/// `MlsGroup::members`: the identity and the leaf of each member.
#[verifier::external_body]
pub(crate) fn group_members(group: &MlsGroup) -> (members: Vec<MemberEntry>)
    ensures
        entries(members@) == members_of(*group),
{
    group.members().map(
        |member| MemberEntry {
            identity: member.credential.serialized_content().to_vec(),
            leaf: member.index.u32(),
        },
    ).collect()
}

/// `MlsGroup::epoch`.
#[verifier::external_body]
pub(crate) fn group_epoch(group: &MlsGroup) -> (epoch: u64)
    ensures
        epoch == epoch_of(*group),
{
    group.epoch().as_u64()
}

/// `MlsGroup::group_id`.
#[verifier::external_body]
pub(crate) fn group_id(group: &MlsGroup) -> (id: Vec<u8>)
    ensures
        id@ == id_of(*group),
{
    group.group_id().as_slice().to_vec()
}

/// `String::from_utf8_lossy`: bytes that are text stay as they are; what else comes is a function
/// of the bytes.
#[verifier::external_body]
pub(crate) fn text_from_bytes(bytes: &Vec<u8>) -> (text: String)
    ensures
        text@ == lossy_text(bytes@),
        valid_utf8(bytes@) ==> text@ == decode_utf8(bytes@),
{
    String::from_utf8_lossy(bytes).into_owned()
}

// ---------------------------------------------------------------------------
// Entering a group
// ---------------------------------------------------------------------------

/// `MlsGroup::new`: a group in its first epoch whose one member is the holder of the credential. Its
/// id comes by chance, and no proposals wait in it. `tree` says whether what additions say of it holds
/// its ratchet tree. Whether one can be made rests on the machine's source of chance and on the key
/// store, which is left unsaid.
#[verifier::external_body]
pub(crate) fn new_group(
    tree: bool,
    crypto: &OpenMlsRustCrypto,
    keys: &SignatureKeyPair,
    credential: &CredentialWithKey,
) -> (group: Result<MlsGroup, String>)
    ensures
        group matches Ok(group) ==> epoch_of(group) == 0 && pending_of(group) is None && unmixed(
            group,
        ) && members_of(group) == seq![(identity_of(*credential), 0u32)] && tells_tree(group)
            == tree,
{
    let config = MlsGroupCreateConfig::builder().use_ratchet_tree_extension(tree).build();
    match MlsGroup::new(crypto, keys, &config, credential.clone()) {
        Ok(group) => Ok(group),
        Err(error) => Err(error.to_string()),
    }
}

/// `MlsMessageIn::tls_deserialize_exact` and `MlsMessageIn::extract`: a message, if the bytes are
/// exactly one. Whether they are, of what kind it is, and what it is, is a function of the bytes.
#[verifier::external_body]
pub(crate) fn read_message(bytes: &Vec<u8>) -> (body: Option<Body>)
    ensures
        kind_of(body) == body_kind(bytes@),
        body matches Some(Body::Protocol(message)) ==> message == protocol_in(bytes@),
        body matches Some(Body::Welcome(welcome)) ==> welcome == welcome_in(bytes@),
{
    match MlsMessageIn::tls_deserialize_exact(bytes.as_slice()) {
        Err(_) => None,
        Ok(message) => match message.extract() {
            MlsMessageBodyIn::PublicMessage(message) => Some(Body::Protocol(message.into())),
            MlsMessageBodyIn::PrivateMessage(message) => Some(Body::Protocol(message.into())),
            MlsMessageBodyIn::Welcome(welcome) => Some(Body::Welcome(welcome)),
            _ => Some(Body::Other),
        },
    }
}

/// `StagedWelcome::new_from_welcome`: an invitation that one of the keys of the store opens. Whether
/// one does rests on what the store holds. `tree` says whether what later additions say of the group
/// holds its ratchet tree.
#[verifier::external_body]
pub(crate) fn open_welcome(tree: bool, crypto: &OpenMlsRustCrypto, welcome: Welcome) -> (opening:
    Result<StagedWelcome, String>)
    ensures
        opening matches Ok(staged) ==> opened(welcome, staged) && opened_with_tree(staged) == tree,
{
    let config = MlsGroupJoinConfig::builder().use_ratchet_tree_extension(tree).build();
    match StagedWelcome::new_from_welcome(crypto, &config, welcome, None) {
        Ok(staged) => Ok(staged),
        Err(error) => Err(error.to_string()),
    }
}

/// `StagedWelcome::into_group`: the group of an invitation, with no commit of the client's own
/// pending and no proposals waiting in it, and with the setting that the invitation was opened with.
#[verifier::external_body]
pub(crate) fn take_welcome(crypto: &OpenMlsRustCrypto, staged: StagedWelcome) -> (group: Result<
    MlsGroup,
    String,
>)
    ensures
        group matches Ok(group) ==> pending_of(group) is None && unmixed(group) && entered(
            staged,
            group,
        ) && tells_tree(group) == opened_with_tree(staged),
{
    match staged.into_group(crypto) {
        Ok(group) => Ok(group),
        Err(error) => Err(error.to_string()),
    }
}

// ---------------------------------------------------------------------------
// Changing a group
// ---------------------------------------------------------------------------

/// That a group is as it was, but perhaps for its own pending commit.
pub open spec fn same_group(before: MlsGroup, after: MlsGroup) -> bool {
    &&& id_of(after) == id_of(before)
    &&& epoch_of(after) == epoch_of(before)
    &&& members_of(after) == members_of(before)
    &&& stays_unmixed(before, after)
}

/// That no proposals came to wait in a group, nor a commit by which the client enters it, and that it
/// tells of its tree if it did.
pub open spec fn stays_unmixed(before: MlsGroup, after: MlsGroup) -> bool {
    &&& unmixed(before) ==> unmixed(after)
    &&& tells_tree(after) == tells_tree(before)
}

/// `MlsGroup::add_members`: a commit and an invitation for the holders of the key packages. The
/// group stays as it is until the commit is merged; the commit is pending and moves it into the
/// next epoch. Where no proposals wait in the group, it adds the holders of the key packages and does
/// nothing else to the members. With proposals of others it takes up those too, which is left unsaid.
/// Where the group tells of its tree there is a group info, and the tree in it takes at least the byte
/// that says how long it is; else there is none.
#[verifier::external_body]
pub(crate) fn commit_additions(
    group: &mut MlsGroup,
    crypto: &OpenMlsRustCrypto,
    keys: &SignatureKeyPair,
    packages: &Vec<KeyPackage>,
) -> (made: Result<(MlsMessageOut, MlsMessageOut, Option<GroupInfo>), String>)
    requires
        epoch_of(*old(group)) < u64::MAX,
    ensures
        same_group(*old(group), *final(group)),
        made matches Ok(made) ==> !is_welcome(made.0) && is_welcome(made.1) && (made.2 is Some
            <==> tells_tree(*old(group))),
        made matches Ok(made) ==> (made.2 matches Some(info) ==> tree_len_of(info) is Some
            && tree_len_of(info)->0 > 0),
        made is Ok ==> pending_of(*final(group)) == Some((epoch_of(*old(group)) + 1) as u64),
        made is Ok && !has_proposals(*old(group)) ==> grown(
            members_of(*old(group)),
            pending_members_of(*final(group)),
            holders(packages@),
        ),
{
    match group.add_members(crypto, keys, packages) {
        Ok(made) => Ok(made),
        Err(error) => Err(error.to_string()),
    }
}

/// `MlsGroup::remove_members`: a commit that takes the members at the leaves out. The group stays as
/// it is until the commit is merged; the commit is pending and moves it into the next epoch. Where no
/// proposals wait in the group, the members at all other leaves stay, and nobody comes. With proposals
/// of others it takes up those too, which is left unsaid.
#[verifier::external_body]
pub(crate) fn commit_removals(
    group: &mut MlsGroup,
    crypto: &OpenMlsRustCrypto,
    keys: &SignatureKeyPair,
    leaves: &Vec<u32>,
) -> (made: Result<MlsMessageOut, String>)
    requires
        epoch_of(*old(group)) < u64::MAX,
    ensures
        same_group(*old(group), *final(group)),
        made matches Ok(commit) ==> !is_welcome(commit),
        made is Ok ==> pending_of(*final(group)) == Some((epoch_of(*old(group)) + 1) as u64),
        made is Ok && !has_proposals(*old(group)) ==> pending_members_of(*final(group))
            == without_leaves(members_of(*old(group)), leaves@),
{
    let places: Vec<LeafNodeIndex> = leaves.iter().map(|leaf| LeafNodeIndex::new(*leaf)).collect();
    match group.remove_members(crypto, keys, &places) {
        Ok((commit, _, _)) => Ok(commit),
        Err(error) => Err(error.to_string()),
    }
}

/// `MlsGroup::self_update`: a commit that gives the client new keys. The group stays as it is until
/// the commit is merged; the commit is pending and moves it into the next epoch. Where no proposals
/// wait in the group, the members stay.
#[verifier::external_body]
pub(crate) fn commit_update(
    group: &mut MlsGroup,
    crypto: &OpenMlsRustCrypto,
    keys: &SignatureKeyPair,
) -> (made: Result<MlsMessageOut, String>)
    requires
        epoch_of(*old(group)) < u64::MAX,
    ensures
        same_group(*old(group), *final(group)),
        made matches Ok(commit) ==> !is_welcome(commit),
        made is Ok ==> pending_of(*final(group)) == Some((epoch_of(*old(group)) + 1) as u64),
        made is Ok && !has_proposals(*old(group)) ==> pending_members_of(*final(group))
            == members_of(*old(group)),
{
    match group.self_update(crypto, keys, LeafNodeParameters::default()) {
        Ok(bundle) => Ok(bundle.into_contents().0),
        Err(error) => Err(error.to_string()),
    }
}

/// `MlsGroup::clear_pending_commit`: the group without its own pending commit. It always succeeds:
/// where such a commit is pending, a state without contents is written to the store, which holds it in
/// memory; else nothing is written.
#[verifier::external_body]
pub(crate) fn drop_pending(group: &mut MlsGroup, crypto: &OpenMlsRustCrypto) -> (done: bool)
    ensures
        done,
        same_group(*old(group), *final(group)),
        pending_of(*final(group)) is None,
{
    group.clear_pending_commit(crypto.storage()).is_ok()
}

/// `MlsGroup::merge_pending_commit`: where a commit of the client's own is pending, the group moves
/// into the epoch of that commit and has the members that the commit leaves. Where none is, it stays as
/// it is. What a merge that fails leaves of the group is left unsaid.
#[verifier::external_body]
pub(crate) fn merge_pending(group: &mut MlsGroup, crypto: &OpenMlsRustCrypto) -> (done: bool)
    ensures
        id_of(*final(group)) == id_of(*old(group)),
        stays_unmixed(*old(group), *final(group)),
        done ==> pending_of(*final(group)) is None,
        done ==> (pending_of(*old(group)) matches Some(epoch) ==> epoch_of(*final(group)) == epoch
            && members_of(*final(group)) == pending_members_of(*old(group))),
        done && pending_of(*old(group)) is None && !enters_by_commit(*old(group)) ==> group_view(
            *final(group),
        ) == group_view(*old(group)),
{
    group.merge_pending_commit(crypto).is_ok()
}

/// `MlsGroup::merge_staged_commit`: the group moves into the epoch of the commit and has the members
/// that the commit leaves, and no commit of the client's own is pending. The commit has to have been
/// staged on the group as it is, so that the key store holds what goes with it. What a merge that fails
/// leaves of the group is left unsaid.
#[verifier::external_body]
pub(crate) fn merge_staged(
    group: &mut MlsGroup,
    crypto: &OpenMlsRustCrypto,
    commit: StagedCommit,
) -> (done: bool)
    requires
        staged_for(commit, *old(group), *crypto),
    ensures
        stays_unmixed(*old(group), *final(group)),
        done ==> epoch_of(*final(group)) == staged_epoch(commit) && id_of(*final(group))
            == staged_id(commit) && members_of(*final(group)) == staged_members_of(commit)
            && pending_of(*final(group)) is None,
{
    group.merge_staged_commit(crypto, commit).is_ok()
}

// ---------------------------------------------------------------------------
// Messages
// ---------------------------------------------------------------------------

/// `Serialize::tls_serialize_detached` of a message: whether it can be written, and its bytes, are a
/// function of the message and of the width of the machine's words.
#[verifier::external_body]
pub(crate) fn message_bytes(message: &MlsMessageOut) -> (bytes: Option<Vec<u8>>)
    ensures
        maybe_bytes(bytes) == written_message(*message, usize::BITS as int),
{
    message.tls_serialize_detached().ok()
}

/// `GroupInfo::extensions` and `Extensions::ratchet_tree`: the length of the ratchet tree, by
/// `Size::tls_serialized_len`.
#[verifier::external_body]
pub(crate) fn tree_len(info: &GroupInfo) -> (len: Option<usize>)
    ensures
        len == tree_len_of(*info),
{
    match info.extensions().ratchet_tree() {
        Some(tree) => Some(tree.ratchet_tree().tls_serialized_len()),
        None => None,
    }
}

/// `MlsGroup::create_message`: a message to the group, made out of the text. The group stays as it is.
#[verifier::external_body]
pub(crate) fn new_message(
    group: &mut MlsGroup,
    crypto: &OpenMlsRustCrypto,
    keys: &SignatureKeyPair,
    plaintext: &Vec<u8>,
) -> (message: Result<MlsMessageOut, String>)
    ensures
        group_view(*final(group)) == group_view(*old(group)),
        stays_unmixed(*old(group), *final(group)),
        message matches Ok(message) ==> !is_welcome(message) && carries(message, plaintext@),
{
    match group.create_message(crypto, keys, plaintext) {
        Ok(message) => Ok(message),
        Err(error) => Err(error.to_string()),
    }
}

/// `MlsGroup::process_message`: what a message holds. The group stays as it is: a commit is staged
/// for it and moves it into the next epoch once it is merged, and a proposal is not kept. What comes of
/// a given message is left unsaid beyond its name, as it rests on the keys in the store and on the
/// clock.
#[verifier::external_body]
pub(crate) fn process(
    group: &mut MlsGroup,
    crypto: &OpenMlsRustCrypto,
    message: ProtocolMessage,
) -> (content: Result<Content, String>)
    requires
        epoch_of(*old(group)) < u64::MAX,
    ensures
        group_view(*final(group)) == group_view(*old(group)),
        stays_unmixed(*old(group), *final(group)),
        processed(message, *old(group), content),
        content matches Ok(Content::Commit(commit)) ==> staged_epoch(commit) == epoch_of(
            *old(group),
        ) + 1 && staged_id(commit) == id_of(*old(group)) && staged_for(
            commit,
            *final(group),
            *crypto,
        ),
{
    match group.process_message(crypto, message) {
        Err(error) => Err(error.to_string()),
        Ok(processed) => match processed.into_content() {
            ProcessedMessageContent::ApplicationMessage(message) => Ok(
                Content::Application(message.into_bytes()),
            ),
            ProcessedMessageContent::StagedCommitMessage(commit) => Ok(Content::Commit(*commit)),
            _ => Ok(Content::Other),
        },
    }
}

} // verus!
