//! Application messages wait here for their recipients until these say that they have them.

use std::collections::VecDeque;
use vstd::prelude::*;

use crate::text;
use crate::text::{decimal_text, str_eq};

verus! {

/// A message that waits for a recipient.
#[derive(Debug)]
pub struct RelayEnvelope {
    pub id: String,
    pub group_id: String,
    pub sender: String,
    pub message_bytes: Vec<u8>,
}

/// A message that waits for a recipient.
#[verifier::ext_equal]
pub struct EnvelopeView {
    pub id: Seq<char>,
    pub group_id: Seq<char>,
    pub sender: Seq<char>,
    pub bytes: Seq<u8>,
}

impl View for RelayEnvelope {
    type V = EnvelopeView;

    open spec fn view(&self) -> EnvelopeView {
        EnvelopeView {
            id: self.id@,
            group_id: self.group_id@,
            sender: self.sender@,
            bytes: self.message_bytes@,
        }
    }
}

/// A message as a recipient is told of it.
#[derive(Debug)]
pub struct PendingApplicationMessage {
    pub id: String,
    pub group_id: String,
    pub sender: String,
    pub message_hex: String,
}

/// The relay: one line of messages for each recipient.
#[derive(Debug)]
pub struct MessageRelay {
    inboxes: Vec<(String, VecDeque<RelayEnvelope>)>,
    next_message_id: u64,
}

/// The messages in a line.
pub open spec fn line(queue: Seq<RelayEnvelope>) -> Seq<EnvelopeView> {
    queue.map_values(|envelope: RelayEnvelope| envelope@)
}

/// The line of a recipient; one that has no line has an empty one.
pub open spec fn line_of(
    inboxes: Seq<(String, VecDeque<RelayEnvelope>)>,
    recipient: Seq<char>,
) -> Seq<EnvelopeView>
    decreases inboxes.len(),
{
    if inboxes.len() == 0 {
        Seq::empty()
    } else if inboxes[0].0@ == recipient {
        line(inboxes[0].1@)
    } else {
        line_of(inboxes.drop_first(), recipient)
    }
}

proof fn lemma_line_of(
    inboxes: Seq<(String, VecDeque<RelayEnvelope>)>,
    recipient: Seq<char>,
    at: int,
)
    requires
        forall|j: int| 0 <= j < at && j < inboxes.len() ==> (#[trigger] inboxes[j]).0@ != recipient,
        0 <= at <= inboxes.len(),
        at < inboxes.len() ==> inboxes[at].0@ == recipient,
    ensures
        line_of(inboxes, recipient) == (if at < inboxes.len() {
            line(inboxes[at].1@)
        } else {
            Seq::empty()
        }),
    decreases inboxes.len(),
{
    if inboxes.len() > 0 && at > 0 {
        let rest = inboxes.drop_first();
        assert forall|j: int| 0 <= j < at - 1 && j < rest.len() implies (#[trigger] rest[j]).0@
            != recipient by {
            assert(rest[j] == inboxes[j + 1]);
        }
        assert(inboxes[0].0@ != recipient);
        if at < inboxes.len() {
            assert(rest[at - 1] == inboxes[at]);
        }
        lemma_line_of(rest, recipient, at - 1);
    }
}

/// Changing the line of one recipient leaves the others alone.
proof fn lemma_line_of_another(
    before: Seq<(String, VecDeque<RelayEnvelope>)>,
    after: Seq<(String, VecDeque<RelayEnvelope>)>,
    at: int,
    other: Seq<char>,
)
    requires
        0 <= at < after.len(),
        after.len() == before.len() || (after.len() == before.len() + 1 && at == before.len()),
        forall|j: int| 0 <= j < before.len() && j != at ==> after[j] == #[trigger] before[j],
        at < before.len() ==> before[at].0@ == after[at].0@,
        after[at].0@ != other,
    ensures
        line_of(after, other) == line_of(before, other),
    decreases before.len(),
{
    if before.len() == 0 {
        assert(after.drop_first() =~= Seq::empty());
        assert(line_of(after.drop_first(), other) == Seq::<EnvelopeView>::empty());
    } else {
        if at == 0 {
            assert(after.drop_first() =~= before.drop_first()) by {
                assert forall|j: int| 0 <= j < before.len() - 1 implies after.drop_first()[j]
                    == before.drop_first()[j] by {
                    assert(after[j + 1] == before[j + 1]);
                }
            }
        } else {
            assert(after[0] == before[0]);
            let rest_before = before.drop_first();
            let rest_after = after.drop_first();
            assert forall|j: int| 0 <= j < rest_before.len() && j != at - 1 implies rest_after[j]
                == #[trigger] rest_before[j] by {
                assert(after[j + 1] == before[j + 1]);
            }
            assert(rest_after[at - 1] == after[at]);
            if at < before.len() {
                assert(rest_before[at - 1] == before[at]);
            }
            lemma_line_of_another(rest_before, rest_after, at - 1, other);
        }
    }
}

/// The id of a message for a recipient.
pub open spec fn message_id(
    group_id: Seq<char>,
    sender: Seq<char>,
    seq: u64,
    recipient: Seq<char>,
) -> Seq<char> {
    group_id + ":"@ + sender + ":"@ + text::decimal(seq as nat) + ":"@ + recipient
}

fn application_message_id(group_id: &str, sender: &str, seq: u64, recipient: &str) -> (id: String)
    ensures
        id@ == message_id(group_id@, sender@, seq, recipient@),
{
    let mut id: String = group_id.to_owned();
    id.append(":");
    id.append(sender);
    id.append(":");
    id.append(decimal_text(seq as u128).as_str());
    id.append(":");
    id.append(recipient);
    id
}

/// A digit of a number to the base of sixteen.
pub open spec fn hex_digit(n: u8) -> char {
    if n < 10 {
        (n + 48) as char
    } else {
        (n + 87) as char
    }
}

/// Bytes as two digits each, to the base of sixteen, with small letters.
pub open spec fn hex_of(bytes: Seq<u8>) -> Seq<char>
    decreases bytes.len(),
{
    if bytes.len() == 0 {
        Seq::empty()
    } else {
        hex_of(bytes.drop_last()).push(hex_digit(bytes.last() / 16)).push(
            hex_digit(bytes.last() % 16),
        )
    }
}

/// `hex::encode`: two digits for each byte, the upper half first, with small letters.
#[verifier::external_body]
pub(crate) fn hex_text(bytes: &Vec<u8>) -> (out: String)
    ensures
        out@ == hex_of(bytes@),
{
    hex::encode(bytes)
}

/// How often a message goes to a recipient: once for each time it is named, but never to the sender.
pub open spec fn copies_for(
    recipients: Seq<Seq<char>>,
    sender: Seq<char>,
    recipient: Seq<char>,
) -> nat
    decreases recipients.len(),
{
    if recipients.len() == 0 {
        0
    } else {
        copies_for(recipients.drop_last(), sender, recipient) + if recipients.last() == recipient
            && recipient != sender {
            1nat
        } else {
            0nat
        }
    }
}

/// The same message some number of times.
pub open spec fn copies(envelope: EnvelopeView, n: nat) -> Seq<EnvelopeView> {
    Seq::new(n, |i: int| envelope)
}

/// The messages of a line with another id.
pub open spec fn without_id(list: Seq<EnvelopeView>, id: Seq<char>) -> Seq<EnvelopeView>
    decreases list.len(),
{
    if list.len() == 0 {
        Seq::empty()
    } else if list.last().id == id {
        without_id(list.drop_last(), id)
    } else {
        without_id(list.drop_last(), id).push(list.last())
    }
}

/// A message has an id.
pub open spec fn has_message(list: Seq<EnvelopeView>, id: Seq<char>) -> bool {
    exists|i: int| 0 <= i < list.len() && (#[trigger] list[i]).id == id
}

/// Taking messages out of two lines one behind the other takes them out of both.
proof fn lemma_without_id_apart(a: Seq<EnvelopeView>, b: Seq<EnvelopeView>, id: Seq<char>)
    ensures
        without_id(a + b, id) == without_id(a, id) + without_id(b, id),
    decreases b.len(),
{
    if b.len() == 0 {
        assert(a + b =~= a);
        assert(without_id(a, id) + without_id(b, id) =~= without_id(a, id));
    } else {
        let front = b.drop_last();
        assert((a + b).drop_last() =~= a + front);
        assert((a + b).last() == b.last());
        lemma_without_id_apart(a, front, id);
        if b.last().id != id {
            assert((without_id(a, id) + without_id(front, id)).push(b.last()) =~= without_id(a, id)
                + without_id(front, id).push(b.last()));
        }
    }
}

proof fn lemma_copies_without(message: EnvelopeView, n: nat, id: Seq<char>)
    ensures
        without_id(copies(message, n), id) == (if message.id == id {
            Seq::<EnvelopeView>::empty()
        } else {
            copies(message, n)
        }),
    decreases n,
{
    let all = copies(message, n);
    if n > 0 {
        assert(all.drop_last() =~= copies(message, (n - 1) as nat));
        assert(all.last() == message);
        lemma_copies_without(message, (n - 1) as nat, id);
        assert(copies(message, (n - 1) as nat).push(message) =~= all);
    } else {
        assert(all =~= Seq::<EnvelopeView>::empty());
    }
}

/// Messages are handed out in the order in which they were published. A message that is published
/// waits behind those that wait already; acknowledging one of those leaves it where it is, so that
/// it is the first as soon as all before it are acknowledged; and acknowledging it leaves the line
/// that there was before it.
pub proof fn law_delivered(line: Seq<EnvelopeView>, message: EnvelopeView, n: nat, id: Seq<char>)
    requires
        !has_message(line, message.id),
    ensures
        without_id(line + copies(message, n), message.id) == line,
        id != message.id ==> without_id(line + copies(message, n), id) == without_id(line, id)
            + copies(message, n),
        line.len() > 0 ==> (line + copies(message, n))[0] == line[0],
        line.len() == 0 && n > 0 ==> (line + copies(message, n))[0] == message,
{
    lemma_without_id_apart(line, copies(message, n), message.id);
    lemma_without_id_apart(line, copies(message, n), id);
    lemma_copies_without(message, n, message.id);
    lemma_copies_without(message, n, id);
    law_acknowledged(line, message.id, message);
    assert(line + Seq::<EnvelopeView>::empty() =~= line);
}

/// A sender is not sent its own message, who is not named gets none, and who is named once gets one.
pub proof fn law_recipients(
    before: Seq<Seq<char>>,
    recipient: Seq<char>,
    after: Seq<Seq<char>>,
    sender: Seq<char>,
)
    ensures
        copies_for(before, sender, sender) == 0,
        !before.contains(recipient) ==> copies_for(before, sender, recipient) == 0,
        !before.contains(recipient) && !after.contains(recipient) && recipient != sender
            ==> copies_for(before + seq![recipient] + after, sender, recipient) == 1,
    decreases before.len() + after.len(),
{
    if before.len() > 0 {
        let front = before.drop_last();
        law_recipients(front, recipient, Seq::empty(), sender);
        if !before.contains(recipient) {
            assert(before[before.len() - 1] != recipient);
            assert forall|i: int| 0 <= i < front.len() implies front[i] != recipient by {
                assert(front[i] == before[i]);
            }
        }
    }
    if after.len() > 0 {
        let front = after.drop_last();
        law_recipients(before, recipient, front, sender);
        let whole = before + seq![recipient] + after;
        assert(whole.drop_last() =~= before + seq![recipient] + front);
        assert(whole.last() == after.last());
        if !after.contains(recipient) {
            assert(after[after.len() - 1] != recipient);
            assert forall|i: int| 0 <= i < front.len() implies front[i] != recipient by {
                assert(front[i] == after[i]);
            }
        }
    } else {
        let whole = before + seq![recipient] + after;
        assert(whole.drop_last() =~= before);
        assert(whole.last() == recipient);
    }
}

/// Two messages of one sender in one group for one recipient have different ids, as long as their
/// numbers differ.
pub proof fn law_ids_differ(
    group_id: Seq<char>,
    sender: Seq<char>,
    recipient: Seq<char>,
    first: u64,
    second: u64,
)
    ensures
        message_id(group_id, sender, first, recipient) == message_id(
            group_id,
            sender,
            second,
            recipient,
        ) ==> first == second,
{
    let one = message_id(group_id, sender, first, recipient);
    let other = message_id(group_id, sender, second, recipient);
    if one == other {
        let front = group_id + ":"@ + sender + ":"@;
        let end = ":"@ + recipient;
        let a = text::decimal(first as nat);
        let b = text::decimal(second as nat);
        assert(one =~= front + a + end);
        assert(other =~= front + b + end);
        assert(a.len() == b.len());
        assert(one.subrange(front.len() as int, (front.len() + a.len()) as int) =~= a);
        assert(other.subrange(front.len() as int, (front.len() + b.len()) as int) =~= b);
        text::law_decimal_reads_back(first as nat);
        text::law_decimal_reads_back(second as nat);
    }
}

/// Where a message is taken out of a line, it is gone, the line is shorter, and all others are there
/// as often as before.
pub proof fn law_acknowledged(list: Seq<EnvelopeView>, id: Seq<char>, other: EnvelopeView)
    ensures
        !has_message(without_id(list, id), id),
        without_id(list, id).len() <= list.len(),
        has_message(list, id) <==> without_id(list, id).len() < list.len(),
        !has_message(list, id) ==> without_id(list, id) == list,
        other.id != id ==> without_id(list, id).to_multiset().count(other)
            == list.to_multiset().count(other),
    decreases list.len(),
{
    broadcast use vstd::seq_lib::group_to_multiset_ensures;

    if list.len() > 0 {
        let front = list.drop_last();
        law_acknowledged(front, id, other);
        assert(list =~= front.push(list.last()));
        if has_message(front, id) {
            let k = choose|k: int| 0 <= k < front.len() && (#[trigger] front[k]).id == id;
            assert(list[k].id == id);
        }
        assert(list[list.len() - 1] == list.last());
        if has_message(list, id) && list.last().id != id {
            let k = choose|k: int| 0 <= k < list.len() && (#[trigger] list[k]).id == id;
            assert(front[k].id == id);
        }
        if !has_message(list, id) {
            assert(without_id(list, id) =~= list);
        }
        let out = without_id(list, id);
        let before = without_id(front, id);
        if has_message(out, id) {
            let k = choose|k: int| 0 <= k < out.len() && (#[trigger] out[k]).id == id;
            if k < before.len() {
                assert(before[k].id == id);
            }
        }
    }
}

fn copy_bytes(bytes: &Vec<u8>) -> (out: Vec<u8>)
    ensures
        out@ == bytes@,
{
    let mut out: Vec<u8> = Vec::new();
    let mut i: usize = 0;
    while i < bytes.len()
        invariant
            i <= bytes@.len(),
            out@ == bytes@.take(i as int),
        decreases bytes@.len() - i,
    {
        out.push(bytes[i]);
        i = i + 1;
        assert(out@ =~= bytes@.take(i as int));
    }
    assert(bytes@.take(i as int) =~= bytes@);
    out
}

impl MessageRelay {
    /// The line of a recipient.
    pub closed spec fn inbox(&self, recipient: Seq<char>) -> Seq<EnvelopeView> {
        line_of(self.inboxes@, recipient)
    }

    /// The number of the next message.
    pub closed spec fn next_seq(&self) -> u64 {
        self.next_message_id
    }

    /// A relay without messages.
    pub fn new() -> (relay: MessageRelay)
        ensures
            forall|recipient: Seq<char>| (#[trigger] relay.inbox(recipient)).len() == 0,
            relay.next_seq() == 1,
    {
        MessageRelay { inboxes: Vec::new(), next_message_id: 1 }
    }

    fn place(&self, recipient: &str) -> (at: usize)
        ensures
            at <= self.inboxes@.len(),
            at < self.inboxes@.len() ==> self.inboxes@[at as int].0@ == recipient@,
            forall|j: int| 0 <= j < at ==> (#[trigger] self.inboxes@[j]).0@ != recipient@,
            self.inbox(recipient@) == (if at < self.inboxes@.len() {
                line(self.inboxes@[at as int].1@)
            } else {
                Seq::empty()
            }),
    {
        let mut at: usize = 0;
        while at < self.inboxes.len() && !str_eq(self.inboxes[at].0.as_str(), recipient)
            invariant
                at <= self.inboxes@.len(),
                forall|j: int| 0 <= j < at ==> (#[trigger] self.inboxes@[j]).0@ != recipient@,
            decreases self.inboxes@.len() - at,
        {
            at = at + 1;
        }
        proof {
            lemma_line_of(self.inboxes@, recipient@, at as int);
        }
        at
    }

    fn deliver(&mut self, recipient: &str, envelope: RelayEnvelope)
        ensures
            final(self).next_seq() == old(self).next_seq(),
            final(self).inbox(recipient@) == old(self).inbox(recipient@).push(envelope@),
            forall|other: Seq<char>|
                other != recipient@ ==> #[trigger] final(self).inbox(other) == old(self).inbox(
                    other,
                ),
    {
        let at: usize = self.place(recipient);
        let ghost before = self.inboxes@;
        let ghost sent = envelope@;
        if at == self.inboxes.len() {
            let mut queue: VecDeque<RelayEnvelope> = VecDeque::new();
            queue.push_back(envelope);
            self.inboxes.push((recipient.to_owned(), queue));
        } else {
            self.inboxes[at].1.push_back(envelope);
        }
        proof {
            lemma_line_of(self.inboxes@, recipient@, at as int);
            assert(line(self.inboxes@[at as int].1@) =~= old(self).inbox(recipient@).push(sent));
            assert forall|other: Seq<char>| other != recipient@ implies #[trigger] self.inbox(other)
                == old(self).inbox(other) by {
                lemma_line_of_another(before, self.inboxes@, at as int, other);
            }
        }
    }

    /// Puts a message into the lines of all recipients but the sender. Without recipients there is
    /// nothing to do, which is an error.
    pub fn publish_group_application_message(
        &mut self,
        group_id: &str,
        sender: &str,
        recipients: &[String],
        message_bytes: Vec<u8>,
    ) -> (result: Result<(), String>)
        ensures
            recipients@.len() == 0 ==> {
                &&& result is Err
                &&& result->Err_0@ == "No recipients were provided to the message relay"@
                &&& final(self).next_seq() == old(self).next_seq()
                &&& forall|recipient: Seq<char>| #[trigger]
                    final(self).inbox(recipient) == old(self).inbox(recipient)
            },
            recipients@.len() > 0 ==> {
                &&& result is Ok
                &&& final(self).next_seq() == (if old(self).next_seq() == u64::MAX {
                    0
                } else {
                    (old(self).next_seq() + 1) as u64
                })
                &&& forall|recipient: Seq<char>| #[trigger]
                    final(self).inbox(recipient) == old(self).inbox(recipient) + copies(
                        EnvelopeView {
                            id: message_id(group_id@, sender@, old(self).next_seq(), recipient),
                            group_id: group_id@,
                            sender: sender@,
                            bytes: message_bytes@,
                        },
                        copies_for(text::texts(recipients@), sender@, recipient),
                    )
            },
    {
        if recipients.len() == 0 {
            return Err("No recipients were provided to the message relay".to_owned());
        }
        let seq: u64 = self.next_message_id;
        self.next_message_id = if seq == u64::MAX {
            0
        } else {
            seq + 1
        };
        let ghost next = self.next_message_id;
        let ghost all = text::texts(recipients@);
        let mut i: usize = 0;
        assert(all.take(0) =~= Seq::<Seq<char>>::empty());
        assert forall|recipient: Seq<char>| #[trigger] self.inbox(recipient) == old(self).inbox(
            recipient,
        ) + copies(
            EnvelopeView {
                id: message_id(group_id@, sender@, seq, recipient),
                group_id: group_id@,
                sender: sender@,
                bytes: message_bytes@,
            },
            copies_for(all.take(0), sender@, recipient),
        ) by {
            assert(self.inbox(recipient) == old(self).inbox(recipient));
            assert(old(self).inbox(recipient) =~= old(self).inbox(recipient) + copies(
                EnvelopeView {
                    id: message_id(group_id@, sender@, seq, recipient),
                    group_id: group_id@,
                    sender: sender@,
                    bytes: message_bytes@,
                },
                0,
            ));
        }
        while i < recipients.len()
            invariant
                i <= recipients@.len(),
                all == text::texts(recipients@),
                seq == old(self).next_seq(),
                self.next_seq() == next,
                forall|recipient: Seq<char>| #[trigger]
                    self.inbox(recipient) == old(self).inbox(recipient) + copies(
                        EnvelopeView {
                            id: message_id(group_id@, sender@, seq, recipient),
                            group_id: group_id@,
                            sender: sender@,
                            bytes: message_bytes@,
                        },
                        copies_for(all.take(i as int), sender@, recipient),
                    ),
            decreases recipients@.len() - i,
        {
            let recipient: &str = recipients[i].as_str();
            assert(all.take(i + 1).drop_last() =~= all.take(i as int));
            assert(all.take(i + 1).last() == recipient@);
            let ghost before = *self;
            if !str_eq(recipient, sender) {
                let envelope: RelayEnvelope = RelayEnvelope {
                    id: application_message_id(group_id, sender, seq, recipient),
                    group_id: group_id.to_owned(),
                    sender: sender.to_owned(),
                    message_bytes: copy_bytes(&message_bytes),
                };
                let ghost sent = envelope@;
                self.deliver(recipient, envelope);
                proof {
                    let n = copies_for(all.take(i as int), sender@, recipient@);
                    assert((old(self).inbox(recipient@) + copies(sent, n)).push(sent) =~= old(
                        self,
                    ).inbox(recipient@) + copies(sent, (n + 1) as nat));
                }
            }
            assert forall|name: Seq<char>| #[trigger] self.inbox(name) == old(self).inbox(name)
                + copies(
                EnvelopeView {
                    id: message_id(group_id@, sender@, seq, name),
                    group_id: group_id@,
                    sender: sender@,
                    bytes: message_bytes@,
                },
                copies_for(all.take(i + 1), sender@, name),
            ) by {
                if name != recipient@ {
                    assert(self.inbox(name) == before.inbox(name));
                }
            }
            i = i + 1;
        }
        assert(all.take(i as int) =~= all);
        Ok(())
    }

    /// The first message that waits for a recipient.
    pub fn fetch_application_message(&self, recipient: &str) -> (bytes: Option<Vec<u8>>)
        ensures
            match bytes {
                Some(bytes) => self.inbox(recipient@).len() > 0 && bytes@ == self.inbox(
                    recipient@,
                )[0].bytes,
                None => self.inbox(recipient@).len() == 0,
            },
    {
        let at: usize = self.place(recipient);
        if at < self.inboxes.len() && self.inboxes[at].1.len() > 0 {
            assert(line(self.inboxes@[at as int].1@)[0] == self.inboxes@[at as int].1@[0]@);
            Some(copy_bytes(&self.inboxes[at].1[0].message_bytes))
        } else {
            None
        }
    }

    /// The first message that waits for a recipient, with where it comes from.
    pub fn fetch_pending_application_message(&self, recipient: &str) -> (message: Option<
        PendingApplicationMessage,
    >)
        ensures
            match message {
                Some(message) => {
                    let first = self.inbox(recipient@)[0];
                    &&& self.inbox(recipient@).len() > 0
                    &&& message.id@ == first.id
                    &&& message.group_id@ == first.group_id
                    &&& message.sender@ == first.sender
                    &&& message.message_hex@ == hex_of(first.bytes)
                },
                None => self.inbox(recipient@).len() == 0,
            },
    {
        let at: usize = self.place(recipient);
        if at < self.inboxes.len() && self.inboxes[at].1.len() > 0 {
            let first: &RelayEnvelope = &self.inboxes[at].1[0];
            assert(line(self.inboxes@[at as int].1@)[0] == first@);
            Some(
                PendingApplicationMessage {
                    id: first.id.clone(),
                    group_id: first.group_id.clone(),
                    sender: first.sender.clone(),
                    message_hex: hex_text(&first.message_bytes),
                },
            )
        } else {
            None
        }
    }

    /// Takes a message out of a recipient's line; whether it was there.
    pub fn ack_application_message(&mut self, recipient: &str, message_id: &str) -> (was_there:
        bool)
        ensures
            was_there == has_message(old(self).inbox(recipient@), message_id@),
            final(self).inbox(recipient@) == without_id(
                old(self).inbox(recipient@),
                message_id@,
            ),
            forall|other: Seq<char>|
                other != recipient@ ==> #[trigger] final(self).inbox(other) == old(self).inbox(
                    other,
                ),
            final(self).next_seq() == old(self).next_seq(),
    {
        let at: usize = self.place(recipient);
        if at == self.inboxes.len() {
            assert(without_id(self.inbox(recipient@), message_id@) =~= self.inbox(recipient@));
            return false;
        }
        let ghost before = self.inboxes@;
        let ghost whole = self.inboxes@[at as int].1@;
        let ghost given = line(whole);
        proof {
            law_acknowledged(given, message_id@, arbitrary());
        }
        let count: usize = self.inboxes[at].1.len();
        let mut kept: VecDeque<RelayEnvelope> = VecDeque::new();
        let mut queue: VecDeque<RelayEnvelope> = VecDeque::new();
        std::mem::swap(&mut queue, &mut self.inboxes[at].1);
        let ghost mut done: int = 0;
        assert(queue@ =~= whole.skip(0));
        assert(given.take(0) =~= Seq::<EnvelopeView>::empty());
        assert(line(kept@) =~= Seq::<EnvelopeView>::empty());
        while queue.len() > 0
            invariant
                0 <= done <= whole.len(),
                given == line(whole),
                queue@ == whole.skip(done),
                line(kept@) == without_id(given.take(done), message_id@),
            decreases queue@.len(),
        {
            if let Some(envelope) = queue.pop_front() {
                proof {
                    assert(given.take(done + 1).drop_last() =~= given.take(done));
                    assert(given.take(done + 1).last() == envelope@);
                }
                let ghost kept_before = kept@;
                if !str_eq(envelope.id.as_str(), message_id) {
                    let ghost kept_one = envelope@;
                    kept.push_back(envelope);
                    assert(line(kept@) =~= line(kept_before).push(kept_one));
                }
                proof {
                    done = done + 1;
                    assert(queue@ =~= whole.skip(done));
                }
            }
        }
        assert(given.take(done) =~= given);
        assert(line(kept@).len() == kept@.len());
        let left: usize = kept.len();
        self.inboxes[at].1 = kept;
        proof {
            lemma_line_of(self.inboxes@, recipient@, at as int);
            assert forall|other: Seq<char>| other != recipient@ implies #[trigger] self.inbox(other)
                == old(self).inbox(other) by {
                lemma_line_of_another(before, self.inboxes@, at as int, other);
            }
        }
        left != count
    }
}

} // verus!
