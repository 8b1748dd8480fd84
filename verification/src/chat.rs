//! Conversation records: a bounded, FIFO-evicting message log for one
//! ordered pair of identities.
//!
//! A conversation is created once for an ordered pair of participants and
//! addressed by that order. Appending to a full log evicts the oldest
//! message first, so the log always holds the most recent messages in
//! insertion order.

use vstd::prelude::*;

use crate::capacity::MAX_IPFS_HASH_LENGTH;
use crate::capacity::MAX_MESSAGES;
use crate::error::ChatError;
use crate::identity::Identity;
use crate::profile::UserProfile;
use crate::profile::record_visit;
use crate::profile::visit;

verus! {

/// One message of a conversation: who sent it, the content pointer, and
/// when the environment clock saw it.
#[derive(Clone, Debug)]
pub struct MessageEntry {
    pub sender: Identity,
    pub ipfs_hash: String,
    pub timestamp: i64,
}

/// The mathematical value of a message.
#[verifier::ext_equal]
pub struct MessageView {
    pub sender: Identity,
    pub ipfs_hash: Seq<char>,
    pub timestamp: i64,
}

impl View for MessageEntry {
    type V = MessageView;

    open spec fn view(&self) -> MessageView {
        MessageView { sender: self.sender, ipfs_hash: self.ipfs_hash@, timestamp: self.timestamp }
    }
}

/// The conversation record of one ordered pair of identities.
#[derive(Clone, Debug)]
pub struct ChatAccount {
    /// The two participants, in creation order; fixed at creation.
    pub participants: [Identity; 2],
    /// The messages still held, oldest first.
    pub messages: Vec<MessageEntry>,
    /// Opaque slot version binding the record to its derived address.
    pub bump: u8,
}

/// The mathematical value of a conversation record.
#[verifier::ext_equal]
pub struct ChatAccountView {
    pub participants: Seq<Identity>,
    pub messages: Seq<MessageView>,
    pub bump: u8,
}

impl View for ChatAccount {
    type V = ChatAccountView;

    open spec fn view(&self) -> ChatAccountView {
        ChatAccountView {
            participants: self.participants@,
            messages: self.messages@.map_values(|m: MessageEntry| m@),
            bump: self.bump,
        }
    }
}

/// Whether `acting` is one of the two participants of `c`.
pub open spec fn is_participant_of(acting: Identity, c: ChatAccountView) -> bool {
    acting == c.participants[0] || acting == c.participants[1]
}

impl ChatAccountView {
    /// Well-formedness of a conversation: exactly two distinct
    /// participants, a log within its capacity, and every held message sent
    /// by a participant with a content pointer within its bound.
    pub open spec fn wf(self) -> bool {
        &&& self.participants.len() == 2
        &&& self.participants[0] != self.participants[1]
        &&& self.messages.len() <= MAX_MESSAGES
        &&& (forall|i: int|
            0 <= i < self.messages.len()
                ==> (#[trigger] self.messages[i]).ipfs_hash.len() <= MAX_IPFS_HASH_LENGTH
                    && is_participant_of(self.messages[i].sender, self))
    }
}

/// The log after appending `m`: when at capacity the oldest message is
/// evicted first, then `m` goes at the end.
pub open spec fn appended(ms: Seq<MessageView>, m: MessageView) -> Seq<MessageView> {
    if ms.len() < MAX_MESSAGES {
        ms.push(m)
    } else {
        ms.drop_first().push(m)
    }
}

/// The log left after starting from `init` and appending each message of
/// `ms` in order.
pub open spec fn replay(init: Seq<MessageView>, ms: Seq<MessageView>) -> Seq<MessageView>
    decreases ms.len(),
{
    if ms.len() == 0 {
        init
    } else {
        replay(appended(init, ms[0]), ms.drop_first())
    }
}

/// The suffix of `s` a capacity-bounded log can hold: all of `s` when it
/// fits, its most recent part otherwise.
pub open spec fn latest_window(s: Seq<MessageView>) -> Seq<MessageView> {
    if s.len() <= MAX_MESSAGES {
        s
    } else {
        s.skip(s.len() - MAX_MESSAGES)
    }
}

/// Stateless authorization guard: does `acting` belong to the conversation?
pub fn is_participant(acting: Identity, chat: &ChatAccount) -> (r: bool)
    ensures
        r == is_participant_of(acting, chat@),
{
    acting == chat.participants[0] || acting == chat.participants[1]
}

/// Creates the conversation record for `(sender, receiver)`, in that exact
/// order, with an empty log; as a side effect the sender's profile history
/// gains the receiver, if not already present.
pub fn init_chat(sender: Identity, receiver: Identity, bump: u8, profile: &mut UserProfile) -> (chat: ChatAccount)
    requires
        sender != receiver,
        old(profile)@.wf(),
        old(profile)@.wallet == sender,
    ensures
        chat@.wf(),
        chat@.participants =~= seq![sender, receiver],
        chat@.messages =~= Seq::<MessageView>::empty(),
        chat@.bump == bump,
        final(profile)@.wf(),
        final(profile)@.wallet == old(profile)@.wallet,
        final(profile)@.nicknames == old(profile)@.nicknames,
        final(profile)@.bump == old(profile)@.bump,
        final(profile)@.history =~= visit(old(profile)@.history, receiver),
{
    let chat = ChatAccount { participants: [sender, receiver], messages: Vec::new(), bump };
    record_visit(profile, receiver);
    chat
}

/// Appends a message from `acting` to the conversation, evicting the
/// oldest message first when the log is full. A content pointer over its
/// bound, or an acting identity that is not a participant, is rejected and
/// the record is left byte-for-byte unchanged.
pub fn send_message(chat: &mut ChatAccount, acting: Identity, ipfs_hash: String, timestamp: i64) -> (r: Result<(), ChatError>)
    requires
        old(chat)@.wf(),
    ensures
        final(chat)@.wf(),
        final(chat)@.participants == old(chat)@.participants,
        final(chat)@.bump == old(chat)@.bump,
        ipfs_hash@.len() > MAX_IPFS_HASH_LENGTH
            ==> r == Err::<(), ChatError>(ChatError::HashTooLong)
                && final(chat)@ == old(chat)@,
        ipfs_hash@.len() <= MAX_IPFS_HASH_LENGTH && !is_participant_of(acting, old(chat)@)
            ==> r == Err::<(), ChatError>(ChatError::Unauthorized)
                && final(chat)@ == old(chat)@,
        ipfs_hash@.len() <= MAX_IPFS_HASH_LENGTH && is_participant_of(acting, old(chat)@)
            ==> r == Ok::<(), ChatError>(())
                && final(chat)@.messages =~= appended(
                    old(chat)@.messages,
                    (MessageView { sender: acting, ipfs_hash: ipfs_hash@, timestamp }),
                ),
{
    if ipfs_hash.as_str().unicode_len() > MAX_IPFS_HASH_LENGTH {
        return Err(ChatError::HashTooLong);
    }
    if !is_participant(acting, chat) {
        return Err(ChatError::Unauthorized);
    }
    let message = MessageEntry { sender: acting, ipfs_hash, timestamp };
    if chat.messages.len() >= MAX_MESSAGES {
        chat.messages.remove(0);
        proof {
            assert(chat@.messages =~= old(chat)@.messages.drop_first());
        }
    }
    chat.messages.push(message);
    proof {
        assert(chat@.messages =~= appended(
            old(chat)@.messages,
            MessageView { sender: acting, ipfs_hash: message.ipfs_hash@, timestamp },
        ));
    }
    Ok(())
}

/// A log that starts within capacity stays within capacity under any
/// sequence of appends, and afterwards holds exactly the most recent
/// messages, in insertion order: the whole run when it fits, its final
/// stretch of full capacity otherwise.
pub proof fn lemma_fifo_keeps_latest(init: Seq<MessageView>, ms: Seq<MessageView>)
    requires
        init.len() <= MAX_MESSAGES,
    ensures
        replay(init, ms).len() <= MAX_MESSAGES,
        replay(init, ms) =~= latest_window(init + ms),
    decreases ms.len(),
{
    if ms.len() == 0 {
        assert(init + ms =~= init);
    } else {
        let m = ms[0];
        let rest = ms.drop_first();
        let init2 = appended(init, m);
        assert(init2.len() <= MAX_MESSAGES);
        lemma_fifo_keeps_latest(init2, rest);
        assert(replay(init, ms) == replay(init2, rest));
        if init.len() < MAX_MESSAGES {
            assert(init2 + rest =~= init + ms);
        } else {
            let s = init + ms;
            assert(init2 + rest =~= s.skip(1));
            assert(s.len() > MAX_MESSAGES);
            if s.skip(1).len() <= MAX_MESSAGES {
                assert(s.len() == MAX_MESSAGES + 1);
                assert(latest_window(s.skip(1)) == s.skip(1));
                assert(s.skip(1) =~= latest_window(s));
            } else {
                assert(latest_window(s.skip(1)) == s.skip(1).skip(s.skip(1).len() - MAX_MESSAGES));
                assert(s.skip(1).skip(s.skip(1).len() - MAX_MESSAGES) =~= s.skip(s.len() - MAX_MESSAGES));
            }
            assert(latest_window(init2 + rest) =~= latest_window(s));
        }
        assert(replay(init2, rest) =~= latest_window(init2 + rest));
    }
}

} // verus!
