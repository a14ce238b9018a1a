//! The per-peer session engine.  One session owns one established
//! connection; a read loop and a write loop run beside each other and share
//! an append-only mailbox of user messages, an owned-files registry, and a
//! downloads registry.  The loops themselves suspend on I/O and so live
//! outside this crate; everything they decide — how an incoming message is
//! dispatched, what the write loop records, when the session is still
//! alive — is a state transition of `SessionCore`, verified here.

use vstd::prelude::*;

use crate::protocol::{
    InternalMessage, InternalMessageView, Message, MessageView, UserMessage, UserMessageView,
};
use std::collections::HashMap;
use std::collections::HashSet;

verus! {

broadcast use vstd::std_specs::hash::group_hash_axioms;

/// One mailbox entry: a user message together with its direction.
pub struct MessageContext {
    /// True when the peer sent it, false when this side did.
    pub was_received: bool,
    pub message: UserMessage,
}

/// Mathematical value of a mailbox entry.
pub struct MessageContextView {
    pub was_received: bool,
    pub message: UserMessageView,
}

impl View for MessageContext {
    type V = MessageContextView;

    open spec fn view(&self) -> MessageContextView {
        MessageContextView { was_received: self.was_received, message: self.message@ }
    }
}

/// What the read loop must do after dispatching one incoming message.
pub enum ReadAction {
    /// Nothing: the message was recorded, or addressed no registered party.
    Ignored,
    /// Start an upload worker for the file at this path, with this file id.
    StartUpload(String, u64),
    /// Hand this control message to the matching download worker.
    Forward(InternalMessage),
}

/// The shared state of one peer session: the remote display name, the
/// mailbox both loops append to, and the two file-transfer registries the
/// read loop consults.
pub struct SessionCore {
    /// Display name the peer sent in the handshake.
    pub name: String,
    conversation: Vec<MessageContext>,
    owned_files: HashMap<u64, String>,
    downloaded_files: HashSet<u64>,
}

impl SessionCore {
    /// The display name the peer sent in the handshake.
    pub closed spec fn peer_name(&self) -> Seq<char> {
        self.name@
    }

    /// The mailbox: every user message of the session, oldest first, each
    /// tagged sent or received.
    pub closed spec fn mailbox(&self) -> Seq<MessageContextView> {
        self.conversation@.map_values(|mc: MessageContext| mc@)
    }

    /// The owned-files registry: file id to source path.
    pub closed spec fn owned(&self) -> Map<u64, String> {
        self.owned_files@
    }

    /// The downloads registry: the file ids with a registered download
    /// worker.
    pub closed spec fn downloads(&self) -> Set<u64> {
        self.downloaded_files@
    }

    /// A fresh session for a peer with the given display name: empty
    /// mailbox, empty registries.
    pub fn new(name: String) -> (r: SessionCore)
        ensures
            r.mailbox() == Seq::<MessageContextView>::empty(),
            r.owned() == Map::<u64, String>::empty(),
            r.downloads() == Set::<u64>::empty(),
            r.peer_name() == name@,
    {
        let r = SessionCore {
            name,
            conversation: Vec::new(),
            owned_files: HashMap::new(),
            downloaded_files: HashSet::new(),
        };
        proof {
            assert(r.mailbox() =~= Seq::<MessageContextView>::empty());
        }
        r
    }

    /// Records a file this side offers, so a later `FileRequest` for its id
    /// starts an upload.
    pub fn register_owned(&mut self, id: u64, path: String)
        ensures
            final(self).owned() == old(self).owned().insert(id, path),
            final(self).mailbox() == old(self).mailbox(),
            final(self).downloads() == old(self).downloads(),
            final(self).peer_name() == old(self).peer_name(),
    {
        self.owned_files.insert(id, path);
    }

    /// Registers a download worker for a file id, so incoming content for
    /// it is forwarded.
    pub fn register_download(&mut self, id: u64)
        ensures
            final(self).downloads() == old(self).downloads().insert(id),
            final(self).mailbox() == old(self).mailbox(),
            final(self).owned() == old(self).owned(),
            final(self).peer_name() == old(self).peer_name(),
    {
        self.downloaded_files.insert(id);
    }

    /// Removes a download worker's registration; late chunks for the id are
    /// dropped from then on.  Every worker does this on exit.
    pub fn unregister_download(&mut self, id: u64)
        ensures
            final(self).downloads() == old(self).downloads().remove(id),
            final(self).mailbox() == old(self).mailbox(),
            final(self).owned() == old(self).owned(),
            final(self).peer_name() == old(self).peer_name(),
    {
        self.downloaded_files.remove(&id);
    }

    /// The read loop's dispatch of one incoming message.  A user message is
    /// appended to the mailbox tagged received.  A `FileRequest` for an
    /// owned file starts an upload and for any other id is ignored.
    /// Content and error messages are forwarded to the registered download
    /// worker and dropped when none is registered.  Nothing else changes.
    pub fn handle_incoming(&mut self, msg: Message) -> (r: ReadAction)
        ensures
            final(self).owned() == old(self).owned(),
            final(self).downloads() == old(self).downloads(),
            final(self).peer_name() == old(self).peer_name(),
            match msg@ {
                MessageView::User(u) => {
                    &&& final(self).mailbox() == old(self).mailbox().push(
                        MessageContextView { was_received: true, message: u },
                    )
                    &&& r is Ignored
                },
                MessageView::Internal(i) => {
                    &&& final(self).mailbox() == old(self).mailbox()
                    &&& match i {
                        InternalMessageView::FileRequest(id) => {
                            if old(self).owned().contains_key(id) {
                                r matches ReadAction::StartUpload(p, rid) && p == old(
                                    self,
                                ).owned()[id] && rid == id
                            } else {
                                r is Ignored
                            }
                        },
                        InternalMessageView::FileContent(id, _, _) => {
                            if old(self).downloads().contains(id) {
                                r matches ReadAction::Forward(fm) && fm@ == i
                            } else {
                                r is Ignored
                            }
                        },
                        InternalMessageView::FileContentError(id, _) => {
                            if old(self).downloads().contains(id) {
                                r matches ReadAction::Forward(fm) && fm@ == i
                            } else {
                                r is Ignored
                            }
                        },
                    }
                },
            },
    {
        match msg {
            Message::User(u) => {
                let ghost uv = u@;
                self.conversation.push(MessageContext { was_received: true, message: u });
                proof {
                    assert(self.mailbox() =~= old(self).mailbox().push(
                        MessageContextView { was_received: true, message: uv },
                    ));
                }
                ReadAction::Ignored
            },
            Message::Internal(InternalMessage::FileRequest(id)) => {
                match self.owned_files.get(&id) {
                    Some(path) => ReadAction::StartUpload(path.clone(), id),
                    None => ReadAction::Ignored,
                }
            },
            Message::Internal(i) => {
                let id = match &i {
                    InternalMessage::FileRequest(id) => *id,
                    InternalMessage::FileContent(id, _, _) => *id,
                    InternalMessage::FileContentError(id, _) => *id,
                };
                if self.downloaded_files.contains(&id) {
                    ReadAction::Forward(i)
                } else {
                    ReadAction::Ignored
                }
            },
        }
    }

    /// The write loop's bookkeeping for one message it has just written: a
    /// user message is appended to the mailbox tagged sent, internal
    /// traffic leaves the mailbox alone.
    pub fn record_outgoing(&mut self, msg: Message)
        ensures
            final(self).owned() == old(self).owned(),
            final(self).downloads() == old(self).downloads(),
            final(self).peer_name() == old(self).peer_name(),
            match msg@ {
                MessageView::User(u) => final(self).mailbox() == old(self).mailbox().push(
                    MessageContextView { was_received: false, message: u },
                ),
                MessageView::Internal(_) => final(self).mailbox() == old(self).mailbox(),
            },
    {
        match msg {
            Message::User(u) => {
                let ghost uv = u@;
                self.conversation.push(MessageContext { was_received: false, message: u });
                proof {
                    assert(self.mailbox() =~= old(self).mailbox().push(
                        MessageContextView { was_received: false, message: uv },
                    ));
                }
            },
            Message::Internal(_) => {},
        }
    }

    /// Hands the whole mailbox to the presentation layer and empties it:
    /// the entries come out exactly as appended, oldest first.
    pub fn drain(&mut self) -> (r: Vec<MessageContext>)
        ensures
            r@.map_values(|mc: MessageContext| mc@) == old(self).mailbox(),
            final(self).mailbox() == Seq::<MessageContextView>::empty(),
            final(self).owned() == old(self).owned(),
            final(self).downloads() == old(self).downloads(),
            final(self).peer_name() == old(self).peer_name(),
    {
        let mut out: Vec<MessageContext> = Vec::new();
        core::mem::swap(&mut self.conversation, &mut out);
        proof {
            assert(self.mailbox() =~= Seq::<MessageContextView>::empty());
        }
        out
    }
}

/// How alive a session is: both loops running, one exited, or both gone.
#[derive(Debug, Clone, Copy, PartialEq, Eq, Structural)]
pub enum SessionLiveness {
    Active,
    Degraded,
    Dead,
}

/// The liveness of a session whose read loop and write loop have or have
/// not terminated.
pub open spec fn spec_liveness(reader_done: bool, writer_done: bool) -> SessionLiveness {
    if reader_done && writer_done {
        SessionLiveness::Dead
    } else if reader_done || writer_done {
        SessionLiveness::Degraded
    } else {
        SessionLiveness::Active
    }
}

/// How far along the one-way path Active → Degraded → Dead a liveness
/// value is.
pub open spec fn spec_liveness_rank(l: SessionLiveness) -> int {
    match l {
        SessionLiveness::Active => 0,
        SessionLiveness::Degraded => 1,
        SessionLiveness::Dead => 2,
    }
}

/// Liveness only decays: a loop that has terminated stays terminated, so a
/// session never moves back toward `Active`.
pub proof fn lemma_liveness_monotone(r1: bool, w1: bool, r2: bool, w2: bool)
    requires
        r1 ==> r2,
        w1 ==> w2,
    ensures
        spec_liveness_rank(spec_liveness(r1, w1)) <= spec_liveness_rank(spec_liveness(r2, w2)),
{
}

/// Computes the session's liveness from the two loops' states.
pub fn session_liveness(reader_done: bool, writer_done: bool) -> (r: SessionLiveness)
    ensures
        r == spec_liveness(reader_done, writer_done),
{
    if reader_done && writer_done {
        SessionLiveness::Dead
    } else if reader_done || writer_done {
        SessionLiveness::Degraded
    } else {
        SessionLiveness::Active
    }
}

/// True exactly when neither loop has terminated: the owner's non-blocking
/// per-refresh check.
pub fn is_active(reader_done: bool, writer_done: bool) -> (r: bool)
    ensures
        r == (spec_liveness(reader_done, writer_done) == SessionLiveness::Active),
{
    !reader_done && !writer_done
}

} // verus!
