//! The one chat session a process may have, as a state machine.
//!
//! The caller owns the streams and the task that reads from the peer; here
//! they are numbers, which this module hands out and never hands out twice.
//! Every function takes what happened and answers what the caller has to
//! do: which reading task to abort, which text to hand to the listener.
//!
//! A session is replaced in one step: the session that is active stays
//! until a new one is installed, and the step that installs the new one
//! answers the reading task of the old one to abort. A host installs when a
//! peer's marker has matched; a guest installs when its own marker has been
//! written. Opening a room, a marker that does not match and a write that
//! fails leave the session as it was.
//!
//! A reading task that meets a read of no bytes, the end of its stream or an
//! error ends the session; it is not restarted. The bytes of every other
//! read are handed on as text, ill-formed UTF-8 replaced and not refused:
//! reads end where the transport ends them, not where a character ends.
//! Strict decoding belongs to the channel that carries one message per
//! stream (`transport::Iroh::accept_msg`).

use crate::handshake::{handshake_marker, verify_handshake};
use vstd::prelude::*;
use vstd::slice::slice_to_vec;
use vstd::utf8::{decode_utf8, encode_utf8, valid_utf8};

verus! {

/// The greatest count of numbers handed out at which a session can still be
/// given its two.
pub const LAST_ISSUE: u64 = 0xffff_ffff_ffff_fffd;

/// Where the session stands.
#[derive(Debug, Clone, Copy, PartialEq, Eq, Structural)]
pub enum Phase {
    /// Nothing was started yet.
    Idle,
    /// A room is open, no session is installed, and no marker has matched.
    HandshakePending,
    /// A peer is connected and its stream is trusted.
    Active,
    /// The session ended.
    Closed,
}

/// The streams of an active session: the half that is written to, and the
/// task that reads the other half.
#[derive(Debug, Clone, Copy, PartialEq, Eq, Structural)]
pub struct ChatSession {
    pub sender: u64,
    pub receiver: u64,
}

/// What installing a session answers: the session, under whose numbers the
/// caller keeps its streams, and the reading task of the session that was
/// replaced, which the caller aborts.
#[derive(Debug, Clone, Copy, PartialEq, Eq, Structural)]
pub struct Installed {
    pub session: ChatSession,
    pub abort: Option<u64>,
}

/// Why the session state refused.
#[derive(Debug, Clone, Copy, PartialEq, Eq, Structural)]
pub enum SessionError {
    /// No session is installed.
    NotActive,
    /// Every number has been handed out.
    Exhausted,
}

/// The session state of a process: at most one session at any time.
#[derive(Debug, Clone, Copy, PartialEq, Eq)]
pub struct ChatState {
    session: Option<ChatSession>,
    awaiting: bool,
    ended: bool,
    issued: u64,
}

/// The text that a chunk of received bytes is shown as: what
/// `String::from_utf8_lossy` makes of it.
pub uninterp spec fn lossy_text(bytes: Seq<u8>) -> Seq<char>;

/// `String::from_utf8_lossy` of the standard library, copied into an owned
/// string. The result depends on the bytes alone; well-formed UTF-8 is
/// decoded as it stands.
#[verifier::external_body]
fn text_lossy(bytes: &[u8]) -> (text: String)
    ensures
        text@ == lossy_text(bytes@),
        valid_utf8(bytes@) ==> text@ == decode_utf8(bytes@),
{
    String::from_utf8_lossy(bytes).into_owned()
}

/// The numbers of a session are among the first `issued` ones.
pub open spec fn session_fits(session: Option<ChatSession>, issued: u64) -> bool {
    match session {
        Some(s) => s.sender < issued && s.receiver < issued,
        None => true,
    }
}

/// The session that is installed when `issued` numbers have been handed out.
pub open spec fn fresh_session(issued: u64) -> ChatSession {
    ChatSession { sender: issued, receiver: (issued + 1) as u64 }
}

/// The reading task of a session, if there is a session.
pub open spec fn receiver_of(session: Option<ChatSession>) -> Option<u64> {
    match session {
        Some(s) => Some(s.receiver),
        None => None,
    }
}

/// `receiver` is the reading task of the installed session.
pub open spec fn is_reader(session: Option<ChatSession>, receiver: u64) -> bool {
    receiver_of(session) == Some(receiver)
}

/// The text that received bytes are shown as: the text they encode where
/// they are well-formed UTF-8, and what `lossy_text` makes of them otherwise.
pub open spec fn shown_text(bytes: Seq<u8>) -> Seq<char> {
    if valid_utf8(bytes) {
        decode_utf8(bytes)
    } else {
        lossy_text(bytes)
    }
}

/// A read brought bytes to hand on: it did not fail and is not empty.
pub open spec fn brought_bytes(chunk: Option<&[u8]>) -> bool {
    chunk is Some && chunk->Some_0@.len() > 0
}

impl ChatState {
    /// The installed session, if one is active.
    pub closed spec fn session(&self) -> Option<ChatSession> {
        self.session
    }

    /// A room is open: a peer whose marker matches will be installed.
    pub closed spec fn awaiting(&self) -> bool {
        self.awaiting
    }

    /// A session has ended since the last one was installed.
    pub closed spec fn ended(&self) -> bool {
        self.ended
    }

    /// How many numbers have been handed out.
    pub closed spec fn issued(&self) -> u64 {
        self.issued
    }

    /// Where the session stands.
    pub open spec fn phase(&self) -> Phase {
        if self.session() is Some {
            Phase::Active
        } else if self.awaiting() {
            Phase::HandshakePending
        } else if self.ended() {
            Phase::Closed
        } else {
            Phase::Idle
        }
    }

    /// The numbers of the installed session have been handed out.
    pub open spec fn wf(&self) -> bool {
        session_fits(self.session(), self.issued())
    }

    #[verifier::type_invariant]
    closed spec fn inv(&self) -> bool {
        session_fits(self.session, self.issued)
    }

    /// The state of a process that has started nothing.
    pub fn new() -> (state: ChatState)
        ensures
            state.session() is None,
            !state.awaiting(),
            !state.ended(),
            state.issued() == 0,
            state.wf(),
    {
        ChatState { session: None, awaiting: false, ended: false, issued: 0 }
    }

    /// Where the session stands.
    pub fn current_phase(&self) -> (phase: Phase)
        ensures
            phase == self.phase(),
    {
        if self.session.is_some() {
            Phase::Active
        } else if self.awaiting {
            Phase::HandshakePending
        } else if self.ended {
            Phase::Closed
        } else {
            Phase::Idle
        }
    }

    /// Whether a room is open.
    pub fn room_is_open(&self) -> (open: bool)
        ensures
            open == self.awaiting(),
    {
        self.awaiting
    }

    /// The installed session, if one is active.
    pub fn active_session(&self) -> (session: Option<ChatSession>)
        ensures
            session == self.session(),
            self.wf(),
    {
        proof {
            use_type_invariant(self);
        }
        self.session
    }

    /// Installs a session under two numbers that were never handed out and
    /// answers it with the reading task of the session it replaces.
    fn install(&mut self, awaiting: bool) -> (done: Installed)
        requires
            old(self).issued() <= LAST_ISSUE,
        ensures
            old(self).wf(),
            final(self).wf(),
            done.session == fresh_session(old(self).issued()),
            done.abort == receiver_of(old(self).session()),
            done.abort is Some ==> done.abort->Some_0 != done.session.receiver,
            final(self).session() == Some(done.session),
            final(self).awaiting() == awaiting,
            !final(self).ended(),
            final(self).issued() == old(self).issued() + 2,
    {
        proof {
            use_type_invariant(&*self);
        }
        let abort = match self.session {
            Some(s) => Some(s.receiver),
            None => None,
        };
        let session = ChatSession { sender: self.issued, receiver: self.issued + 1 };
        *self = ChatState { session: Some(session), awaiting, ended: false, issued: self.issued + 2 };
        Installed { session, abort }
    }

    /// The responder's step when the first bytes of an incoming stream were
    /// read. A session is installed exactly if a room is open, `received`
    /// is the marker in full and numbers are left; the room is then taken.
    /// Otherwise nothing changes and the caller drops the stream without
    /// answering.
    pub fn accept_handshake(&mut self, received: &[u8]) -> (done: Option<Installed>)
        ensures
            old(self).wf(),
            final(self).wf(),
            done is Some <==> received@ == handshake_marker() && old(self).awaiting() && old(
                self,
            ).issued() <= LAST_ISSUE,
            match done {
                Some(d) => {
                    &&& d.session == fresh_session(old(self).issued())
                    &&& d.abort == receiver_of(old(self).session())
                    &&& d.abort is Some ==> d.abort->Some_0 != d.session.receiver
                    &&& final(self).session() == Some(d.session)
                    &&& !final(self).awaiting()
                    &&& !final(self).ended()
                    &&& final(self).issued() == old(self).issued() + 2
                },
                None => {
                    &&& final(self).session() == old(self).session()
                    &&& final(self).awaiting() == old(self).awaiting()
                    &&& final(self).ended() == old(self).ended()
                    &&& final(self).issued() == old(self).issued()
                },
            },
    {
        proof {
            use_type_invariant(&*self);
        }
        if !verify_handshake(received) || !self.awaiting || self.issued > LAST_ISSUE {
            return None;
        }
        Some(self.install(false))
    }

    /// The reading task's step after one read, with the bytes already turned
    /// into text: `None` stands for a read of no bytes, the end of the
    /// stream or an error. Answers the text to hand to the listener, or
    /// `None` where the task has to stop. A task that is not the installed
    /// session's reader stops and changes nothing. The installed reader goes
    /// on after a text; after `None` it stops and the session has ended.
    pub fn after_read(&mut self, receiver: u64, text: Option<String>) -> (emit: Option<String>)
        ensures
            old(self).wf(),
            final(self).wf(),
            emit is Some <==> is_reader(old(self).session(), receiver) && text is Some,
            emit is Some ==> emit->Some_0@ == text->Some_0@,
            final(self).session() == (if text is None && is_reader(
                old(self).session(),
                receiver,
            ) {
                None
            } else {
                old(self).session()
            }),
            final(self).ended() == (old(self).ended() || (text is None && is_reader(
                old(self).session(),
                receiver,
            ))),
            final(self).awaiting() == old(self).awaiting(),
            final(self).issued() == old(self).issued(),
    {
        proof {
            use_type_invariant(&*self);
        }
        let reading = match self.session {
            Some(s) => s.receiver == receiver,
            None => false,
        };
        if !reading {
            return None;
        }
        match text {
            Some(t) => Some(t),
            None => {
                *self = ChatState {
                    session: None,
                    awaiting: self.awaiting,
                    ended: true,
                    issued: self.issued,
                };
                None
            },
        }
    }

    /// The reading task's step after one read: `chunk` holds the bytes that
    /// were read, or `None` at the end of the stream or on an error. Bytes,
    /// if there are any, are handed on as `shown_text` gives them; a read of
    /// no bytes counts as the end. The rest is `after_read`.
    pub fn on_read(&mut self, receiver: u64, chunk: Option<&[u8]>) -> (emit: Option<String>)
        ensures
            old(self).wf(),
            final(self).wf(),
            emit is Some <==> is_reader(old(self).session(), receiver) && brought_bytes(chunk),
            emit is Some ==> emit->Some_0@ == shown_text(chunk->Some_0@),
            final(self).session() == (if !brought_bytes(chunk) && is_reader(
                old(self).session(),
                receiver,
            ) {
                None
            } else {
                old(self).session()
            }),
            final(self).ended() == (old(self).ended() || (!brought_bytes(chunk) && is_reader(
                old(self).session(),
                receiver,
            ))),
            final(self).awaiting() == old(self).awaiting(),
            final(self).issued() == old(self).issued(),
    {
        let text = match chunk {
            Some(bytes) => if bytes.len() > 0 {
                Some(text_lossy(bytes))
            } else {
                None
            },
            None => None,
        };
        self.after_read(receiver, text)
    }

    /// Ends the session and closes the room. Answers the reading task to
    /// abort, if a session was active.
    pub fn close(&mut self) -> (abort: Option<u64>)
        ensures
            old(self).wf(),
            final(self).wf(),
            final(self).session() is None,
            !final(self).awaiting(),
            final(self).ended(),
            final(self).issued() == old(self).issued(),
            abort == receiver_of(old(self).session()),
    {
        proof {
            use_type_invariant(&*self);
        }
        let abort = match self.session {
            Some(s) => Some(s.receiver),
            None => None,
        };
        *self = ChatState { session: None, awaiting: false, ended: true, issued: self.issued };
        abort
    }
}

/// A session that is installed later shares no number with an earlier one:
/// the reading task of the earlier session is not the reader of the later
/// one, so whatever it reads is not handed on.
pub proof fn lemma_superseded_reader_stops(earlier: ChatSession, handed_out: u64, issued: u64)
    requires
        session_fits(Some(earlier), handed_out),
        handed_out <= issued <= LAST_ISSUE,
    ensures
        fresh_session(issued).receiver != earlier.receiver,
        fresh_session(issued).sender != earlier.sender,
        !is_reader(Some(fresh_session(issued)), earlier.receiver),
{
}

/// Opens a room as host: from now on a peer whose marker matches is
/// installed. The session that is active, if any, stays as it is until then.
pub fn create_chat_room(state: &mut ChatState)
    ensures
        old(state).wf(),
        final(state).wf(),
        final(state).awaiting(),
        final(state).session() == old(state).session(),
        final(state).ended() == old(state).ended(),
        final(state).issued() == old(state).issued(),
{
    proof {
        use_type_invariant(&*state);
    }
    *state = ChatState {
        session: state.session,
        awaiting: true,
        ended: state.ended,
        issued: state.issued,
    };
}

/// Installs the session of a guest. The caller has opened the streams to
/// the host and has written the marker (`handshake::handshake`) to them;
/// where that failed this function is not called and the state stays as it
/// was. Answers the new session and the reading task to abort, if a session
/// was active. Refused with `Exhausted`, and nothing changed, where no
/// numbers are left.
pub fn join_chat_room(state: &mut ChatState) -> (res: Result<Installed, SessionError>)
    ensures
        old(state).wf(),
        final(state).wf(),
        res is Ok <==> old(state).issued() <= LAST_ISSUE,
        match res {
            Ok(d) => {
                &&& d.session == fresh_session(old(state).issued())
                &&& d.abort == receiver_of(old(state).session())
                &&& d.abort is Some ==> d.abort->Some_0 != d.session.receiver
                &&& final(state).session() == Some(d.session)
                &&& final(state).awaiting() == old(state).awaiting()
                &&& !final(state).ended()
                &&& final(state).issued() == old(state).issued() + 2
            },
            Err(e) => {
                &&& e == SessionError::Exhausted
                &&& final(state).session() == old(state).session()
                &&& final(state).awaiting() == old(state).awaiting()
                &&& final(state).ended() == old(state).ended()
                &&& final(state).issued() == old(state).issued()
            },
        },
{
    proof {
        use_type_invariant(&*state);
    }
    if state.issued > LAST_ISSUE {
        return Err(SessionError::Exhausted);
    }
    let awaiting = state.awaiting;
    Ok(state.install(awaiting))
}

/// Sends `message` on the active session: answers the stream to write to
/// and the bytes to write, the message in UTF-8. Fails with `NotActive`
/// where no session is installed.
pub fn send_message(state: &ChatState, message: &str) -> (res: Result<(u64, Vec<u8>), SessionError>)
    ensures
        match res {
            Ok(out) => state.session() is Some && out.0 == state.session()->Some_0.sender
                && out.1@ == encode_utf8(message@),
            Err(e) => state.session() is None && e == SessionError::NotActive,
        },
{
    match state.active_session() {
        Some(s) => Ok((s.sender, slice_to_vec(message.as_bytes()))),
        None => Err(SessionError::NotActive),
    }
}

} // verus!
