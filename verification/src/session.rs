//! The rules of a session with the device.
//!
//! A session is one socket, used for one poll. The protocol is strictly
//! request and response: a command goes out, and the next text frame that
//! comes in is its reply. This module decides; the caller owns the socket,
//! does what the decisions say and reports what happened.

use vstd::prelude::*;
use vstd::string::*;
use crate::error::{Error, ErrorView};

verus! {

/// Where a session stands.
#[derive(Clone, Copy, Debug, PartialEq, Eq, Structural)]
pub enum SessionState {
    /// Nothing has happened yet.
    Disconnected,
    /// The socket is being opened.
    Connecting,
    /// The socket is open, and nobody has logged in.
    Connected,
    /// The device has sent its menu: pages can be asked for.
    LoggedIn,
    /// The session is over, for good.
    Closed,
}

/// What happened to a session.
#[derive(Clone, Copy, Debug, PartialEq, Eq, Structural)]
pub enum SessionEvent {
    /// The caller starts to open the socket.
    Open,
    /// The socket is open and the protocol agreed on.
    Opened,
    /// The socket could not be opened, or the protocol was refused.
    OpenFailed,
    /// The reply to the login was a menu tree.
    LoginAccepted,
    /// The reply to the login was something else.
    LoginRejected,
    /// A reply was awaited and never came.
    ReplyMissing,
    /// The caller closes the socket.
    Close,
}

/// The state that follows `state` on `event`, and the error that the event
/// stands for, if it is one. An event that has no place in `state` ends the
/// session as a failed connection does.
pub open spec fn after(state: SessionState, event: SessionEvent) -> (
    SessionState,
    Option<ErrorView>,
) {
    match (state, event) {
        (SessionState::Closed, SessionEvent::Close) => (SessionState::Closed, None),
        (SessionState::Closed, _) => (SessionState::Closed, Some(ErrorView::ConnectionError)),
        (_, SessionEvent::Close) => (SessionState::Closed, None),
        (SessionState::Disconnected, SessionEvent::Open) => (SessionState::Connecting, None),
        (SessionState::Connecting, SessionEvent::Opened) => (SessionState::Connected, None),
        (SessionState::Connecting, SessionEvent::OpenFailed) => (
            SessionState::Closed,
            Some(ErrorView::ConnectionError),
        ),
        (SessionState::Connected, SessionEvent::LoginAccepted) => (SessionState::LoggedIn, None),
        (SessionState::Connected, SessionEvent::LoginRejected) => (
            SessionState::Closed,
            Some(ErrorView::LoginError),
        ),
        (SessionState::Connected, SessionEvent::ReplyMissing) => (
            SessionState::Closed,
            Some(ErrorView::NoResponse),
        ),
        (SessionState::LoggedIn, SessionEvent::ReplyMissing) => (
            SessionState::Closed,
            Some(ErrorView::NoResponse),
        ),
        _ => (SessionState::Closed, Some(ErrorView::ConnectionError)),
    }
}

/// A frame that came in on the socket.
#[derive(Debug)]
pub enum Frame {
    Text(String),
    Binary(Vec<u8>),
    Ping(Vec<u8>),
    Pong(Vec<u8>),
    Close,
}

/// What to do about a frame that came in while a reply is awaited.
#[derive(Debug)]
pub enum Reaction {
    /// The frame is the reply: the wait is over.
    Reply(String),
    /// Send a pong with this payload, and wait on.
    AnswerPing(Vec<u8>),
    /// Wait on.
    Ignore,
    /// Send a close frame; the reply will not come.
    ConfirmClose,
    /// The reply will not come.
    GiveUp,
}

/// What [`react`] decides about `incoming`, the frame that came in, or
/// nothing where the stream ended or broke.
pub open spec fn reaction_to(incoming: Option<Frame>) -> Reaction {
    match incoming {
        Some(Frame::Text(text)) => Reaction::Reply(text),
        Some(Frame::Ping(payload)) => Reaction::AnswerPing(payload),
        Some(Frame::Close) => Reaction::ConfirmClose,
        Some(Frame::Binary(_)) => Reaction::Ignore,
        Some(Frame::Pong(_)) => Reaction::Ignore,
        None => Reaction::GiveUp,
    }
}

/// The wait for a reply ends with this reaction.
pub open spec fn ends_wait(reaction: Reaction) -> bool {
    reaction is Reply || reaction is ConfirmClose || reaction is GiveUp
}

/// Decides what to do about what came in while a reply is awaited.
///
/// A text frame is the reply. A ping is answered with a pong of the same
/// payload, and a close with a close; neither is a reply. A close, or the
/// end of the stream, means that no reply will come. Everything else is
/// passed over.
pub fn react(incoming: Option<Frame>) -> (reaction: Reaction)
    ensures
        reaction == reaction_to(incoming),
{
    match incoming {
        Some(Frame::Text(text)) => Reaction::Reply(text),
        Some(Frame::Ping(payload)) => Reaction::AnswerPing(payload),
        Some(Frame::Close) => Reaction::ConfirmClose,
        Some(Frame::Binary(_)) => Reaction::Ignore,
        Some(Frame::Pong(_)) => Reaction::Ignore,
        None => Reaction::GiveUp,
    }
}

/// What a wait comes to when it ends with `reaction`: the reply, or
/// [`Error::NoResponse`]. A reaction that does not end the wait gives
/// nothing.
pub fn outcome(reaction: Reaction) -> (result: Option<Result<String, Error>>)
    ensures
        match reaction {
            Reaction::Reply(text) => result == Some(Ok::<String, Error>(text)),
            Reaction::ConfirmClose | Reaction::GiveUp => result == Some(
                Err::<String, Error>(Error::NoResponse),
            ),
            Reaction::AnswerPing(_) | Reaction::Ignore => result is None,
        },
        result is Some <==> ends_wait(reaction),
{
    match reaction {
        Reaction::Reply(text) => Some(Ok(text)),
        Reaction::ConfirmClose => Some(Err(Error::NoResponse)),
        Reaction::GiveUp => Some(Err(Error::NoResponse)),
        Reaction::AnswerPing(_) => None,
        Reaction::Ignore => None,
    }
}

/// The command that logs in with `code`.
pub open spec fn login_text(code: Seq<char>) -> Seq<char> {
    "LOGIN;"@ + code
}

/// The command that asks for the page `node_id`.
pub open spec fn page_text(node_id: Seq<char>) -> Seq<char> {
    "GET;"@ + node_id
}

/// A session with the device, as far as its state goes.
#[derive(Debug)]
pub struct Session {
    state: SessionState,
}

impl Session {
    pub closed spec fn state_of(&self) -> SessionState {
        self.state
    }

    /// A session on which nothing has happened.
    pub fn new() -> (session: Session)
        ensures
            session.state_of() == SessionState::Disconnected,
    {
        Session { state: SessionState::Disconnected }
    }

    #[verifier::when_used_as_spec(state_of)]
    pub fn state(&self) -> (state: SessionState)
        ensures
            state == self.state_of(),
    {
        self.state
    }

    /// Takes note of `event`. The session moves on as [`after`] says, and
    /// the result is the error that the event stands for, if any.
    pub fn apply(&mut self, event: SessionEvent) -> (result: Result<(), Error>)
        ensures
            final(self).state_of() == after(old(self).state_of(), event).0,
            match result {
                Ok(_) => after(old(self).state_of(), event).1 is None,
                Err(error) => after(old(self).state_of(), event).1 == Some(error@),
            },
    {
        let (next, error): (SessionState, Option<Error>) = match (self.state, event) {
            (SessionState::Closed, SessionEvent::Close) => (SessionState::Closed, None),
            (SessionState::Closed, _) => (SessionState::Closed, Some(Error::ConnectionError)),
            (_, SessionEvent::Close) => (SessionState::Closed, None),
            (SessionState::Disconnected, SessionEvent::Open) => (SessionState::Connecting, None),
            (SessionState::Connecting, SessionEvent::Opened) => (SessionState::Connected, None),
            (SessionState::Connecting, SessionEvent::OpenFailed) => (
                SessionState::Closed,
                Some(Error::ConnectionError),
            ),
            (SessionState::Connected, SessionEvent::LoginAccepted) => (
                SessionState::LoggedIn,
                None,
            ),
            (SessionState::Connected, SessionEvent::LoginRejected) => (
                SessionState::Closed,
                Some(Error::LoginError),
            ),
            (SessionState::Connected, SessionEvent::ReplyMissing) => (
                SessionState::Closed,
                Some(Error::NoResponse),
            ),
            (SessionState::LoggedIn, SessionEvent::ReplyMissing) => (
                SessionState::Closed,
                Some(Error::NoResponse),
            ),
            _ => (SessionState::Closed, Some(Error::ConnectionError)),
        };
        self.state = next;
        match error {
            Some(error) => Err(error),
            None => Ok(()),
        }
    }

    /// The login command for `code`. It can be sent once the socket is
    /// open and before anybody has logged in; in any other state the
    /// session ends.
    pub fn login_command(&mut self, code: &str) -> (result: Result<String, Error>)
        ensures
            match result {
                Ok(command) => {
                    &&& old(self).state_of() == SessionState::Connected
                    &&& final(self).state_of() == SessionState::Connected
                    &&& command@ == login_text(code@)
                },
                Err(error) => {
                    &&& old(self).state_of() != SessionState::Connected
                    &&& final(self).state_of() == SessionState::Closed
                    &&& error@ == ErrorView::ConnectionError
                },
            },
    {
        if self.state == SessionState::Connected {
            let mut command = String::from_str("LOGIN;");
            command.append(code);
            Ok(command)
        } else {
            self.state = SessionState::Closed;
            Err(Error::ConnectionError)
        }
    }

    /// The command that asks for the page `node_id`. It can be sent after
    /// the login; in any other state the session ends.
    pub fn page_command(&mut self, node_id: &str) -> (result: Result<String, Error>)
        ensures
            match result {
                Ok(command) => {
                    &&& old(self).state_of() == SessionState::LoggedIn
                    &&& final(self).state_of() == SessionState::LoggedIn
                    &&& command@ == page_text(node_id@)
                },
                Err(error) => {
                    &&& old(self).state_of() != SessionState::LoggedIn
                    &&& final(self).state_of() == SessionState::Closed
                    &&& error@ == ErrorView::ConnectionError
                },
            },
    {
        if self.state == SessionState::LoggedIn {
            let mut command = String::from_str("GET;");
            command.append(node_id);
            Ok(command)
        } else {
            self.state = SessionState::Closed;
            Err(Error::ConnectionError)
        }
    }
}

/// A closed session stays closed, whatever happens.
pub proof fn lemma_closed_is_final(event: SessionEvent)
    ensures
        after(SessionState::Closed, event).0 == SessionState::Closed,
{
}

/// Every error ends the session.
pub proof fn lemma_error_closes(state: SessionState, event: SessionEvent)
    requires
        after(state, event).1 is Some,
    ensures
        after(state, event).0 == SessionState::Closed,
{
}

/// Only an accepted login on an open socket leads to a session that is
/// logged in.
pub proof fn lemma_login_only_when_accepted(state: SessionState, event: SessionEvent)
    requires
        after(state, event).0 == SessionState::LoggedIn,
    ensures
        state == SessionState::Connected,
        event == SessionEvent::LoginAccepted,
{
}

/// A reply that stays away surfaces as [`Error::NoResponse`] wherever a
/// reply can be awaited, at the login as for a page.
pub proof fn lemma_missing_reply(state: SessionState)
    requires
        state == SessionState::Connected || state == SessionState::LoggedIn,
    ensures
        after(state, SessionEvent::ReplyMissing) == (
            SessionState::Closed,
            Some(ErrorView::NoResponse),
        ),
{
}

/// What a wait comes to when `frames` come in one after the other and
/// the stream ends behind them: what the first reaction that ends the wait
/// says.
pub open spec fn wait_result(frames: Seq<Frame>) -> Result<String, Error>
    decreases frames.len(),
{
    if frames.len() == 0 {
        Err(Error::NoResponse)
    } else {
        match reaction_to(Some(frames[0])) {
            Reaction::Reply(text) => Ok(text),
            Reaction::ConfirmClose => Err(Error::NoResponse),
            Reaction::GiveUp => Err(Error::NoResponse),
            Reaction::AnswerPing(_) => wait_result(frames.skip(1)),
            Reaction::Ignore => wait_result(frames.skip(1)),
        }
    }
}

/// A stream that ends without a text frame leaves the wait without a
/// response, whatever else came in.
pub proof fn lemma_wait_without_text(frames: Seq<Frame>)
    requires
        forall|i: int| 0 <= i < frames.len() ==> !(#[trigger] frames[i] is Text),
    ensures
        wait_result(frames) == Err::<String, Error>(Error::NoResponse),
    decreases frames.len(),
{
    if frames.len() > 0 {
        assert(!(frames[0] is Text));
        assert forall|i: int| 0 <= i < frames.skip(1).len() implies !(#[trigger] frames.skip(
            1,
        )[i] is Text) by {
            assert(frames.skip(1)[i] == frames[i + 1]);
        }
        lemma_wait_without_text(frames.skip(1));
    }
}

/// The reply is the first text frame, where no close comes before it:
/// pings, pongs and binary frames on the way do not count.
pub proof fn lemma_wait_first_text(frames: Seq<Frame>, k: int)
    requires
        0 <= k < frames.len(),
        frames[k] is Text,
        forall|i: int| 0 <= i < k ==> !(#[trigger] frames[i] is Text) && !(frames[i] is Close),
    ensures
        wait_result(frames) == Ok::<String, Error>(frames[k]->Text_0),
    decreases k,
{
    if k > 0 {
        assert(!(frames[0] is Text) && !(frames[0] is Close));
        assert forall|i: int| 0 <= i < k - 1 implies !(#[trigger] frames.skip(1)[i] is Text) && !(
        frames.skip(1)[i] is Close) by {
            assert(frames.skip(1)[i] == frames[i + 1]);
        }
        lemma_wait_first_text(frames.skip(1), k - 1);
    }
}

/// A close that comes before any text frame leaves the wait without a
/// response.
pub proof fn lemma_wait_closed(frames: Seq<Frame>, k: int)
    requires
        0 <= k < frames.len(),
        frames[k] is Close,
        forall|i: int| 0 <= i < k ==> !(#[trigger] frames[i] is Text),
    ensures
        wait_result(frames) == Err::<String, Error>(Error::NoResponse),
    decreases k,
{
    if k > 0 {
        assert(!(frames[0] is Text));
        assert forall|i: int| 0 <= i < k - 1 implies !(#[trigger] frames.skip(1)[i] is Text) by {
            assert(frames.skip(1)[i] == frames[i + 1]);
        }
        if !(frames[0] is Close) {
            lemma_wait_closed(frames.skip(1), k - 1);
        }
    }
}

} // verus!
