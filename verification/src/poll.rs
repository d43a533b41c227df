//! One poll of the device, step by step.
//!
//! A poll opens a session, logs in, fetches every page that the readings
//! to take are on, and reads the values from each. What is sent next
//! depends on what came back, so the poll is kept here as a value that the
//! caller walks through: it asks the poll what to send, does the sending
//! and receiving, and tells the poll what arrived. The first failure ends
//! the session, and with it the poll.

use vstd::prelude::*;
use vstd::string::*;
use crate::error::{Error, ErrorView};
use crate::model::{ConfigSample, Measurement, Number, Sample};
use crate::navigation::{resolve, Navigation};
use crate::reconcile::{
    all_read_from,
    can_be_asked,
    first_failure,
    get_samples,
    group_sample_configs_per_navigation,
    grouped,
    sanitize_samples,
    sanitized_as,
    PageGroup,
    RawSample,
};
use crate::session::{after, login_text, page_text, Session, SessionEvent, SessionState};

verus! {

/// A poll under way.
#[derive(Debug)]
pub struct Poll {
    session: Session,
    menu: Option<Navigation>,
    pending: Vec<PageGroup>,
    samples: Vec<RawSample>,
}

impl Poll {
    /// Where the session stands.
    pub closed spec fn state(&self) -> SessionState {
        self.session.state_of()
    }

    /// The device's menu, once it has been received.
    pub closed spec fn menu(&self) -> Option<Navigation> {
        self.menu
    }

    /// The pages that are still to be fetched, with their readings.
    pub closed spec fn pending(&self) -> Seq<PageGroup> {
        self.pending@
    }

    /// The samples read so far.
    pub closed spec fn samples(&self) -> Seq<RawSample> {
        self.samples@
    }

    /// Pages can be fetched: the login is done and the menu is here.
    pub open spec fn ready(&self) -> bool {
        self.state() == SessionState::LoggedIn && self.menu() is Some
    }

    /// A poll for `sample_configs`, before anything has happened. The
    /// readings are sorted by page, so that each page is fetched once.
    pub fn new(sample_configs: Vec<ConfigSample>) -> (poll: Poll)
        ensures
            poll.state() == SessionState::Disconnected,
            poll.menu() is None,
            grouped(poll.pending(), sample_configs@),
            poll.samples() == Seq::<RawSample>::empty(),
    {
        Poll {
            session: Session::new(),
            menu: None,
            pending: group_sample_configs_per_navigation(sample_configs),
            samples: Vec::new(),
        }
    }

    pub fn session_state(&self) -> (state: SessionState)
        ensures
            state == self.state(),
    {
        self.session.state()
    }

    /// The number of pages that are still to be fetched.
    pub fn pages_left(&self) -> (left: usize)
        ensures
            left == self.pending().len(),
    {
        self.pending.len()
    }

    /// Takes note that the caller starts to open the socket.
    pub fn open(&mut self) -> (result: Result<(), Error>)
        ensures
            final(self).state() == after(old(self).state(), SessionEvent::Open).0,
            match result {
                Ok(_) => after(old(self).state(), SessionEvent::Open).1 is None,
                Err(error) => after(old(self).state(), SessionEvent::Open).1 == Some(error@),
            },
            final(self).menu() == old(self).menu(),
            final(self).pending() == old(self).pending(),
            final(self).samples() == old(self).samples(),
    {
        self.session.apply(SessionEvent::Open)
    }

    /// Takes note of how the opening went. Where the socket is open, the
    /// result is the login command for `code`; where it is not, the poll
    /// is over with [`Error::ConnectionError`].
    pub fn opened(&mut self, success: bool, code: &str) -> (result: Result<String, Error>)
        ensures
            match result {
                Ok(command) => {
                    &&& success
                    &&& old(self).state() == SessionState::Connecting
                    &&& final(self).state() == SessionState::Connected
                    &&& command@ == login_text(code@)
                },
                Err(error) => {
                    &&& !success || old(self).state() != SessionState::Connecting
                    &&& final(self).state() == SessionState::Closed
                    &&& error@ == ErrorView::ConnectionError
                },
            },
            final(self).menu() == old(self).menu(),
            final(self).pending() == old(self).pending(),
            final(self).samples() == old(self).samples(),
    {
        let event = if success {
            SessionEvent::Opened
        } else {
            SessionEvent::OpenFailed
        };
        match self.session.apply(event) {
            Ok(_) => self.session.login_command(code),
            Err(error) => Err(error),
        }
    }

    /// Takes note of the reply to the login: the menu that it held, or
    /// nothing where it held none. With a menu the poll is ready to fetch
    /// pages; without, it is over with [`Error::LoginError`]. A menu that
    /// comes at any other time ends the poll as a failed connection does.
    pub fn menu_received(&mut self, menu: Option<Navigation>) -> (result: Result<(), Error>)
        ensures
            match result {
                Ok(_) => {
                    &&& old(self).state() == SessionState::Connected
                    &&& menu is Some
                    &&& final(self).state() == SessionState::LoggedIn
                    &&& final(self).menu() == menu
                },
                Err(error) => {
                    &&& final(self).state() == SessionState::Closed
                    &&& old(self).state() != SessionState::Connected || menu is None
                    &&& error@ == if old(self).state() == SessionState::Connected {
                        ErrorView::LoginError
                    } else {
                        ErrorView::ConnectionError
                    }
                },
            },
            final(self).pending() == old(self).pending(),
            final(self).samples() == old(self).samples(),
    {
        match menu {
            Some(tree) => {
                match self.session.apply(SessionEvent::LoginAccepted) {
                    Ok(_) => {
                        self.menu = Some(tree);
                        Ok(())
                    },
                    Err(error) => Err(error),
                }
            },
            None => {
                match self.session.apply(SessionEvent::LoginRejected) {
                    Ok(_) => Ok(()),
                    Err(error) => Err(error),
                }
            },
        }
    }

    /// Takes note that an awaited reply never came: the poll is over with
    /// [`Error::NoResponse`], where a reply could be awaited at all.
    pub fn reply_missing(&mut self) -> (error: Error)
        ensures
            final(self).state() == SessionState::Closed,
            Some(error@) == after(old(self).state(), SessionEvent::ReplyMissing).1,
            final(self).menu() == old(self).menu(),
            final(self).pending() == old(self).pending(),
            final(self).samples() == old(self).samples(),
    {
        match self.session.apply(SessionEvent::ReplyMissing) {
            Ok(_) => Error::ConnectionError,
            Err(error) => error,
        }
    }

    /// The command to send next: the one that fetches the first page that
    /// is still to be fetched, or nothing when all pages are in.
    ///
    /// The page's path is looked up in the menu. A path that the menu does
    /// not hold ends the poll with [`Error::PathNotFound`], which names
    /// the label that is missing. Before the login is done no page can be
    /// asked for: the poll ends as a failed connection does.
    pub fn next_command(&mut self) -> (result: Result<Option<String>, Error>)
        ensures
            final(self).menu() == old(self).menu(),
            final(self).pending() == old(self).pending(),
            final(self).samples() == old(self).samples(),
            match result {
                Ok(None) => {
                    &&& old(self).ready()
                    &&& old(self).pending().len() == 0
                    &&& final(self).state() == SessionState::LoggedIn
                },
                Ok(Some(command)) => {
                    &&& old(self).ready()
                    &&& old(self).pending().len() > 0
                    &&& final(self).state() == SessionState::LoggedIn
                    &&& exists|id: Seq<char>|
                        command@ == page_text(id) && resolve(
                            old(self).menu()->Some_0.items@,
                            old(self).pending()[0].navigation@,
                        ) == Ok::<Seq<char>, Seq<char>>(id)
                },
                Err(Error::PathNotFound(label)) => {
                    &&& old(self).ready()
                    &&& old(self).pending().len() > 0
                    &&& final(self).state() == SessionState::Closed
                    &&& resolve(
                        old(self).menu()->Some_0.items@,
                        old(self).pending()[0].navigation@,
                    ) == Err::<Seq<char>, Seq<char>>(label@)
                },
                Err(error) => {
                    &&& !old(self).ready()
                    &&& final(self).state() == SessionState::Closed
                    &&& error@ == ErrorView::ConnectionError
                },
            },
    {
        if self.session.state() != SessionState::LoggedIn || self.menu.is_none() {
            let _ = self.session.apply(SessionEvent::OpenFailed);
            return Err(Error::ConnectionError);
        }
        if self.pending.len() == 0 {
            return Ok(None);
        }
        let lookup = match &self.menu {
            Some(tree) => tree.get_navigation_item_id(&self.pending[0].navigation),
            None => Err(Error::ConnectionError),
        };
        match lookup {
            Ok(id) => {
                match self.session.page_command(id.as_str()) {
                    Ok(command) => Ok(Some(command)),
                    Err(error) => Err(error),
                }
            },
            Err(error) => {
                let _ = self.session.apply(SessionEvent::Close);
                Err(error)
            },
        }
    }

    /// Takes note of the page that came in reply to the last command, and
    /// reads from it the values of the first page that was still to be
    /// fetched. The samples are added behind those read so far, and the
    /// page is no longer pending.
    ///
    /// A value that cannot be read ends the poll with that reading's
    /// error, and no sample of the page is kept. A page that nobody asked
    /// for ends the poll as a failed connection does.
    pub fn page_received(&mut self, page: &str) -> (result: Result<(), Error>)
        ensures
            final(self).menu() == old(self).menu(),
            match result {
                Ok(_) => {
                    &&& old(self).ready()
                    &&& old(self).pending().len() > 0
                    &&& final(self).state() == SessionState::LoggedIn
                    &&& final(self).pending() == old(self).pending().remove(0)
                    &&& old(self).samples().is_prefix_of(final(self).samples())
                    &&& all_read_from(
                        final(self).samples().skip(old(self).samples().len() as int),
                        old(self).pending()[0].sample_configs@,
                        page@,
                    )
                },
                Err(error) => {
                    &&& final(self).state() == SessionState::Closed
                    &&& final(self).pending() == old(self).pending()
                    &&& final(self).samples() == old(self).samples()
                    &&& if old(self).ready() && old(self).pending().len() > 0 {
                        exists|k: int|
                            first_failure(
                                old(self).pending()[0].sample_configs@,
                                page@,
                                k,
                                error@,
                            )
                    } else {
                        error@ == ErrorView::ConnectionError
                    }
                },
            },
    {
        if self.session.state() != SessionState::LoggedIn || self.menu.is_none()
            || self.pending.len() == 0 {
            let _ = self.session.apply(SessionEvent::OpenFailed);
            return Err(Error::ConnectionError);
        }
        match get_samples(&self.pending[0].sample_configs, page) {
            Ok(mut read) => {
                let ghost before = self.samples@;
                let ghost fresh = read@;
                self.samples.append(&mut read);
                let _ = self.pending.remove(0);
                proof {
                    assert(self.samples@.subrange(0, before.len() as int) =~= before);
                    assert(self.samples@.skip(before.len() as int) =~= fresh);
                }
                Ok(())
            },
            Err(error) => {
                let _ = self.session.apply(SessionEvent::Close);
                Err(error)
            },
        }
    }

    /// Ends the poll and hands out the samples read. They are complete
    /// where the poll was ready and no page was pending.
    pub fn close(self) -> (samples: Vec<RawSample>)
        ensures
            samples@ == self.samples(),
    {
        self.samples
    }
}

/// Puts the samples of a poll into its measurement.
///
/// Without a previous measurement the samples go in as they are. With one,
/// they are first held against its samples, as [`sanitize_samples`] says.
/// Nothing else of the measurement changes.
pub fn complete_measurement<F: Fn(Number, Number) -> bool>(
    measurement: Measurement,
    samples: Vec<Sample>,
    last_measurement: Option<Measurement>,
    too_large: F,
) -> (completed: Measurement)
    requires
        match last_measurement {
            Some(last) => forall|i: int|
                0 <= i < samples.len() ==> can_be_asked(
                    #[trigger] samples@[i],
                    last.samples@,
                    too_large,
                ),
            None => true,
        },
    ensures
        completed.id == measurement.id,
        completed.source == measurement.source,
        completed.location == measurement.location,
        completed.measured_at_time == measurement.measured_at_time,
        completed.samples.len() == samples.len(),
        match last_measurement {
            Some(last) => forall|i: int|
                0 <= i < samples.len() ==> sanitized_as(
                    samples@[i],
                    last.samples@,
                    too_large,
                    #[trigger] completed.samples@[i],
                ),
            None => completed.samples == samples,
        },
{
    let kept: Vec<Sample> = match last_measurement {
        Some(last) => sanitize_samples(samples, last.samples, too_large),
        None => samples,
    };
    Measurement {
        id: measurement.id,
        source: measurement.source,
        location: measurement.location,
        samples: kept,
        measured_at_time: measurement.measured_at_time,
    }
}

} // verus!
