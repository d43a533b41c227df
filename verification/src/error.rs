//! The ways in which one poll of the device can fail.

use vstd::prelude::*;
use vstd::string::*;

verus! {

/// A failure of a poll. Every one of them ends the poll: no partial
/// measurement is handed out.
#[derive(Debug)]
pub enum Error {
    /// The transport could not be opened or negotiated.
    ConnectionError,
    /// The reply to the login command was not a menu tree.
    LoginError,
    /// The awaited reply never arrived.
    NoResponse,
    /// A label of a menu path has no child of that name; holds the label.
    PathNotFound(String),
    /// A page holds no entry, or more than one, for an item; holds the item.
    ItemNotFound(String),
    /// The value found for an item is not a number.
    ValueParseError { item: String, token: String },
}

/// What an [`Error`] says, with its texts as character sequences.
pub enum ErrorView {
    ConnectionError,
    LoginError,
    NoResponse,
    PathNotFound(Seq<char>),
    ItemNotFound(Seq<char>),
    ValueParseError { item: Seq<char>, token: Seq<char> },
}

impl View for Error {
    type V = ErrorView;

    open spec fn view(&self) -> ErrorView {
        match self {
            Error::ConnectionError => ErrorView::ConnectionError,
            Error::LoginError => ErrorView::LoginError,
            Error::NoResponse => ErrorView::NoResponse,
            Error::PathNotFound(label) => ErrorView::PathNotFound(label@),
            Error::ItemNotFound(item) => ErrorView::ItemNotFound(item@),
            Error::ValueParseError { item, token } => ErrorView::ValueParseError {
                item: item@,
                token: token@,
            },
        }
    }
}

/// What an error says in words.
pub open spec fn message_of(error: ErrorView) -> Seq<char> {
    match error {
        ErrorView::ConnectionError => "Could not connect to the heat pump"@,
        ErrorView::LoginError => "Login was not answered with a navigation"@,
        ErrorView::NoResponse => "No response received for message"@,
        ErrorView::PathNotFound(label) => "Item "@ + label + " does not exist"@,
        ErrorView::ItemNotFound(item) => "No match for item "@ + item,
        ErrorView::ValueParseError { item, token } => "Value "@ + token + " of item "@ + item
            + " is not a number"@,
    }
}

impl Error {
    /// The error in words, with the label, item or token that it is about.
    pub fn message(&self) -> (text: String)
        ensures
            text@ == message_of(self@),
    {
        match self {
            Error::ConnectionError => String::from_str("Could not connect to the heat pump"),
            Error::LoginError => String::from_str("Login was not answered with a navigation"),
            Error::NoResponse => String::from_str("No response received for message"),
            Error::PathNotFound(label) => {
                let mut text = String::from_str("Item ");
                text.append(label.as_str());
                text.append(" does not exist");
                text
            },
            Error::ItemNotFound(item) => {
                let mut text = String::from_str("No match for item ");
                text.append(item.as_str());
                text
            },
            Error::ValueParseError { item, token } => {
                let mut text = String::from_str("Value ");
                text.append(token.as_str());
                text.append(" of item ");
                text.append(item.as_str());
                text.append(" is not a number");
                text
            },
        }
    }
}

} // verus!
