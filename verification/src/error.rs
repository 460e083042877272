//! What can go wrong, and the slot in which a boundary keeps the last
//! failure for its caller.

use vstd::prelude::*;
use vstd::string::StringExecFns;

verus! {

/// `std::io::Error`, which a connection failure carries and the engine never
/// looks into.
#[verifier::external_type_specification]
#[verifier::external_body]
pub struct ExIoError(std::io::Error);

/// The failures of the engine.
#[derive(Debug)]
pub enum SQLitError {
    /// The database could not be reached. No operation of the engine
    /// produces it while a database lives in memory only.
    ConnectionFailure(std::io::Error),
    /// The statement could not be parsed, or breaks a rule of its kind.
    InvalidQuery(String),
    /// A table of that name is registered already.
    TableAlreadyExists(String),
    /// A row could not be inserted. No operation of the engine produces it
    /// yet.
    InvalidInsert(String),
}

/// Formats the cause of a connection failure with the `Debug` implementation
/// of `std::io::Error`. What comes out depends on the platform, so nothing is
/// said of it.
#[verifier::external_body]
fn describe_cause(cause: &std::io::Error) -> (text: String) {
    format!("{:?}", cause)
}

impl SQLitError {
    /// What stands before the detail in the message of this error.
    pub open spec fn message_head(&self) -> Seq<char> {
        match self {
            SQLitError::ConnectionFailure(_) => "unable to connect to database: "@,
            SQLitError::InvalidQuery(_) => "invalid query: "@,
            SQLitError::TableAlreadyExists(_) => "table `"@,
            SQLitError::InvalidInsert(_) => "unable to insert: "@,
        }
    }

    /// What stands behind the detail in the message of this error.
    pub open spec fn message_tail(&self) -> Seq<char> {
        match self {
            SQLitError::TableAlreadyExists(_) => "` already exists"@,
            _ => Seq::empty(),
        }
    }

    /// The message of this error, given its detail.
    pub open spec fn message_around(&self, detail: Seq<char>) -> Seq<char> {
        self.message_head() + detail + self.message_tail()
    }

    /// The message of this error: its detail, between a head and a tail that
    /// tell the kind. The detail of a connection failure is the platform's
    /// description of the cause; that of the other kinds is the text they
    /// carry.
    pub fn message(&self) -> (text: String)
        ensures
            match self {
                SQLitError::ConnectionFailure(_) => exists|detail: Seq<char>|
                    text@ == self.message_around(detail),
                SQLitError::InvalidQuery(detail) => text@ == self.message_around(detail@),
                SQLitError::TableAlreadyExists(detail) => text@ == self.message_around(detail@),
                SQLitError::InvalidInsert(detail) => text@ == self.message_around(detail@),
            },
    {
        match self {
            SQLitError::ConnectionFailure(cause) => {
                let detail = describe_cause(cause);
                let text = "unable to connect to database: ".to_owned().concat(detail.as_str());
                assert(text@ == self.message_around(detail@));
                text
            },
            SQLitError::InvalidQuery(detail) => "invalid query: ".to_owned().concat(
                detail.as_str(),
            ),
            SQLitError::TableAlreadyExists(name) => "table `".to_owned().concat(
                name.as_str(),
            ).concat("` already exists"),
            SQLitError::InvalidInsert(detail) => "unable to insert: ".to_owned().concat(
                detail.as_str(),
            ),
        }
    }
}

/// The slot that holds the message of the last failure until it is asked
/// for. It holds one message at most.
pub struct LastError {
    message: Option<String>,
}

impl View for LastError {
    type V = Option<Seq<char>>;

    closed spec fn view(&self) -> Option<Seq<char>> {
        match self.message {
            Some(m) => Some(m@),
            None => None,
        }
    }
}

impl LastError {
    /// An empty slot.
    pub fn new() -> (slot: Self)
        ensures
            slot@ is None,
    {
        LastError { message: None }
    }
}

/// Records the message of a failure, in place of whatever the slot held.
pub fn set_last_err(slot: &mut LastError, message: String)
    ensures
        final(slot)@ == Some(message@),
{
    slot.message = Some(message);
}

/// Hands out the message that the slot holds, if any, and leaves the slot
/// empty: a message is handed out once.
pub fn take_last_err(slot: &mut LastError) -> (message: Option<String>)
    ensures
        final(slot)@ is None,
        match message {
            Some(m) => old(slot)@ == Some(m@),
            None => old(slot)@ is None,
        },
{
    slot.message.take()
}

} // verus!
