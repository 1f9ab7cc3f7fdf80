//! The errors that the coordinator reports.
use vstd::prelude::*;

verus! {

/// What went wrong, independent of the wording of the message.
#[derive(Clone, Copy, Debug, PartialEq, Eq, Structural)]
pub enum ErrorKind {
    /// A database name is not registered, or a client is attached to no database.
    NotFound,
    /// A database identifier or a query name is already taken.
    AlreadyExists,
    /// An argument is unusable as given, such as an empty query name.
    InvalidArgument,
    /// A directory or a file could not be created, opened, read or written.
    IoFailure,
    /// Persisted state or a query plan could not be encoded or decoded.
    SerializationFailure,
    /// The operation is not allowed in the query's current state.
    StateTransition,
}

/// An error of the coordinator: its kind and a message for the user.
#[derive(Debug)]
pub struct ServerError {
    pub kind: ErrorKind,
    pub message: String,
}

/// An error with its message as a sequence of characters.
pub struct ErrorModel {
    pub kind: ErrorKind,
    pub message: Seq<char>,
}

impl View for ServerError {
    type V = ErrorModel;

    open spec fn view(&self) -> ErrorModel {
        ErrorModel { kind: self.kind, message: self.message@ }
    }
}

impl ServerError {
    /// An error of the given kind with the given message.
    pub fn new(kind: ErrorKind, message: String) -> (e: ServerError)
        ensures
            e.kind == kind,
            e.message == message,
    {
        ServerError { kind, message }
    }

    /// An error of the given kind whose message is `text`.
    pub fn of(kind: ErrorKind, text: &str) -> (e: ServerError)
        ensures
            e@ == (ErrorModel { kind, message: text@ }),
    {
        ServerError { kind, message: text.to_owned() }
    }

    /// The message, for display.
    pub fn to_string(&self) -> (s: String)
        ensures
            s@ == self.message@,
    {
        self.message.clone()
    }
}

} // verus!
