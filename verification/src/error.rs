//! The two error types: a diagnostic message, and a status to answer with.

use vstd::prelude::*;
use vstd::string::*;
use crate::http::StatusCode;

verus! {

/// A failure described by a message for the operator.
#[derive(Debug)]
pub struct Error {
    pub message: String,
}

impl View for Error {
    type V = Seq<char>;

    open spec fn view(&self) -> Seq<char> {
        self.message@
    }
}

impl Error {
    /// An error that carries `message`.
    pub fn new(message: String) -> (e: Error)
        ensures
            e.message == message,
    {
        Error { message }
    }

    /// An error that carries the text of `message`.
    pub fn of(message: &str) -> (e: Error)
        ensures
            e@ == message@,
    {
        Error { message: String::from_str(message) }
    }
}

/// A failure that is answered with an HTTP status, with an optional detail
/// for the operator.
#[derive(Debug)]
pub struct HttpError {
    pub status: StatusCode,
    pub message: Option<String>,
}

impl HttpError {
    /// A failure answered with `status`, without detail.
    pub fn bare(status: StatusCode) -> (e: HttpError)
        ensures
            e.status == status,
            e.message is None,
    {
        HttpError { status, message: None }
    }

    /// The text of the detail; empty where there is none.
    pub open spec fn detail(&self) -> Seq<char> {
        match self.message {
            Some(m) => ": "@ + m@,
            None => Seq::empty(),
        }
    }

    /// The status line text, followed by a colon and the detail where there
    /// is one.
    pub fn to_string(&self) -> (r: String)
        ensures
            r@ == self.status.reason()@ + self.detail(),
    {
        let mut s = String::from_str(self.status.reason_phrase());
        match &self.message {
            Some(m) => {
                s.append(": ");
                s.append(m.as_str());
                assert(s@ =~= self.status.reason()@ + self.detail());
            },
            None => {
                assert(s@ =~= self.status.reason()@ + self.detail());
            },
        }
        s
    }
}

} // verus!
