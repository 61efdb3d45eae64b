//! The application's error, the HTTP status each kind is answered with, and
//! the text it displays.

use vstd::prelude::*;
use vstd::string::*;
use crate::text::owned;

verus! {

/// `200 OK`.
pub const OK: u16 = 200;
/// `204 No Content`.
pub const NO_CONTENT: u16 = 204;
/// `302 Found`.
pub const FOUND: u16 = 302;
/// `304 Not Modified`.
pub const NOT_MODIFIED: u16 = 304;
/// `400 Bad Request`.
pub const BAD_REQUEST: u16 = 400;
/// `404 Not Found`.
pub const NOT_FOUND: u16 = 404;
/// `500 Internal Server Error`.
pub const INTERNAL_SERVER_ERROR: u16 = 500;

/// What went wrong while answering a request. The causes that come from
/// outside (the database, a multipart body, the file system) are kept as the
/// text they display.
#[derive(Debug, PartialEq, Eq)]
pub enum Error {
    /// A row with the requested id does not exist.
    NoSuchEntity,
    /// An answer chosen by the application: a status code and a message.
    StatusCode(u16, String),
    /// The database failed.
    Database(String),
    /// The multipart body of the request could not be read.
    Multipart(String),
    /// The file system failed.
    Io(String),
}

/// How a database call failed: no row matched, or anything else (with its
/// text).
#[derive(Debug, PartialEq, Eq)]
pub enum DbFailure {
    /// The query expected a row and found none.
    RowNotFound,
    /// Any other failure, by its text.
    Other(String),
}

impl Error {
    /// The status code an error is answered with.
    pub open spec fn status_of(&self) -> u16 {
        match self {
            Error::NoSuchEntity => NOT_FOUND,
            Error::StatusCode(s, _) => *s,
            Error::Database(_) => INTERNAL_SERVER_ERROR,
            Error::Multipart(_) => BAD_REQUEST,
            Error::Io(_) => INTERNAL_SERVER_ERROR,
        }
    }

    /// The text an error displays.
    pub open spec fn message_of(&self) -> Seq<char> {
        match self {
            Error::NoSuchEntity => "Could not find row with this id."@,
            Error::StatusCode(_, m) => m@,
            Error::Database(m) => "Database Error: "@ + m@,
            Error::Multipart(m) => "Multipart Error: "@ + m@,
            Error::Io(m) => "IO error: "@ + m@,
        }
    }

    /// The status code this error is answered with: `404` for a missing row,
    /// `500` for database and file-system failures, `400` for an unreadable
    /// multipart body, and the chosen code otherwise.
    pub fn status(&self) -> (s: u16)
        ensures
            s == self.status_of(),
    {
        match self {
            Error::NoSuchEntity => NOT_FOUND,
            Error::StatusCode(s, _) => *s,
            Error::Database(_) => INTERNAL_SERVER_ERROR,
            Error::Multipart(_) => BAD_REQUEST,
            Error::Io(_) => INTERNAL_SERVER_ERROR,
        }
    }

    /// The text this error displays, which is also the body of its answer.
    pub fn message(&self) -> (m: String)
        ensures
            m@ == self.message_of(),
    {
        match self {
            Error::NoSuchEntity => owned("Could not find row with this id."),
            Error::StatusCode(_, m) => m.clone(),
            Error::Database(m) => {
                let mut r = owned("Database Error: ");
                r.append(m.as_str());
                r
            },
            Error::Multipart(m) => {
                let mut r = owned("Multipart Error: ");
                r.append(m.as_str());
                r
            },
            Error::Io(m) => {
                let mut r = owned("IO error: ");
                r.append(m.as_str());
                r
            },
        }
    }

    /// The error a failed database call becomes: a missing row is
    /// `NoSuchEntity`, anything else a database error with the same text.
    pub open spec fn of_db(failure: DbFailure) -> Error {
        match failure {
            DbFailure::RowNotFound => Error::NoSuchEntity,
            DbFailure::Other(m) => Error::Database(m),
        }
    }

    /// The error a failed database call becomes (see `of_db`).
    pub fn from_db(failure: DbFailure) -> (e: Error)
        ensures
            e == Error::of_db(failure),
    {
        match failure {
            DbFailure::RowNotFound => Error::NoSuchEntity,
            DbFailure::Other(m) => Error::Database(m),
        }
    }

    /// A `400 Bad Request` answer with the given message.
    pub fn bad_request(message: String) -> (e: Error)
        ensures
            e == Error::StatusCode(BAD_REQUEST, message),
    {
        Error::StatusCode(BAD_REQUEST, message)
    }
}

/// A database call that finds no row is answered `404 Not Found` with
/// "Could not find row with this id."; any other database failure is
/// answered `500 Internal Server Error` with "Database Error: " and its text.
pub proof fn lemma_db_failure_answer(failure: DbFailure)
    ensures
        failure is RowNotFound ==> Error::of_db(failure).status_of() == NOT_FOUND
            && Error::of_db(failure).message_of() == "Could not find row with this id."@,
        failure matches DbFailure::Other(m) ==> Error::of_db(failure).status_of()
            == INTERNAL_SERVER_ERROR && Error::of_db(failure).message_of() == "Database Error: "@
            + m@,
{
}

} // verus!
