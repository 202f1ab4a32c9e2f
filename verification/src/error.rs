//! The errors of the broker and of the wire protocol.

use crate::route::{Route, RouteView};
use crate::text;
use vstd::prelude::*;

verus! {

/// What went wrong with a request.
#[derive(Debug)]
pub enum Error {
    EmptyIdentifier { field: &'static str },
    NotFound(Route),
    NamespaceExists(String),
    Protocol(String),
    Connection(String),
    AuthenticationFailed,
    PermissionDenied(String),
    InvalidAuthorization(String),
    Encryption(String),
}

/// An [`Error`] with its texts as character sequences.
#[verifier::ext_equal]
pub enum ErrorView {
    EmptyIdentifier(Seq<char>),
    NotFound(RouteView),
    NamespaceExists(Seq<char>),
    Protocol(Seq<char>),
    Connection(Seq<char>),
    AuthenticationFailed,
    PermissionDenied(Seq<char>),
    InvalidAuthorization(Seq<char>),
    Encryption(Seq<char>),
}

impl View for Error {
    type V = ErrorView;

    open spec fn view(&self) -> ErrorView {
        match self {
            Error::EmptyIdentifier { field } => ErrorView::EmptyIdentifier(field@),
            Error::NotFound(route) => ErrorView::NotFound(route@),
            Error::NamespaceExists(text) => ErrorView::NamespaceExists(text@),
            Error::Protocol(text) => ErrorView::Protocol(text@),
            Error::Connection(text) => ErrorView::Connection(text@),
            Error::AuthenticationFailed => ErrorView::AuthenticationFailed,
            Error::PermissionDenied(text) => ErrorView::PermissionDenied(text@),
            Error::InvalidAuthorization(text) => ErrorView::InvalidAuthorization(text@),
            Error::Encryption(text) => ErrorView::Encryption(text@),
        }
    }
}

impl ErrorView {
    /// The message that an error shows.
    pub open spec fn message(self) -> Seq<char> {
        match self {
            ErrorView::EmptyIdentifier(field) => field + " must not be empty"@,
            ErrorView::NotFound(route) => "route not found: "@ + route.text(),
            ErrorView::NamespaceExists(text) => "destination namespace already exists: "@ + text,
            ErrorView::Protocol(text) => "invalid protocol message: "@ + text,
            ErrorView::Connection(text) => "connection error: "@ + text,
            ErrorView::AuthenticationFailed => "authentication failed"@,
            ErrorView::PermissionDenied(text) => "permission denied for namespace: "@ + text,
            ErrorView::InvalidAuthorization(text) => "invalid authorization record: "@ + text,
            ErrorView::Encryption(text) => "encryption failed: "@ + text,
        }
    }
}

impl Error {
    /// The message that the error shows.
    pub fn message(&self) -> (r: String)
        ensures
            r@ == self@.message(),
    {
        match self {
            Error::EmptyIdentifier { field } => text::joined(field, " must not be empty"),
            Error::NotFound(route) => {
                let shown = route.to_text();
                text::joined("route not found: ", shown.as_str())
            },
            Error::NamespaceExists(text) => text::joined(
                "destination namespace already exists: ",
                text.as_str(),
            ),
            Error::Protocol(text) => text::joined("invalid protocol message: ", text.as_str()),
            Error::Connection(text) => text::joined("connection error: ", text.as_str()),
            Error::AuthenticationFailed => "authentication failed".to_owned(),
            Error::PermissionDenied(text) => text::joined(
                "permission denied for namespace: ",
                text.as_str(),
            ),
            Error::InvalidAuthorization(text) => text::joined(
                "invalid authorization record: ",
                text.as_str(),
            ),
            Error::Encryption(text) => text::joined("encryption failed: ", text.as_str()),
        }
    }
}

/// A result with its value and its error as mathematical values.
pub open spec fn outcome<T: View>(result: Result<T, Error>) -> Result<T::V, ErrorView> {
    match result {
        Ok(value) => Ok(value@),
        Err(error) => Err(error@),
    }
}

/// An option with its value as a mathematical value.
pub open spec fn inner<T: View>(value: Option<T>) -> Option<T::V> {
    match value {
        Some(value) => Some(value@),
        None => None,
    }
}

/// The mathematical values of a sequence's items.
pub open spec fn views<T: View>(items: Seq<T>) -> Seq<T::V> {
    items.map_values(|item: T| item@)
}

/// A protocol error with the given message.
pub fn protocol(message: &str) -> (r: Error)
    ensures
        r@ == ErrorView::Protocol(message@),
{
    Error::Protocol(message.to_owned())
}

} // verus!
