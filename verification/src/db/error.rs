//! The errors of the database adapter.

use crate::client::{ClientError, ClientErrorView};
use crate::error::{Error, ErrorView};
use crate::text;
use vstd::prelude::*;

verus! {

/// What went wrong in the adapter.
#[derive(Debug)]
pub enum AdapterError {
    Sql(String),
    Task(String),
    Route(Error),
    Json(String),
    Publish(ClientError),
    Replication(String),
    Configuration(String),
    ConfigurationFile(String),
}

/// An [`AdapterError`] as a mathematical value.
#[verifier::ext_equal]
pub enum AdapterErrorView {
    Sql(Seq<char>),
    Task(Seq<char>),
    Route(ErrorView),
    Json(Seq<char>),
    Publish(ClientErrorView),
    Replication(Seq<char>),
    Configuration(Seq<char>),
    ConfigurationFile(Seq<char>),
}

impl View for AdapterError {
    type V = AdapterErrorView;

    open spec fn view(&self) -> AdapterErrorView {
        match self {
            AdapterError::Sql(text) => AdapterErrorView::Sql(text@),
            AdapterError::Task(text) => AdapterErrorView::Task(text@),
            AdapterError::Route(error) => AdapterErrorView::Route(error@),
            AdapterError::Json(text) => AdapterErrorView::Json(text@),
            AdapterError::Publish(error) => AdapterErrorView::Publish(error@),
            AdapterError::Replication(text) => AdapterErrorView::Replication(text@),
            AdapterError::Configuration(text) => AdapterErrorView::Configuration(text@),
            AdapterError::ConfigurationFile(text) => AdapterErrorView::ConfigurationFile(text@),
        }
    }
}

impl AdapterErrorView {
    /// The message that an error shows.
    pub open spec fn message(self) -> Seq<char> {
        match self {
            AdapterErrorView::Sql(text) => "SQL database operation failed: "@ + text,
            AdapterErrorView::Task(text) => "database task failed: "@ + text,
            AdapterErrorView::Route(error) => "row has an invalid route: "@ + error.message(),
            AdapterErrorView::Json(text) => "row contains invalid JSON: "@ + text,
            AdapterErrorView::Publish(error) => "publish failed: "@ + error.message(),
            AdapterErrorView::Replication(text) => "replication failed for endpoint(s): "@ + text,
            AdapterErrorView::Configuration(text) => "invalid adapter configuration: "@ + text,
            AdapterErrorView::ConfigurationFile(text) => "configuration file failed: "@ + text,
        }
    }
}

impl AdapterError {
    /// The message that the error shows.
    pub fn message(&self) -> (r: String)
        ensures
            r@ == self@.message(),
    {
        match self {
            AdapterError::Sql(text) => text::joined(
                "SQL database operation failed: ",
                text.as_str(),
            ),
            AdapterError::Task(text) => text::joined("database task failed: ", text.as_str()),
            AdapterError::Route(error) => {
                let shown = error.message();
                text::joined("row has an invalid route: ", shown.as_str())
            },
            AdapterError::Json(text) => text::joined("row contains invalid JSON: ", text.as_str()),
            AdapterError::Publish(error) => {
                let shown = error.message();
                text::joined("publish failed: ", shown.as_str())
            },
            AdapterError::Replication(text) => text::joined(
                "replication failed for endpoint(s): ",
                text.as_str(),
            ),
            AdapterError::Configuration(text) => text::joined(
                "invalid adapter configuration: ",
                text.as_str(),
            ),
            AdapterError::ConfigurationFile(text) => text::joined(
                "configuration file failed: ",
                text.as_str(),
            ),
        }
    }
}

/// A result with its value and its error as mathematical values.
pub open spec fn adapter_outcome<T: View>(result: Result<T, AdapterError>) -> Result<
    T::V,
    AdapterErrorView,
> {
    match result {
        Ok(value) => Ok(value@),
        Err(error) => Err(error@),
    }
}

/// What a check comes to: an error with its complaint, if it has one.
pub open spec fn checked(complaint: Option<Seq<char>>) -> Result<(), AdapterErrorView> {
    match complaint {
        Some(message) => Err(AdapterErrorView::Configuration(message)),
        None => Ok(()),
    }
}

/// A configuration error.
pub fn configuration(message: &str) -> (r: AdapterError)
    ensures
        r@ == AdapterErrorView::Configuration(message@),
{
    AdapterError::Configuration(message.to_owned())
}

} // verus!
