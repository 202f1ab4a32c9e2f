//! The errors of the OpenBao adapter.

use crate::client::{ClientError, ClientErrorView};
use crate::error::{Error, ErrorView};
use crate::text;
use vstd::prelude::*;

verus! {

/// What went wrong in the adapter.
#[derive(Debug)]
pub enum AdapterError {
    Configuration(String),
    ConfigurationFile(String),
    Http(String),
    OpenBao { status: String },
    Json(String),
    Route(Error),
    Valkyr(ClientError),
    Unsupported(&'static str),
    NamespaceExists,
}

/// An [`AdapterError`] as a mathematical value.
#[verifier::ext_equal]
pub enum AdapterErrorView {
    Configuration(Seq<char>),
    ConfigurationFile(Seq<char>),
    Http(Seq<char>),
    OpenBao { status: Seq<char> },
    Json(Seq<char>),
    Route(ErrorView),
    Valkyr(ClientErrorView),
    Unsupported(Seq<char>),
    NamespaceExists,
}

impl View for AdapterError {
    type V = AdapterErrorView;

    open spec fn view(&self) -> AdapterErrorView {
        match self {
            AdapterError::Configuration(text) => AdapterErrorView::Configuration(text@),
            AdapterError::ConfigurationFile(text) => AdapterErrorView::ConfigurationFile(text@),
            AdapterError::Http(text) => AdapterErrorView::Http(text@),
            AdapterError::OpenBao { status } => AdapterErrorView::OpenBao { status: status@ },
            AdapterError::Json(text) => AdapterErrorView::Json(text@),
            AdapterError::Route(error) => AdapterErrorView::Route(error@),
            AdapterError::Valkyr(error) => AdapterErrorView::Valkyr(error@),
            AdapterError::Unsupported(text) => AdapterErrorView::Unsupported(text@),
            AdapterError::NamespaceExists => AdapterErrorView::NamespaceExists,
        }
    }
}

impl AdapterErrorView {
    /// The message that an error shows.
    pub open spec fn message(self) -> Seq<char> {
        match self {
            AdapterErrorView::Configuration(text) => "invalid adapter configuration: "@ + text,
            AdapterErrorView::ConfigurationFile(text) => "configuration file failed: "@ + text,
            AdapterErrorView::Http(text) => "OpenBao request failed: "@ + text,
            AdapterErrorView::OpenBao { status } => "OpenBao returned status "@ + status,
            AdapterErrorView::Json(text) => "OpenBao response was invalid: "@ + text,
            AdapterErrorView::Route(error) => "route is invalid: "@ + error.message(),
            AdapterErrorView::Valkyr(error) => "Valkyr callback failed: "@ + error.message(),
            AdapterErrorView::Unsupported(text) => "operation is not supported: "@ + text,
            AdapterErrorView::NamespaceExists => "context destination already exists"@,
        }
    }
}

impl AdapterError {
    /// The message that the error shows.
    pub fn message(&self) -> (r: String)
        ensures
            r@ == self@.message(),
    {
        match self {
            AdapterError::Configuration(text) => text::joined(
                "invalid adapter configuration: ",
                text.as_str(),
            ),
            AdapterError::ConfigurationFile(text) => text::joined(
                "configuration file failed: ",
                text.as_str(),
            ),
            AdapterError::Http(text) => text::joined("OpenBao request failed: ", text.as_str()),
            AdapterError::OpenBao { status } => text::joined(
                "OpenBao returned status ",
                status.as_str(),
            ),
            AdapterError::Json(text) => text::joined(
                "OpenBao response was invalid: ",
                text.as_str(),
            ),
            AdapterError::Route(error) => {
                let shown = error.message();
                text::joined("route is invalid: ", shown.as_str())
            },
            AdapterError::Valkyr(error) => {
                let shown = error.message();
                text::joined("Valkyr callback failed: ", shown.as_str())
            },
            AdapterError::Unsupported(text) => text::joined("operation is not supported: ", text),
            AdapterError::NamespaceExists => "context destination already exists".to_owned(),
        }
    }
}

/// A result with its value and its error as mathematical values.
pub open spec fn bao_outcome<T: View>(result: Result<T, AdapterError>) -> Result<
    T::V,
    AdapterErrorView,
> {
    match result {
        Ok(value) => Ok(value@),
        Err(error) => Err(error@),
    }
}

/// What a check comes to: an error with its complaint, if it has one.
pub open spec fn checked(complaint: Option<Seq<char>>) -> Result<(), AdapterErrorView> {
    match complaint {
        Some(message) => Err(AdapterErrorView::Configuration(message)),
        None => Ok(()),
    }
}

/// A configuration error.
pub fn configuration(message: &str) -> (r: AdapterError)
    ensures
        r@ == AdapterErrorView::Configuration(message@),
{
    AdapterError::Configuration(message.to_owned())
}

} // verus!
