//! The rules of the C interface of the client: which arguments it takes, which code
//! stands for which error, and what it hands back.

use crate::client::{self, ClientError, ClientErrorView};
use crate::duration::Duration;
use crate::json::{self, JsonView, Value};
use crate::protocol::{Command, CommandView};
use crate::route::{Key, KeyPattern, NamespaceContext};
use vstd::prelude::*;

verus! {

pub const VALKYR_OK: i32 = 0;

pub const VALKYR_ERROR_INVALID_ARGUMENT: i32 = -1;

pub const VALKYR_ERROR_CONNECTION: i32 = -2;

pub const VALKYR_ERROR_AUTHENTICATION: i32 = -3;

pub const VALKYR_ERROR_SERVER: i32 = -4;

pub const VALKYR_ERROR_JSON: i32 = -5;

pub const VALKYR_ERROR_INTERNAL: i32 = -6;

/// A call that failed: its code and its message.
#[derive(Debug)]
pub struct Failure {
    pub code: i32,
    pub message: String,
}

impl View for Failure {
    type V = (i32, Seq<char>);

    open spec fn view(&self) -> (i32, Seq<char>) {
        (self.code, self.message@)
    }
}

/// The code of an error.
pub open spec fn code_of(error: ClientErrorView) -> i32 {
    match error {
        ClientErrorView::Connection(_) => VALKYR_ERROR_CONNECTION,
        ClientErrorView::Closed => VALKYR_ERROR_CONNECTION,
        ClientErrorView::RequestTimeout => VALKYR_ERROR_CONNECTION,
        ClientErrorView::Authentication(_) => VALKYR_ERROR_AUTHENTICATION,
        ClientErrorView::Server(_) => VALKYR_ERROR_SERVER,
        ClientErrorView::Protocol(_) => VALKYR_ERROR_JSON,
        _ => VALKYR_ERROR_INTERNAL,
    }
}

/// The code of an error.
pub fn classify(error: &ClientError) -> (r: i32)
    ensures
        r == code_of(error@),
{
    match error {
        ClientError::Connection(_) => VALKYR_ERROR_CONNECTION,
        ClientError::Closed => VALKYR_ERROR_CONNECTION,
        ClientError::RequestTimeout => VALKYR_ERROR_CONNECTION,
        ClientError::Authentication(_) => VALKYR_ERROR_AUTHENTICATION,
        ClientError::Server(_) => VALKYR_ERROR_SERVER,
        ClientError::Protocol(_) => VALKYR_ERROR_JSON,
        _ => VALKYR_ERROR_INTERNAL,
    }
}

fn fail<T>(code: i32, message: &str) -> (r: Result<T, Failure>)
    ensures
        r matches Err(failure) && failure@ == (code, message@),
{
    Err(Failure { code, message: message.to_owned() })
}

/// The view of what a call asks for.
pub open spec fn called(result: Result<Command, Failure>) -> Result<CommandView, (i32, Seq<char>)> {
    match result {
        Ok(command) => Ok(command@),
        Err(failure) => Err(failure@),
    }
}

/// A failure of the arguments.
pub open spec fn invalid<T>(message: Seq<char>) -> Result<T, (i32, Seq<char>)> {
    Err((VALKYR_ERROR_INVALID_ARGUMENT, message))
}

/// What a call for a value asks for; a text that is not there, or not readable, is
/// `None`.
pub open spec fn get_call(namespace: Option<Seq<char>>, key: Option<Seq<char>>) -> Result<
    CommandView,
    (i32, Seq<char>),
> {
    if namespace is None || key is None {
        invalid("namespace and key must be UTF-8 strings"@)
    } else if namespace->0.len() == 0 || key->0.len() == 0 {
        invalid("namespace and key cannot be empty"@)
    } else {
        Ok(CommandView::Get { namespace: namespace->0, key: key->0 })
    }
}

/// What a call for a value asks for.
pub fn get_request(namespace: Option<String>, key: Option<String>) -> (r: Result<Command, Failure>)
    ensures
        called(r) == get_call(crate::error::inner(namespace), crate::error::inner(key)),
{
    let (namespace, key) = match (namespace, key) {
        (Some(namespace), Some(key)) => (namespace, key),
        _ => {
            return fail(
                VALKYR_ERROR_INVALID_ARGUMENT,
                "namespace and key must be UTF-8 strings",
            );
        },
    };
    match (NamespaceContext::new(namespace.as_str()), Key::new(key.as_str())) {
        (Ok(namespace), Ok(key)) => Ok(Command::Get { namespace, key }),
        _ => fail(VALKYR_ERROR_INVALID_ARGUMENT, "namespace and key cannot be empty"),
    }
}

/// What a call that sets a value asks for, where `value` is what its text was read
/// as. A time to live of zero means no expiration.
pub open spec fn set_call(
    namespace: Seq<char>,
    key: Seq<char>,
    value: Option<JsonView>,
    ttl_seconds: u64,
) -> Result<CommandView, (i32, Seq<char>)> {
    if namespace.len() == 0 || key.len() == 0 || value is None {
        Err((VALKYR_ERROR_JSON, "invalid namespace, key, or JSON value"@))
    } else {
        Ok(
            CommandView::SetValue {
                namespace,
                key,
                value: value->0,
                ttl_seconds: if ttl_seconds == 0 {
                    None
                } else {
                    Some(ttl_seconds)
                },
            },
        )
    }
}

/// The request that sets a value which was read, or not.
pub fn set_value_request(
    namespace: &str,
    key: &str,
    value: Option<Value>,
    ttl_seconds: u64,
) -> (r: Result<Command, Failure>)
    ensures
        called(r) == set_call(namespace@, key@, crate::error::inner(value), ttl_seconds),
{
    match (NamespaceContext::new(namespace), Key::new(key), value) {
        (Ok(namespace), Ok(key), Some(value)) => {
            let ttl = if ttl_seconds == 0 {
                None
            } else {
                Some(Duration::from_secs(ttl_seconds))
            };
            let command = client::set(namespace, key, value, ttl);
            assert((ttl_seconds * 1_000_000_000) / 1_000_000_000 == ttl_seconds);
            Ok(command)
        },
        _ => fail(VALKYR_ERROR_JSON, "invalid namespace, key, or JSON value"),
    }
}

/// What a call that sets a value asks for.
pub fn set_request(
    namespace: Option<String>,
    key: Option<String>,
    json: Option<String>,
    ttl_seconds: u64,
) -> (r: Result<Command, Failure>)
    ensures
        called(r) == (if namespace is None || key is None || json is None {
            invalid("namespace, key, and JSON must be UTF-8 strings"@)
        } else {
            set_call(
                namespace->0@,
                key->0@,
                json::read(json->0@),
                ttl_seconds,
            )
        }),
{
    let (namespace, key, json) = match (namespace, key, json) {
        (Some(namespace), Some(key), Some(json)) => (namespace, key, json),
        _ => {
            return fail(
                VALKYR_ERROR_INVALID_ARGUMENT,
                "namespace, key, and JSON must be UTF-8 strings",
            );
        },
    };
    let value = json::parse(json.as_str());
    set_value_request(namespace.as_str(), key.as_str(), value, ttl_seconds)
}

/// The pattern argument of a call that deletes.
#[derive(Debug)]
pub enum PatternArgument {
    /// There is none: every key is meant.
    Absent,
    /// It is not readable.
    Unreadable,
    Text(String),
}

/// What a call that deletes asks for.
pub open spec fn delete_call(namespace: Option<Seq<char>>, pattern: PatternArgument) -> Result<
    CommandView,
    (i32, Seq<char>),
> {
    if namespace is None || namespace->0.len() == 0 {
        invalid("namespace cannot be empty"@)
    } else {
        match pattern {
            PatternArgument::Absent => Ok(
                CommandView::Delete { namespace: namespace->0, key_pattern: None },
            ),
            PatternArgument::Unreadable => invalid("key pattern cannot be empty"@),
            PatternArgument::Text(text) => if text@.len() == 0 {
                invalid("key pattern cannot be empty"@)
            } else {
                Ok(CommandView::Delete { namespace: namespace->0, key_pattern: Some(text@) })
            },
        }
    }
}

/// What a call that deletes asks for.
pub fn delete_request(namespace: Option<String>, pattern: PatternArgument) -> (r: Result<
    Command,
    Failure,
>)
    ensures
        called(r) == delete_call(crate::error::inner(namespace), pattern),
{
    let namespace = match namespace {
        Some(namespace) => match NamespaceContext::new(namespace.as_str()) {
            Ok(namespace) => namespace,
            Err(_) => {
                return fail(VALKYR_ERROR_INVALID_ARGUMENT, "namespace cannot be empty");
            },
        },
        None => {
            return fail(VALKYR_ERROR_INVALID_ARGUMENT, "namespace cannot be empty");
        },
    };
    match pattern {
        PatternArgument::Absent => Ok(Command::Delete { namespace, key_pattern: None }),
        PatternArgument::Unreadable => fail(
            VALKYR_ERROR_INVALID_ARGUMENT,
            "key pattern cannot be empty",
        ),
        PatternArgument::Text(text) => match KeyPattern::new(text.as_str()) {
            Ok(pattern) => Ok(Command::Delete { namespace, key_pattern: Some(pattern) }),
            Err(_) => fail(VALKYR_ERROR_INVALID_ARGUMENT, "key pattern cannot be empty"),
        },
    }
}

/// What a call that moves a namespace asks for.
pub open spec fn move_call(source: Option<Seq<char>>, destination: Option<Seq<char>>) -> Result<
    CommandView,
    (i32, Seq<char>),
> {
    if source is None || destination is None {
        invalid("source and destination must be UTF-8 strings"@)
    } else if source->0.len() == 0 || destination->0.len() == 0 {
        invalid("source and destination cannot be empty"@)
    } else {
        Ok(CommandView::Move { source: source->0, destination: destination->0 })
    }
}

/// What a call that moves a namespace asks for.
pub fn move_request(source: Option<String>, destination: Option<String>) -> (r: Result<
    Command,
    Failure,
>)
    ensures
        called(r) == move_call(crate::error::inner(source), crate::error::inner(destination)),
{
    let (source, destination) = match (source, destination) {
        (Some(source), Some(destination)) => (source, destination),
        _ => {
            return fail(
                VALKYR_ERROR_INVALID_ARGUMENT,
                "source and destination must be UTF-8 strings",
            );
        },
    };
    match (NamespaceContext::new(source.as_str()), NamespaceContext::new(destination.as_str())) {
        (Ok(source), Ok(destination)) => Ok(Command::Move { source, destination }),
        _ => fail(VALKYR_ERROR_INVALID_ARGUMENT, "source and destination cannot be empty"),
    }
}

/// What a call that changes something comes to.
pub fn changed(result: Result<(), ClientError>) -> (r: Result<(), Failure>)
    ensures
        match result {
            Ok(_) => r is Ok,
            Err(error) => r matches Err(failure) && failure@ == (
                code_of(error@),
                error@.message(),
            ),
        },
{
    match result {
        Ok(_) => Ok(()),
        Err(error) => Err(Failure { code: classify(&error), message: error.message() }),
    }
}

/// What a call for a value comes to: the text of the value.
pub fn fetched(result: Result<Value, ClientError>) -> (r: Result<String, Failure>)
    ensures
        match result {
            Ok(value) => r matches Ok(text) && text@ == json::json_text(value@),
            Err(error) => r matches Err(failure) && failure@ == (
                code_of(error@),
                error@.message(),
            ),
        },
{
    match result {
        Ok(value) => Ok(json::render(&value)),
        Err(error) => Err(Failure { code: classify(&error), message: error.message() }),
    }
}

} // verus!
