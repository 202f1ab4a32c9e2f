//! The requests and answers of the native protocol.

use crate::error::Error;
use crate::json::{JsonView, Value};
use crate::route::{Key, KeyPattern, NamespaceContext, NamespacePattern};
use vstd::prelude::*;

verus! {

/// A universally unique identifier as a number of 128 bits.
pub type Uuid = u128;

/// One value of a batch.
#[derive(Debug)]
pub struct SetEntry {
    pub key: Key,
    pub value: Value,
}

impl View for SetEntry {
    type V = (Seq<char>, JsonView);

    open spec fn view(&self) -> (Seq<char>, JsonView) {
        (self.key@, self.value@)
    }
}

impl Clone for SetEntry {
    fn clone(&self) -> (r: Self)
        ensures
            r@ == self@,
    {
        SetEntry { key: self.key.clone(), value: self.value.clone() }
    }
}

/// A copy of a batch.
pub fn clone_entries(entries: &Vec<SetEntry>) -> (r: Vec<SetEntry>)
    ensures
        crate::error::views(r@) == crate::error::views(entries@),
{
    let mut out: Vec<SetEntry> = Vec::new();
    let mut i: usize = 0;
    while i < entries.len()
        invariant
            i <= entries.len(),
            crate::error::views(out@) == crate::error::views(entries@).take(i as int),
        decreases entries.len() - i,
    {
        let ghost before = out@;
        out.push(entries[i].clone());
        assert(crate::error::views(out@) =~= crate::error::views(before).push(
            entries@[i as int]@,
        ));
        assert(crate::error::views(entries@).take(i + 1) =~= crate::error::views(entries@).take(
            i as int,
        ).push(entries@[i as int]@));
        i += 1;
    }
    assert(crate::error::views(entries@).take(entries.len() as int) =~= crate::error::views(
        entries@,
    ));
    out
}

/// A native protocol request. Native transports frame the human-readable text
/// representation one command per line or text frame; structured values keep
/// their JSON literal syntax.
#[derive(Debug)]
#[allow(inconsistent_fields)]
pub enum Command {
    Auth { api_key: String, adapter_instance: Option<Uuid> },
    Get { namespace: NamespaceContext, key: Key },
    SetValue { namespace: NamespaceContext, key: Key, value: Value, ttl_seconds: Option<u64> },
    SetBatch { namespace: NamespaceContext, entries: Vec<SetEntry>, ttl_seconds: Option<u64> },
    Delete { namespace: NamespaceContext, key_pattern: Option<KeyPattern> },
    Move { source: NamespaceContext, destination: NamespaceContext },
    Provide {
        namespace_pattern: NamespacePattern,
        key_pattern: KeyPattern,
        max_rate: Option<u32>,
        timeout: Option<u64>,
        miss_ttl: Option<u64>,
    },
    Store { namespace_pattern: NamespacePattern, key_pattern: KeyPattern },
    Ping,
    Stats,
}

/// A [`Command`] with its texts as character sequences.
#[verifier::ext_equal]
#[allow(inconsistent_fields)]
pub enum CommandView {
    Auth { api_key: Seq<char>, adapter_instance: Option<Uuid> },
    Get { namespace: Seq<char>, key: Seq<char> },
    SetValue { namespace: Seq<char>, key: Seq<char>, value: JsonView, ttl_seconds: Option<u64> },
    SetBatch {
        namespace: Seq<char>,
        entries: Seq<(Seq<char>, JsonView)>,
        ttl_seconds: Option<u64>,
    },
    Delete { namespace: Seq<char>, key_pattern: Option<Seq<char>> },
    Move { source: Seq<char>, destination: Seq<char> },
    Provide {
        namespace_pattern: Seq<char>,
        key_pattern: Seq<char>,
        max_rate: Option<u32>,
        timeout: Option<u64>,
        miss_ttl: Option<u64>,
    },
    Store { namespace_pattern: Seq<char>, key_pattern: Seq<char> },
    Ping,
    Stats,
}

impl View for Command {
    type V = CommandView;

    open spec fn view(&self) -> CommandView {
        match self {
            Command::Auth { api_key, adapter_instance } => CommandView::Auth {
                api_key: api_key@,
                adapter_instance: *adapter_instance,
            },
            Command::Get { namespace, key } => CommandView::Get {
                namespace: namespace@,
                key: key@,
            },
            Command::SetValue { namespace, key, value, ttl_seconds } => CommandView::SetValue {
                namespace: namespace@,
                key: key@,
                value: value@,
                ttl_seconds: *ttl_seconds,
            },
            Command::SetBatch { namespace, entries, ttl_seconds } => CommandView::SetBatch {
                namespace: namespace@,
                entries: crate::error::views(entries@),
                ttl_seconds: *ttl_seconds,
            },
            Command::Delete { namespace, key_pattern } => CommandView::Delete {
                namespace: namespace@,
                key_pattern: crate::error::inner(*key_pattern),
            },
            Command::Move { source, destination } => CommandView::Move {
                source: source@,
                destination: destination@,
            },
            Command::Provide { namespace_pattern, key_pattern, max_rate, timeout, miss_ttl } =>
            CommandView::Provide {
                namespace_pattern: namespace_pattern@,
                key_pattern: key_pattern@,
                max_rate: *max_rate,
                timeout: *timeout,
                miss_ttl: *miss_ttl,
            },
            Command::Store { namespace_pattern, key_pattern } => CommandView::Store {
                namespace_pattern: namespace_pattern@,
                key_pattern: key_pattern@,
            },
            Command::Ping => CommandView::Ping,
            Command::Stats => CommandView::Stats,
        }
    }
}

/// A copy of an optional key pattern.
pub fn clone_pattern(pattern: &Option<KeyPattern>) -> (r: Option<KeyPattern>)
    ensures
        r == *pattern,
{
    match pattern {
        Some(pattern) => Some(pattern.clone()),
        None => None,
    }
}

impl Clone for Command {
    fn clone(&self) -> (r: Self)
        ensures
            r@ == self@,
    {
        match self {
            Command::Auth { api_key, adapter_instance } => Command::Auth {
                api_key: api_key.clone(),
                adapter_instance: *adapter_instance,
            },
            Command::Get { namespace, key } => Command::Get {
                namespace: namespace.clone(),
                key: key.clone(),
            },
            Command::SetValue { namespace, key, value, ttl_seconds } => Command::SetValue {
                namespace: namespace.clone(),
                key: key.clone(),
                value: value.clone(),
                ttl_seconds: *ttl_seconds,
            },
            Command::SetBatch { namespace, entries, ttl_seconds } => Command::SetBatch {
                namespace: namespace.clone(),
                entries: clone_entries(entries),
                ttl_seconds: *ttl_seconds,
            },
            Command::Delete { namespace, key_pattern } => Command::Delete {
                namespace: namespace.clone(),
                key_pattern: clone_pattern(key_pattern),
            },
            Command::Move { source, destination } => Command::Move {
                source: source.clone(),
                destination: destination.clone(),
            },
            Command::Provide { namespace_pattern, key_pattern, max_rate, timeout, miss_ttl } =>
            Command::Provide {
                namespace_pattern: namespace_pattern.clone(),
                key_pattern: key_pattern.clone(),
                max_rate: *max_rate,
                timeout: *timeout,
                miss_ttl: *miss_ttl,
            },
            Command::Store { namespace_pattern, key_pattern } => Command::Store {
                namespace_pattern: namespace_pattern.clone(),
                key_pattern: key_pattern.clone(),
            },
            Command::Ping => Command::Ping,
            Command::Stats => Command::Stats,
        }
    }
}

/// Counters of the broker.
#[derive(Clone, Copy, Debug, PartialEq, Eq, Structural)]
pub struct Stats {
    pub requests: u64,
    pub hits: u64,
    pub misses: u64,
    pub values: u64,
}

/// A native protocol response. Errors are data so a connection remains usable.
#[derive(Debug)]
pub enum Response {
    Okay,
    Value { value: Value, ttl_seconds: Option<u64> },
    Miss { retry_after_ms: u64 },
    Unknown,
    AuthSuccess { client_id: String, session_ttl_seconds: u64 },
    AuthPending { retry_after_ms: u64 },
    AuthFailure { message: String },
    Pong,
    Stats(Stats),
    Error { message: String },
}

/// A [`Response`] with its texts as character sequences.
#[verifier::ext_equal]
pub enum ResponseView {
    Okay,
    Value { value: JsonView, ttl_seconds: Option<u64> },
    Miss { retry_after_ms: u64 },
    Unknown,
    AuthSuccess { client_id: Seq<char>, session_ttl_seconds: u64 },
    AuthPending { retry_after_ms: u64 },
    AuthFailure { message: Seq<char> },
    Pong,
    Stats(Stats),
    Error { message: Seq<char> },
}

impl View for Response {
    type V = ResponseView;

    open spec fn view(&self) -> ResponseView {
        match self {
            Response::Okay => ResponseView::Okay,
            Response::Value { value, ttl_seconds } => ResponseView::Value {
                value: value@,
                ttl_seconds: *ttl_seconds,
            },
            Response::Miss { retry_after_ms } => ResponseView::Miss {
                retry_after_ms: *retry_after_ms,
            },
            Response::Unknown => ResponseView::Unknown,
            Response::AuthSuccess { client_id, session_ttl_seconds } => ResponseView::AuthSuccess {
                client_id: client_id@,
                session_ttl_seconds: *session_ttl_seconds,
            },
            Response::AuthPending { retry_after_ms } => ResponseView::AuthPending {
                retry_after_ms: *retry_after_ms,
            },
            Response::AuthFailure { message } => ResponseView::AuthFailure { message: message@ },
            Response::Pong => ResponseView::Pong,
            Response::Stats(stats) => ResponseView::Stats(*stats),
            Response::Error { message } => ResponseView::Error { message: message@ },
        }
    }
}

impl Response {
    /// The answer that reports an error.
    pub fn error(error: &Error) -> (r: Self)
        ensures
            r@ == (ResponseView::Error { message: error@.message() }),
    {
        Response::Error { message: error.message() }
    }
}

/// A server-initiated request sent only to a connected provider or store adapter.
#[derive(Debug)]
pub enum ServerCommand {
    Query { request_id: Uuid, namespace: NamespaceContext, key: Key },
    PersistSet {
        request_id: Uuid,
        namespace: NamespaceContext,
        key: Key,
        value: Value,
        ttl_seconds: Option<u64>,
    },
    PersistSetBatch {
        request_id: Uuid,
        namespace: NamespaceContext,
        entries: Vec<SetEntry>,
        ttl_seconds: Option<u64>,
    },
    PersistDelete {
        request_id: Uuid,
        namespace: NamespaceContext,
        key_pattern: Option<KeyPattern>,
    },
    PersistMove { request_id: Uuid, source: NamespaceContext, destination: NamespaceContext },
}

/// A [`ServerCommand`] with its texts as character sequences.
#[verifier::ext_equal]
pub enum ServerCommandView {
    Query { request_id: Uuid, namespace: Seq<char>, key: Seq<char> },
    PersistSet {
        request_id: Uuid,
        namespace: Seq<char>,
        key: Seq<char>,
        value: JsonView,
        ttl_seconds: Option<u64>,
    },
    PersistSetBatch {
        request_id: Uuid,
        namespace: Seq<char>,
        entries: Seq<(Seq<char>, JsonView)>,
        ttl_seconds: Option<u64>,
    },
    PersistDelete { request_id: Uuid, namespace: Seq<char>, key_pattern: Option<Seq<char>> },
    PersistMove { request_id: Uuid, source: Seq<char>, destination: Seq<char> },
}

impl View for ServerCommand {
    type V = ServerCommandView;

    open spec fn view(&self) -> ServerCommandView {
        match self {
            ServerCommand::Query { request_id, namespace, key } => ServerCommandView::Query {
                request_id: *request_id,
                namespace: namespace@,
                key: key@,
            },
            ServerCommand::PersistSet { request_id, namespace, key, value, ttl_seconds } =>
            ServerCommandView::PersistSet {
                request_id: *request_id,
                namespace: namespace@,
                key: key@,
                value: value@,
                ttl_seconds: *ttl_seconds,
            },
            ServerCommand::PersistSetBatch { request_id, namespace, entries, ttl_seconds } =>
            ServerCommandView::PersistSetBatch {
                request_id: *request_id,
                namespace: namespace@,
                entries: crate::error::views(entries@),
                ttl_seconds: *ttl_seconds,
            },
            ServerCommand::PersistDelete { request_id, namespace, key_pattern } =>
            ServerCommandView::PersistDelete {
                request_id: *request_id,
                namespace: namespace@,
                key_pattern: crate::error::inner(*key_pattern),
            },
            ServerCommand::PersistMove { request_id, source, destination } =>
            ServerCommandView::PersistMove {
                request_id: *request_id,
                source: source@,
                destination: destination@,
            },
        }
    }
}

impl ServerCommandView {
    /// The identifier that the answer repeats.
    pub open spec fn request_id(self) -> Uuid {
        match self {
            ServerCommandView::Query { request_id, .. } => request_id,
            ServerCommandView::PersistSet { request_id, .. } => request_id,
            ServerCommandView::PersistSetBatch { request_id, .. } => request_id,
            ServerCommandView::PersistDelete { request_id, .. } => request_id,
            ServerCommandView::PersistMove { request_id, .. } => request_id,
        }
    }
}

impl ServerCommand {
    /// The identifier that the answer repeats.
    pub fn request_id(&self) -> (r: Uuid)
        ensures
            r == self@.request_id(),
    {
        match self {
            ServerCommand::Query { request_id, .. } => *request_id,
            ServerCommand::PersistSet { request_id, .. } => *request_id,
            ServerCommand::PersistSetBatch { request_id, .. } => *request_id,
            ServerCommand::PersistDelete { request_id, .. } => *request_id,
            ServerCommand::PersistMove { request_id, .. } => *request_id,
        }
    }
}

impl Clone for ServerCommand {
    fn clone(&self) -> (r: Self)
        ensures
            r@ == self@,
    {
        match self {
            ServerCommand::Query { request_id, namespace, key } => ServerCommand::Query {
                request_id: *request_id,
                namespace: namespace.clone(),
                key: key.clone(),
            },
            ServerCommand::PersistSet { request_id, namespace, key, value, ttl_seconds } =>
            ServerCommand::PersistSet {
                request_id: *request_id,
                namespace: namespace.clone(),
                key: key.clone(),
                value: value.clone(),
                ttl_seconds: *ttl_seconds,
            },
            ServerCommand::PersistSetBatch { request_id, namespace, entries, ttl_seconds } =>
            ServerCommand::PersistSetBatch {
                request_id: *request_id,
                namespace: namespace.clone(),
                entries: clone_entries(entries),
                ttl_seconds: *ttl_seconds,
            },
            ServerCommand::PersistDelete { request_id, namespace, key_pattern } =>
            ServerCommand::PersistDelete {
                request_id: *request_id,
                namespace: namespace.clone(),
                key_pattern: clone_pattern(key_pattern),
            },
            ServerCommand::PersistMove { request_id, source, destination } =>
            ServerCommand::PersistMove {
                request_id: *request_id,
                source: source.clone(),
                destination: destination.clone(),
            },
        }
    }
}

/// An adapter's answer to a server-initiated request.
#[derive(Debug)]
pub enum ServerResult {
    Operation { request_id: Uuid, error: Option<String> },
    Query {
        request_id: Uuid,
        value: Option<Value>,
        error: Option<String>,
        ttl_seconds: Option<u64>,
    },
}

/// A [`ServerResult`] with its texts as character sequences.
#[verifier::ext_equal]
pub enum ServerResultView {
    Operation { request_id: Uuid, error: Option<Seq<char>> },
    Query {
        request_id: Uuid,
        value: Option<JsonView>,
        error: Option<Seq<char>>,
        ttl_seconds: Option<u64>,
    },
}

impl View for ServerResult {
    type V = ServerResultView;

    open spec fn view(&self) -> ServerResultView {
        match self {
            ServerResult::Operation { request_id, error } => ServerResultView::Operation {
                request_id: *request_id,
                error: crate::error::inner(*error),
            },
            ServerResult::Query { request_id, value, error, ttl_seconds } =>
            ServerResultView::Query {
                request_id: *request_id,
                value: crate::error::inner(*value),
                error: crate::error::inner(*error),
                ttl_seconds: *ttl_seconds,
            },
        }
    }
}

} // verus!
