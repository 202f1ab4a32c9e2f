//! That the mathematical values of requests, answers and changes hold what these hold,
//! each part in its place.

use crate::db::callback as db_callback;
use crate::db::plan::DatabaseValue;
use crate::duration::Duration;
use crate::json::Value;
use crate::openbao::bridge::{self, OpenBaoValue};
use crate::outcome::{Dispatch, MutationView, PendingMutation};
use crate::protocol::{
    Command, CommandView, Response, ResponseView, ServerCommand, ServerCommandView, ServerResult,
    ServerResultView, SetEntry, Uuid,
};
use crate::route::{Key, KeyPattern, NamespaceContext, NamespacePattern};
use vstd::prelude::*;

verus! {

/// The entries of a batch, each with its own key and value, in their order.
pub open spec fn are_shown(shown: Seq<(Seq<char>, crate::json::JsonView)>, entries: Seq<SetEntry>) -> bool {
    &&& shown.len() == entries.len()
    &&& forall|i: int|
        #![trigger shown[i]]
        0 <= i < entries.len() ==> shown[i].0 == entries[i].key@ && shown[i].1 == entries[i].value@
}

/// The text of an optional pattern.
pub open spec fn pattern_text(pattern: Option<KeyPattern>) -> Option<Seq<char>> {
    match pattern {
        Some(pattern) => Some(pattern@),
        None => None,
    }
}

/// The nanoseconds of an optional time.
pub open spec fn time_nanos(time: Option<Duration>) -> Option<nat> {
    match time {
        Some(time) => Some(time@),
        None => None,
    }
}

/// A command shows its parts, each in its place.
pub proof fn commands_show_their_parts(
    api_key: String,
    adapter_instance: Option<Uuid>,
    namespace: NamespaceContext,
    key: Key,
    value: Value,
    entries: Vec<SetEntry>,
    ttl_seconds: Option<u64>,
    key_pattern: Option<KeyPattern>,
    destination: NamespaceContext,
)
    ensures
        (Command::Auth { api_key, adapter_instance })@ == (CommandView::Auth {
            api_key: api_key@,
            adapter_instance,
        }),
        (Command::Get { namespace, key })@ == (CommandView::Get {
            namespace: namespace@,
            key: key@,
        }),
        (Command::SetValue { namespace, key, value, ttl_seconds })@ == (CommandView::SetValue {
            namespace: namespace@,
            key: key@,
            value: value@,
            ttl_seconds,
        }),
        (Command::SetBatch { namespace, entries, ttl_seconds })@ matches CommandView::SetBatch {
            namespace: n,
            entries: shown,
            ttl_seconds: t,
        } && n == namespace@ && are_shown(shown, entries@) && t == ttl_seconds,
        (Command::Delete { namespace, key_pattern })@ == (CommandView::Delete {
            namespace: namespace@,
            key_pattern: pattern_text(key_pattern),
        }),
        (Command::Move { source: namespace, destination })@ == (CommandView::Move {
            source: namespace@,
            destination: destination@,
        }),
        Command::Ping@ == CommandView::Ping,
        Command::Stats@ == CommandView::Stats,
{
}

/// A registration shows its patterns and options, each in its place.
pub proof fn registrations_show_their_parts(
    namespace_pattern: NamespacePattern,
    key_pattern: KeyPattern,
    max_rate: Option<u32>,
    timeout: Option<u64>,
    miss_ttl: Option<u64>,
)
    ensures
        (Command::Provide { namespace_pattern, key_pattern, max_rate, timeout, miss_ttl })@ == (
        CommandView::Provide {
            namespace_pattern: namespace_pattern@,
            key_pattern: key_pattern@,
            max_rate,
            timeout,
            miss_ttl,
        }),
        (Command::Store { namespace_pattern, key_pattern })@ == (CommandView::Store {
            namespace_pattern: namespace_pattern@,
            key_pattern: key_pattern@,
        }),
{
}

/// A callback shows its parts, each in its place.
pub proof fn callbacks_show_their_parts(
    request_id: Uuid,
    namespace: NamespaceContext,
    key: Key,
    value: Value,
    entries: Vec<SetEntry>,
    ttl_seconds: Option<u64>,
    key_pattern: Option<KeyPattern>,
    destination: NamespaceContext,
)
    ensures
        (ServerCommand::Query { request_id, namespace, key })@ == (ServerCommandView::Query {
            request_id,
            namespace: namespace@,
            key: key@,
        }),
        (ServerCommand::PersistSet { request_id, namespace, key, value, ttl_seconds })@ == (
        ServerCommandView::PersistSet {
            request_id,
            namespace: namespace@,
            key: key@,
            value: value@,
            ttl_seconds,
        }),
        (ServerCommand::PersistSetBatch { request_id, namespace, entries, ttl_seconds })@ matches
            ServerCommandView::PersistSetBatch {
            request_id: id,
            namespace: n,
            entries: shown,
            ttl_seconds: t,
        } && id == request_id && n == namespace@ && are_shown(shown, entries@) && t == ttl_seconds,
        (ServerCommand::PersistDelete { request_id, namespace, key_pattern })@ == (
        ServerCommandView::PersistDelete {
            request_id,
            namespace: namespace@,
            key_pattern: pattern_text(key_pattern),
        }),
        (ServerCommand::PersistMove { request_id, source: namespace, destination })@ == (
        ServerCommandView::PersistMove {
            request_id,
            source: namespace@,
            destination: destination@,
        }),
{
}

/// An answer, and the result of a callback, show their parts, each in its place.
pub proof fn answers_show_their_parts(
    value: Value,
    ttl_seconds: Option<u64>,
    text: String,
    n: u64,
    request_id: Uuid,
)
    ensures
        (Response::Value { value, ttl_seconds })@ == (ResponseView::Value {
            value: value@,
            ttl_seconds,
        }),
        (Response::Miss { retry_after_ms: n })@ == (ResponseView::Miss { retry_after_ms: n }),
        (Response::AuthSuccess { client_id: text, session_ttl_seconds: n })@ == (
        ResponseView::AuthSuccess { client_id: text@, session_ttl_seconds: n }),
        (Response::AuthPending { retry_after_ms: n })@ == (ResponseView::AuthPending {
            retry_after_ms: n,
        }),
        (Response::AuthFailure { message: text })@ == (ResponseView::AuthFailure {
            message: text@,
        }),
        (Response::Error { message: text })@ == (ResponseView::Error { message: text@ }),
        Response::Okay@ == ResponseView::Okay,
        Response::Unknown@ == ResponseView::Unknown,
        Response::Pong@ == ResponseView::Pong,
        (ServerResult::Operation { request_id, error: Some(text) })@ == (
        ServerResultView::Operation { request_id, error: Some(text@) }),
        (ServerResult::Operation { request_id, error: None })@ == (ServerResultView::Operation {
            request_id,
            error: None,
        }),
        (ServerResult::Query { request_id, value: Some(value), error: None, ttl_seconds })@ == (
        ServerResultView::Query { request_id, value: Some(value@), error: None, ttl_seconds }),
        (ServerResult::Query { request_id, value: None, error: Some(text), ttl_seconds })@ == (
        ServerResultView::Query { request_id, value: None, error: Some(text@), ttl_seconds }),
        (ServerResult::Query { request_id, value: None, error: None, ttl_seconds })@ == (
        ServerResultView::Query { request_id, value: None, error: None, ttl_seconds }),
{
}

/// A change that waits, and one that is forwarded, shows its parts, each in its place.
pub proof fn changes_show_their_parts(
    namespace: NamespaceContext,
    key: Key,
    value: Value,
    entries: Vec<SetEntry>,
    ttl: Option<Duration>,
    key_pattern: Option<KeyPattern>,
    destination: NamespaceContext,
    row: DatabaseValue,
    document: OpenBaoValue,
)
    ensures
        (PendingMutation::SetValue { namespace, key, value, ttl })@ == (MutationView::SetValue {
            namespace: namespace@,
            key: key@,
            value: value@,
            ttl: time_nanos(ttl),
        }),
        (PendingMutation::SetBatch { namespace, entries, ttl })@ matches MutationView::SetBatch {
            namespace: n,
            entries: shown,
            ttl: t,
        } && n == namespace@ && are_shown(shown, entries@) && t == time_nanos(ttl),
        (PendingMutation::Delete { namespace, key_pattern })@ == (MutationView::Delete {
            namespace: namespace@,
            key_pattern: pattern_text(key_pattern),
        }),
        (PendingMutation::Move { source: namespace, destination })@ == (MutationView::Move {
            source: namespace@,
            destination: destination@,
        }),
        row@.namespace == row.namespace@ && row@.key == row.key@ && row@.value == row.value@
            && row@.ttl == time_nanos(row.ttl),
        document@.namespace == document.namespace@ && document@.key == document.key@
            && document@.value == document.value@ && document@.ttl == time_nanos(document.ttl),
        db_callback::ForwardedMutation::SetValue(row)@ == db_callback::ForwardedView::SetValue(row@),
        (db_callback::ForwardedMutation::SetBatch { namespace, entries, ttl })@ matches
            db_callback::ForwardedView::SetBatch { namespace: n, entries: shown, ttl: t } && n
            == namespace@ && are_shown(shown, entries@) && t == time_nanos(ttl),
        (db_callback::ForwardedMutation::Delete { namespace, key_pattern })@ == (
        db_callback::ForwardedView::Delete {
            namespace: namespace@,
            key_pattern: pattern_text(key_pattern),
        }),
        (db_callback::ForwardedMutation::Move { source: namespace, destination })@ == (
        db_callback::ForwardedView::Move { source: namespace@, destination: destination@ }),
        bridge::ForwardedMutation::SetValue(document)@ == bridge::ForwardedView::SetValue(
            document@,
        ),
        (bridge::ForwardedMutation::Delete { namespace, key_pattern })@ == (
        bridge::ForwardedView::Delete {
            namespace: namespace@,
            key_pattern: pattern_text(key_pattern),
        }),
        (bridge::ForwardedMutation::Move { source: namespace, destination })@ == (
        bridge::ForwardedView::Move { source: namespace@, destination: destination@ }),
{
}

/// A request to a provider or a store shows whose it is and what it asks.
pub proof fn dispatches_show_their_parts(dispatch: Dispatch)
    ensures
        dispatch@.owner == dispatch.owner,
        dispatch@.provider_id == dispatch.provider_id,
        dispatch@.provider_refresh_id == dispatch.provider_refresh_id,
        dispatch@.mutation_generation == dispatch.mutation_generation,
        dispatch@.command == dispatch.command@,
        dispatch@.authentication == dispatch.authentication,
        dispatch@.provider_options == dispatch.provider_options,
        dispatch@.encrypted == dispatch.encrypted,
{
}

} // verus!
