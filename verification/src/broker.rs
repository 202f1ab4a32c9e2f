//! The stateful command executor shared by all transports.
//!
//! Network code performs connection ownership and callback delivery; the broker
//! owns the authorization, cache, registration and mutation ordering rules. It
//! does no input or output of its own: each of its functions makes one move and
//! says, as a [`Step`], what has to be done before the next.

use crate::crypto;
use crate::duration::Duration;
use crate::error::{protocol, Error, ErrorView};
use crate::json::{self, JsonView, Value};
use crate::outcome::{
    BatchRequest, BatchView, ContextView, DispatchView, GetRequest, GetView, Invalidation,
    InvalidationView, KeyLoad, KeyLoadView, MutationView, OutcomeView, Purpose, PurposeView,
    SetRequest, SetView, Step, StepView, ValueRequest, ValueView,
};
use crate::protocol::{
    clone_entries, clone_pattern, Command, CommandView, Response, ResponseView, ServerCommand,
    ServerCommandView, SetEntry, Stats, Uuid,
};
use crate::registry::{BatchMatchView, BatchStoreMatch, ConnectionId, Registry, RegistryView};
use crate::route::{self, Key, KeyPattern, NamespaceContext, RouteView};
use crate::routes::{self, ActiveRoutes, RouteState};
use crate::security::{
    self, AuthInfo, AuthInfoView, AuthLookup, AuthLookupView, AuthManager, AuthRecord,
    AuthRecordView, AuthSource, AuthState, Operation, ValueCipher,
};
use crate::store::{self, StoredValue, StoredView};
use crate::table::Table;
use crate::text;
use std::collections::HashMap;
use vstd::prelude::*;

pub use crate::outcome::{
    BrokerOutcome, Dispatch, PendingMutation, ProvideOptions, RequestContext, SecurityKeyRecord,
};

verus! {

broadcast use vstd::std_specs::hash::group_hash_axioms;

/// The namespace of permission records.
pub const AUTH_NAMESPACE: &'static str = "/__auth";

/// The namespace of encryption keys.
pub const SECURITY_NAMESPACE: &'static str = "/__secrets";

/// The namespace of leases.
pub const LEASE_NAMESPACE: &'static str = "/__lease";

/// How long a lease lasts, in nanoseconds.
pub const LEASE_NANOS: u128 = 30_000_000_000;

/// The requests that a provider was asked in its current second.
#[derive(Clone, Copy, Debug, PartialEq, Eq, Structural)]
pub struct ProviderRateLimit {
    pub window_started: u128,
    pub requests: u32,
}

/// Who holds a lease, and until when.
#[derive(Clone, Copy, Debug, PartialEq, Eq, Structural)]
pub struct Lease {
    pub owner: Uuid,
    pub expires_at: u128,
}

/// The state of the broker.
#[verifier::ext_equal]
pub struct BrokerState {
    pub auth: Option<AuthState>,
    pub registry: RegistryView,
    pub requests: u64,
    pub hits: u64,
    pub misses: u64,
    pub limits: Map<Uuid, ProviderRateLimit>,
    pub leases: Map<Seq<char>, Lease>,
    pub routes: Map<RouteView, RouteState>,
    pub mutation_clock: u64,
}

/// A namespace that holds records of the broker itself.
pub open spec fn is_record_namespace(namespace: Seq<char>) -> bool {
    namespace == AUTH_NAMESPACE@ || namespace == SECURITY_NAMESPACE@
}

/// A namespace that requests cannot delete or move.
pub open spec fn is_reserved(namespace: Seq<char>) -> bool {
    is_record_namespace(namespace) || namespace == LEASE_NAMESPACE@
}

/// The text between the tildes of a key that asks for encryption.
pub open spec fn marked(key: Seq<char>) -> Option<Seq<char>> {
    if key.len() >= 3 && key[0] == '~' && key.last() == '~' {
        Some(key.subrange(1, key.len() - 1))
    } else {
        None
    }
}

/// A key without its encryption marks, and whether it had them.
pub open spec fn normalized(key: Seq<char>) -> (Seq<char>, bool) {
    match marked(key) {
        Some(inner) => (inner, true),
        None => (key, false),
    }
}

/// The next number of a counter.
pub open spec fn counted(n: u64) -> u64 {
    if n == u64::MAX {
        0
    } else {
        (n + 1) as u64
    }
}

/// What the registry's administrator is needed for.
pub open spec fn bootstrap_required(context: ContextView) -> Result<(), ErrorView> {
    if context.auth is Some && context.auth->0.source == AuthSource::BootstrapAdmin {
        Ok(())
    } else {
        Err(ErrorView::PermissionDenied(AUTH_NAMESPACE@))
    }
}

/// The adapter of a lease request.
pub open spec fn lease_adapter(context: ContextView) -> Result<Uuid, ErrorView> {
    if context.auth is Some && context.adapter_instance is Some {
        Ok(context.adapter_instance->0)
    } else {
        Err(ErrorView::PermissionDenied(LEASE_NAMESPACE@))
    }
}

/// A request that fails.
pub open spec fn failing(error: ErrorView) -> StepView {
    StepView::Finished(Err(error))
}

/// A request that is answered.
pub open spec fn answered(response: ResponseView) -> StepView {
    StepView::Finished(Ok(crate::outcome::answering(response)))
}

/// Where a key stands while its variables are being resolved.
#[verifier::ext_equal]
pub enum Resolution {
    /// Nothing is left to resolve.
    Resolved(Seq<char>),
    /// The variable `name`, which starts at `start`, has to be read.
    Unknown { text: Seq<char>, start: int, name: Seq<char> },
}

/// The start and the end of the next variable of a key from `cursor` on.
pub open spec fn next_variable(text: Seq<char>, cursor: int) -> Option<(int, int)> {
    match text::find_from(text, seq!['$', '{'], cursor) {
        None => None,
        Some(start) => match text::find_from(text, seq!['}'], start + 2) {
            None => None,
            Some(end) => Some((start, end)),
        },
    }
}

/// A text with the part from `start` to `end`, the end included, replaced.
pub open spec fn replaced(text: Seq<char>, start: int, end: int, value: Seq<char>) -> Seq<char> {
    text.take(start) + value + text.skip(end + 1)
}

/// Replaces the variables of a key from `cursor` on by the values that the
/// caller supplied, up to the first one that has to be read. Replaced text is
/// not looked at again, and a variable without a name stands for itself.
pub open spec fn resolution(
    text: Seq<char>,
    cursor: int,
    variables: Map<Seq<char>, Seq<char>>,
) -> Resolution
    decreases text.len() - cursor,
    via resolution_decreases
{
    match next_variable(text, cursor) {
        None => Resolution::Resolved(text),
        Some((start, end)) => {
            let name = text.subrange(start + 2, end);
            if cursor < 0 || cursor > text.len() {
                Resolution::Resolved(text)
            } else if name.len() == 0 {
                resolution(text, end + 1, variables)
            } else if variables.dom().contains(name) {
                let value = variables[name];
                resolution(replaced(text, start, end, value), start + value.len(), variables)
            } else {
                Resolution::Unknown { text, start, name }
            }
        },
    }
}

#[via_fn]
proof fn resolution_decreases(
    text: Seq<char>,
    cursor: int,
    variables: Map<Seq<char>, Seq<char>>,
) {
    if 0 <= cursor <= text.len() {
        lemma_next_variable(text, cursor);
    }
}

/// A variable stands inside the text, behind the position it was looked for.
pub proof fn lemma_next_variable(text: Seq<char>, cursor: int)
    requires
        0 <= cursor <= text.len(),
    ensures
        next_variable(text, cursor) matches Some((start, end)) ==> cursor <= start && start + 2
            <= end < text.len(),
{
    text::lemma_find_from(text, seq!['$', '{'], cursor);
    if let Some(start) = text::find_from(text, seq!['$', '{'], cursor) {
        text::lemma_find_from(text, seq!['}'], start + 2);
    }
}

/// A variable is found again from its own start on.
pub proof fn lemma_variable_start(text: Seq<char>, cursor: int)
    requires
        0 <= cursor <= text.len(),
    ensures
        next_variable(text, cursor) matches Some((start, end)) ==> next_variable(text, start)
            == Some((start, end)),
{
    text::lemma_find_from(text, seq!['$', '{'], cursor);
}

/// The key text after a variable was read from the store, and the position
/// behind it.
pub open spec fn after_variable(text: Seq<char>, start: int, value: Option<Seq<char>>) -> (
    Seq<char>,
    int,
) {
    match next_variable(text, start) {
        None => (text, text.len() as int),
        Some((at, end)) => match value {
            Some(value) => (replaced(text, at, end, value), at + value.len()),
            None => (text, end + 1),
        },
    }
}

/// The text by which a stored value replaces a variable: a string stands for
/// itself, any other value for its JSON text.
pub open spec fn variable_text(value: JsonView) -> Seq<char> {
    match value {
        JsonView::Text(text) => text,
        _ => json::json_text(value),
    }
}

/// The encryption key of a scope, or why there is none.
pub open spec fn loaded_key(load: KeyLoadView, scope: Seq<char>) -> Result<Seq<char>, ErrorView> {
    match load {
        KeyLoadView::Failed(error) => Err(error),
        KeyLoadView::Missing => Err(
            ErrorView::Encryption("encryption key for scope '"@ + scope + "' is not loaded"@),
        ),
        KeyLoadView::Malformed => Err(ErrorView::Encryption("security key record is malformed"@)),
        KeyLoadView::Found(record) => Ok(record.key),
    }
}

/// The answer that carries a stored value.
pub open spec fn value_answer(value: JsonView, remaining: Option<nat>) -> StepView {
    answered(
        ResponseView::Value { value, ttl_seconds: store::optional_seconds(remaining) },
    )
}

/// The change that a request to set a value makes.
pub open spec fn set_mutation(request: SetView) -> MutationView {
    MutationView::SetValue {
        namespace: request.namespace,
        key: request.key,
        value: request.value,
        ttl: request.ttl,
    }
}

/// The whole seconds of an optional time.
pub open spec fn whole_seconds(ttl: Option<nat>) -> Option<u64> {
    match ttl {
        Some(nanos) => Some((nanos / 1_000_000_000) as u64),
        None => None,
    }
}

/// A time to live in nanoseconds.
pub open spec fn ttl_nanos(ttl_seconds: Option<u64>) -> Option<nat> {
    match ttl_seconds {
        Some(n) => Some((n * 1_000_000_000) as nat),
        None => None,
    }
}

/// The keys of a batch.
pub open spec fn entry_keys(entries: Seq<(Seq<char>, JsonView)>) -> Seq<Seq<char>> {
    entries.map_values(|entry: (Seq<char>, JsonView)| entry.0)
}

/// The request that goes out to a store.
pub open spec fn store_dispatch(owner: ConnectionId, command: ServerCommandView) -> DispatchView {
    DispatchView {
        owner,
        provider_id: None,
        provider_refresh_id: None,
        mutation_generation: 0,
        command,
        authentication: false,
        provider_options: None,
        encrypted: false,
    }
}

/// The request that goes out to a provider of records of the broker itself.
pub open spec fn record_dispatch(
    owner: ConnectionId,
    provider_id: Uuid,
    request_id: Uuid,
    namespace: Seq<char>,
    key: Seq<char>,
    authentication: bool,
) -> DispatchView {
    DispatchView {
        owner,
        provider_id: Some(provider_id),
        provider_refresh_id: None,
        mutation_generation: 0,
        command: ServerCommandView::Query { request_id, namespace, key },
        authentication,
        provider_options: None,
        encrypted: false,
    }
}

/// The outcome of a change that a store has to persist first.
pub open spec fn persisting(
    owner: ConnectionId,
    command: ServerCommandView,
    mutation: MutationView,
) -> StepView {
    StepView::Finished(
        Ok(
            OutcomeView {
                response: ResponseView::Okay,
                dispatch: Some(store_dispatch(owner, command)),
                pending_mutation: Some(mutation),
                authenticated: None,
            },
        ),
    )
}

/// The namespace, the keys and the request by which a change of other than a
/// batch is persisted.
pub open spec fn persist_request(mutation: MutationView, request_id: Uuid) -> (
    Seq<char>,
    Seq<char>,
    ServerCommandView,
) {
    match mutation {
        MutationView::SetValue { namespace, key, value, ttl } => (
            namespace,
            key,
            ServerCommandView::PersistSet {
                request_id,
                namespace,
                key,
                value,
                ttl_seconds: whole_seconds(ttl),
            },
        ),
        MutationView::SetBatch { namespace, entries, ttl } => (
            namespace,
            seq!['*'],
            ServerCommandView::PersistSetBatch {
                request_id,
                namespace,
                entries,
                ttl_seconds: whole_seconds(ttl),
            },
        ),
        MutationView::Delete { namespace, key_pattern } => (
            namespace,
            match key_pattern {
                Some(pattern) => pattern,
                None => seq!['*'],
            },
            ServerCommandView::PersistDelete { request_id, namespace, key_pattern },
        ),
        MutationView::Move { source, destination } => (
            source,
            seq!['*'],
            ServerCommandView::PersistMove { request_id, source, destination },
        ),
    }
}

impl BrokerState {
    /// The clock leaves room for the times that are added to it.
    pub open spec fn in_time(self, now: nat) -> bool {
        &&& now + LEASE_NANOS <= u128::MAX
        &&& self.auth is Some ==> now + self.auth->0.timeout <= u128::MAX
    }

    /// Whether a request may perform an operation on a namespace.
    pub open spec fn authorized(
        self,
        context: ContextView,
        namespace: Seq<char>,
        operation: Operation,
        now: nat,
    ) -> Result<(), ErrorView> {
        match self.auth {
            None => Ok(()),
            Some(manager) => match context.auth {
                None => Err(ErrorView::AuthenticationFailed),
                Some(auth) => if manager.allows(auth, namespace, operation, now) {
                    Ok(())
                } else {
                    Err(ErrorView::PermissionDenied(namespace))
                },
            },
        }
    }

    /// Whether a request may read a namespace: the records of the broker itself
    /// are for its administrator.
    pub open spec fn may_read(
        self,
        context: ContextView,
        namespace: Seq<char>,
        encrypted: bool,
        now: nat,
    ) -> Result<(), ErrorView> {
        if is_record_namespace(namespace) {
            bootstrap_required(context)
        } else {
            self.authorized(
                context,
                namespace,
                if encrypted {
                    Operation::ReadEncrypted
                } else {
                    Operation::Read
                },
                now,
            )
        }
    }

    /// Whether a request may write to a namespace.
    pub open spec fn may_write(
        self,
        context: ContextView,
        namespace: Seq<char>,
        encrypted: bool,
        now: nat,
    ) -> Result<(), ErrorView> {
        self.authorized(
            context,
            namespace,
            if encrypted {
                Operation::WriteEncrypted
            } else {
                Operation::Write
            },
            now,
        )
    }

    /// What a GET request does next once its key text is as far as `request`
    /// says.
    pub open spec fn get_next(self, request: GetView, now: nat) -> StepView {
        match resolution(request.resolved, request.cursor, request.context.variables) {
            Resolution::Unknown { text, start, name } => StepView::ReadVariable {
                key: name,
                request: GetView { resolved: text, cursor: start, ..request },
            },
            Resolution::Resolved(resolved) => if resolved.len() == 0 {
                failing(ErrorView::EmptyIdentifier("key"@))
            } else {
                let (key, encrypted) = normalized(resolved);
                let again = !is_record_namespace(request.namespace) && encrypted
                    != request.raw_encrypted;
                let allowed = if again {
                    self.may_read(request.context, request.namespace, encrypted, now)
                } else {
                    Ok(())
                };
                match allowed {
                    Err(error) => failing(error),
                    Ok(_) => StepView::ReadValue(
                        ValueView { namespace: request.namespace, key, encrypted },
                    ),
                }
            },
        }
    }

    /// What follows on reading a variable of a GET request from the store.
    pub open spec fn variable_read(
        self,
        request: GetView,
        result: Result<Option<StoredView>, ErrorView>,
        now: nat,
    ) -> StepView {
        match result {
            Err(error) => failing(error),
            Ok(stored) => {
                let value = match stored {
                    Some(stored) => Some(variable_text(stored.value)),
                    None => None,
                };
                let (resolved, cursor) = after_variable(request.resolved, request.cursor, value);
                self.get_next(GetView { resolved, cursor, ..request }, now)
            },
        }
    }

    /// The principal of a request that comes with a key, and what looking it up leaves.
    pub open spec fn request_authenticated(self, api_key: Seq<char>, now: nat) -> (
        BrokerState,
        Result<AuthInfoView, ErrorView>,
    ) {
        match self.auth {
            None => (self, Err(ErrorView::AuthenticationFailed)),
            Some(auth) => (
                self.with_auth(auth.after_lookup(api_key, now)),
                match auth.lookup(api_key, now) {
                    AuthLookupView::Authenticated(info) => Ok(info),
                    _ => Err(ErrorView::AuthenticationFailed),
                },
            ),
        }
    }

    /// What a request for the counters comes to once the values are counted.
    pub open spec fn values_counted(self, result: Result<u64, ErrorView>) -> StepView {
        match result {
            Err(error) => failing(error),
            Ok(values) => answered(
                ResponseView::Stats(
                    Stats {
                        requests: self.requests,
                        hits: self.hits,
                        misses: self.misses,
                        values,
                    },
                ),
            ),
        }
    }

    /// How a GET request begins.
    pub open spec fn get_start(
        self,
        namespace: Seq<char>,
        key: Seq<char>,
        context: ContextView,
        now: nat,
    ) -> (BrokerState, StepView) {
        if namespace == LEASE_NAMESPACE@ {
            self.lease_acquired(key, context, now)
        } else {
            let raw_encrypted = marked(key) is Some;
            match self.may_read(context, namespace, raw_encrypted, now) {
                Err(error) => (self, failing(error)),
                Ok(_) => (
                    self,
                    self.get_next(
                        GetView { namespace, raw_encrypted, resolved: key, cursor: 0, context },
                        now,
                    ),
                ),
            }
        }
    }

    /// A lease is granted unless another adapter holds it.
    pub open spec fn lease_acquired(self, key: Seq<char>, context: ContextView, now: nat) -> (
        BrokerState,
        StepView,
    ) {
        match lease_adapter(context) {
            Err(error) => (self, failing(error)),
            Ok(owner) => {
                let held = self.leases.dom().contains(key) && self.leases[key].expires_at > now
                    && self.leases[key].owner != owner;
                if held {
                    (
                        self,
                        answered(
                            ResponseView::Value {
                                value: JsonView::Bool(false),
                                ttl_seconds: None,
                            },
                        ),
                    )
                } else {
                    (
                        BrokerState {
                            leases: self.leases.insert(
                                key,
                                Lease { owner, expires_at: (now + LEASE_NANOS) as u128 },
                            ),
                            ..self
                        },
                        answered(
                            ResponseView::Value {
                                value: JsonView::Bool(true),
                                ttl_seconds: Some(30),
                            },
                        ),
                    )
                }
            },
        }
    }

    /// A lease is released by the adapter that holds it, by setting it to zero.
    pub open spec fn lease_released(
        self,
        key: Seq<char>,
        value: JsonView,
        context: ContextView,
    ) -> (BrokerState, StepView) {
        match lease_adapter(context) {
            Err(error) => (self, failing(error)),
            Ok(owner) => if value != JsonView::Number(seq!['0']) {
                (self, failing(ErrorView::Protocol("lease release requires value 0"@)))
            } else if self.leases.dom().contains(key) && self.leases[key].owner == owner {
                (
                    BrokerState { leases: self.leases.remove(key), ..self },
                    answered(ResponseView::Okay),
                )
            } else {
                (self, failing(ErrorView::PermissionDenied(LEASE_NAMESPACE@)))
            },
        }
    }

    /// What follows on reading the value of a GET request.
    pub open spec fn value_read(
        self,
        request: ValueView,
        result: Result<Option<StoredView>, ErrorView>,
    ) -> (BrokerState, StepView) {
        match result {
            Err(error) => (self, failing(error)),
            Ok(None) => (
                BrokerState { misses: counted(self.misses), ..self },
                StepView::CheckMiss(request),
            ),
            Ok(Some(stored)) => (
                BrokerState { hits: counted(self.hits), ..self },
                if request.encrypted {
                    StepView::ReadSecurityKey {
                        scope: route::base_of(request.namespace),
                        purpose: PurposeView::Answer { request, stored },
                    }
                } else {
                    value_answer(stored.value, stored.remaining_ttl)
                },
            ),
        }
    }

    /// The state of a route; one that is not active becomes so.
    pub open spec fn activated(self, route: RouteView, refresh_id: Uuid) -> (
        BrokerState,
        RouteState,
    ) {
        if self.routes.dom().contains(route) {
            (self, self.routes[route])
        } else {
            let fresh = RouteState { generation: 0, provider_refresh_id: refresh_id };
            (BrokerState { routes: self.routes.insert(route, fresh), ..self }, fresh)
        }
    }

    /// What follows on finding out whether a route is marked as a miss.
    pub open spec fn miss_checked(
        self,
        request: ValueView,
        is_marked: bool,
        request_id: Uuid,
        refresh_id: Uuid,
    ) -> (BrokerState, StepView) {
        if is_marked {
            (self, answered(ResponseView::Miss { retry_after_ms: 0 }))
        } else {
            match self.registry.provider_for(request.namespace, request.key) {
                None => (self, answered(ResponseView::Unknown)),
                Some(provider) => {
                    let asked = BrokerState {
                        registry: self.registry.after_provider_for(request.namespace, request.key),
                        ..self
                    };
                    let (next, route) = asked.activated(
                        RouteView { namespace: request.namespace, key: request.key },
                        refresh_id,
                    );
                    (
                        next,
                        StepView::Finished(
                            Ok(
                                OutcomeView {
                                    response: ResponseView::Miss { retry_after_ms: 10 },
                                    dispatch: Some(
                                        DispatchView {
                                            owner: provider.owner,
                                            provider_id: Some(provider.id),
                                            provider_refresh_id: Some(route.provider_refresh_id),
                                            mutation_generation: route.generation,
                                            command: ServerCommandView::Query {
                                                request_id,
                                                namespace: request.namespace,
                                                key: request.key,
                                            },
                                            authentication: false,
                                            provider_options: Some(provider.options),
                                            encrypted: request.encrypted,
                                        },
                                    ),
                                    pending_mutation: None,
                                    authenticated: None,
                                },
                            ),
                        ),
                    )
                },
            }
        }
    }

    /// How a change goes on: to the store adapter that it concerns, or to the
    /// store itself.
    pub open spec fn prepared(
        self,
        mutation: MutationView,
        source: Option<Uuid>,
        request_id: Uuid,
    ) -> StepView {
        let (namespace, pattern, command) = persist_request(mutation, request_id);
        match mutation {
            MutationView::SetBatch { entries, .. } => match self.registry.store_for_batch(
                namespace,
                entry_keys(entries),
                source,
            ) {
                BatchMatchView::Store(store) => persisting(store.owner, command, mutation),
                BatchMatchView::Mixed => failing(
                    ErrorView::Protocol("SET batch keys require different storage adapters"@),
                ),
                BatchMatchView::NoStore => StepView::Commit(mutation),
            },
            _ => match self.registry.store_for(namespace, pattern, source) {
                Some(store) => persisting(store.owner, command, mutation),
                None => StepView::Commit(mutation),
            },
        }
    }

    /// How a value that needs no further permission is set.
    pub open spec fn set_next(self, request: SetView, encrypted: bool, request_id: Uuid) -> StepView {
        if encrypted {
            StepView::ReadSecurityKey {
                scope: route::base_of(request.namespace),
                purpose: PurposeView::Change(request),
            }
        } else {
            self.prepared(set_mutation(request), request.source, request_id)
        }
    }

    /// How a request to set a value begins.
    pub open spec fn set_start(
        self,
        request: SetView,
        context: ContextView,
        request_id: Uuid,
        now: nat,
    ) -> (BrokerState, StepView) {
        if request.namespace == LEASE_NAMESPACE@ {
            self.lease_released(request.key, request.value, context)
        } else if request.namespace == AUTH_NAMESPACE@ {
            match bootstrap_required(context) {
                Err(error) => (self, failing(error)),
                Ok(_) => (self, StepView::CheckAuthRecord(request)),
            }
        } else if request.namespace == SECURITY_NAMESPACE@ {
            match bootstrap_required(context) {
                Err(error) => (self, failing(error)),
                Ok(_) => if marked(request.key) is Some {
                    (
                        self,
                        failing(
                            ErrorView::Protocol("security key records cannot use encrypted keys"@),
                        ),
                    )
                } else {
                    (self, StepView::CheckSecurityRecord(request))
                },
            }
        } else {
            let (key, encrypted) = normalized(request.key);
            match self.may_write(context, request.namespace, encrypted, now) {
                Err(error) => (self, failing(error)),
                Ok(_) => (
                    self,
                    self.set_next(SetView { key, ..request }, encrypted, request_id),
                ),
            }
        }
    }

    /// What follows on finding out whether a value is a permission record.
    pub open spec fn auth_record_checked(
        self,
        request: SetView,
        result: Result<(), Seq<char>>,
        request_id: Uuid,
    ) -> StepView {
        match result {
            Err(message) => failing(ErrorView::InvalidAuthorization(message)),
            Ok(_) => {
                let (key, encrypted) = normalized(request.key);
                self.set_next(SetView { key, ..request }, encrypted, request_id)
            },
        }
    }

    /// What a batch does next, from its first entry that is not prepared on.
    pub open spec fn batch_next(self, request: BatchView, request_id: Uuid, now: nat) -> StepView
        decreases request.entries.len() - request.prepared.len(),
    {
        let i = request.prepared.len() as int;
        if i >= request.entries.len() {
            self.prepared(
                MutationView::SetBatch {
                    namespace: request.namespace,
                    entries: request.prepared,
                    ttl: request.ttl,
                },
                request.context.adapter_instance,
                request_id,
            )
        } else {
            let (key, encrypted) = normalized(request.entries[i].0);
            match self.may_write(request.context, request.namespace, encrypted, now) {
                Err(error) => failing(error),
                Ok(_) => if encrypted {
                    StepView::ReadSecurityKey {
                        scope: route::base_of(request.namespace),
                        purpose: PurposeView::Entry(request),
                    }
                } else {
                    self.batch_next(
                        BatchView {
                            prepared: request.prepared.push((key, request.entries[i].1)),
                            ..request
                        },
                        request_id,
                        now,
                    )
                },
            }
        }
    }

    /// How a request to set a batch begins.
    pub open spec fn batch_start(self, request: BatchView, request_id: Uuid, now: nat) -> StepView {
        if request.entries.len() == 0 {
            failing(ErrorView::Protocol("SET batch cannot be empty"@))
        } else {
            self.batch_next(request, request_id, now)
        }
    }

    /// How a request to delete begins.
    pub open spec fn delete_start(
        self,
        namespace: Seq<char>,
        key_pattern: Option<Seq<char>>,
        context: ContextView,
        request_id: Uuid,
        now: nat,
    ) -> StepView {
        if is_reserved(namespace) {
            failing(ErrorView::PermissionDenied(namespace))
        } else {
            match self.authorized(context, namespace, Operation::Delete, now) {
                Err(error) => failing(error),
                Ok(_) => if key_pattern is Some && marked(key_pattern->0) is Some {
                    failing(
                        ErrorView::Protocol("encrypted key markers are not supported for delete"@),
                    )
                } else {
                    self.prepared(
                        MutationView::Delete { namespace, key_pattern },
                        context.adapter_instance,
                        request_id,
                    )
                },
            }
        }
    }

    /// How a request to move a namespace begins.
    pub open spec fn move_start(
        self,
        source: Seq<char>,
        destination: Seq<char>,
        context: ContextView,
        request_id: Uuid,
        now: nat,
    ) -> StepView {
        if is_reserved(source) || is_reserved(destination) {
            failing(ErrorView::PermissionDenied(AUTH_NAMESPACE@))
        } else {
            match route::context_move(source, destination) {
                Err(error) => failing(error),
                Ok(_) => match self.authorized(context, source, Operation::Delete, now) {
                    Err(error) => failing(error),
                    Ok(_) => match self.authorized(context, destination, Operation::Write, now) {
                        Err(error) => failing(error),
                        Ok(_) => self.prepared(
                            MutationView::Move { source, destination },
                            context.adapter_instance,
                            request_id,
                        ),
                    },
                },
            }
        }
    }

    /// Whether a connection may register for a namespace pattern.
    pub open spec fn may_register(
        self,
        context: ContextView,
        namespace_pattern: Seq<char>,
        operation: Operation,
        message: Seq<char>,
        now: nat,
    ) -> Result<(), ErrorView> {
        let allowed = if is_record_namespace(namespace_pattern) {
            bootstrap_required(context)
        } else if namespace_pattern == LEASE_NAMESPACE@ {
            Err(ErrorView::PermissionDenied(namespace_pattern))
        } else {
            self.authorized(context, namespace_pattern, operation, now)
        };
        match allowed {
            Err(error) => Err(error),
            Ok(_) => if context.adapter_instance is None {
                Err(ErrorView::Protocol(message))
            } else {
                Ok(())
            },
        }
    }

    /// What a registration of a provider comes to.
    pub open spec fn provider_registered(
        self,
        namespace_pattern: Seq<char>,
        key_pattern: Seq<char>,
        options: ProvideOptions,
        context: ContextView,
        id: Uuid,
        now: nat,
    ) -> (BrokerState, StepView) {
        if options.max_rate == Some(0u32) {
            (
                self,
                failing(ErrorView::Protocol("PROVIDE max_rate must be greater than zero"@)),
            )
        } else {
            match self.may_register(
                context,
                namespace_pattern,
                Operation::Provide,
                "PROVIDE requires an adapter instance"@,
                now,
            ) {
                Err(error) => (self, failing(error)),
                Ok(_) => (
                    BrokerState {
                        registry: RegistryView {
                            providers: self.registry.providers.push(
                                crate::registry::ProviderView {
                                    id,
                                    owner: context.owner,
                                    namespace_pattern,
                                    key_pattern,
                                    options,
                                    registered_at: now as u128,
                                },
                            ),
                            ..self.registry
                        },
                        ..self
                    },
                    answered(ResponseView::Okay),
                ),
            }
        }
    }

    /// What a registration of a store comes to.
    pub open spec fn store_registered(
        self,
        namespace_pattern: Seq<char>,
        key_pattern: Seq<char>,
        context: ContextView,
        id: Uuid,
        now: nat,
    ) -> (BrokerState, StepView) {
        match self.may_register(
            context,
            namespace_pattern,
            Operation::Store,
            "STORE requires an adapter instance"@,
            now,
        ) {
            Err(error) => (self, failing(error)),
            Ok(_) => (
                BrokerState {
                    registry: RegistryView {
                        stores: self.registry.stores.push(
                            crate::registry::StoreView {
                                id,
                                owner: context.owner,
                                adapter_instance: context.adapter_instance,
                                namespace_pattern,
                                key_pattern,
                                registered_at: now as u128,
                            },
                        ),
                        ..self.registry
                    },
                    ..self
                },
                answered(ResponseView::Okay),
            ),
        }
    }

    /// The state with another state of the sessions.
    pub open spec fn with_auth(self, auth: AuthState) -> BrokerState {
        BrokerState { auth: Some(auth), ..self }
    }

    /// The request that asks a provider for the record of a key, where one is
    /// due; a key for which there is none is rejected.
    pub open spec fn auth_dispatched(self, api_key: Seq<char>, request_id: Uuid, now: nat) -> (
        BrokerState,
        Option<DispatchView>,
    ) {
        match self.auth {
            None => (self, None),
            Some(auth) => match auth.provider_claim(api_key) {
                None => (self, None),
                Some(_) => {
                    let claimed = auth.claiming(api_key, auth.provider_claim(api_key));
                    let failed = self.with_auth(claimed.after_failure(api_key, now));
                    if api_key.len() == 0 {
                        (failed, None)
                    } else {
                        match self.registry.provider_for(AUTH_NAMESPACE@, api_key) {
                            None => (failed, None),
                            Some(provider) => (
                                BrokerState {
                                    registry: self.registry.after_provider_for(
                                        AUTH_NAMESPACE@,
                                        api_key,
                                    ),
                                    ..self.with_auth(claimed)
                                },
                                Some(
                                    record_dispatch(
                                        provider.owner,
                                        provider.id,
                                        request_id,
                                        AUTH_NAMESPACE@,
                                        api_key,
                                        true,
                                    ),
                                ),
                            ),
                        }
                    }
                },
            },
        }
    }

    /// The outcome for a principal.
    pub open spec fn success(self, info: AuthInfoView, dispatch: Option<DispatchView>) -> StepView {
        StepView::Finished(
            Ok(
                OutcomeView {
                    response: ResponseView::AuthSuccess {
                        client_id: info.client_id,
                        session_ttl_seconds: (self.auth->0.timeout / 1_000_000_000) as u64,
                    },
                    dispatch,
                    pending_mutation: None,
                    authenticated: Some(info),
                },
            ),
        )
    }

    /// The outcome for a key that is being loaded.
    pub open spec fn pending(dispatch: Option<DispatchView>) -> StepView {
        StepView::Finished(
            Ok(
                OutcomeView {
                    response: ResponseView::AuthPending { retry_after_ms: 10 },
                    dispatch,
                    pending_mutation: None,
                    authenticated: None,
                },
            ),
        )
    }

    /// How an authentication begins.
    pub open spec fn auth_start(self, api_key: Seq<char>, request_id: Uuid, now: nat) -> (
        BrokerState,
        StepView,
    ) {
        match self.auth {
            None => (
                self,
                answered(
                    ResponseView::AuthFailure { message: "authentication is not configured"@ },
                ),
            ),
            Some(auth) => {
                let looked = self.with_auth(auth.after_lookup(api_key, now));
                match auth.lookup(api_key, now) {
                    AuthLookupView::Authenticated(info) => {
                        let (next, dispatch) = looked.auth_dispatched(api_key, request_id, now);
                        (next, next.success(info, dispatch))
                    },
                    AuthLookupView::Pending => {
                        let claim = looked.auth->0.store_claim(api_key);
                        let claimed = looked.with_auth(looked.auth->0.claiming(api_key, claim));
                        if claim is None {
                            (claimed, BrokerState::pending(None))
                        } else if api_key.len() == 0 {
                            (claimed, failing(ErrorView::EmptyIdentifier("key"@)))
                        } else {
                            (claimed, StepView::ReadAuthRecord { key: api_key })
                        }
                    },
                    AuthLookupView::Rejected => (
                        looked,
                        answered(ResponseView::AuthFailure { message: "invalid API key"@ }),
                    ),
                }
            },
        }
    }

    /// What follows on reading the record of an API key: an error, nothing, or a
    /// value, which is a record or not.
    pub open spec fn auth_record_read(
        self,
        api_key: Seq<char>,
        result: Result<Option<Option<AuthRecordView>>, ErrorView>,
        request_id: Uuid,
        now: nat,
    ) -> (BrokerState, StepView) {
        match self.auth {
            None => (
                self,
                answered(
                    ResponseView::AuthFailure { message: "authentication is not configured"@ },
                ),
            ),
            Some(auth) => match result {
                Err(error) => (
                    self.with_auth(auth.after_failure(api_key, now)),
                    failing(error),
                ),
                Ok(None) => {
                    let (next, dispatch) = self.auth_dispatched(api_key, request_id, now);
                    (next, BrokerState::pending(dispatch))
                },
                Ok(Some(record)) => {
                    let loaded = auth.after_load(api_key, record, now);
                    let looked = self.with_auth(loaded.after_lookup(api_key, now));
                    match loaded.lookup(api_key, now) {
                        AuthLookupView::Authenticated(info) => (looked, looked.success(info, None)),
                        AuthLookupView::Pending => {
                            let (next, dispatch) = looked.auth_dispatched(api_key, request_id, now);
                            (next, BrokerState::pending(dispatch))
                        },
                        AuthLookupView::Rejected => (
                            looked,
                            answered(ResponseView::AuthFailure { message: "invalid API key"@ }),
                        ),
                    }
                },
            },
        }
    }

    /// How a command begins.
    pub open spec fn executed(
        self,
        command: CommandView,
        context: ContextView,
        id: Uuid,
        now: nat,
    ) -> (BrokerState, StepView) {
        let state = BrokerState { requests: counted(self.requests), ..self };
        match command {
            CommandView::Auth { api_key, .. } => state.auth_start(api_key, id, now),
            CommandView::Get { namespace, key } => state.get_start(namespace, key, context, now),
            CommandView::SetValue { namespace, key, value, ttl_seconds } => state.set_start(
                SetView {
                    namespace,
                    key,
                    value,
                    ttl: ttl_nanos(ttl_seconds),
                    source: context.adapter_instance,
                },
                context,
                id,
                now,
            ),
            CommandView::SetBatch { namespace, entries, ttl_seconds } => (
                state,
                state.batch_start(
                    BatchView {
                        namespace,
                        entries,
                        prepared: Seq::empty(),
                        ttl: ttl_nanos(ttl_seconds),
                        context,
                    },
                    id,
                    now,
                ),
            ),
            CommandView::Delete { namespace, key_pattern } => (
                state,
                state.delete_start(namespace, key_pattern, context, id, now),
            ),
            CommandView::Move { source, destination } => (
                state,
                state.move_start(source, destination, context, id, now),
            ),
            CommandView::Provide { namespace_pattern, key_pattern, max_rate, timeout, miss_ttl } =>
            state.provider_registered(
                namespace_pattern,
                key_pattern,
                ProvideOptions {
                    max_rate,
                    timeout_ms: if timeout is Some {
                        timeout->0
                    } else {
                        0
                    },
                    miss_ttl_seconds: if miss_ttl is Some {
                        miss_ttl->0
                    } else {
                        0
                    },
                },
                context,
                id,
                now,
            ),
            CommandView::Store { namespace_pattern, key_pattern } => state.store_registered(
                namespace_pattern,
                key_pattern,
                context,
                id,
                now,
            ),
            CommandView::Ping => (state, answered(ResponseView::Pong)),
            CommandView::Stats => (state, StepView::CountValues),
        }
    }
}

/// The stateful command executor. The store, the markers of missing values and
/// the connections are around it.
pub struct Broker {
    auth: Option<AuthManager>,
    registry: Registry,
    requests: u64,
    hits: u64,
    misses: u64,
    limits: HashMap<Uuid, ProviderRateLimit>,
    leases: Table<Lease>,
    routes: ActiveRoutes,
    mutation_clock: u64,
}

impl View for Broker {
    type V = BrokerState;

    closed spec fn view(&self) -> BrokerState {
        BrokerState {
            auth: crate::error::inner(self.auth),
            registry: self.registry@,
            requests: self.requests,
            hits: self.hits,
            misses: self.misses,
            limits: self.limits@,
            leases: self.leases@,
            routes: self.routes@,
            mutation_clock: self.mutation_clock,
        }
    }
}

/// A key without its encryption marks, and whether it had them.
pub fn normalize_marked_key(key: &Key) -> (r: (Key, bool))
    ensures
        (r.0@, r.1) == normalized(key@),
{
    match marked_key(key.as_str()) {
        Some(inner) => match Key::new(inner.as_str()) {
            Ok(inner) => (inner, true),
            Err(_) => (key.clone(), false),
        },
        None => (key.clone(), false),
    }
}

/// The text between the tildes of a key that asks for encryption.
pub fn marked_key(key: &str) -> (r: Option<String>)
    ensures
        crate::error::inner(r) == marked(key@),
        r matches Some(inner) ==> inner@.len() > 0,
{
    let chars = text::chars_of(key);
    let n: usize = chars.len();
    if n >= 3 && chars[0] == '~' && chars[n - 1] == '~' {
        Some(text::slice(&chars, 1, n - 1))
    } else {
        None
    }
}

fn in_record_namespace(namespace: &str) -> (r: bool)
    ensures
        r == is_record_namespace(namespace@),
{
    text::same(namespace, AUTH_NAMESPACE) || text::same(namespace, SECURITY_NAMESPACE)
}

fn in_reserved_namespace(namespace: &str) -> (r: bool)
    ensures
        r == is_reserved(namespace@),
{
    in_record_namespace(namespace) || text::same(namespace, LEASE_NAMESPACE)
}

fn require_bootstrap(context: &RequestContext) -> (r: Result<(), Error>)
    ensures
        crate::error::outcome(r) == bootstrap_required(context@),
{
    match &context.auth {
        Some(auth) => if auth.is_bootstrap_admin() {
            Ok(())
        } else {
            Err(Error::PermissionDenied(AUTH_NAMESPACE.to_owned()))
        },
        None => Err(Error::PermissionDenied(AUTH_NAMESPACE.to_owned())),
    }
}

fn require_adapter(context: &RequestContext) -> (r: Result<Uuid, Error>)
    ensures
        crate::error::outcome(r) == lease_adapter(context@),
{
    match (&context.auth, context.adapter_instance) {
        (Some(_), Some(id)) => Ok(id),
        _ => Err(Error::PermissionDenied(LEASE_NAMESPACE.to_owned())),
    }
}

fn finish(response: Response) -> (r: Step)
    ensures
        r@ == answered(response@),
{
    Step::Finished(Ok(BrokerOutcome::response(response)))
}

fn fail(error: Error) -> (r: Step)
    ensures
        r@ == failing(error@),
{
    Step::Finished(Err(error))
}

/// The base namespace under which the encryption key of a namespace is stored.
///
/// A context refines an encryption scope, but ordinary namespaces are also
/// valid encrypted routes. Context-qualified values deliberately share the
/// key of their base namespace to keep one durable key per logical route.
pub fn security_scope(namespace: &NamespaceContext) -> (r: Key)
    ensures
        r@ == route::base_of(namespace@),
{
    let whole = namespace.as_str();
    proof {
        route::context_decomposition(namespace@);
    }
    match Key::new(namespace.ns()) {
        Ok(key) => key,
        Err(_) => {
            assert(false);
            Key::new(whole).unwrap()
        },
    }
}

/// The route under which the encryption key of a namespace is stored.
pub fn security_route(namespace: &NamespaceContext) -> (r: Result<(NamespaceContext, Key), Error>)
    ensures
        r is Ok,
        r->Ok_0.0@ == SECURITY_NAMESPACE@,
        r->Ok_0.1@ == route::base_of(namespace@),
{
    proof {
        reveal_strlit("/__secrets");
    }
    match NamespaceContext::new(SECURITY_NAMESPACE) {
        Ok(security) => Ok((security, security_scope(namespace))),
        Err(error) => Err(error),
    }
}

/// The encryption key that was loaded for a scope.
pub fn parse_security_key(load: KeyLoad, scope: &str) -> (r: Result<String, Error>)
    ensures
        crate::error::outcome(r) == loaded_key(load@, scope@),
{
    match load {
        KeyLoad::Failed(error) => Err(error),
        KeyLoad::Missing => {
            let message = text::joined3(
                "encryption key for scope '",
                scope,
                "' is not loaded",
            );
            Err(Error::Encryption(message))
        },
        KeyLoad::Malformed => Err(
            Error::Encryption("security key record is malformed".to_owned()),
        ),
        KeyLoad::Found(record) => Ok(record.key),
    }
}

fn replace_part(chars: &Vec<char>, start: usize, end: usize, value: &str) -> (r: (String, usize))
    requires
        start <= end < chars.len(),
    ensures
        r.0@ == replaced(chars@, start as int, end as int, value@),
        r.1 == start + value@.len(),
        r.1 <= r.0@.len(),
{
    let front = text::slice(chars, 0, start);
    let back = text::slice(chars, end + 1, chars.len());
    let whole = text::joined3(front.as_str(), value, back.as_str());
    assert(front@ =~= chars@.take(start as int));
    assert(back@ =~= chars@.skip(end + 1));
    let total: usize = whole.as_str().unicode_len();
    let length: usize = value.unicode_len();
    assert(start + length <= total);
    (whole, start + length)
}

fn find_variable(chars: &Vec<char>, cursor: usize) -> (r: Option<(usize, usize)>)
    requires
        cursor <= chars.len(),
    ensures
        match r {
            Some((start, end)) => next_variable(chars@, cursor as int) == Some(
                (start as int, end as int),
            ) && cursor <= start && start + 2 <= end < chars.len(),
            None => next_variable(chars@, cursor as int) is None,
        },
{
    let open: Vec<char> = vec!['$', '{'];
    let close: Vec<char> = vec!['}'];
    assert(open@ =~= seq!['$', '{']);
    assert(close@ =~= seq!['}']);
    match text::position(chars, &open, cursor) {
        None => None,
        Some(start) => match text::position(chars, &close, start + 2) {
            None => None,
            Some(end) => Some((start, end)),
        },
    }
}

/// Resolves the key of a GET request as far as the caller's variables allow. The
/// name of the variable that has to be read, if there is one.
fn resolve(request: GetRequest) -> (r: (GetRequest, Option<Key>))
    requires
        request.cursor <= request.resolved@.len(),
    ensures
        r.0@.namespace == request@.namespace,
        r.0@.raw_encrypted == request@.raw_encrypted,
        r.0@.context == request@.context,
        r.0@.cursor <= r.0@.resolved.len(),
        resolution(request@.resolved, request@.cursor, request@.context.variables) == (match r.1 {
            Some(name) => Resolution::Unknown {
                text: r.0@.resolved,
                start: r.0@.cursor,
                name: name@,
            },
            None => Resolution::Resolved(r.0@.resolved),
        }),
        r.1 is Some ==> next_variable(r.0@.resolved, r.0@.cursor) is Some,
{
    let ghost first = request@;
    let mut current = request;
    loop
        invariant
            first == request@,
            current@.namespace == first.namespace,
            current@.raw_encrypted == first.raw_encrypted,
            current@.context == first.context,
            current.cursor <= current.resolved@.len(),
            resolution(current@.resolved, current@.cursor, first.context.variables) == resolution(
                first.resolved,
                first.cursor,
                first.context.variables,
            ),
        decreases current.resolved@.len() - current.cursor,
    {
        let chars = text::chars_of(current.resolved.as_str());
        let (start, end) = match find_variable(&chars, current.cursor) {
            None => {
                return (current, None);
            },
            Some(found) => found,
        };
        if end == start + 2 {
            assert(current@.resolved.subrange(start + 2, end as int).len() == 0);
            current.cursor = end + 1;
            continue;
        }
        let name = text::slice(&chars, start + 2, end);
        match current.context.variables.get(name.as_str()) {
            Some(value) => {
                let (whole, cursor) = replace_part(&chars, start, end, value.as_str());
                assert(first.context.variables[name@] == value@);
                current.resolved = whole;
                current.cursor = cursor;
            },
            None => {
                proof {
                    lemma_variable_start(chars@, current@.cursor);
                }
                current.cursor = start;
                match Key::new(name.as_str()) {
                    Ok(name) => {
                        return (current, Some(name));
                    },
                    Err(_) => {
                        return (current, None);
                    },
                }
            },
        }
    }
}

impl Broker {
    /// A broker with the sessions of `auth`, or without authentication.
    pub fn new(auth: Option<AuthManager>) -> (r: Self)
        ensures
            r@ == (BrokerState {
                auth: crate::error::inner(auth),
                registry: RegistryView {
                    providers: Seq::empty(),
                    stores: Seq::empty(),
                    next_provider: 0,
                },
                requests: 0,
                hits: 0,
                misses: 0,
                limits: Map::empty(),
                leases: Map::empty(),
                routes: Map::empty(),
                mutation_clock: 0,
            }),
    {
        Broker {
            auth,
            registry: Registry::new(),
            requests: 0,
            hits: 0,
            misses: 0,
            limits: HashMap::new(),
            leases: Table::new(),
            routes: ActiveRoutes::new(),
            mutation_clock: 0,
        }
    }

    /// The registrations.
    pub fn registry(&self) -> (r: &Registry)
        ensures
            r@ == self@.registry,
    {
        &self.registry
    }

    /// The registrations, to be changed.
    pub fn registry_mut(&mut self) -> (r: &mut Registry)
        ensures
            r@ == old(self)@.registry,
            final(self)@ == (BrokerState { registry: final(r)@, ..old(self)@ }),
    {
        &mut self.registry
    }

    /// Forgets what a connection registered.
    pub fn remove_owner(&mut self, owner: ConnectionId)
        ensures
            final(self)@ == (BrokerState {
                registry: RegistryView {
                    providers: crate::registry::others_providers(
                        old(self)@.registry.providers,
                        owner,
                    ),
                    stores: crate::registry::others_stores(old(self)@.registry.stores, owner),
                    next_provider: old(self)@.registry.next_provider,
                },
                ..old(self)@
            }),
    {
        self.registry.remove_owner(owner);
    }

    fn authorize(
        &self,
        context: &RequestContext,
        namespace: &NamespaceContext,
        operation: Operation,
        now: u128,
    ) -> (r: Result<(), Error>)
        ensures
            crate::error::outcome(r) == self@.authorized(
                context@,
                namespace@,
                operation,
                now as nat,
            ),
    {
        match &self.auth {
            None => Ok(()),
            Some(manager) => match &context.auth {
                None => Err(Error::AuthenticationFailed),
                Some(auth) => manager.authorize(auth, namespace, operation, now),
            },
        }
    }

    fn authorize_read(
        &self,
        context: &RequestContext,
        namespace: &NamespaceContext,
        encrypted: bool,
        now: u128,
    ) -> (r: Result<(), Error>)
        ensures
            crate::error::outcome(r) == self@.may_read(
                context@,
                namespace@,
                encrypted,
                now as nat,
            ),
    {
        if in_record_namespace(namespace.as_str()) {
            require_bootstrap(context)
        } else if encrypted {
            self.authorize(context, namespace, Operation::ReadEncrypted, now)
        } else {
            self.authorize(context, namespace, Operation::Read, now)
        }
    }

    fn authorize_write(
        &self,
        context: &RequestContext,
        namespace: &NamespaceContext,
        encrypted: bool,
        now: u128,
    ) -> (r: Result<(), Error>)
        ensures
            crate::error::outcome(r) == self@.may_write(
                context@,
                namespace@,
                encrypted,
                now as nat,
            ),
    {
        if encrypted {
            self.authorize(context, namespace, Operation::WriteEncrypted, now)
        } else {
            self.authorize(context, namespace, Operation::Write, now)
        }
    }

    /// Goes on with a GET request whose key is resolved up to the cursor.
    fn continue_get(&self, request: GetRequest, now: u128) -> (r: Step)
        requires
            request.cursor <= request.resolved@.len(),
        ensures
            r@ == self@.get_next(request@, now as nat),
    {
        let (request, name) = resolve(request);
        if let Some(key) = name {
            return Step::ReadVariable { key, request };
        }
        let resolved = match Key::new(request.resolved.as_str()) {
            Ok(key) => key,
            Err(error) => {
                return fail(error);
            },
        };
        let (key, encrypted) = normalize_marked_key(&resolved);
        if !in_record_namespace(request.namespace.as_str()) && encrypted != request.raw_encrypted {
            match self.authorize_read(&request.context, &request.namespace, encrypted, now) {
                Ok(_) => {},
                Err(error) => {
                    return fail(error);
                },
            }
        }
        Step::ReadValue(ValueRequest { namespace: request.namespace, key, encrypted })
    }

    fn get(&mut self, namespace: NamespaceContext, key: Key, context: RequestContext, now: u128) -> (r:
        Step)
        requires
            old(self)@.in_time(now as nat),
        ensures
            (final(self)@, r@) == old(self)@.get_start(namespace@, key@, context@, now as nat),
    {
        if text::same(namespace.as_str(), LEASE_NAMESPACE) {
            return self.acquire_lease(key, &context, now);
        }
        let raw_encrypted = marked_key(key.as_str()).is_some();
        match self.authorize_read(&context, &namespace, raw_encrypted, now) {
            Ok(_) => {},
            Err(error) => {
                return fail(error);
            },
        }
        let resolved = key.as_str().to_owned();
        self.continue_get(
            GetRequest { namespace, raw_encrypted, resolved, cursor: 0, context },
            now,
        )
    }

    /// Goes on with a GET request after a variable of its key was read.
    pub fn variable_read(
        &self,
        request: GetRequest,
        result: Result<Option<StoredValue>, Error>,
        now: u128,
    ) -> (r: Step)
        ensures
            r@ == self@.variable_read(request@, stored_read(result), now as nat),
    {
        let stored = match result {
            Ok(stored) => stored,
            Err(error) => {
                return fail(error);
            },
        };
        let mut request = request;
        let chars = text::chars_of(request.resolved.as_str());
        let found = if request.cursor <= chars.len() {
            find_variable(&chars, request.cursor)
        } else {
            None
        };
        match found {
            None => {
                request.cursor = chars.len();
            },
            Some((start, end)) => match stored {
                Some(stored) => {
                    let value = match stored.value {
                        Value::Text(text) => text,
                        value => json::render(&value),
                    };
                    let (whole, cursor) = replace_part(&chars, start, end, value.as_str());
                    request.resolved = whole;
                    request.cursor = cursor;
                },
                None => {
                    request.cursor = end + 1;
                },
            },
        }
        self.continue_get(request, now)
    }

    /// Grants a lease unless another adapter holds it.
    fn acquire_lease(&mut self, key: Key, context: &RequestContext, now: u128) -> (r: Step)
        requires
            now + LEASE_NANOS <= u128::MAX,
        ensures
            (final(self)@, r@) == old(self)@.lease_acquired(key@, context@, now as nat),
    {
        let owner: Uuid = match require_adapter(context) {
            Ok(owner) => owner,
            Err(error) => {
                return fail(error);
            },
        };
        let held = match self.leases.get(key.as_str()) {
            Some(lease) => lease.expires_at > now && lease.owner != owner,
            None => false,
        };
        if held {
            return finish(Response::Value { value: Value::Bool(false), ttl_seconds: None });
        }
        self.leases.insert(
            key.as_str().to_owned(),
            Lease { owner, expires_at: now + LEASE_NANOS },
        );
        finish(Response::Value { value: Value::Bool(true), ttl_seconds: Some(30) })
    }

    /// Releases a lease of the adapter that holds it.
    fn release_lease(&mut self, key: Key, value: &Value, context: &RequestContext) -> (r: Step)
        ensures
            (final(self)@, r@) == old(self)@.lease_released(key@, value@, context@),
    {
        let owner: Uuid = match require_adapter(context) {
            Ok(owner) => owner,
            Err(error) => {
                return fail(error);
            },
        };
        proof {
            reveal_strlit("0");
            assert("0"@ =~= seq!['0']);
        }
        let zero = match value {
            Value::Number(text) => text::same(text.as_str(), "0"),
            _ => false,
        };
        if !zero {
            return fail(protocol("lease release requires value 0"));
        }
        let owned = match self.leases.get(key.as_str()) {
            Some(lease) => lease.owner == owner,
            None => false,
        };
        if owned {
            let _ = self.leases.remove(key.as_str());
            finish(Response::Okay)
        } else {
            fail(Error::PermissionDenied(LEASE_NAMESPACE.to_owned()))
        }
    }

    /// Goes on with a GET request after its value was read.
    pub fn value_read(
        &mut self,
        request: ValueRequest,
        result: Result<Option<StoredValue>, Error>,
    ) -> (r: Step)
        ensures
            (final(self)@, r@) == old(self)@.value_read(
                request@,
                match result {
                    Ok(stored) => Ok(crate::error::inner(stored)),
                    Err(error) => Err(error@),
                },
            ),
    {
        match result {
            Err(error) => fail(error),
            Ok(None) => {
                self.misses = self.misses.wrapping_add(1);
                Step::CheckMiss(request)
            },
            Ok(Some(stored)) => {
                self.hits = self.hits.wrapping_add(1);
                if request.encrypted {
                    let scope = security_scope(&request.namespace);
                    Step::ReadSecurityKey { scope, purpose: Purpose::Answer { request, stored } }
                } else {
                    let ttl_seconds = store::ttl_seconds(&stored.remaining_ttl);
                    finish(Response::Value { value: stored.value, ttl_seconds })
                }
            },
        }
    }

    /// Goes on with a GET request without a value, under the identifiers.
    pub fn miss_checked_with(
        &mut self,
        request: ValueRequest,
        is_marked: bool,
        request_id: Uuid,
        refresh_id: Uuid,
    ) -> (r: Step)
        ensures
            (final(self)@, r@) == old(self)@.miss_checked(
                request@,
                is_marked,
                request_id,
                refresh_id,
            ),
    {
        if is_marked {
            return finish(Response::Miss { retry_after_ms: 0 });
        }
        match self.registry.provider_for(&request.namespace, &request.key) {
            None => finish(Response::Unknown),
            Some(provider) => {
                let state = self.routes.activate(&request.namespace, &request.key, refresh_id);
                Step::Finished(
                    Ok(
                        BrokerOutcome {
                            response: Response::Miss { retry_after_ms: 10 },
                            dispatch: Some(
                                Dispatch {
                                    owner: provider.owner,
                                    provider_id: Some(provider.id),
                                    provider_refresh_id: Some(state.provider_refresh_id),
                                    mutation_generation: state.generation,
                                    command: ServerCommand::Query {
                                        request_id,
                                        namespace: request.namespace,
                                        key: request.key,
                                    },
                                    authentication: false,
                                    provider_options: Some(provider.options),
                                    encrypted: request.encrypted,
                                },
                            ),
                            pending_mutation: None,
                            authenticated: None,
                        },
                    ),
                )
            },
        }
    }

    /// Goes on with a GET request without a value: with a marker it is a miss,
    /// else the provider whose turn it is gets a query.
    pub fn miss_checked(&mut self, request: ValueRequest, is_marked: bool) -> (r: Step)
        ensures
            exists|request_id: Uuid, refresh_id: Uuid|
                (final(self)@, r@) == #[trigger] old(self)@.miss_checked(
                    request@,
                    is_marked,
                    request_id,
                    refresh_id,
                ),
    {
        let request_id: Uuid = crypto::fresh_uuid();
        let refresh_id: Uuid = crypto::fresh_uuid();
        self.miss_checked_with(request, is_marked, request_id, refresh_id)
    }
}

/// What looking at a record found.
pub open spec fn finding(result: Result<(), String>) -> Result<(), Seq<char>> {
    match result {
        Ok(_) => Ok(()),
        Err(message) => Err(message@),
    }
}

fn persist(owner: ConnectionId, command: ServerCommand, mutation: PendingMutation) -> (r: Step)
    ensures
        r@ == persisting(owner, command@, mutation@),
{
    Step::Finished(
        Ok(
            BrokerOutcome {
                response: Response::Okay,
                dispatch: Some(
                    Dispatch {
                        owner,
                        provider_id: None,
                        provider_refresh_id: None,
                        mutation_generation: 0,
                        command,
                        authentication: false,
                        provider_options: None,
                        encrypted: false,
                    },
                ),
                pending_mutation: Some(mutation),
                authenticated: None,
            },
        ),
    )
}

fn floor_seconds(ttl: &Option<Duration>) -> (r: Option<u64>)
    ensures
        r == whole_seconds(crate::error::inner(*ttl)),
{
    match ttl {
        Some(ttl) => Some(ttl.as_secs()),
        None => None,
    }
}

fn from_seconds(ttl_seconds: Option<u64>) -> (r: Option<Duration>)
    ensures
        crate::error::inner(r) == ttl_nanos(ttl_seconds),
{
    match ttl_seconds {
        Some(n) => Some(Duration::from_secs(n)),
        None => None,
    }
}

fn any_key() -> (r: KeyPattern)
    ensures
        r@ == seq!['*'],
{
    proof {
        reveal_strlit("*");
        assert("*"@ =~= seq!['*']);
    }
    match KeyPattern::new("*") {
        Ok(pattern) => pattern,
        Err(_) => {
            assert(false);
            KeyPattern::new("*").unwrap()
        },
    }
}

fn exact_pattern(key: &Key) -> (r: KeyPattern)
    ensures
        r@ == key@,
{
    match KeyPattern::new(key.as_str()) {
        Ok(pattern) => pattern,
        Err(_) => {
            assert(false);
            any_key()
        },
    }
}

fn exact_patterns(entries: &Vec<SetEntry>) -> (r: Vec<KeyPattern>)
    ensures
        crate::error::views(r@) == entry_keys(crate::error::views(entries@)),
{
    let ghost keys = entry_keys(crate::error::views(entries@));
    let mut out: Vec<KeyPattern> = Vec::new();
    let mut i: usize = 0;
    while i < entries.len()
        invariant
            i <= entries.len(),
            keys == entry_keys(crate::error::views(entries@)),
            crate::error::views(out@) == keys.take(i as int),
        decreases entries.len() - i,
    {
        let ghost before = crate::error::views(out@);
        let pattern = exact_pattern(&entries[i].key);
        out.push(pattern);
        assert(crate::error::views(out@) =~= before.push(pattern@));
        assert(keys[i as int] == entries@[i as int].key@);
        assert(keys.take(i + 1) =~= before.push(keys[i as int]));
        i += 1;
    }
    assert(keys.take(keys.len() as int) =~= keys);
    out
}

impl Broker {
    /// Hands a change to the store adapter that it concerns, or to the store
    /// itself, under the identifier.
    pub fn prepare_mutation_with(
        &self,
        mutation: PendingMutation,
        source_adapter: Option<Uuid>,
        request_id: Uuid,
    ) -> (r: Step)
        ensures
            r@ == self@.prepared(mutation@, source_adapter, request_id),
    {
        if let PendingMutation::SetBatch { namespace, entries, ttl } = &mutation {
            let patterns = exact_patterns(entries);
            return match self.registry.store_for_batch(namespace, &patterns, source_adapter) {
                BatchStoreMatch::Store(store) => {
                    let command = ServerCommand::PersistSetBatch {
                        request_id,
                        namespace: namespace.clone(),
                        entries: clone_entries(entries),
                        ttl_seconds: floor_seconds(ttl),
                    };
                    persist(store.owner, command, mutation)
                },
                BatchStoreMatch::Mixed => fail(
                    protocol("SET batch keys require different storage adapters"),
                ),
                BatchStoreMatch::NoStore => Step::Commit(mutation),
            };
        }
        let (namespace, pattern, command) = match &mutation {
            PendingMutation::SetValue { namespace, key, value, ttl } => (
                namespace,
                exact_pattern(key),
                ServerCommand::PersistSet {
                    request_id,
                    namespace: namespace.clone(),
                    key: key.clone(),
                    value: value.clone(),
                    ttl_seconds: floor_seconds(ttl),
                },
            ),
            PendingMutation::SetBatch { namespace, entries, ttl } => (
                namespace,
                any_key(),
                ServerCommand::PersistSetBatch {
                    request_id,
                    namespace: namespace.clone(),
                    entries: clone_entries(entries),
                    ttl_seconds: floor_seconds(ttl),
                },
            ),
            PendingMutation::Delete { namespace, key_pattern } => (
                namespace,
                match key_pattern {
                    Some(pattern) => pattern.clone(),
                    None => any_key(),
                },
                ServerCommand::PersistDelete {
                    request_id,
                    namespace: namespace.clone(),
                    key_pattern: clone_pattern(key_pattern),
                },
            ),
            PendingMutation::Move { source, destination } => (
                source,
                any_key(),
                ServerCommand::PersistMove {
                    request_id,
                    source: source.clone(),
                    destination: destination.clone(),
                },
            ),
        };
        match self.registry.store_for(namespace, &pattern, source_adapter) {
            Some(store) => persist(store.owner, command, mutation),
            None => Step::Commit(mutation),
        }
    }

    /// Hands a change to the store adapter that it concerns, or to the store
    /// itself.
    pub fn prepare_mutation(&self, mutation: PendingMutation, source_adapter: Option<Uuid>) -> (r:
        Step)
        ensures
            exists|request_id: Uuid|
                r@ == #[trigger] self@.prepared(mutation@, source_adapter, request_id),
    {
        let request_id: Uuid = crypto::fresh_uuid();
        self.prepare_mutation_with(mutation, source_adapter, request_id)
    }

    fn continue_set(&self, request: SetRequest, encrypted: bool, request_id: Uuid) -> (r: Step)
        ensures
            r@ == self@.set_next(request@, encrypted, request_id),
    {
        if encrypted {
            let scope = security_scope(&request.namespace);
            return Step::ReadSecurityKey { scope, purpose: Purpose::Change(request) };
        }
        let source: Option<Uuid> = request.source;
        self.prepare_mutation_with(
            PendingMutation::SetValue {
                namespace: request.namespace,
                key: request.key,
                value: request.value,
                ttl: request.ttl,
            },
            source,
            request_id,
        )
    }

    fn set(&mut self, request: SetRequest, context: &RequestContext, request_id: Uuid, now: u128) -> (r:
        Step)
        ensures
            (final(self)@, r@) == old(self)@.set_start(request@, context@, request_id, now as nat),
    {
        if text::same(request.namespace.as_str(), LEASE_NAMESPACE) {
            return self.release_lease(request.key, &request.value, context);
        }
        if text::same(request.namespace.as_str(), AUTH_NAMESPACE) {
            return match require_bootstrap(context) {
                Err(error) => fail(error),
                Ok(_) => Step::CheckAuthRecord(request),
            };
        }
        if text::same(request.namespace.as_str(), SECURITY_NAMESPACE) {
            return match require_bootstrap(context) {
                Err(error) => fail(error),
                Ok(_) => if marked_key(request.key.as_str()).is_some() {
                    fail(protocol("security key records cannot use encrypted keys"))
                } else {
                    Step::CheckSecurityRecord(request)
                },
            };
        }
        let (key, encrypted) = normalize_marked_key(&request.key);
        match self.authorize_write(context, &request.namespace, encrypted, now) {
            Err(error) => fail(error),
            Ok(_) => {
                let mut request = request;
                request.key = key;
                self.continue_set(request, encrypted, request_id)
            },
        }
    }

    /// Goes on with setting a permission record after its value was looked at,
    /// under the identifier.
    pub fn auth_record_checked_with(
        &self,
        request: SetRequest,
        result: Result<(), String>,
        request_id: Uuid,
    ) -> (r: Step)
        ensures
            r@ == self@.auth_record_checked(
                request@,
                finding(result),
                request_id,
            ),
    {
        match result {
            Err(message) => fail(Error::InvalidAuthorization(message)),
            Ok(_) => {
                let (key, encrypted) = normalize_marked_key(&request.key);
                let mut request = request;
                request.key = key;
                self.continue_set(request, encrypted, request_id)
            },
        }
    }

    /// Goes on with setting a permission record after its value was looked at:
    /// the result holds why it is none.
    pub fn auth_record_checked(&self, request: SetRequest, result: Result<(), String>) -> (r: Step)
        ensures
            exists|request_id: Uuid|
                r@ == #[trigger] self@.auth_record_checked(
                    request@,
                    finding(result),
                    request_id,
                ),
    {
        let request_id: Uuid = crypto::fresh_uuid();
        self.auth_record_checked_with(request, result, request_id)
    }

    /// Goes on with setting an encryption key record after its value was looked
    /// at.
    pub fn security_record_checked(&self, request: SetRequest, is_record: bool) -> (r: Step)
        ensures
            r@ == (if is_record {
                StepView::WriteSecurityRecord(request@)
            } else {
                failing(ErrorView::Encryption("security key record is malformed"@))
            }),
    {
        if is_record {
            Step::WriteSecurityRecord(request)
        } else {
            fail(Error::Encryption("security key record is malformed".to_owned()))
        }
    }

    /// Ends a change after it was made to the store.
    pub fn change_made(&self, result: Result<(), Error>) -> (r: Step)
        ensures
            r@ == (match result {
                Ok(_) => answered(ResponseView::Okay),
                Err(error) => failing(error@),
            }),
    {
        match result {
            Ok(_) => finish(Response::Okay),
            Err(error) => fail(error),
        }
    }

    /// Goes on with a batch from its first entry that is not prepared on.
    fn continue_batch(&self, request: BatchRequest, request_id: Uuid, now: u128) -> (r: Step)
        ensures
            r@ == self@.batch_next(request@, request_id, now as nat),
    {
        let ghost first = request@;
        let mut current = request;
        while current.prepared.len() < current.entries.len()
            invariant
                first == request@,
                current@.namespace == first.namespace,
                current@.entries == first.entries,
                current@.ttl == first.ttl,
                current@.context == first.context,
                self@.batch_next(current@, request_id, now as nat) == self@.batch_next(
                    first,
                    request_id,
                    now as nat,
                ),
            decreases current.entries.len() - current.prepared.len(),
        {
            let i: usize = current.prepared.len();
            assert(current@.entries[i as int] == current.entries@[i as int]@);
            let (key, encrypted) = normalize_marked_key(&current.entries[i].key);
            match self.authorize_write(&current.context, &current.namespace, encrypted, now) {
                Err(error) => {
                    return fail(error);
                },
                Ok(_) => {},
            }
            if encrypted {
                let scope = security_scope(&current.namespace);
                return Step::ReadSecurityKey { scope, purpose: Purpose::Entry(current) };
            }
            let value = current.entries[i].value.clone();
            let ghost before = current@.prepared;
            let ghost previous = current@;
            let entry = SetEntry { key, value };
            current.prepared.push(entry);
            assert(current@.prepared =~= before.push(entry@));
            assert(current@ =~= BatchView { prepared: before.push(entry@), ..previous });
        }
        let source: Option<Uuid> = current.context.adapter_instance;
        self.prepare_mutation_with(
            PendingMutation::SetBatch {
                namespace: current.namespace,
                entries: current.prepared,
                ttl: current.ttl,
            },
            source,
            request_id,
        )
    }

    fn delete(
        &self,
        namespace: NamespaceContext,
        key_pattern: Option<KeyPattern>,
        context: &RequestContext,
        request_id: Uuid,
        now: u128,
    ) -> (r: Step)
        ensures
            r@ == self@.delete_start(
                namespace@,
                crate::error::inner(key_pattern),
                context@,
                request_id,
                now as nat,
            ),
    {
        if in_reserved_namespace(namespace.as_str()) {
            return fail(Error::PermissionDenied(namespace.as_str().to_owned()));
        }
        match self.authorize(context, &namespace, Operation::Delete, now) {
            Err(error) => {
                return fail(error);
            },
            Ok(_) => {},
        }
        if let Some(pattern) = &key_pattern {
            if marked_key(pattern.as_str()).is_some() {
                return fail(protocol("encrypted key markers are not supported for delete"));
            }
        }
        self.prepare_mutation_with(
            PendingMutation::Delete { namespace, key_pattern },
            context.adapter_instance,
            request_id,
        )
    }

    fn move_namespace(
        &self,
        source: NamespaceContext,
        destination: NamespaceContext,
        context: &RequestContext,
        request_id: Uuid,
        now: u128,
    ) -> (r: Step)
        ensures
            r@ == self@.move_start(source@, destination@, context@, request_id, now as nat),
    {
        if in_reserved_namespace(source.as_str()) || in_reserved_namespace(destination.as_str()) {
            return fail(Error::PermissionDenied(AUTH_NAMESPACE.to_owned()));
        }
        match route::validate_context_move(&source, &destination) {
            Err(error) => {
                return fail(error);
            },
            Ok(_) => {},
        }
        match self.authorize(context, &source, Operation::Delete, now) {
            Err(error) => {
                return fail(error);
            },
            Ok(_) => {},
        }
        match self.authorize(context, &destination, Operation::Write, now) {
            Err(error) => {
                return fail(error);
            },
            Ok(_) => {},
        }
        self.prepare_mutation_with(
            PendingMutation::Move { source, destination },
            context.adapter_instance,
            request_id,
        )
    }

    fn register(
        &self,
        context: &RequestContext,
        namespace_pattern: &str,
        operation: Operation,
        message: &str,
        now: u128,
    ) -> (r: Result<(), Error>)
        requires
            namespace_pattern@.len() > 0,
        ensures
            crate::error::outcome(r) == self@.may_register(
                context@,
                namespace_pattern@,
                operation,
                message@,
                now as nat,
            ),
    {
        let namespace = match NamespaceContext::new(namespace_pattern) {
            Ok(namespace) => namespace,
            Err(error) => {
                return Err(error);
            },
        };
        let allowed = if in_record_namespace(namespace_pattern) {
            require_bootstrap(context)
        } else if text::same(namespace_pattern, LEASE_NAMESPACE) {
            Err(Error::PermissionDenied(namespace_pattern.to_owned()))
        } else {
            self.authorize(context, &namespace, operation, now)
        };
        match allowed {
            Err(error) => Err(error),
            Ok(_) => if context.adapter_instance.is_none() {
                Err(protocol(message))
            } else {
                Ok(())
            },
        }
    }
}

fn auth_namespace() -> (r: NamespaceContext)
    ensures
        r@ == AUTH_NAMESPACE@,
{
    proof {
        reveal_strlit("/__auth");
    }
    match NamespaceContext::new(AUTH_NAMESPACE) {
        Ok(namespace) => namespace,
        Err(_) => {
            assert(false);
            NamespaceContext::new(AUTH_NAMESPACE).unwrap()
        },
    }
}

fn query(
    owner: ConnectionId,
    provider_id: Uuid,
    request_id: Uuid,
    namespace: NamespaceContext,
    key: Key,
    authentication: bool,
) -> (r: Dispatch)
    ensures
        r@ == record_dispatch(owner, provider_id, request_id, namespace@, key@, authentication),
{
    Dispatch {
        owner,
        provider_id: Some(provider_id),
        provider_refresh_id: None,
        mutation_generation: 0,
        command: ServerCommand::Query { request_id, namespace, key },
        authentication,
        provider_options: None,
        encrypted: false,
    }
}

fn waiting(dispatch: Option<Dispatch>) -> (r: Step)
    ensures
        r@ == BrokerState::pending(crate::error::inner(dispatch)),
{
    Step::Finished(
        Ok(
            BrokerOutcome {
                response: Response::AuthPending { retry_after_ms: 10 },
                dispatch,
                pending_mutation: None,
                authenticated: None,
            },
        ),
    )
}

/// What reading the record of an API key gave: an error, nothing, or a value,
/// which is a permission record or not.
pub open spec fn record_read(result: Result<Option<Option<AuthRecord>>, Error>) -> Result<
    Option<Option<AuthRecordView>>,
    ErrorView,
> {
    match result {
        Err(error) => Err(error@),
        Ok(None) => Ok(None),
        Ok(Some(record)) => Ok(Some(security::record_view(record))),
    }
}

impl Broker {
    fn provide(
        &mut self,
        namespace_pattern: &str,
        key_pattern: &str,
        options: ProvideOptions,
        context: &RequestContext,
        id: Uuid,
        now: u128,
    ) -> (r: Step)
        requires
            namespace_pattern@.len() > 0,
        ensures
            (final(self)@, r@) == old(self)@.provider_registered(
                namespace_pattern@,
                key_pattern@,
                options,
                context@,
                id,
                now as nat,
            ),
    {
        if let Some(0) = options.max_rate {
            return fail(protocol("PROVIDE max_rate must be greater than zero"));
        }
        match self.register(
            context,
            namespace_pattern,
            Operation::Provide,
            "PROVIDE requires an adapter instance",
            now,
        ) {
            Err(error) => fail(error),
            Ok(_) => {
                let _ = self.registry.insert_provider(
                    id,
                    context.owner,
                    namespace_pattern,
                    key_pattern,
                    options,
                    now,
                );
                finish(Response::Okay)
            },
        }
    }

    fn offer_store(
        &mut self,
        namespace_pattern: &str,
        key_pattern: &str,
        context: &RequestContext,
        id: Uuid,
        now: u128,
    ) -> (r: Step)
        requires
            namespace_pattern@.len() > 0,
        ensures
            (final(self)@, r@) == old(self)@.store_registered(
                namespace_pattern@,
                key_pattern@,
                context@,
                id,
                now as nat,
            ),
    {
        match self.register(
            context,
            namespace_pattern,
            Operation::Store,
            "STORE requires an adapter instance",
            now,
        ) {
            Err(error) => fail(error),
            Ok(_) => {
                let _ = self.registry.insert_store(
                    id,
                    context.owner,
                    context.adapter_instance,
                    namespace_pattern,
                    key_pattern,
                    now,
                );
                finish(Response::Okay)
            },
        }
    }

    /// Begins to refresh a session in the last half of its time, once.
    pub fn schedule_auth_refresh(&mut self, api_key: &str, now: u128) -> (r: bool)
        ensures
            match old(self)@.auth {
                None => !r && final(self)@ == old(self)@,
                Some(auth) => r == (auth.refresh_claim(api_key@, now as nat) is Some) && final(self)@ == old(self)@.with_auth(
                    auth.claiming(api_key@, auth.refresh_claim(api_key@, now as nat)),
                ),
            },
    {
        match &mut self.auth {
            None => false,
            Some(auth) => auth.schedule_refresh(api_key, now),
        }
    }

    /// The principal of a request.
    pub fn authenticate_request(&mut self, api_key: &str, now: u128) -> (r: Result<AuthInfo, Error>)
        ensures
            (final(self)@, crate::error::outcome(r)) == old(self)@.request_authenticated(
                api_key@,
                now as nat,
            ),
    {
        match &mut self.auth {
            None => Err(Error::AuthenticationFailed),
            Some(auth) => match auth.authenticate(api_key, now) {
                AuthLookup::Authenticated(info) => Ok(info),
                _ => Err(Error::AuthenticationFailed),
            },
        }
    }

    /// Asks a provider for the record of an API key, where one is due, under the
    /// identifier.
    pub fn auth_provider_dispatch_with(&mut self, api_key: &str, request_id: Uuid, now: u128) -> (r:
        Option<Dispatch>)
        requires
            old(self)@.in_time(now as nat),
        ensures
            (final(self)@, crate::error::inner(r)) == old(self)@.auth_dispatched(
                api_key@,
                request_id,
                now as nat,
            ),
    {
        let auth = match &mut self.auth {
            None => {
                return None;
            },
            Some(auth) => auth,
        };
        if !auth.take_scheduled_load(api_key) {
            return None;
        }
        let key = match Key::new(api_key) {
            Ok(key) => key,
            Err(_) => {
                auth.fail_provider_load(api_key, now);
                return None;
            },
        };
        let namespace = auth_namespace();
        match self.registry.provider_for(&namespace, &key) {
            None => {
                auth.fail_provider_load(api_key, now);
                None
            },
            Some(provider) => Some(
                query(provider.owner, provider.id, request_id, namespace, key, true),
            ),
        }
    }

    /// Asks a provider for the record of an API key, where one is due.
    pub fn auth_provider_dispatch(&mut self, api_key: &str, now: u128) -> (r: Option<Dispatch>)
        requires
            old(self)@.in_time(now as nat),
        ensures
            exists|request_id: Uuid|
                (final(self)@, crate::error::inner(r)) == #[trigger] old(self)@.auth_dispatched(
                    api_key@,
                    request_id,
                    now as nat,
                ),
    {
        let request_id: Uuid = crypto::fresh_uuid();
        self.auth_provider_dispatch_with(api_key, request_id, now)
    }

    /// Ends the load of a permission record that a provider answered. Where a
    /// session came of it, the result is the time after which it should be
    /// refreshed.
    pub fn complete_auth_provider_load(
        &mut self,
        api_key: &str,
        record: Option<AuthRecord>,
        now: u128,
    ) -> (r: Option<Duration>)
        requires
            old(self)@.in_time(now as nat),
        ensures
            match old(self)@.auth {
                None => r is None && final(self)@ == old(self)@,
                Some(auth) => crate::error::inner(r) == auth.refresh_delay(
                    api_key@,
                    security::record_view(record),
                    now as nat,
                ) && final(self)@ == old(self)@.with_auth(
                    auth.after_load(api_key@, security::record_view(record), now as nat),
                ),
            },
    {
        match &mut self.auth {
            None => None,
            Some(auth) => auth.complete_provider_load(api_key, record, now),
        }
    }

    /// Ends the load of a permission record that failed.
    pub fn fail_auth_provider_load(&mut self, api_key: &str, now: u128)
        requires
            old(self)@.in_time(now as nat),
        ensures
            final(self)@ == (match old(self)@.auth {
                None => old(self)@,
                Some(auth) => old(self)@.with_auth(auth.after_failure(api_key@, now as nat)),
            }),
    {
        match &mut self.auth {
            None => {},
            Some(auth) => auth.fail_provider_load(api_key, now),
        }
    }

    fn succeed(&self, info: AuthInfo, dispatch: Option<Dispatch>) -> (r: Step)
        requires
            self@.auth is Some,
        ensures
            r@ == self@.success(info@, crate::error::inner(dispatch)),
    {
        let timeout = match &self.auth {
            Some(auth) => auth.session_timeout(),
            None => Duration::from_secs(0),
        };
        let client_id = info.client_id.clone();
        Step::Finished(
            Ok(
                BrokerOutcome {
                    response: Response::AuthSuccess {
                        client_id,
                        session_ttl_seconds: timeout.as_secs(),
                    },
                    dispatch,
                    pending_mutation: None,
                    authenticated: Some(info),
                },
            ),
        )
    }

    fn authenticate(&mut self, api_key: String, request_id: Uuid, now: u128) -> (r: Step)
        requires
            old(self)@.in_time(now as nat),
        ensures
            (final(self)@, r@) == old(self)@.auth_start(api_key@, request_id, now as nat),
    {
        let lookup = match &mut self.auth {
            None => {
                return finish(
                    Response::AuthFailure {
                        message: "authentication is not configured".to_owned(),
                    },
                );
            },
            Some(auth) => auth.authenticate(api_key.as_str(), now),
        };
        match lookup {
            AuthLookup::Authenticated(info) => {
                let dispatch = self.auth_provider_dispatch_with(api_key.as_str(), request_id, now);
                self.succeed(info, dispatch)
            },
            AuthLookup::Pending => {
                let claimed = match &mut self.auth {
                    None => false,
                    Some(auth) => auth.take_store_load(api_key.as_str()),
                };
                if !claimed {
                    return waiting(None);
                }
                match Key::new(api_key.as_str()) {
                    Ok(key) => Step::ReadAuthRecord { key },
                    Err(error) => fail(error),
                }
            },
            AuthLookup::Rejected => finish(
                Response::AuthFailure { message: "invalid API key".to_owned() },
            ),
        }
    }

    /// Goes on with an authentication after the record of its key was read,
    /// under the identifier.
    pub fn auth_record_read_with(
        &mut self,
        key: &Key,
        result: Result<Option<Option<AuthRecord>>, Error>,
        request_id: Uuid,
        now: u128,
    ) -> (r: Step)
        requires
            old(self)@.in_time(now as nat),
        ensures
            (final(self)@, r@) == old(self)@.auth_record_read(
                key@,
                record_read(result),
                request_id,
                now as nat,
            ),
    {
        let api_key = key.as_str();
        let auth = match &mut self.auth {
            None => {
                return finish(
                    Response::AuthFailure {
                        message: "authentication is not configured".to_owned(),
                    },
                );
            },
            Some(auth) => auth,
        };
        let value = match result {
            Err(error) => {
                auth.fail_provider_load(api_key, now);
                return fail(error);
            },
            Ok(value) => value,
        };
        let record = match value {
            None => {
                let dispatch = self.auth_provider_dispatch_with(api_key, request_id, now);
                return waiting(dispatch);
            },
            Some(record) => record,
        };
        match auth.complete_store_load(api_key, record, now) {
            AuthLookup::Authenticated(info) => self.succeed(info, None),
            AuthLookup::Pending => {
                let dispatch = self.auth_provider_dispatch_with(api_key, request_id, now);
                waiting(dispatch)
            },
            AuthLookup::Rejected => finish(
                Response::AuthFailure { message: "invalid API key".to_owned() },
            ),
        }
    }

    /// Goes on with an authentication after the record of its key was read.
    pub fn auth_record_read(
        &mut self,
        key: &Key,
        result: Result<Option<Option<AuthRecord>>, Error>,
        now: u128,
    ) -> (r: Step)
        requires
            old(self)@.in_time(now as nat),
        ensures
            exists|request_id: Uuid|
                (final(self)@, r@) == #[trigger] old(self)@.auth_record_read(
                    key@,
                    record_read(result),
                    request_id,
                    now as nat,
                ),
    {
        let request_id: Uuid = crypto::fresh_uuid();
        self.auth_record_read_with(key, result, request_id, now)
    }

    /// Begins a command, under the identifier.
    pub fn execute_with(&mut self, command: Command, context: RequestContext, id: Uuid, now: u128) -> (r:
        Step)
        requires
            old(self)@.in_time(now as nat),
        ensures
            (final(self)@, r@) == old(self)@.executed(command@, context@, id, now as nat),
    {
        self.requests = self.requests.wrapping_add(1);
        assert(self@ == (BrokerState { requests: counted(old(self)@.requests), ..old(self)@ }));
        match command {
            Command::Auth { api_key, adapter_instance: _ } => self.authenticate(api_key, id, now),
            Command::Get { namespace, key } => self.get(namespace, key, context, now),
            Command::SetValue { namespace, key, value, ttl_seconds } => {
                let request = SetRequest {
                    namespace,
                    key,
                    value,
                    ttl: from_seconds(ttl_seconds),
                    source: context.adapter_instance,
                };
                self.set(request, &context, id, now)
            },
            Command::SetBatch { namespace, entries, ttl_seconds } => {
                if entries.len() == 0 {
                    return fail(protocol("SET batch cannot be empty"));
                }
                let prepared: Vec<SetEntry> = Vec::new();
                assert(crate::error::views(prepared@) =~= Seq::<(Seq<char>, JsonView)>::empty());
                let request = BatchRequest {
                    namespace,
                    entries,
                    prepared,
                    ttl: from_seconds(ttl_seconds),
                    context,
                };
                self.continue_batch(request, id, now)
            },
            Command::Delete { namespace, key_pattern } => self.delete(
                namespace,
                key_pattern,
                &context,
                id,
                now,
            ),
            Command::Move { source, destination } => self.move_namespace(
                source,
                destination,
                &context,
                id,
                now,
            ),
            Command::Provide { namespace_pattern, key_pattern, max_rate, timeout, miss_ttl } => {
                let options = ProvideOptions {
                    max_rate,
                    timeout_ms: match timeout {
                        Some(n) => n,
                        None => 0,
                    },
                    miss_ttl_seconds: match miss_ttl {
                        Some(n) => n,
                        None => 0,
                    },
                };
                self.provide(
                    namespace_pattern.as_str(),
                    key_pattern.as_str(),
                    options,
                    &context,
                    id,
                    now,
                )
            },
            Command::Store { namespace_pattern, key_pattern } => self.offer_store(
                namespace_pattern.as_str(),
                key_pattern.as_str(),
                &context,
                id,
                now,
            ),
            Command::Ping => finish(Response::Pong),
            Command::Stats => Step::CountValues,
        }
    }

    /// Begins a command.
    pub fn execute(&mut self, command: Command, context: RequestContext, now: u128) -> (r: Step)
        requires
            old(self)@.in_time(now as nat),
        ensures
            exists|id: Uuid|
                (final(self)@, r@) == #[trigger] old(self)@.executed(
                    command@,
                    context@,
                    id,
                    now as nat,
                ),
    {
        let id: Uuid = crypto::fresh_uuid();
        self.execute_with(command, context, id, now)
    }
}

/// What an invalidation removes from the markers of missing values.
pub open spec fn unmarks(invalidation: InvalidationView, route: RouteView) -> bool {
    match invalidation {
        InvalidationView::Exact { namespace, key } => route == (RouteView { namespace, key }),
        InvalidationView::Matching { namespace, pattern } => routes::is_affected(
            route,
            namespace,
            pattern,
        ),
        InvalidationView::Whole { namespace } => route.namespace == namespace,
    }
}

/// What any of the invalidations removes.
pub open spec fn any_unmarks(invalidations: Seq<InvalidationView>, route: RouteView) -> bool {
    exists|i: int| 0 <= i < invalidations.len() && unmarks(#[trigger] invalidations[i], route)
}

/// The pattern of the keys that a deletion concerns.
pub open spec fn deleted_keys(key_pattern: Option<Seq<char>>) -> Seq<char> {
    match key_pattern {
        Some(pattern) => pattern,
        None => seq!['*'],
    }
}

/// The operation on encrypted values that a command stands for.
pub open spec fn encrypted_operation(command: CommandView) -> Option<(Seq<char>, Operation)> {
    match command {
        CommandView::Get { namespace, key } => if marked(key) is Some {
            Some((namespace, Operation::ReadEncrypted))
        } else {
            None
        },
        CommandView::SetValue { namespace, key, .. } => if marked(key) is Some {
            Some((namespace, Operation::WriteEncrypted))
        } else {
            None
        },
        CommandView::SetBatch { namespace, entries, .. } => if exists|i: int|
            0 <= i < entries.len() && marked((#[trigger] entries[i]).0) is Some {
            Some((namespace, Operation::WriteEncrypted))
        } else {
            None
        },
        _ => None,
    }
}

/// The answer to a value that was read again.
pub open spec fn cached_answer(
    request: ValueView,
    result: Result<Option<StoredView>, ErrorView>,
    load: KeyLoadView,
) -> Result<Option<ResponseView>, ErrorView> {
    match result {
        Err(error) => Err(error),
        Ok(None) => Ok(None),
        Ok(Some(stored)) => match if request.encrypted {
            opened_value(request, stored, load)
        } else {
            Ok(stored.value)
        } {
            Err(error) => Err(error),
            Ok(value) => Ok(
                Some(
                    ResponseView::Value {
                        value,
                        ttl_seconds: store::optional_seconds(stored.remaining_ttl),
                    },
                ),
            ),
        },
    }
}

/// The plain value of a stored envelope.
pub open spec fn opened_value(request: ValueView, stored: StoredView, load: KeyLoadView) -> Result<
    JsonView,
    ErrorView,
> {
    match loaded_key(load, route::base_of(request.namespace)) {
        Err(error) => Err(error),
        Ok(key_hex) => security::decrypted(
            key_hex,
            request.namespace,
            request.key,
            stored.value,
        ),
    }
}

/// An envelope holds a value under the key that was read.
pub open spec fn seals(
    load: KeyLoadView,
    namespace: Seq<char>,
    key: Seq<char>,
    envelope: JsonView,
    value: JsonView,
) -> bool {
    loaded_key(load, route::base_of(namespace)) matches Ok(key_hex) && security::holds(
        key_hex,
        namespace,
        key,
        envelope,
        value,
    )
}

/// The envelope of a value that is to be set.
pub open spec fn sealed_value(
    namespace: Seq<char>,
    key: Seq<char>,
    value: JsonView,
    load: KeyLoadView,
    nonce: Seq<u8>,
) -> Result<JsonView, ErrorView> {
    match loaded_key(load, route::base_of(namespace)) {
        Err(error) => Err(error),
        Ok(key_hex) => security::encrypted(key_hex, namespace, key, value, nonce),
    }
}

/// The key that was read encrypts, and the value is not too long for it.
pub open spec fn sealable(load: KeyLoadView, namespace: Seq<char>, value: JsonView) -> bool {
    &&& loaded_key(load, route::base_of(namespace)) matches Ok(key_hex)
    &&& security::cipher_key(key_hex) is Ok
    &&& security::plain_bytes(value).len() / 64 < u32::MAX
}

/// A value that can be encrypted is, and its envelope holds it.
pub open spec fn sealed_well(
    namespace: Seq<char>,
    key: Seq<char>,
    value: JsonView,
    load: KeyLoadView,
    nonce: Seq<u8>,
) -> bool {
    &&& sealable(load, namespace, value) ==> sealed_value(namespace, key, value, load, nonce) is Ok
    &&& sealed_value(namespace, key, value, load, nonce) matches Ok(envelope) ==> seals(
        load,
        namespace,
        key,
        envelope,
        value,
    )
}

/// A readable value is given back from an envelope that holds it.
pub open spec fn opened_well(request: ValueView, stored: StoredView, load: KeyLoadView) -> bool {
    forall|value: JsonView|
        #![trigger json::readable(value)]
        json::readable(value) && seals(
            load,
            request.namespace,
            request.key,
            stored.value,
            value,
        ) ==> opened_value(request, stored, load) == Ok::<JsonView, ErrorView>(value)
}

/// Encryption keeps values: what is encrypted can be decrypted, and what is decrypted
/// is what was encrypted.
pub open spec fn keeps_values(purpose: PurposeView, load: KeyLoadView, nonce: Seq<u8>) -> bool {
    match purpose {
        PurposeView::Answer { request, stored } => opened_well(request, stored, load),
        PurposeView::Change(request) => sealed_well(
            request.namespace,
            request.key,
            request.value,
            load,
            nonce,
        ),
        PurposeView::Entry(request) => {
            let i = request.prepared.len() as int;
            i < request.entries.len() ==> sealed_well(
                request.namespace,
                normalized(request.entries[i].0).0,
                request.entries[i].1,
                load,
                nonce,
            )
        },
    }
}

impl BrokerState {
    /// What follows on reading an encryption key.
    pub open spec fn key_read(
        self,
        purpose: PurposeView,
        load: KeyLoadView,
        nonce: Seq<u8>,
        request_id: Uuid,
        now: nat,
    ) -> StepView {
        match purpose {
            PurposeView::Answer { request, stored } => match opened_value(request, stored, load) {
                Err(error) => failing(error),
                Ok(value) => value_answer(value, stored.remaining_ttl),
            },
            PurposeView::Change(request) => match sealed_value(
                request.namespace,
                request.key,
                request.value,
                load,
                nonce,
            ) {
                Err(error) => failing(error),
                Ok(value) => self.set_next(SetView { value, ..request }, false, request_id),
            },
            PurposeView::Entry(request) => {
                let i = request.prepared.len() as int;
                if i >= request.entries.len() {
                    self.batch_next(request, request_id, now)
                } else {
                    let key = normalized(request.entries[i].0).0;
                    match sealed_value(
                        request.namespace,
                        key,
                        request.entries[i].1,
                        load,
                        nonce,
                    ) {
                        Err(error) => failing(error),
                        Ok(value) => self.batch_next(
                            BatchView { prepared: request.prepared.push((key, value)), ..request },
                            request_id,
                            now,
                        ),
                    }
                }
            },
        }
    }

    /// The state after a change of one value.
    pub open spec fn exactly_mutated(self, route: RouteView) -> BrokerState {
        BrokerState {
            routes: if self.routes.dom().contains(route) {
                self.routes.insert(route, routes::mutated(self.routes[route]))
            } else {
                self.routes
            },
            mutation_clock: routes::next_generation(self.mutation_clock),
            ..self
        }
    }

    /// The state after a change of the values of a namespace that a pattern
    /// stands for.
    pub open spec fn broadly_mutated(self, namespace: Seq<char>, pattern: Seq<char>) -> BrokerState {
        BrokerState {
            routes: routes::broadly_mutated(self.routes, namespace, pattern),
            mutation_clock: routes::next_generation(self.mutation_clock),
            ..self
        }
    }

    /// The state after a change of several values, in order.
    pub open spec fn all_mutated(self, namespace: Seq<char>, keys: Seq<Seq<char>>) -> BrokerState
        decreases keys.len(),
    {
        if keys.len() == 0 {
            self
        } else {
            self.all_mutated(namespace, keys.drop_last()).exactly_mutated(
                RouteView { namespace, key: keys.last() },
            )
        }
    }

    /// The state after a change was made to the store. `record` is the permission
    /// record that the changed value holds.
    pub open spec fn committed(
        self,
        mutation: MutationView,
        record: Option<AuthRecordView>,
        now: nat,
    ) -> BrokerState {
        match mutation {
            MutationView::SetValue { namespace, key, .. } => if namespace == AUTH_NAMESPACE@
                && self.auth is Some {
                self.with_auth(self.auth->0.after_load(key, record, now)).exactly_mutated(
                    RouteView { namespace, key },
                )
            } else {
                self.exactly_mutated(RouteView { namespace, key })
            },
            MutationView::SetBatch { namespace, entries, .. } => self.all_mutated(
                namespace,
                entry_keys(entries),
            ),
            MutationView::Delete { namespace, key_pattern } => self.broadly_mutated(
                namespace,
                deleted_keys(key_pattern),
            ),
            MutationView::Move { source, destination } => self.broadly_mutated(
                source,
                seq!['*'],
            ).broadly_mutated(destination, seq!['*']),
        }
    }

    /// Whether a change concerns the marker of a route. One that sets values
    /// concerns the active routes only: a value that is there is found before its
    /// marker.
    pub open spec fn concerned(self, mutation: MutationView, route: RouteView) -> bool {
        match mutation {
            MutationView::SetValue { namespace, key, .. } => self.routes.dom().contains(route)
                && route == (RouteView { namespace, key }),
            MutationView::SetBatch { namespace, entries, .. } => self.routes.dom().contains(route)
                && exists|i: int|
                0 <= i < entries.len() && route == (RouteView {
                    namespace,
                    key: (#[trigger] entries[i]).0,
                }),
            MutationView::Delete { namespace, key_pattern } => routes::is_affected(
                route,
                namespace,
                deleted_keys(key_pattern),
            ),
            MutationView::Move { source, destination } => route.namespace == source
                || route.namespace == destination,
        }
    }

    /// A refresh of a route still stands for the value of the route.
    pub open spec fn is_current(self, route: RouteView, generation: u64, refresh_id: Uuid) -> bool {
        &&& self.routes.dom().contains(route)
        &&& self.routes[route] == (RouteState { generation, provider_refresh_id: refresh_id })
    }

    /// The state after a refresh of a route ended.
    pub open spec fn released(self, route: RouteView, refresh_id: Uuid) -> BrokerState {
        if self.routes.dom().contains(route) && self.routes[route].provider_refresh_id
            == refresh_id {
            BrokerState { routes: self.routes.remove(route), ..self }
        } else {
            self
        }
    }

    /// What follows on a provider that has no value: whether the store is to be
    /// asked once more.
    pub open spec fn miss_reported(
        self,
        route: RouteView,
        miss_ttl_seconds: u64,
        generation: u64,
        refresh_id: Uuid,
    ) -> (BrokerState, bool) {
        if miss_ttl_seconds == 0 || !self.routes.dom().contains(route) {
            (self, false)
        } else if !self.is_current(route, generation, refresh_id) {
            (self.released(route, refresh_id), false)
        } else {
            (self, true)
        }
    }

    /// What follows on asking the store once more: for how long the route is
    /// marked as a miss.
    pub open spec fn miss_confirmed(
        self,
        route: RouteView,
        miss_ttl_seconds: u64,
        generation: u64,
        refresh_id: Uuid,
        is_absent: bool,
    ) -> (BrokerState, Option<nat>) {
        if miss_ttl_seconds == 0 {
            (self, None)
        } else {
            (
                self.released(route, refresh_id),
                if is_absent && self.is_current(route, generation, refresh_id) {
                    Some((miss_ttl_seconds * 1_000_000_000) as nat)
                } else {
                    None
                },
            )
        }
    }

    /// Charges a request to a provider that takes `limit` of them a second: the
    /// milliseconds after which it may be asked, where it may not be asked now.
    pub open spec fn charged(self, provider_id: Uuid, limit: u32, now: u128) -> (
        BrokerState,
        Option<u64>,
    ) {
        let before = if self.limits.dom().contains(provider_id) {
            self.limits[provider_id]
        } else {
            ProviderRateLimit { window_started: now, requests: 0 }
        };
        let elapsed = if now >= before.window_started {
            now - before.window_started
        } else {
            0
        };
        let window = if elapsed >= 1_000_000_000 {
            ProviderRateLimit { window_started: now, requests: 0 }
        } else {
            before
        };
        if window.requests < limit {
            let after = ProviderRateLimit { requests: (window.requests + 1) as u32, ..window };
            (BrokerState { limits: self.limits.insert(provider_id, after), ..self }, None)
        } else {
            let wait = if elapsed >= 1_000_000_000 {
                0
            } else {
                (1_000_000_000 - elapsed) / 1_000_000
            };
            (
                BrokerState { limits: self.limits.insert(provider_id, window), ..self },
                Some(
                    if wait < 1 {
                        1
                    } else {
                        wait as u64
                    },
                ),
            )
        }
    }

    /// The request that asks a provider for an encryption key that is not loaded.
    pub open spec fn key_dispatched(
        self,
        namespace: Seq<char>,
        load: KeyLoadView,
        request_id: Uuid,
    ) -> (BrokerState, Result<Option<DispatchView>, ErrorView>) {
        let scope = route::base_of(namespace);
        match load {
            KeyLoadView::Failed(error) => (self, Err(error)),
            KeyLoadView::Malformed => (
                self,
                Err(ErrorView::Encryption("security key record is malformed"@)),
            ),
            KeyLoadView::Found(_) => (self, Ok(None)),
            KeyLoadView::Missing => {
                let next = BrokerState {
                    registry: self.registry.after_provider_for(SECURITY_NAMESPACE@, scope),
                    ..self
                };
                match self.registry.provider_for(SECURITY_NAMESPACE@, scope) {
                    None => (
                        next,
                        Err(
                            ErrorView::Encryption(
                                "no /__secrets provider is registered for scope '"@ + scope + "'"@,
                            ),
                        ),
                    ),
                    Some(provider) => (
                        next,
                        Ok(
                            Some(
                                record_dispatch(
                                    provider.owner,
                                    provider.id,
                                    request_id,
                                    SECURITY_NAMESPACE@,
                                    scope,
                                    false,
                                ),
                            ),
                        ),
                    ),
                }
            },
        }
    }

    /// Whether a request may have encryption keys loaded for a command.
    pub open spec fn may_load_keys(
        self,
        command: CommandView,
        context: ContextView,
        now: nat,
    ) -> Result<(), ErrorView> {
        match encrypted_operation(command) {
            None => Ok(()),
            Some((namespace, operation)) => if is_record_namespace(namespace) {
                bootstrap_required(context)
            } else {
                self.authorized(context, namespace, operation, now)
            },
        }
    }
}

fn open_value(request: &ValueRequest, stored: &StoredValue, load: KeyLoad) -> (r: Result<
    Value,
    Error,
>)
    ensures
        crate::error::outcome(r) == opened_value(request@, stored@, load@),
        opened_well(request@, stored@, load@),
{
    let scope = security_scope(&request.namespace);
    match parse_security_key(load, scope.as_str()) {
        Err(error) => Err(error),
        Ok(key_hex) => ValueCipher::decrypt(
            key_hex.as_str(),
            &request.namespace,
            &request.key,
            &stored.value,
        ),
    }
}

fn seal_value(
    namespace: &NamespaceContext,
    key: &Key,
    value: &Value,
    load: KeyLoad,
    nonce: &Vec<u8>,
) -> (r: Result<Value, Error>)
    requires
        nonce.len() == 24,
    ensures
        crate::error::outcome(r) == sealed_value(namespace@, key@, value@, load@, nonce@),
        sealed_well(namespace@, key@, value@, load@, nonce@),
{
    let scope = security_scope(namespace);
    match parse_security_key(load, scope.as_str()) {
        Err(error) => Err(error),
        Ok(key_hex) => ValueCipher::encrypt_with(key_hex.as_str(), namespace, key, value, nonce),
    }
}

/// Answers with a value that was read again; `load` is the encryption key of its
/// namespace, where one is needed.
pub fn cached_value_response(
    request: &ValueRequest,
    result: Result<Option<StoredValue>, Error>,
    load: KeyLoad,
) -> (r: Result<Option<Response>, Error>)
    ensures
        match r {
            Ok(response) => cached_answer(request@, stored_read(result), load@) == Ok::<
                Option<ResponseView>,
                ErrorView,
            >(crate::error::inner(response)),
            Err(error) => cached_answer(request@, stored_read(result), load@) == Err::<
                Option<ResponseView>,
                ErrorView,
            >(error@),
        },
        request@.encrypted ==> (stored_read(result) matches Ok(Some(stored)) ==> opened_well(
            request@,
            stored,
            load@,
        )),
{
    let stored = match result {
        Err(error) => {
            return Err(error);
        },
        Ok(None) => {
            return Ok(None);
        },
        Ok(Some(stored)) => stored,
    };
    let ttl_seconds = store::ttl_seconds(&stored.remaining_ttl);
    let value = if request.encrypted {
        match open_value(request, &stored, load) {
            Err(error) => {
                return Err(error);
            },
            Ok(value) => value,
        }
    } else {
        stored.value
    };
    Ok(Some(Response::Value { value, ttl_seconds }))
}

/// What reading a value gave.
pub open spec fn stored_read(result: Result<Option<StoredValue>, Error>) -> Result<
    Option<StoredView>,
    ErrorView,
> {
    match result {
        Err(error) => Err(error@),
        Ok(value) => Ok(crate::error::inner(value)),
    }
}

impl Broker {
    /// Goes on after an encryption key was read, with the nonce and under the
    /// identifier.
    pub fn security_key_read_with(
        &self,
        purpose: Purpose,
        load: KeyLoad,
        nonce: &Vec<u8>,
        request_id: Uuid,
        now: u128,
    ) -> (r: Step)
        requires
            nonce.len() == 24,
        ensures
            r@ == self@.key_read(purpose@, load@, nonce@, request_id, now as nat),
            keeps_values(purpose@, load@, nonce@),
    {
        match purpose {
            Purpose::Answer { request, stored } => match open_value(&request, &stored, load) {
                Err(error) => fail(error),
                Ok(value) => finish(
                    Response::Value {
                        value,
                        ttl_seconds: store::ttl_seconds(&stored.remaining_ttl),
                    },
                ),
            },
            Purpose::Change(request) => match seal_value(
                &request.namespace,
                &request.key,
                &request.value,
                load,
                nonce,
            ) {
                Err(error) => fail(error),
                Ok(value) => {
                    let mut request = request;
                    request.value = value;
                    self.continue_set(request, false, request_id)
                },
            },
            Purpose::Entry(request) => {
                let i: usize = request.prepared.len();
                if i >= request.entries.len() {
                    return self.continue_batch(request, request_id, now);
                }
                assert(request@.entries[i as int] == request.entries@[i as int]@);
                let (key, _encrypted) = normalize_marked_key(&request.entries[i].key);
                match seal_value(
                    &request.namespace,
                    &key,
                    &request.entries[i].value,
                    load,
                    nonce,
                ) {
                    Err(error) => fail(error),
                    Ok(value) => {
                        let ghost before = request@;
                        let mut request = request;
                        let entry = SetEntry { key, value };
                        request.prepared.push(entry);
                        assert(request@.prepared =~= before.prepared.push(entry@));
                        self.continue_batch(request, request_id, now)
                    },
                }
            },
        }
    }

    /// Goes on after an encryption key was read.
    pub fn security_key_read(&self, purpose: Purpose, load: KeyLoad, now: u128) -> (r: Step)
        ensures
            exists|nonce: Seq<u8>, request_id: Uuid|
                nonce.len() == 24 && r@ == #[trigger] self@.key_read(
                    purpose@,
                    load@,
                    nonce,
                    request_id,
                    now as nat,
                ) && keeps_values(purpose@, load@, nonce),
    {
        let nonce = crypto::fresh_nonce();
        let request_id: Uuid = crypto::fresh_uuid();
        self.security_key_read_with(purpose, load, &nonce, request_id, now)
    }

    /// Applies a value that a provider returned, under the identifier. What comes
    /// of it goes through a storage adapter, if there is one, before the change is
    /// made.
    pub fn accept_provider_value_with(
        &self,
        request: SetRequest,
        encrypted: bool,
        request_id: Uuid,
    ) -> (r: Step)
        ensures
            r@ == self@.set_next(request@, encrypted, request_id),
    {
        self.continue_set(request, encrypted, request_id)
    }

    /// Applies a value that a provider returned. What comes of it goes through a
    /// storage adapter, if there is one, before the change is made.
    pub fn accept_provider_value(&self, request: SetRequest, encrypted: bool) -> (r: Step)
        ensures
            exists|request_id: Uuid|
                r@ == #[trigger] self@.set_next(request@, encrypted, request_id),
    {
        let request_id: Uuid = crypto::fresh_uuid();
        self.accept_provider_value_with(request, encrypted, request_id)
    }

    /// How many changes were made.
    pub fn mutation_generation(&self) -> (r: u64)
        ensures
            r == self@.mutation_clock,
    {
        self.mutation_clock
    }

    /// How many routes are being refreshed.
    pub fn active_route_count(&self) -> (r: usize)
        ensures
            r == self@.routes.dom().len(),
    {
        self.routes.len()
    }

    /// The counters, with the number of values of the store.
    pub fn stats(&self, values: u64) -> (r: Stats)
        ensures
            r == (Stats {
                requests: self@.requests,
                hits: self@.hits,
                misses: self@.misses,
                values,
            }),
    {
        Stats { requests: self.requests, hits: self.hits, misses: self.misses, values }
    }

    /// Answers with the counters after the values of the store were counted.
    pub fn values_counted(&self, result: Result<u64, Error>) -> (r: Step)
        ensures
            r@ == self@.values_counted(crate::error::outcome(result)),
    {
        match result {
            Err(error) => fail(error),
            Ok(values) => finish(Response::Stats(self.stats(values))),
        }
    }

    /// Ends the refresh of a route.
    pub fn release_provider_refresh(
        &mut self,
        namespace: &NamespaceContext,
        key: &Key,
        provider_refresh_id: Uuid,
    )
        ensures
            final(self)@ == old(self)@.released(
                RouteView { namespace: namespace@, key: key@ },
                provider_refresh_id,
            ),
    {
        self.routes.release(namespace, key, provider_refresh_id);
    }

    fn is_current(
        &self,
        namespace: &NamespaceContext,
        key: &Key,
        generation: u64,
        refresh_id: Uuid,
    ) -> (r: bool)
        ensures
            r == self@.is_current(
                RouteView { namespace: namespace@, key: key@ },
                generation,
                refresh_id,
            ),
    {
        match self.routes.get(namespace, key) {
            Some(state) => state.generation == generation && state.provider_refresh_id
                == refresh_id,
            None => false,
        }
    }

    /// Begins to mark a route as a miss after a provider had no value for it. The
    /// result says whether the store is to be asked once more.
    pub fn report_provider_miss(
        &mut self,
        namespace: &NamespaceContext,
        key: &Key,
        miss_ttl_seconds: u64,
        refresh_generation: u64,
        provider_refresh_id: Uuid,
    ) -> (r: bool)
        ensures
            (final(self)@, r) == old(self)@.miss_reported(
                RouteView { namespace: namespace@, key: key@ },
                miss_ttl_seconds,
                refresh_generation,
                provider_refresh_id,
            ),
    {
        if miss_ttl_seconds == 0 {
            return false;
        }
        if self.routes.get(namespace, key).is_none() {
            return false;
        }
        if !self.is_current(namespace, key, refresh_generation, provider_refresh_id) {
            self.routes.release(namespace, key, provider_refresh_id);
            return false;
        }
        true
    }

    /// Ends a refresh after the store was asked once more. The result is for how
    /// long the route is marked as a miss: the mark has to be set before the next
    /// change is recorded.
    pub fn confirm_provider_miss(
        &mut self,
        namespace: &NamespaceContext,
        key: &Key,
        miss_ttl_seconds: u64,
        refresh_generation: u64,
        provider_refresh_id: Uuid,
        current_value: &Result<Option<StoredValue>, Error>,
    ) -> (r: Option<Duration>)
        ensures
            (final(self)@, crate::error::inner(r)) == old(self)@.miss_confirmed(
                RouteView { namespace: namespace@, key: key@ },
                miss_ttl_seconds,
                refresh_generation,
                provider_refresh_id,
                *current_value == Ok::<Option<StoredValue>, Error>(None),
            ),
    {
        if miss_ttl_seconds == 0 {
            return None;
        }
        let is_absent = match current_value {
            Ok(None) => true,
            _ => false,
        };
        let is_current = self.is_current(namespace, key, refresh_generation, provider_refresh_id);
        self.routes.release(namespace, key, provider_refresh_id);
        if is_absent && is_current {
            Some(Duration::from_secs(miss_ttl_seconds))
        } else {
            None
        }
    }

    /// Charges a provider rate limit for a refresh that has been admitted. Those
    /// that join a refresh do not call this.
    pub fn provider_retry_after(
        &mut self,
        provider_id: Option<Uuid>,
        max_rate: Option<u32>,
        now: u128,
    ) -> (r: Option<u64>)
        ensures
            (final(self)@, r) == (if provider_id is Some && max_rate is Some {
                old(self)@.charged(provider_id->0, max_rate->0, now)
            } else {
                (old(self)@, None)
            }),
    {
        let (provider_id, limit) = match (provider_id, max_rate) {
            (Some(provider_id), Some(limit)) => (provider_id, limit),
            _ => {
                return None;
            },
        };
        let before = match self.limits.get(&provider_id) {
            Some(limit) => *limit,
            None => ProviderRateLimit { window_started: now, requests: 0 },
        };
        let elapsed: u128 = now.saturating_sub(before.window_started);
        let window = if elapsed >= 1_000_000_000 {
            ProviderRateLimit { window_started: now, requests: 0 }
        } else {
            before
        };
        if window.requests < limit {
            let after = ProviderRateLimit {
                window_started: window.window_started,
                requests: window.requests + 1,
            };
            self.limits.insert(provider_id, after);
            None
        } else {
            self.limits.insert(provider_id, window);
            let wait: u128 = if elapsed >= 1_000_000_000 {
                0
            } else {
                (1_000_000_000 - elapsed) / 1_000_000
            };
            Some(
                if wait < 1 {
                    1
                } else {
                    wait as u64
                },
            )
        }
    }

    /// Asks a provider for the encryption key of a namespace, where it is not
    /// loaded, under the identifier.
    pub fn security_key_provider_dispatch_with(
        &mut self,
        namespace: &NamespaceContext,
        load: KeyLoad,
        request_id: Uuid,
    ) -> (r: Result<Option<Dispatch>, Error>)
        ensures
            (final(self)@, optional_dispatch(r)) == old(self)@.key_dispatched(
                namespace@,
                load@,
                request_id,
            ),
    {
        match load {
            KeyLoad::Failed(error) => Err(error),
            KeyLoad::Malformed => Err(
                Error::Encryption("security key record is malformed".to_owned()),
            ),
            KeyLoad::Found(_) => Ok(None),
            KeyLoad::Missing => {
                let (security_namespace, scope) = match security_route(namespace) {
                    Ok(route) => route,
                    Err(error) => {
                        return Err(error);
                    },
                };
                match self.registry.provider_for(&security_namespace, &scope) {
                    None => Err(
                        Error::Encryption(
                            text::joined3(
                                "no /__secrets provider is registered for scope '",
                                scope.as_str(),
                                "'",
                            ),
                        ),
                    ),
                    Some(provider) => Ok(
                        Some(
                            query(
                                provider.owner,
                                provider.id,
                                request_id,
                                security_namespace,
                                scope,
                                false,
                            ),
                        ),
                    ),
                }
            },
        }
    }

    /// Asks a provider for the encryption key of a namespace, where it is not
    /// loaded. The broker never makes up a key: what was encrypted before could
    /// not be read with it.
    pub fn security_key_provider_dispatch(&mut self, namespace: &NamespaceContext, load: KeyLoad) -> (r:
        Result<Option<Dispatch>, Error>)
        ensures
            exists|request_id: Uuid|
                (final(self)@, optional_dispatch(r)) == #[trigger] old(self)@.key_dispatched(
                    namespace@,
                    load@,
                    request_id,
                ),
    {
        let request_id: Uuid = crypto::fresh_uuid();
        self.security_key_provider_dispatch_with(namespace, load, request_id)
    }

    /// Whether a request may have the encryption keys that a command needs
    /// loaded. The command is authorized again when it is executed; this keeps
    /// those who may not run it from having keys loaded.
    pub fn authorize_encrypted_command(
        &self,
        command: &Command,
        context: &RequestContext,
        now: u128,
    ) -> (r: Result<(), Error>)
        ensures
            crate::error::outcome(r) == self@.may_load_keys(command@, context@, now as nat),
    {
        let (namespace, operation) = match command {
            Command::Get { namespace, key } => {
                if marked_key(key.as_str()).is_none() {
                    return Ok(());
                }
                (namespace, Operation::ReadEncrypted)
            },
            Command::SetValue { namespace, key, .. } => {
                if marked_key(key.as_str()).is_none() {
                    return Ok(());
                }
                (namespace, Operation::WriteEncrypted)
            },
            Command::SetBatch { namespace, entries, .. } => {
                if !any_marked(entries) {
                    return Ok(());
                }
                (namespace, Operation::WriteEncrypted)
            },
            _ => {
                return Ok(());
            },
        };
        if in_record_namespace(namespace.as_str()) {
            require_bootstrap(context)
        } else {
            self.authorize(context, namespace, operation, now)
        }
    }
}

fn any_marked(entries: &Vec<SetEntry>) -> (r: bool)
    ensures
        r == exists|i: int|
            0 <= i < crate::error::views(entries@).len() && marked(
                (#[trigger] crate::error::views(entries@)[i]).0,
            ) is Some,
{
    let ghost all = crate::error::views(entries@);
    let mut i: usize = 0;
    while i < entries.len()
        invariant
            i <= entries.len(),
            all == crate::error::views(entries@),
            forall|k: int| 0 <= k < i ==> marked((#[trigger] all[k]).0) is None,
        decreases entries.len() - i,
    {
        assert(all[i as int] == entries@[i as int]@);
        if marked_key(entries[i].key.as_str()).is_some() {
            return true;
        }
        i += 1;
    }
    false
}

/// The views of an optional request, or of an error.
pub open spec fn optional_dispatch(result: Result<Option<Dispatch>, Error>) -> Result<
    Option<DispatchView>,
    ErrorView,
> {
    match result {
        Err(error) => Err(error@),
        Ok(dispatch) => Ok(crate::error::inner(dispatch)),
    }
}

proof fn lemma_star(route: RouteView, namespace: Seq<char>)
    ensures
        routes::is_affected(route, namespace, seq!['*']) <==> route.namespace == namespace,
{
    reveal_strlit("*");
    reveal_strlit("");
    assert(seq!['*'].drop_last() =~= Seq::<char>::empty());
    assert(route::key_matches(seq!['*'], route.key)) by {
        assert(route.key.take(0) =~= Seq::<char>::empty());
    }
}

proof fn lemma_mutated_domain(state: BrokerState, namespace: Seq<char>, keys: Seq<Seq<char>>)
    ensures
        state.all_mutated(namespace, keys).routes.dom() =~= state.routes.dom(),
    decreases keys.len(),
{
    if keys.len() > 0 {
        lemma_mutated_domain(state, namespace, keys.drop_last());
    }
}

/// The removals of the markers of keys, one by one.
pub open spec fn exact_removals(namespace: Seq<char>, keys: Seq<Seq<char>>) -> Seq<
    InvalidationView,
> {
    Seq::new(keys.len(), |i: int| InvalidationView::Exact { namespace, key: keys[i] })
}

proof fn lemma_exact_removals(namespace: Seq<char>, keys: Seq<Seq<char>>, route: RouteView)
    ensures
        any_unmarks(exact_removals(namespace, keys), route) <==> route.namespace == namespace
            && keys.contains(route.key),
{
    let all = exact_removals(namespace, keys);
    if any_unmarks(all, route) {
        let k = choose|k: int| 0 <= k < all.len() && unmarks(#[trigger] all[k], route);
        assert(keys[k] == route.key);
    }
    if route.namespace == namespace && keys.contains(route.key) {
        let k = choose|k: int| 0 <= k < keys.len() && keys[k] == route.key;
        assert(unmarks(all[k], route));
    }
}

fn exact_invalidations(namespace: &NamespaceContext, keys: &Vec<Key>) -> (r: Vec<Invalidation>)
    ensures
        crate::error::views(r@) == exact_removals(namespace@, crate::error::views(keys@)),
{
    let mut out: Vec<Invalidation> = Vec::new();
    let mut i: usize = 0;
    while i < keys.len()
        invariant
            i <= keys.len(),
            out.len() == i,
            forall|k: int|
                0 <= k < i ==> (#[trigger] out@[k])@ == (InvalidationView::Exact {
                    namespace: namespace@,
                    key: keys@[k]@,
                }),
        decreases keys.len() - i,
    {
        out.push(Invalidation::Exact { namespace: namespace.clone(), key: keys[i].clone() });
        i += 1;
    }
    assert(crate::error::views(out@) =~= exact_removals(
        namespace@,
        crate::error::views(keys@),
    ));
    out
}

impl Broker {
    fn record_exact_mutation(
        &mut self,
        namespace: &NamespaceContext,
        key: &Key,
        out: &mut Vec<Invalidation>,
    )
        ensures
            final(self)@ == old(self)@.exactly_mutated(
                RouteView { namespace: namespace@, key: key@ },
            ),
            forall|route: RouteView| #[trigger]
                any_unmarks(crate::error::views(final(out)@), route) <==> any_unmarks(
                    crate::error::views(old(out)@),
                    route,
                ) || (old(self)@.routes.dom().contains(route) && route == (RouteView {
                    namespace: namespace@,
                    key: key@,
                })),
    {
        let ghost before = crate::error::views(out@);
        let ghost mut last = before;
        if self.routes.bump(namespace, key) {
            let invalidation = Invalidation::Exact {
                namespace: namespace.clone(),
                key: key.clone(),
            };
            out.push(invalidation);
            proof {
                last = before.push(invalidation@);
                assert(crate::error::views(out@) =~= last);
                assert forall|route: RouteView| #[trigger]
                    any_unmarks(last, route) <==> any_unmarks(before, route) || unmarks(
                        invalidation@,
                        route,
                    ) by {
                    lemma_one_more(before, invalidation@, route);
                }
            }
        }
        self.mutation_clock = self.mutation_clock.wrapping_add(1);
    }

    fn record_broad_mutation(
        &mut self,
        namespace: &NamespaceContext,
        pattern: &Option<KeyPattern>,
    ) -> (r: Vec<Invalidation>)
        ensures
            final(self)@ == old(self)@.broadly_mutated(
                namespace@,
                deleted_keys(crate::error::inner(*pattern)),
            ),
            forall|route: RouteView| #[trigger]
                any_unmarks(crate::error::views(r@), route) <==> routes::is_affected(
                    route,
                    namespace@,
                    deleted_keys(crate::error::inner(*pattern)),
                ),
    {
        let any = any_key();
        let keys = match pattern {
            Some(pattern) => self.routes.bump_matching(namespace, pattern.as_str()),
            None => self.routes.bump_matching(namespace, any.as_str()),
        };
        let mut out = exact_invalidations(namespace, &keys);
        let ghost before = crate::error::views(out@);
        let last = match pattern {
            Some(pattern) => Invalidation::Matching {
                namespace: namespace.clone(),
                pattern: pattern.clone(),
            },
            None => Invalidation::Whole { namespace: namespace.clone() },
        };
        let ghost added = last@;
        out.push(last);
        self.mutation_clock = self.mutation_clock.wrapping_add(1);
        proof {
            let all = before.push(added);
            assert(crate::error::views(out@) =~= all);
            assert forall|route: RouteView| #[trigger]
                any_unmarks(all, route) <==> routes::is_affected(
                    route,
                    namespace@,
                    deleted_keys(crate::error::inner(*pattern)),
                ) by {
                lemma_one_more(before, added, route);
                lemma_exact_removals(namespace@, crate::error::views(keys@), route);
                lemma_star(route, namespace@);
            }
        }
        out
    }

    /// Records a change that was made to the store, and says which markers of
    /// missing values it removes. `record` is the permission record that a value
    /// set under `/__auth` holds, if it holds one.
    pub fn record_commit(
        &mut self,
        mutation: &PendingMutation,
        record: Option<AuthRecord>,
        now: u128,
    ) -> (r: Vec<Invalidation>)
        requires
            old(self)@.in_time(now as nat),
        ensures
            final(self)@ == old(self)@.committed(
                mutation@,
                security::record_view(record),
                now as nat,
            ),
            forall|route: RouteView| #[trigger]
                any_unmarks(crate::error::views(r@), route) <==> old(self)@.concerned(
                    mutation@,
                    route,
                ),
    {
        match mutation {
            PendingMutation::SetValue { namespace, key, .. } => {
                if text::same(namespace.as_str(), AUTH_NAMESPACE) {
                    if let Some(auth) = &mut self.auth {
                        auth.replace_auth_record(key.as_str(), record, now);
                    }
                }
                let mut out: Vec<Invalidation> = Vec::new();
                self.record_exact_mutation(namespace, key, &mut out);
                out
            },
            PendingMutation::SetBatch { namespace, entries, .. } => {
                let ghost start = self@;
                let ghost all = crate::error::views(entries@);
                let ghost keys = entry_keys(all);
                let mut out: Vec<Invalidation> = Vec::new();
                let mut i: usize = 0;
                assert(keys.take(0) =~= Seq::<Seq<char>>::empty());
                while i < entries.len()
                    invariant
                        i <= entries.len(),
                        all == crate::error::views(entries@),
                        keys == entry_keys(all),
                        self@ == start.all_mutated(namespace@, keys.take(i as int)),
                        forall|route: RouteView| #[trigger]
                            any_unmarks(crate::error::views(out@), route)
                                <==> start.routes.dom().contains(route) && exists|k: int|
                                0 <= k < i && route == (RouteView {
                                    namespace: namespace@,
                                    key: (#[trigger] all[k]).0,
                                }),
                    decreases entries.len() - i,
                {
                    proof {
                        lemma_mutated_domain(start, namespace@, keys.take(i as int));
                        assert(all[i as int] == entries@[i as int]@);
                        assert(keys.take(i + 1).drop_last() =~= keys.take(i as int));
                        assert(keys.take(i + 1).last() == all[i as int].0);
                    }
                    let ghost before = crate::error::views(out@);
                    self.record_exact_mutation(namespace, &entries[i].key, &mut out);
                    assert forall|route: RouteView| #[trigger]
                        any_unmarks(crate::error::views(out@), route)
                            <==> start.routes.dom().contains(route) && exists|k: int|
                            0 <= k < i + 1 && route == (RouteView {
                                namespace: namespace@,
                                key: (#[trigger] all[k]).0,
                            }) by {
                        let now_set = RouteView { namespace: namespace@, key: all[i as int].0 };
                        if any_unmarks(before, route) {
                            let k = choose|k: int|
                                0 <= k < i && route == (RouteView {
                                    namespace: namespace@,
                                    key: (#[trigger] all[k]).0,
                                });
                            assert(0 <= k < i + 1);
                        }
                    }
                    i += 1;
                }
                assert(keys.take(entries.len() as int) =~= keys);
                out
            },
            PendingMutation::Delete { namespace, key_pattern } => self.record_broad_mutation(
                namespace,
                key_pattern,
            ),
            PendingMutation::Move { source, destination } => {
                let mut out = self.record_broad_mutation(source, &None);
                let ghost first = crate::error::views(out@);
                let mut rest = self.record_broad_mutation(destination, &None);
                let ghost second = crate::error::views(rest@);
                out.append(&mut rest);
                proof {
                    assert(crate::error::views(out@) =~= first + second);
                    assert forall|route: RouteView| #[trigger]
                        any_unmarks(first + second, route) <==> route.namespace == source@
                            || route.namespace == destination@ by {
                        lemma_together(first, second, route);
                        lemma_star(route, source@);
                        lemma_star(route, destination@);
                    }
                }
                out
            },
        }
    }
}

proof fn lemma_together(
    first: Seq<InvalidationView>,
    second: Seq<InvalidationView>,
    route: RouteView,
)
    ensures
        any_unmarks(first + second, route) <==> any_unmarks(first, route) || any_unmarks(
            second,
            route,
        ),
{
    let all = first + second;
    if any_unmarks(all, route) {
        let i = choose|i: int| 0 <= i < all.len() && unmarks(#[trigger] all[i], route);
        if i < first.len() {
            assert(first[i] == all[i]);
        } else {
            assert(second[i - first.len()] == all[i]);
        }
    }
    if any_unmarks(first, route) {
        let i = choose|i: int| 0 <= i < first.len() && unmarks(#[trigger] first[i], route);
        assert(all[i] == first[i]);
    }
    if any_unmarks(second, route) {
        let i = choose|i: int| 0 <= i < second.len() && unmarks(#[trigger] second[i], route);
        assert(all[first.len() + i] == second[i]);
    }
}

proof fn lemma_one_more(before: Seq<InvalidationView>, added: InvalidationView, route: RouteView)
    ensures
        any_unmarks(before.push(added), route) <==> any_unmarks(before, route) || unmarks(
            added,
            route,
        ),
{
    let one = seq![added];
    assert(before.push(added) =~= before + one);
    lemma_together(before, one, route);
    if any_unmarks(one, route) {
        let i = choose|i: int| 0 <= i < one.len() && unmarks(#[trigger] one[i], route);
        assert(one[i] == added);
    }
    if unmarks(added, route) {
        assert(one[0] == added);
    }
}

impl Invalidation {
    /// Whether the marker of a route is to be removed.
    pub fn concerns(&self, namespace: &NamespaceContext, key: &Key) -> (r: bool)
        ensures
            r == unmarks(self@, RouteView { namespace: namespace@, key: key@ }),
    {
        match self {
            Invalidation::Exact { namespace: n, key: k } => text::same(
                n.as_str(),
                namespace.as_str(),
            ) && text::same(k.as_str(), key.as_str()),
            Invalidation::Matching { namespace: n, pattern } => text::same(
                n.as_str(),
                namespace.as_str(),
            ) && pattern.matches(key),
            Invalidation::Whole { namespace: n } => text::same(n.as_str(), namespace.as_str()),
        }
    }
}

} // verus!
