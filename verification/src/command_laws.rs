//! What the commands of the broker come to, from the request to its outcome.

use crate::broker::{self, BrokerState};
use crate::error::ErrorView;
use crate::json::{self, JsonView};
use crate::outcome::{
    BatchView, ContextView, DispatchView, GetView, KeyLoadView, MutationView, OutcomeView,
    ProvideOptions, PurposeView, SetView, StepView, ValueView,
};
use crate::protocol::{CommandView, ResponseView, ServerCommandView, Uuid};
use crate::registry::{self, BatchMatchView, RegistryView};
use crate::route::{self, RouteView};
use crate::routes::RouteState;
use crate::security::{AuthEntryView, AuthInfoView, AuthSource, Operation};
use crate::store::{self, StoredView};
use crate::text;
use vstd::prelude::*;

verus! {

/// A request that is answered and does nothing else.
pub open spec fn answer(response: ResponseView) -> StepView {
    StepView::Finished(
        Ok(OutcomeView { response, dispatch: None, pending_mutation: None, authenticated: None }),
    )
}

/// A request that fails.
pub open spec fn failure(error: ErrorView) -> StepView {
    StepView::Finished(Err(error))
}

/// A text that does not begin a variable anywhere from a position on.
pub open spec fn is_plain_from(text: Seq<char>, from: int) -> bool {
    forall|i: int|
        from <= i < text.len() - 1 ==> !((#[trigger] text[i]) == '$' && text[i + 1] == '{')
}

/// A key between tildes.
pub open spec fn between_tildes(inner: Seq<char>) -> Seq<char> {
    seq!['~'] + inner + seq!['~']
}

/// A key that is not between tildes.
pub open spec fn is_untilded(key: Seq<char>) -> bool {
    key.len() < 3 || key[0] != '~' || key[key.len() - 1] != '~'
}

/// A namespace that is not one of the broker's own.
pub open spec fn is_ordinary(namespace: Seq<char>) -> bool {
    namespace != "/__auth"@ && namespace != "/__secrets"@ && namespace != "/__lease"@
}

proof fn lemma_namespaces()
    ensures
        broker::AUTH_NAMESPACE@ == "/__auth"@,
        broker::SECURITY_NAMESPACE@ == "/__secrets"@,
        broker::LEASE_NAMESPACE@ == "/__lease"@,
        "/__auth"@ != "/__secrets"@,
        "/__auth"@ != "/__lease"@,
        "/__secrets"@ != "/__lease"@,
{
    reveal_strlit("/__auth");
    reveal_strlit("/__secrets");
    reveal_strlit("/__lease");
    assert("/__auth"@.len() == 7);
    assert("/__secrets"@.len() == 10);
    assert("/__lease"@.len() == 8);
}

proof fn lemma_tildes(inner: Seq<char>)
    requires
        inner.len() > 0,
    ensures
        broker::marked(between_tildes(inner)) == Some(inner),
{
    assert(between_tildes(inner).subrange(1, between_tildes(inner).len() - 1) =~= inner);
}

/// Tildes around a key ask for encryption and are not part of it; any other key is
/// taken as it is, without encryption.
pub proof fn tildes_ask_for_encryption(key: Seq<char>)
    ensures
        key.len() > 0 ==> broker::normalized(between_tildes(key)) == (key, true),
        is_untilded(key) ==> broker::normalized(key) == (key, false),
{
    if key.len() > 0 {
        lemma_tildes(key);
    }
}

proof fn lemma_no_variable(text: Seq<char>, cursor: int)
    requires
        0 <= cursor,
        is_plain_from(text, cursor),
    ensures
        broker::next_variable(text, cursor) is None,
{
    let open = seq!['$', '{'];
    text::lemma_find_from(text, open, cursor);
    if let Some(at) = text::find_from(text, open, cursor) {
        assert(text.subrange(at, at + 2)[0] == text[at]);
        assert(text.subrange(at, at + 2)[1] == text[at + 1]);
    }
}

proof fn lemma_variable(
    before: Seq<char>,
    name: Seq<char>,
    after: Seq<char>,
    cursor: int,
)
    requires
        0 <= cursor <= before.len(),
        is_plain_from(before, cursor),
        !name.contains('}'),
    ensures
        broker::next_variable(before + seq!['$', '{'] + name + seq!['}'] + after, cursor) == Some(
            (before.len() as int, (before.len() + 2 + name.len()) as int),
        ),
{
    let open = seq!['$', '{'];
    let close = seq!['}'];
    let text = before + open + name + close + after;
    let start = before.len() as int;
    let end = start + 2 + name.len();
    assert(text.subrange(start, start + 2) =~= open);
    assert forall|j: int| cursor <= j < start implies !#[trigger] text::occurs_at(text, open, j) by {
        if text::occurs_at(text, open, j) {
            assert(text.subrange(j, j + 2)[0] == text[j]);
            assert(text.subrange(j, j + 2)[1] == text[j + 1]);
            assert(text[j] == before[j]);
            if j + 1 < start {
                assert(text[j + 1] == before[j + 1]);
            } else {
                assert(text[j + 1] == '$');
            }
        }
    }
    text::lemma_find_from_is(text, open, cursor, start);
    assert(text.subrange(end, end + 1) =~= close);
    assert forall|j: int| start + 2 <= j < end implies !#[trigger] text::occurs_at(
        text,
        close,
        j,
    ) by {
        if text::occurs_at(text, close, j) {
            assert(text.subrange(j, j + 1)[0] == text[j]);
            assert(text[j] == name[j - start - 2]);
            assert(name.contains('}'));
        }
    }
    text::lemma_find_from_is(text, close, start + 2, end);
}

/// The first variable of a key that the caller supplied is replaced by its value, and
/// what follows it is resolved then; one that the caller did not supply is looked up
/// under its name. A key without variables is resolved as it is.
pub proof fn variables_are_replaced(
    before: Seq<char>,
    name: Seq<char>,
    after: Seq<char>,
    cursor: int,
    variables: Map<Seq<char>, Seq<char>>,
)
    requires
        0 <= cursor <= before.len(),
        is_plain_from(before, cursor),
        name.len() > 0,
        !name.contains('}'),
    ensures
        ({
            let text = before + seq!['$', '{'] + name + seq!['}'] + after;
            &&& variables.dom().contains(name) ==> broker::resolution(text, cursor, variables)
                == broker::resolution(
                before + variables[name] + after,
                (before.len() + variables[name].len()) as int,
                variables,
            )
            &&& variables.dom().contains(name) && is_plain_from(
                before + variables[name] + after,
                (before.len() + variables[name].len()) as int,
            ) ==> broker::resolution(text, cursor, variables) == broker::Resolution::Resolved(
                before + variables[name] + after,
            )
            &&& !variables.dom().contains(name) ==> broker::resolution(text, cursor, variables) == (
            broker::Resolution::Unknown { text, start: before.len() as int, name })
        }),
        broker::resolution(before, cursor, variables) == broker::Resolution::Resolved(before),
{
    let text = before + seq!['$', '{'] + name + seq!['}'] + after;
    let start = before.len() as int;
    let end = start + 2 + name.len();
    lemma_variable(before, name, after, cursor);
    lemma_no_variable(before, cursor);
    assert(text.subrange(start + 2, end) =~= name);
    if variables.dom().contains(name) {
        let value = variables[name];
        assert(text.take(start) =~= before);
        assert(text.skip(end + 1) =~= after);
        assert(broker::replaced(text, start, end, value) =~= before + value + after);
        if is_plain_from(before + value + after, (before.len() + value.len()) as int) {
            lemma_no_variable(before + value + after, (before.len() + value.len()) as int);
        }
    }
}

/// A variable that was looked up is replaced by what was found, behind which the
/// resolution goes on; one that was not found stays as it is.
pub proof fn looked_up_variables_are_replaced(
    before: Seq<char>,
    name: Seq<char>,
    after: Seq<char>,
    value: Seq<char>,
)
    requires
        name.len() > 0,
        !name.contains('}'),
    ensures
        ({
            let text = before + seq!['$', '{'] + name + seq!['}'] + after;
            &&& broker::after_variable(text, before.len() as int, Some(value)) == (
                before + value + after,
                (before.len() + value.len()) as int,
            )
            &&& broker::after_variable(text, before.len() as int, None) == (
                text,
                (before.len() + name.len() + 3) as int,
            )
        }),
{
    let text = before + seq!['$', '{'] + name + seq!['}'] + after;
    let start = before.len() as int;
    let end = start + 2 + name.len();
    lemma_variable(before, name, after, start);
    assert(text.take(start) =~= before);
    assert(text.skip(end + 1) =~= after);
    assert(broker::replaced(text, start, end, value) =~= before + value + after);
}

/// A string replaces a variable without its quotation marks, any other value as its
/// JSON text.
pub proof fn variables_stand_for_their_text(text: Seq<char>, value: JsonView)
    ensures
        broker::variable_text(JsonView::Text(text)) == text,
        !(value is Text) ==> broker::variable_text(value) == json::json_text(value),
{
}

/// A variable that was read from the store is replaced by the text of its value, and the
/// request goes on behind it; where nothing is stored it goes on behind the variable as
/// it stands. Nothing else of the request changes. A failed read fails the request.
pub proof fn variables_that_were_read_are_replaced(
    state: BrokerState,
    request: GetView,
    before: Seq<char>,
    name: Seq<char>,
    after: Seq<char>,
    stored: StoredView,
    error: ErrorView,
    now: nat,
)
    requires
        name.len() > 0,
        !name.contains('}'),
        request.resolved == before + seq!['$', '{'] + name + seq!['}'] + after,
        request.cursor == before.len(),
    ensures
        ({
            let value = match stored.value {
                JsonView::Text(text) => text,
                other => json::json_text(other),
            };
            &&& state.variable_read(
                request,
                Ok::<Option<StoredView>, ErrorView>(Some(stored)),
                now,
            ) == state.get_next(
                GetView {
                    namespace: request.namespace,
                    raw_encrypted: request.raw_encrypted,
                    resolved: before + value + after,
                    cursor: (before.len() + value.len()) as int,
                    context: request.context,
                },
                now,
            )
            &&& state.variable_read(request, Ok::<Option<StoredView>, ErrorView>(None), now)
                == state.get_next(
                GetView {
                    namespace: request.namespace,
                    raw_encrypted: request.raw_encrypted,
                    resolved: request.resolved,
                    cursor: (before.len() + name.len() + 3) as int,
                    context: request.context,
                },
                now,
            )
            &&& state.variable_read(request, Err::<Option<StoredView>, ErrorView>(error), now)
                == failure(error)
        }),
{
    looked_up_variables_are_replaced(before, name, after, broker::variable_text(stored.value));
}

/// Where authentication is configured, an operation on a namespace needs a principal:
/// the administrator of the configuration, or one with a live session that has a role
/// for it. Where it is not, everything is permitted.
pub proof fn operations_need_a_permission(
    state: BrokerState,
    context: ContextView,
    namespace: Seq<char>,
    operation: Operation,
    now: nat,
)
    ensures
        ({
            let result = state.authorized(context, namespace, operation, now);
            &&& state.auth is None ==> result == Ok::<(), ErrorView>(())
            &&& state.auth is Some && context.auth is None ==> result == Err::<(), ErrorView>(
                ErrorView::AuthenticationFailed,
            )
            &&& state.auth is Some && context.auth is Some ==> {
                let principal = context.auth->0;
                let allowed = state.auth->0.allows(principal, namespace, operation, now);
                &&& principal.source == AuthSource::BootstrapAdmin ==> result == Ok::<
                    (),
                    ErrorView,
                >(())
                &&& allowed ==> result == Ok::<(), ErrorView>(())
                &&& !allowed ==> result == Err::<(), ErrorView>(
                    ErrorView::PermissionDenied(namespace),
                )
            }
        }),
{
}

/// Reading needs the permission to read, reading under an encrypted key the one to read
/// encrypted values, writing likewise. The broker's own records are for its
/// administrator.
pub proof fn reads_and_writes_need_their_own_permission(
    state: BrokerState,
    context: ContextView,
    namespace: Seq<char>,
    now: nat,
)
    ensures
        is_ordinary(namespace) ==> state.may_read(context, namespace, false, now)
            == state.authorized(context, namespace, Operation::Read, now),
        is_ordinary(namespace) ==> state.may_read(context, namespace, true, now)
            == state.authorized(context, namespace, Operation::ReadEncrypted, now),
        state.may_write(context, namespace, false, now) == state.authorized(
            context,
            namespace,
            Operation::Write,
            now,
        ),
        state.may_write(context, namespace, true, now) == state.authorized(
            context,
            namespace,
            Operation::WriteEncrypted,
            now,
        ),
        namespace == "/__auth"@ || namespace == "/__secrets"@ ==> forall|encrypted: bool| #[trigger]
            state.may_read(context, namespace, encrypted, now) == (if context.auth matches Some(
                principal,
            ) && principal.source == AuthSource::BootstrapAdmin {
                Ok::<(), ErrorView>(())
            } else {
                Err(ErrorView::PermissionDenied("/__auth"@))
            }),
{
    lemma_namespaces();
}

/// A permitted GET of a key without variables reads the value of exactly that
/// namespace, its context included, and that key; tildes around the key are taken off
/// and ask for the encrypted value. A GET that is not permitted fails and reads nothing.
pub proof fn gets_read_their_route(
    state: BrokerState,
    namespace: Seq<char>,
    key: Seq<char>,
    context: ContextView,
    id: Uuid,
    now: nat,
)
    requires
        is_ordinary(namespace),
        key.len() > 0,
        is_plain_from(key, 0),
        is_untilded(key),
    ensures
        ({
            let read = state.authorized(context, namespace, Operation::Read, now);
            let counted = BrokerState { requests: broker::counted(state.requests), ..state };
            state.executed(CommandView::Get { namespace, key }, context, id, now) == (
                counted,
                match read {
                    Ok(_) => StepView::ReadValue(ValueView { namespace, key, encrypted: false }),
                    Err(error) => failure(error),
                },
            )
        }),
        ({
            let read = state.authorized(context, namespace, Operation::ReadEncrypted, now);
            let counted = BrokerState { requests: broker::counted(state.requests), ..state };
            state.executed(
                CommandView::Get { namespace, key: between_tildes(key) },
                context,
                id,
                now,
            ) == (
                counted,
                match read {
                    Ok(_) => StepView::ReadValue(ValueView { namespace, key, encrypted: true }),
                    Err(error) => failure(error),
                },
            )
        }),
{
    lemma_namespaces();
    lemma_no_variable(key, 0);
    let tilded = between_tildes(key);
    lemma_tildes(key);
    assert forall|i: int| 0 <= i < tilded.len() - 1 implies !((#[trigger] tilded[i]) == '$'
        && tilded[i + 1] == '{') by {
        if 0 < i {
            assert(tilded[i] == key[i - 1]);
            if i < key.len() {
                assert(tilded[i + 1] == key[i]);
            }
        }
    }
    lemma_no_variable(tilded, 0);
}

/// A key whose variables are resolved is read, in the namespace of the request; where
/// the resolved key turns out to be encrypted or not, against what the request looked
/// like, that permission is needed too.
pub proof fn resolved_keys_are_read(
    state: BrokerState,
    request: GetView,
    key: Seq<char>,
    now: nat,
)
    requires
        is_ordinary(request.namespace),
        key.len() > 0,
        is_untilded(key),
        broker::resolution(request.resolved, request.cursor, request.context.variables)
            == broker::Resolution::Resolved(key) || broker::resolution(
            request.resolved,
            request.cursor,
            request.context.variables,
        ) == broker::Resolution::Resolved(between_tildes(key)),
    ensures
        ({
            let encrypted = broker::resolution(
                request.resolved,
                request.cursor,
                request.context.variables,
            ) == broker::Resolution::Resolved(between_tildes(key));
            let needed = state.authorized(
                request.context,
                request.namespace,
                if encrypted {
                    Operation::ReadEncrypted
                } else {
                    Operation::Read
                },
                now,
            );
            state.get_next(request, now) == if encrypted != request.raw_encrypted && needed is Err {
                failure(needed->Err_0)
            } else {
                StepView::ReadValue(ValueView { namespace: request.namespace, key, encrypted })
            }
        }),
{
    lemma_namespaces();
    lemma_tildes(key);
    assert(between_tildes(key).len() == key.len() + 2);
}

/// A variable that the caller did not supply is read from the store under its name,
/// and the request waits for it; a key that resolves to nothing is refused.
pub proof fn unknown_variables_are_read(
    state: BrokerState,
    request: GetView,
    text: Seq<char>,
    start: int,
    name: Seq<char>,
    now: nat,
)
    ensures
        broker::resolution(request.resolved, request.cursor, request.context.variables) == (
        broker::Resolution::Unknown { text, start, name }) ==> state.get_next(request, now) == (
        StepView::ReadVariable {
            key: name,
            request: GetView {
                namespace: request.namespace,
                raw_encrypted: request.raw_encrypted,
                resolved: text,
                cursor: start,
                context: request.context,
            },
        }),
        broker::resolution(request.resolved, request.cursor, request.context.variables)
            == broker::Resolution::Resolved(Seq::empty()) ==> state.get_next(request, now)
            == failure(ErrorView::EmptyIdentifier("key"@)),
{
}

/// A value that is there is the answer, with the whole seconds that cover the time it
/// has left, and counts as a hit; an encrypted one waits for the key of its base
/// namespace. One that is not there counts as a miss, and an error is passed on.
pub proof fn values_read_are_answered(
    state: BrokerState,
    request: ValueView,
    stored: StoredView,
    error: ErrorView,
)
    ensures
        !request.encrypted ==> state.value_read(request, Ok(Some(stored))) == (
            BrokerState { hits: broker::counted(state.hits), ..state },
            answer(
                ResponseView::Value {
                    value: stored.value,
                    ttl_seconds: store::optional_seconds(stored.remaining_ttl),
                },
            ),
        ),
        request.encrypted ==> state.value_read(request, Ok(Some(stored))) == (
            BrokerState { hits: broker::counted(state.hits), ..state },
            StepView::ReadSecurityKey {
                scope: route::base_of(request.namespace),
                purpose: PurposeView::Answer { request, stored },
            },
        ),
        state.value_read(request, Ok(None)) == (
            BrokerState { misses: broker::counted(state.misses), ..state },
            StepView::CheckMiss(request),
        ),
        state.value_read(request, Err(error)) == (state, failure(error)),
{
}

/// A counter goes up by one, and starts again at zero after its last number.
pub proof fn counters_go_up(n: u64)
    ensures
        n < u64::MAX ==> broker::counted(n) == n + 1,
        broker::counted(u64::MAX) == 0,
{
}

/// A GET of a value that is not cached asks the provider whose turn it is for exactly
/// the requested namespace, its context included, and the requested key, and tells the
/// caller to come back. The request carries the state of the route, so that a change in
/// between is noticed. Without a provider nobody is asked, and none is while the route is
/// marked as a miss.
pub proof fn misses_ask_for_their_route(
    state: BrokerState,
    request: ValueView,
    request_id: Uuid,
    refresh_id: Uuid,
)
    ensures
        state.miss_checked(request, true, request_id, refresh_id) == (
            state,
            answer(ResponseView::Miss { retry_after_ms: 0 }),
        ),
        state.registry.provider_for(request.namespace, request.key) is None ==> state.miss_checked(
            request,
            false,
            request_id,
            refresh_id,
        ) == (state, answer(ResponseView::Unknown)),
        state.registry.provider_for(request.namespace, request.key) matches Some(provider) ==> {
            let route = RouteView { namespace: request.namespace, key: request.key };
            let active = if state.routes.dom().contains(route) {
                state.routes[route]
            } else {
                RouteState { generation: 0, provider_refresh_id: refresh_id }
            };
            let (next, step) = state.miss_checked(request, false, request_id, refresh_id);
            &&& step == StepView::Finished(
                Ok(
                    OutcomeView {
                        response: ResponseView::Miss { retry_after_ms: 10 },
                        dispatch: Some(
                            DispatchView {
                                owner: provider.owner,
                                provider_id: Some(provider.id),
                                provider_refresh_id: Some(active.provider_refresh_id),
                                mutation_generation: active.generation,
                                command: ServerCommandView::Query {
                                    request_id,
                                    namespace: request.namespace,
                                    key: request.key,
                                },
                                authentication: false,
                                provider_options: Some(provider.options),
                                encrypted: request.encrypted,
                            },
                        ),
                        pending_mutation: None,
                        authenticated: None,
                    },
                ),
            )
            &&& next.routes.dom().contains(route) && next.routes[route] == active
            &&& next.registry.providers == state.registry.providers
            &&& next.auth == state.auth && next.leases == state.leases && next.hits == state.hits
                && next.misses == state.misses && next.requests == state.requests
        },
{
}

/// The whole seconds of a time to live, as far as they fit: no more than it, and less
/// than a second short of it.
pub proof fn persisted_seconds_are_whole(nanos: nat)
    requires
        nanos < 0x1_0000_0000_0000_0000 * 1_000_000_000,
    ensures
        broker::whole_seconds(Some(nanos)) matches Some(seconds) && seconds * 1_000_000_000
            <= nanos < (seconds + 1) * 1_000_000_000,
        broker::whole_seconds(None) is None,
{
}

/// The time to live of a command is that many seconds.
pub proof fn times_to_live_are_seconds(seconds: u64)
    ensures
        broker::ttl_nanos(Some(seconds)) == Some((seconds * 1_000_000_000) as nat),
        broker::ttl_nanos(None) is None,
        broker::whole_seconds(broker::ttl_nanos(Some(seconds))) == Some(seconds),
{
}

/// What goes out to a store that is to persist a change, while the change waits.
pub open spec fn handed_to(
    owner: Uuid,
    command: ServerCommandView,
    mutation: MutationView,
) -> StepView {
    StepView::Finished(
        Ok(
            OutcomeView {
                response: ResponseView::Okay,
                dispatch: Some(
                    DispatchView {
                        owner,
                        provider_id: None,
                        provider_refresh_id: None,
                        mutation_generation: 0,
                        command,
                        authentication: false,
                        provider_options: None,
                        encrypted: false,
                    },
                ),
                pending_mutation: Some(mutation),
                authenticated: None,
            },
        ),
    )
}

/// The change that is handed to a store is the one that waits to be made: the same
/// namespace, key and value, with the whole seconds of the time to live. Without a store
/// that it concerns the value is set at once.
pub proof fn values_are_handed_on_as_they_are(
    state: BrokerState,
    namespace: Seq<char>,
    key: Seq<char>,
    value: JsonView,
    ttl: Option<nat>,
    source: Option<Uuid>,
    request_id: Uuid,
)
    ensures
        ({
            let mutation = MutationView::SetValue { namespace, key, value, ttl };
            state.prepared(mutation, source, request_id) == match state.registry.store_for(
                namespace,
                key,
                source,
            ) {
                None => StepView::Commit(mutation),
                Some(store) => handed_to(
                    store.owner,
                    ServerCommandView::PersistSet {
                        request_id,
                        namespace,
                        key,
                        value,
                        ttl_seconds: broker::whole_seconds(ttl),
                    },
                    mutation,
                ),
            }
        }),
{
}

/// A batch is handed to the one store that all its keys concern, with all its entries;
/// keys that concern different stores are refused, and without a store the batch is set
/// at once.
pub proof fn batches_are_handed_on_as_they_are(
    state: BrokerState,
    namespace: Seq<char>,
    entries: Seq<(Seq<char>, JsonView)>,
    ttl: Option<nat>,
    source: Option<Uuid>,
    request_id: Uuid,
    keys: Seq<Seq<char>>,
)
    requires
        keys.len() == entries.len(),
        forall|i: int| 0 <= i < entries.len() ==> #[trigger] keys[i] == entries[i].0,
    ensures
        ({
            let mutation = MutationView::SetBatch { namespace, entries, ttl };
            state.prepared(mutation, source, request_id) == match state.registry.store_for_batch(
                namespace,
                keys,
                source,
            ) {
                BatchMatchView::NoStore => StepView::Commit(mutation),
                BatchMatchView::Mixed => failure(
                    ErrorView::Protocol("SET batch keys require different storage adapters"@),
                ),
                BatchMatchView::Store(store) => handed_to(
                    store.owner,
                    ServerCommandView::PersistSetBatch {
                        request_id,
                        namespace,
                        entries,
                        ttl_seconds: broker::whole_seconds(ttl),
                    },
                    mutation,
                ),
            }
        }),
{
    assert(broker::entry_keys(entries) =~= keys);
}

/// A deletion is handed on with its own key pattern, or without one where it has none:
/// then it concerns every key of the namespace.
pub proof fn deletions_are_handed_on_as_they_are(
    state: BrokerState,
    namespace: Seq<char>,
    pattern: Seq<char>,
    source: Option<Uuid>,
    request_id: Uuid,
)
    ensures
        ({
            let mutation = MutationView::Delete { namespace, key_pattern: Some(pattern) };
            state.prepared(mutation, source, request_id) == match state.registry.store_for(
                namespace,
                pattern,
                source,
            ) {
                None => StepView::Commit(mutation),
                Some(store) => handed_to(
                    store.owner,
                    ServerCommandView::PersistDelete {
                        request_id,
                        namespace,
                        key_pattern: Some(pattern),
                    },
                    mutation,
                ),
            }
        }),
        ({
            let mutation = MutationView::Delete { namespace, key_pattern: None };
            state.prepared(mutation, source, request_id) == match state.registry.store_for(
                namespace,
                seq!['*'],
                source,
            ) {
                None => StepView::Commit(mutation),
                Some(store) => handed_to(
                    store.owner,
                    ServerCommandView::PersistDelete { request_id, namespace, key_pattern: None },
                    mutation,
                ),
            }
        }),
{
}

/// A move is handed on from its source to its destination, to the store of the source.
pub proof fn moves_are_handed_on_as_they_are(
    state: BrokerState,
    source_namespace: Seq<char>,
    destination: Seq<char>,
    source: Option<Uuid>,
    request_id: Uuid,
)
    ensures
        ({
            let mutation = MutationView::Move { source: source_namespace, destination };
            state.prepared(mutation, source, request_id) == match state.registry.store_for(
                source_namespace,
                seq!['*'],
                source,
            ) {
                None => StepView::Commit(mutation),
                Some(store) => handed_to(
                    store.owner,
                    ServerCommandView::PersistMove {
                        request_id,
                        source: source_namespace,
                        destination,
                    },
                    mutation,
                ),
            }
        }),
{
}

/// A permitted SET changes exactly its route to exactly its value, for as long as it
/// says; one whose key is between tildes encrypts the value under the inner key first.
/// One that is not permitted changes nothing.
pub proof fn sets_change_their_route(
    state: BrokerState,
    namespace: Seq<char>,
    key: Seq<char>,
    value: JsonView,
    ttl_seconds: Option<u64>,
    context: ContextView,
    id: Uuid,
    now: nat,
)
    requires
        is_ordinary(namespace),
        key.len() > 0,
        is_untilded(key),
    ensures
        ({
            let counted = BrokerState { requests: broker::counted(state.requests), ..state };
            let ttl = match ttl_seconds {
                Some(n) => Some((n * 1_000_000_000) as nat),
                None => None,
            };
            &&& state.executed(
                CommandView::SetValue { namespace, key, value, ttl_seconds },
                context,
                id,
                now,
            ) == (
                counted,
                match state.authorized(context, namespace, Operation::Write, now) {
                    Err(error) => failure(error),
                    Ok(_) => counted.prepared(
                        MutationView::SetValue { namespace, key, value, ttl },
                        context.adapter_instance,
                        id,
                    ),
                },
            )
            &&& state.executed(
                CommandView::SetValue { namespace, key: between_tildes(key), value, ttl_seconds },
                context,
                id,
                now,
            ) == (
                counted,
                match state.authorized(context, namespace, Operation::WriteEncrypted, now) {
                    Err(error) => failure(error),
                    Ok(_) => StepView::ReadSecurityKey {
                        scope: route::base_of(namespace),
                        purpose: PurposeView::Change(
                            SetView {
                                namespace,
                                key,
                                value,
                                ttl,
                                source: context.adapter_instance,
                            },
                        ),
                    },
                },
            )
        }),
{
    lemma_namespaces();
    lemma_tildes(key);
}

/// A value that a provider or a connection set and that was encrypted is handed on under
/// its own route in its envelope, and an envelope that cannot be made fails the request.
pub proof fn sealed_values_are_handed_on(
    state: BrokerState,
    request: SetView,
    encrypted: bool,
    load: KeyLoadView,
    nonce: Seq<u8>,
    request_id: Uuid,
    now: nat,
)
    ensures
        ({
            let sealed = broker::sealed_value(
                request.namespace,
                request.key,
                request.value,
                load,
                nonce,
            );
            state.key_read(PurposeView::Change(request), load, nonce, request_id, now)
                == match sealed {
                Err(error) => failure(error),
                Ok(envelope) => state.prepared(
                    MutationView::SetValue {
                        namespace: request.namespace,
                        key: request.key,
                        value: envelope,
                        ttl: request.ttl,
                    },
                    request.source,
                    request_id,
                ),
            }
        }),
        state.set_next(request, false, request_id) == state.prepared(
            MutationView::SetValue {
                namespace: request.namespace,
                key: request.key,
                value: request.value,
                ttl: request.ttl,
            },
            request.source,
            request_id,
        ),
        state.set_next(request, true, request_id) == (StepView::ReadSecurityKey {
            scope: route::base_of(request.namespace),
            purpose: PurposeView::Change(request),
        }),
{
}

/// The key of a scope is the one that its record holds; without a record, or with one
/// that is malformed, there is none.
pub proof fn keys_come_from_their_record(
    record: crate::outcome::SecurityKeyView,
    error: ErrorView,
    scope: Seq<char>,
)
    ensures
        broker::loaded_key(KeyLoadView::Found(record), scope) == Ok::<Seq<char>, ErrorView>(
            record.key,
        ),
        broker::loaded_key(KeyLoadView::Missing, scope) == Err::<Seq<char>, ErrorView>(
            ErrorView::Encryption("encryption key for scope '"@ + scope + "' is not loaded"@),
        ),
        broker::loaded_key(KeyLoadView::Malformed, scope) == Err::<Seq<char>, ErrorView>(
            ErrorView::Encryption("security key record is malformed"@),
        ),
        broker::loaded_key(KeyLoadView::Failed(error), scope) == Err::<Seq<char>, ErrorView>(error),
{
}

/// An opened value is the answer, with the time that the stored one has left; one that
/// cannot be opened fails the request.
pub proof fn opened_values_are_answered(
    state: BrokerState,
    request: ValueView,
    stored: StoredView,
    load: KeyLoadView,
    nonce: Seq<u8>,
    request_id: Uuid,
    now: nat,
)
    ensures
        state.key_read(
            PurposeView::Answer { request, stored },
            load,
            nonce,
            request_id,
            now,
        ) == match broker::opened_value(request, stored, load) {
            Err(error) => failure(error),
            Ok(value) => answer(
                ResponseView::Value {
                    value,
                    ttl_seconds: store::optional_seconds(stored.remaining_ttl),
                },
            ),
        },
{
}

/// A value that is there by the time a waiting request asks again is the answer, opened
/// where it is encrypted; one that is not there is not.
pub proof fn values_that_arrived_are_answered(
    request: ValueView,
    stored: StoredView,
    error: ErrorView,
    load: KeyLoadView,
)
    ensures
        broker::cached_answer(request, Ok(None), load) == Ok::<Option<ResponseView>, ErrorView>(
            None,
        ),
        broker::cached_answer(request, Err(error), load) == Err::<
            Option<ResponseView>,
            ErrorView,
        >(error),
        !request.encrypted ==> broker::cached_answer(request, Ok(Some(stored)), load) == Ok::<
            Option<ResponseView>,
            ErrorView,
        >(
            Some(
                ResponseView::Value {
                    value: stored.value,
                    ttl_seconds: store::optional_seconds(stored.remaining_ttl),
                },
            ),
        ),
        request.encrypted ==> broker::cached_answer(request, Ok(Some(stored)), load)
            == match broker::opened_value(request, stored, load) {
            Ok(value) => Ok(
                Some(
                    ResponseView::Value {
                        value,
                        ttl_seconds: store::optional_seconds(stored.remaining_ttl),
                    },
                ),
            ),
            Err(error) => Err::<Option<ResponseView>, ErrorView>(error),
        },
{
}

proof fn lemma_batch(
    state: BrokerState,
    request: BatchView,
    k: int,
    request_id: Uuid,
    now: nat,
)
    requires
        request.prepared.len() <= k <= request.entries.len(),
        request.prepared == request.entries.take(request.prepared.len() as int),
        forall|i: int|
            request.prepared.len() <= i < k ==> is_untilded((#[trigger] request.entries[i]).0),
        k > request.prepared.len() ==> state.authorized(
            request.context,
            request.namespace,
            Operation::Write,
            now,
        ) is Ok,
    ensures
        state.batch_next(request, request_id, now) == state.batch_next(
            BatchView { prepared: request.entries.take(k), ..request },
            request_id,
            now,
        ),
    decreases k - request.prepared.len(),
{
    let i = request.prepared.len() as int;
    if i < k {
        let entry = request.entries[i];
        let next = BatchView { prepared: request.prepared.push((entry.0, entry.1)), ..request };
        assert(is_untilded(entry.0));
        assert(next.prepared =~= request.entries.take(i + 1));
        lemma_batch(state, next, k, request_id, now);
        assert(BatchView { prepared: request.entries.take(k), ..request } =~= BatchView {
            prepared: next.entries.take(k),
            ..next
        });
    } else {
        assert(BatchView { prepared: request.entries.take(k), ..request } =~= request);
    }
}

/// A permitted batch of keys that are not encrypted changes all of them together, each
/// to its own value, in order. The first key between tildes of a batch waits for the
/// encryption key, with what stands before it prepared. A batch that is not permitted
/// changes nothing, and an empty one is refused.
pub proof fn batches_change_their_routes(
    state: BrokerState,
    namespace: Seq<char>,
    entries: Seq<(Seq<char>, JsonView)>,
    ttl_seconds: Option<u64>,
    context: ContextView,
    id: Uuid,
    now: nat,
    k: int,
)
    requires
        0 <= k <= entries.len(),
        forall|i: int| 0 <= i < k ==> is_untilded((#[trigger] entries[i]).0),
    ensures
        ({
            let counted = BrokerState { requests: broker::counted(state.requests), ..state };
            let ttl = match ttl_seconds {
                Some(n) => Some((n * 1_000_000_000) as nat),
                None => None,
            };
            let (next, step) = state.executed(
                CommandView::SetBatch { namespace, entries, ttl_seconds },
                context,
                id,
                now,
            );
            let write = state.authorized(context, namespace, Operation::Write, now);
            let seal = state.authorized(context, namespace, Operation::WriteEncrypted, now);
            &&& next == counted
            &&& entries.len() == 0 ==> step == failure(
                ErrorView::Protocol("SET batch cannot be empty"@),
            )
            &&& k > 0 && write is Err ==> step == failure(write->Err_0)
            &&& k > 0 && k == entries.len() && write is Ok ==> step == counted.prepared(
                MutationView::SetBatch { namespace, entries, ttl },
                context.adapter_instance,
                id,
            )
            &&& k < entries.len() && !is_untilded(entries[k].0) && (k > 0 ==> write is Ok)
                ==> step == (match seal {
                Err(error) => failure(error),
                Ok(_) => StepView::ReadSecurityKey {
                    scope: route::base_of(namespace),
                    purpose: PurposeView::Entry(
                        BatchView { namespace, entries, prepared: entries.take(k), ttl, context },
                    ),
                },
            })
        }),
{
    let counted = BrokerState { requests: broker::counted(state.requests), ..state };
    let ttl = match ttl_seconds {
        Some(n) => Some((n * 1_000_000_000) as nat),
        None => None,
    };
    let request = BatchView { namespace, entries, prepared: Seq::empty(), ttl, context };
    let write = state.authorized(context, namespace, Operation::Write, now);
    assert(write == counted.authorized(context, namespace, Operation::Write, now));
    assert(request.prepared =~= entries.take(0));
    if k > 0 {
        assert(is_untilded(entries[0].0));
    }
    if k == 0 || write is Ok {
        lemma_batch(counted, request, k, id, now);
    }
    if k == entries.len() {
        assert(entries.take(k) =~= entries);
    }
}

/// A batch goes on with the entry after the one whose key was read, which is in its
/// envelope now, under the key without tildes; one that cannot be encrypted fails the
/// batch.
pub proof fn sealed_entries_are_prepared(
    state: BrokerState,
    request: BatchView,
    inner: Seq<char>,
    load: KeyLoadView,
    nonce: Seq<u8>,
    request_id: Uuid,
    now: nat,
)
    requires
        request.prepared.len() < request.entries.len(),
        inner.len() > 0,
        request.entries[request.prepared.len() as int].0 == between_tildes(inner),
    ensures
        state.key_read(PurposeView::Entry(request), load, nonce, request_id, now)
            == match broker::sealed_value(
            request.namespace,
            inner,
            request.entries[request.prepared.len() as int].1,
            load,
            nonce,
        ) {
            Err(error) => failure(error),
            Ok(envelope) => state.batch_next(
                BatchView {
                    namespace: request.namespace,
                    entries: request.entries,
                    prepared: request.prepared.push((inner, envelope)),
                    ttl: request.ttl,
                    context: request.context,
                },
                request_id,
                now,
            ),
        },
{
    lemma_tildes(inner);
}

/// A permitted DELETE removes what its own pattern stands for in its own namespace, and
/// nothing is removed without the permission. The broker's own namespaces, and patterns
/// between tildes, are refused.
pub proof fn deletes_remove_what_they_name(
    state: BrokerState,
    namespace: Seq<char>,
    key_pattern: Option<Seq<char>>,
    context: ContextView,
    id: Uuid,
    now: nat,
)
    ensures
        ({
            let counted = BrokerState { requests: broker::counted(state.requests), ..state };
            let delete = state.authorized(context, namespace, Operation::Delete, now);
            let (next, step) = state.executed(
                CommandView::Delete { namespace, key_pattern },
                context,
                id,
                now,
            );
            &&& next == counted
            &&& !is_ordinary(namespace) ==> step == failure(ErrorView::PermissionDenied(namespace))
            &&& is_ordinary(namespace) && delete is Err ==> step == failure(delete->Err_0)
            &&& is_ordinary(namespace) && delete is Ok && (key_pattern is None || is_untilded(
                key_pattern->0,
            )) ==> step == counted.prepared(
                MutationView::Delete { namespace, key_pattern },
                context.adapter_instance,
                id,
            )
            &&& is_ordinary(namespace) && delete is Ok && key_pattern is Some && !is_untilded(
                key_pattern->0,
            ) ==> step == failure(
                ErrorView::Protocol("encrypted key markers are not supported for delete"@),
            )
        }),
{
    lemma_namespaces();
}

/// A MOVE needs the permission to delete its source and to write its destination, and
/// moves from the one to the other; both are contexts of one base namespace, and neither
/// is the broker's own.
pub proof fn moves_go_from_source_to_destination(
    state: BrokerState,
    source: Seq<char>,
    destination: Seq<char>,
    context: ContextView,
    id: Uuid,
    now: nat,
)
    requires
        is_ordinary(source),
        is_ordinary(destination),
        route::context_move(source, destination) is Ok,
    ensures
        ({
            let counted = BrokerState { requests: broker::counted(state.requests), ..state };
            let leave = state.authorized(context, source, Operation::Delete, now);
            let arrive = state.authorized(context, destination, Operation::Write, now);
            state.executed(CommandView::Move { source, destination }, context, id, now) == (
                counted,
                if leave is Err {
                    failure(leave->Err_0)
                } else if arrive is Err {
                    failure(arrive->Err_0)
                } else {
                    counted.prepared(
                        MutationView::Move { source, destination },
                        context.adapter_instance,
                        id,
                    )
                },
            )
        }),
{
    lemma_namespaces();
}

/// A connection that registers as a provider, with the permission and an adapter
/// instance, is asked for every route that its patterns cover and that nobody else
/// provides, as its options say.
pub proof fn registered_providers_are_asked(
    state: BrokerState,
    namespace_pattern: Seq<char>,
    key_pattern: Seq<char>,
    max_rate: Option<u32>,
    timeout: Option<u64>,
    miss_ttl: Option<u64>,
    context: ContextView,
    id: Uuid,
    now: nat,
    request: ValueView,
    request_id: Uuid,
    refresh_id: Uuid,
)
    requires
        is_ordinary(namespace_pattern),
        max_rate != Some(0u32),
        state.authorized(context, namespace_pattern, Operation::Provide, now) is Ok,
        context.adapter_instance is Some,
        registry::covers_route(namespace_pattern, key_pattern, request.namespace, request.key),
        state.registry.provider_for(request.namespace, request.key) is None,
    ensures
        ({
            let (registered, step) = state.executed(
                CommandView::Provide { namespace_pattern, key_pattern, max_rate, timeout, miss_ttl },
                context,
                id,
                now,
            );
            let (_, asked) = registered.miss_checked(request, false, request_id, refresh_id);
            &&& step == answer(ResponseView::Okay)
            &&& asked matches StepView::Finished(Ok(outcome))
            &&& outcome.dispatch matches Some(dispatch)
            &&& dispatch.owner == context.owner
            &&& dispatch.provider_id == Some(id)
            &&& dispatch.command == (ServerCommandView::Query {
                request_id,
                namespace: request.namespace,
                key: request.key,
            })
            &&& dispatch.provider_options == Some(
                ProvideOptions {
                    max_rate,
                    timeout_ms: match timeout {
                        Some(ms) => ms,
                        None => 0,
                    },
                    miss_ttl_seconds: match miss_ttl {
                        Some(seconds) => seconds,
                        None => 0,
                    },
                },
            )
        }),
{
    lemma_namespaces();
    let (registered, step) = state.executed(
        CommandView::Provide { namespace_pattern, key_pattern, max_rate, timeout, miss_ttl },
        context,
        id,
        now,
    );
    let n = state.registry.providers.len() as int;
    let before = state.registry.providers;
    let after = registered.registry.providers;
    registry::lemma_covering_push(
        before,
        after.last(),
        request.namespace,
        request.key,
    );
    assert(after =~= before.push(after.last()));
    assert(registry::covering(after, request.namespace, request.key, n + 1) =~= seq![n]);
    let turn = registered.registry.next_provider as int;
    assert(turn % 1 == 0);
}

/// A connection that registers as a store, with the permission and an adapter instance,
/// gets the changes that its patterns cover from then on, but not those of its own
/// adapter.
pub proof fn registered_stores_get_the_changes(
    state: BrokerState,
    namespace_pattern: Seq<char>,
    key_pattern: Seq<char>,
    context: ContextView,
    id: Uuid,
    now: nat,
    namespace: Seq<char>,
    pattern: Seq<char>,
    source: Option<Uuid>,
)
    requires
        is_ordinary(namespace_pattern),
        state.authorized(context, namespace_pattern, Operation::Store, now) is Ok,
        context.adapter_instance is Some,
        registry::covers_namespace(namespace_pattern, namespace),
        registry::keys_overlap(key_pattern, pattern),
    ensures
        ({
            let (registered, step) = state.executed(
                CommandView::Store { namespace_pattern, key_pattern },
                context,
                id,
                now,
            );
            let store = registered.registry.store_for(namespace, pattern, source);
            &&& step == answer(ResponseView::Okay)
            &&& source != context.adapter_instance ==> (store matches Some(found) && found.owner
                == context.owner && found.id == id)
            &&& source == context.adapter_instance ==> store == state.registry.store_for(
                namespace,
                pattern,
                source,
            )
        }),
{
    lemma_namespaces();
    let (registered, step) = state.executed(
        CommandView::Store { namespace_pattern, key_pattern },
        context,
        id,
        now,
    );
    let stores = registered.registry.stores;
    registry::lemma_newest_push(
        state.registry.stores,
        stores.last(),
        namespace,
        pattern,
        source,
    );
    assert(stores =~= state.registry.stores.push(stores.last()));
}

/// Nobody registers without the permission, without an adapter instance, or for the
/// leases; the broker's own records take its administrator, and a provider that allows
/// no request at all is refused. What is refused changes nothing.
pub proof fn registrations_are_refused(
    state: BrokerState,
    namespace_pattern: Seq<char>,
    key_pattern: Seq<char>,
    max_rate: Option<u32>,
    timeout: Option<u64>,
    miss_ttl: Option<u64>,
    context: ContextView,
    id: Uuid,
    now: nat,
)
    ensures
        ({
            let counted = BrokerState { requests: broker::counted(state.requests), ..state };
            let provide = state.executed(
                CommandView::Provide { namespace_pattern, key_pattern, max_rate, timeout, miss_ttl },
                context,
                id,
                now,
            );
            let store = state.executed(
                CommandView::Store { namespace_pattern, key_pattern },
                context,
                id,
                now,
            );
            let providing = state.authorized(context, namespace_pattern, Operation::Provide, now);
            let storing = state.authorized(context, namespace_pattern, Operation::Store, now);
            &&& max_rate == Some(0u32) ==> provide == (
                counted,
                failure(ErrorView::Protocol("PROVIDE max_rate must be greater than zero"@)),
            )
            &&& max_rate != Some(0u32) && is_ordinary(namespace_pattern) && providing is Err
                ==> provide == (counted, failure(providing->Err_0))
            &&& max_rate != Some(0u32) && is_ordinary(namespace_pattern) && providing is Ok
                && context.adapter_instance is None ==> provide == (
                counted,
                failure(ErrorView::Protocol("PROVIDE requires an adapter instance"@)),
            )
            &&& max_rate != Some(0u32) && namespace_pattern == "/__lease"@ ==> provide == (
                counted,
                failure(ErrorView::PermissionDenied("/__lease"@)),
            )
            &&& is_ordinary(namespace_pattern) && storing is Err ==> store == (
                counted,
                failure(storing->Err_0),
            )
            &&& is_ordinary(namespace_pattern) && storing is Ok && context.adapter_instance is None
                ==> store == (
                counted,
                failure(ErrorView::Protocol("STORE requires an adapter instance"@)),
            )
            &&& namespace_pattern == "/__lease"@ ==> store == (
                counted,
                failure(ErrorView::PermissionDenied("/__lease"@)),
            )
        }),
{
    lemma_namespaces();
}

/// The administrator registers for the broker's own records like anybody else for other
/// namespaces.
pub proof fn administrators_register_for_records(
    state: BrokerState,
    namespace_pattern: Seq<char>,
    key_pattern: Seq<char>,
    context: ContextView,
    id: Uuid,
    now: nat,
)
    requires
        namespace_pattern == "/__auth"@ || namespace_pattern == "/__secrets"@,
        context.auth matches Some(principal) && principal.source == AuthSource::BootstrapAdmin,
        context.adapter_instance is Some,
    ensures
        ({
            let provide = state.executed(
                CommandView::Provide {
                    namespace_pattern,
                    key_pattern,
                    max_rate: None,
                    timeout: None,
                    miss_ttl: None,
                },
                context,
                id,
                now,
            );
            let store = state.executed(
                CommandView::Store { namespace_pattern, key_pattern },
                context,
                id,
                now,
            );
            &&& provide.1 == answer(ResponseView::Okay)
            &&& provide.0.registry.providers.len() == state.registry.providers.len() + 1
            &&& provide.0.registry.providers.last().owner == context.owner
            &&& provide.0.registry.providers.last().namespace_pattern == namespace_pattern
            &&& provide.0.registry.providers.last().key_pattern == key_pattern
            &&& store.1 == answer(ResponseView::Okay)
            &&& store.0.registry.stores.len() == state.registry.stores.len() + 1
            &&& store.0.registry.stores.last().owner == context.owner
            &&& store.0.registry.stores.last().namespace_pattern == namespace_pattern
            &&& store.0.registry.stores.last().key_pattern == key_pattern
            &&& store.0.registry.stores.last().adapter_instance == context.adapter_instance
        }),
{
    lemma_namespaces();
}

/// A registration changes nothing of the others and nothing else of the broker.
pub proof fn registrations_keep_the_rest(
    state: BrokerState,
    namespace_pattern: Seq<char>,
    key_pattern: Seq<char>,
    max_rate: Option<u32>,
    timeout: Option<u64>,
    miss_ttl: Option<u64>,
    context: ContextView,
    id: Uuid,
    now: nat,
)
    ensures
        ({
            let (provided, _) = state.executed(
                CommandView::Provide { namespace_pattern, key_pattern, max_rate, timeout, miss_ttl },
                context,
                id,
                now,
            );
            let (stored, _) = state.executed(
                CommandView::Store { namespace_pattern, key_pattern },
                context,
                id,
                now,
            );
            &&& state.registry.providers.is_prefix_of(provided.registry.providers)
            &&& provided.registry.stores == state.registry.stores
            &&& state.registry.stores.is_prefix_of(stored.registry.stores)
            &&& stored.registry.providers == state.registry.providers
            &&& provided == (BrokerState {
                requests: provided.requests,
                registry: provided.registry,
                ..state
            })
            &&& stored == (BrokerState {
                requests: stored.requests,
                registry: stored.registry,
                ..state
            })
        }),
{
}

/// PING is answered by PONG, and STATS by the numbers of requests, hits and misses with
/// the number of values, which is counted first.
pub proof fn pings_are_answered(state: BrokerState, context: ContextView, id: Uuid, now: nat)
    ensures
        state.executed(CommandView::Ping, context, id, now) == (
            BrokerState { requests: broker::counted(state.requests), ..state },
            answer(ResponseView::Pong),
        ),
        state.executed(CommandView::Stats, context, id, now) == (
            BrokerState { requests: broker::counted(state.requests), ..state },
            StepView::CountValues,
        ),
{
}

/// A GET in the lease namespace acquires the lease of its key for the adapter instance of
/// an authenticated connection, for thirty seconds, unless another adapter holds it; a
/// SET to zero gives it back, which the holder alone can do.
pub proof fn leases_are_acquired_and_released(
    state: BrokerState,
    key: Seq<char>,
    value: JsonView,
    ttl_seconds: Option<u64>,
    context: ContextView,
    adapter: Uuid,
    id: Uuid,
    now: nat,
)
    requires
        now + 30_000_000_000 <= u128::MAX,
        context.auth is Some,
        context.adapter_instance == Some(adapter),
    ensures
        ({
            let namespace = "/__lease"@;
            let counted = BrokerState { requests: broker::counted(state.requests), ..state };
            let other = state.leases.dom().contains(key) && state.leases[key].expires_at > now
                && state.leases[key].owner != adapter;
            let mine = state.leases.dom().contains(key) && state.leases[key].owner == adapter;
            let (acquired, step) = state.executed(
                CommandView::Get { namespace, key },
                context,
                id,
                now,
            );
            let released = state.executed(
                CommandView::SetValue { namespace, key, value, ttl_seconds },
                context,
                id,
                now,
            );
            &&& other ==> acquired == counted && step == answer(
                ResponseView::Value { value: JsonView::Bool(false), ttl_seconds: None },
            )
            &&& !other ==> {
                &&& step == answer(
                    ResponseView::Value { value: JsonView::Bool(true), ttl_seconds: Some(30) },
                )
                &&& acquired.leases.dom().contains(key)
                &&& acquired.leases[key].owner == adapter
                &&& acquired.leases[key].expires_at == now + 30_000_000_000
                &&& acquired == (BrokerState { leases: acquired.leases, ..counted })
                &&& forall|k: Seq<char>|
                    k != key ==> #[trigger] acquired.leases.dom().contains(k)
                        == state.leases.dom().contains(k) && acquired.leases[k] == state.leases[k]
            }
            &&& value == JsonView::Number(seq!['0']) && mine ==> released == (
                BrokerState { leases: state.leases.remove(key), ..counted },
                answer(ResponseView::Okay),
            )
            &&& value == JsonView::Number(seq!['0']) && !mine ==> released == (
                counted,
                failure(ErrorView::PermissionDenied("/__lease"@)),
            )
            &&& value != JsonView::Number(seq!['0']) ==> released == (
                counted,
                failure(ErrorView::Protocol("lease release requires value 0"@)),
            )
        }),
{
    lemma_namespaces();
}

/// A connection without an adapter instance, or without a principal, has no leases.
pub proof fn leases_are_for_adapters(
    state: BrokerState,
    key: Seq<char>,
    value: JsonView,
    ttl_seconds: Option<u64>,
    context: ContextView,
    id: Uuid,
    now: nat,
)
    requires
        context.auth is None || context.adapter_instance is None,
    ensures
        ({
            let refused = (
                BrokerState { requests: broker::counted(state.requests), ..state },
                failure(ErrorView::PermissionDenied("/__lease"@)),
            );
            &&& state.executed(
                CommandView::Get { namespace: "/__lease"@, key },
                context,
                id,
                now,
            ) == refused
            &&& state.executed(
                CommandView::SetValue { namespace: "/__lease"@, key, value, ttl_seconds },
                context,
                id,
                now,
            ) == refused
        }),
{
    lemma_namespaces();
}

/// The administrator sets permission records, which are looked at first, and encryption
/// keys, whose keys are never encrypted themselves.
pub proof fn administrators_set_records(
    state: BrokerState,
    key: Seq<char>,
    value: JsonView,
    ttl_seconds: Option<u64>,
    context: ContextView,
    id: Uuid,
    now: nat,
)
    requires
        context.auth matches Some(principal) && principal.source == AuthSource::BootstrapAdmin,
    ensures
        ({
            let counted = BrokerState { requests: broker::counted(state.requests), ..state };
            let ttl = match ttl_seconds {
                Some(n) => Some((n * 1_000_000_000) as nat),
                None => None,
            };
            let set = |namespace: Seq<char>|
                state.executed(
                    CommandView::SetValue { namespace, key, value, ttl_seconds },
                    context,
                    id,
                    now,
                );
            let request = |namespace: Seq<char>|
                SetView { namespace, key, value, ttl, source: context.adapter_instance };
            &&& set("/__auth"@) == (counted, StepView::CheckAuthRecord(request("/__auth"@)))
            &&& is_untilded(key) ==> set("/__secrets"@) == (
                counted,
                StepView::CheckSecurityRecord(request("/__secrets"@)),
            )
            &&& !is_untilded(key) ==> set("/__secrets"@) == (
                counted,
                failure(
                    ErrorView::Protocol("security key records cannot use encrypted keys"@),
                ),
            )
        }),
{
    lemma_namespaces();
}

/// A permission record in order is set like any other value, and one that is not is
/// refused with what is wrong with it.
pub proof fn checked_records_are_set(
    state: BrokerState,
    request: SetView,
    message: Seq<char>,
    request_id: Uuid,
)
    ensures
        state.auth_record_checked(request, Err(message), request_id) == failure(
            ErrorView::InvalidAuthorization(message),
        ),
        is_untilded(request.key) ==> state.auth_record_checked(request, Ok(()), request_id)
            == state.prepared(
            MutationView::SetValue {
                namespace: request.namespace,
                key: request.key,
                value: request.value,
                ttl: request.ttl,
            },
            request.source,
            request_id,
        ),
{
}

/// A command that reads or writes under a key between tildes needs the encryption key
/// loaded, for which it needs the permission on encrypted values; others do not.
pub proof fn encrypted_commands_load_keys(
    state: BrokerState,
    namespace: Seq<char>,
    key: Seq<char>,
    value: JsonView,
    entries: Seq<(Seq<char>, JsonView)>,
    i: int,
    ttl_seconds: Option<u64>,
    context: ContextView,
    now: nat,
)
    requires
        is_ordinary(namespace),
        key.len() > 0,
        0 <= i < entries.len(),
        entries[i].0 == between_tildes(key),
    ensures
        ({
            let read = state.authorized(context, namespace, Operation::ReadEncrypted, now);
            let write = state.authorized(context, namespace, Operation::WriteEncrypted, now);
            let tilded = between_tildes(key);
            &&& state.may_load_keys(CommandView::Get { namespace, key: tilded }, context, now)
                == read
            &&& state.may_load_keys(
                CommandView::SetValue { namespace, key: tilded, value, ttl_seconds },
                context,
                now,
            ) == write
            &&& state.may_load_keys(
                CommandView::SetBatch { namespace, entries, ttl_seconds },
                context,
                now,
            ) == write
            &&& is_untilded(key) ==> state.may_load_keys(
                CommandView::Get { namespace, key },
                context,
                now,
            ) is Ok && state.may_load_keys(
                CommandView::SetValue { namespace, key, value, ttl_seconds },
                context,
                now,
            ) is Ok
        }),
{
    lemma_namespaces();
    lemma_tildes(key);
    let command = CommandView::SetBatch { namespace, entries, ttl_seconds };
    assert(command->SetBatch_entries[i] == entries[i]);
    assert(broker::marked(command->SetBatch_entries[i].0) is Some);
    assert(broker::encrypted_operation(CommandView::SetBatch { namespace, entries, ttl_seconds })
        == Some((namespace, Operation::WriteEncrypted)));
    assert(broker::encrypted_operation(CommandView::Get { namespace, key: between_tildes(key) })
        == Some((namespace, Operation::ReadEncrypted)));
    assert(broker::encrypted_operation(
        CommandView::SetValue { namespace, key: between_tildes(key), value, ttl_seconds },
    ) == Some((namespace, Operation::WriteEncrypted)));
}

/// An encryption key that is not loaded is asked for at the provider of encryption keys,
/// under the base namespace; a key that is there is not asked for.
pub proof fn missing_keys_are_asked_for(
    state: BrokerState,
    namespace: Seq<char>,
    record: crate::outcome::SecurityKeyView,
    error: ErrorView,
    request_id: Uuid,
)
    ensures
        ({
            let scope = route::base_of(namespace);
            let (next, asked) = state.key_dispatched(namespace, KeyLoadView::Missing, request_id);
            &&& asked == (match state.registry.provider_for("/__secrets"@, scope) {
                None => Err(
                    ErrorView::Encryption(
                        "no /__secrets provider is registered for scope '"@ + scope + "'"@,
                    ),
                ),
                Some(provider) => Ok(
                    Some(
                        DispatchView {
                            owner: provider.owner,
                            provider_id: Some(provider.id),
                            provider_refresh_id: None,
                            mutation_generation: 0,
                            command: ServerCommandView::Query {
                                request_id,
                                namespace: "/__secrets"@,
                                key: scope,
                            },
                            authentication: false,
                            provider_options: None,
                            encrypted: false,
                        },
                    ),
                ),
            })
            &&& next == (BrokerState { registry: next.registry, ..state })
            &&& next.registry.providers == state.registry.providers
            &&& next.registry.stores == state.registry.stores
        }),
        state.key_dispatched(namespace, KeyLoadView::Found(record), request_id) == (
            state,
            Ok::<Option<DispatchView>, ErrorView>(None),
        ),
        state.key_dispatched(namespace, KeyLoadView::Malformed, request_id) == (
            state,
            Err::<Option<DispatchView>, ErrorView>(
                ErrorView::Encryption("security key record is malformed"@),
            ),
        ),
        state.key_dispatched(namespace, KeyLoadView::Failed(error), request_id) == (
            state,
            Err::<Option<DispatchView>, ErrorView>(error),
        ),
{
    lemma_namespaces();
}

/// A provider that was not asked within the last second may be asked, and starts a new
/// second; one without requests left says how long to wait.
pub proof fn limits_start_anew(state: BrokerState, provider_id: Uuid, limit: u32, now: u128)
    requires
        limit > 0,
        state.limits.dom().contains(provider_id) ==> now >= state.limits[provider_id].window_started
            + 1_000_000_000,
    ensures
        ({
            let (next, wait) = state.charged(provider_id, limit, now);
            &&& wait is None
            &&& next.limits.dom().contains(provider_id)
            &&& next.limits[provider_id].window_started == now
            &&& next.limits[provider_id].requests == 1
            &&& next == (BrokerState { limits: next.limits, ..state })
            &&& forall|other: Uuid|
                other != provider_id ==> #[trigger] next.limits.dom().contains(other)
                    == state.limits.dom().contains(other) && next.limits[other]
                    == state.limits[other]
        }),
{
}

/// A provider without requests left is asked again when its second is over: after the
/// milliseconds that are left of it, and one at least.
pub proof fn limits_tell_how_long_to_wait(
    state: BrokerState,
    provider_id: Uuid,
    limit: u32,
    now: u128,
)
    requires
        state.limits.dom().contains(provider_id),
        state.limits[provider_id].window_started <= now,
        now < state.limits[provider_id].window_started + 1_000_000_000,
        state.limits[provider_id].requests >= limit,
    ensures
        ({
            let over = state.limits[provider_id].window_started + 1_000_000_000;
            let (next, wait) = state.charged(provider_id, limit, now);
            &&& wait matches Some(ms)
            &&& over - now < 2_000_000 ==> ms == 1
            &&& over - now >= 1_000_000 ==> ms * 1_000_000 <= over - now < (ms + 1) * 1_000_000
            &&& next.limits[provider_id] == state.limits[provider_id]
        }),
{
}

} // verus!
