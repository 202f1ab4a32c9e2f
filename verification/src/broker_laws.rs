//! What holds of the broker in every state.

use crate::broker::{self, BrokerState};
use crate::error::ErrorView;
use crate::json::{self, JsonView};
use crate::outcome::{
    ContextView, DispatchView, GetView, KeyLoadView, MutationView, PurposeView, SetView, StepView,
    ValueView,
};
use crate::protocol::{CommandView, ResponseView, Uuid};
use crate::route::{self, RouteView};
use crate::routes;
use crate::security::AuthRecordView;
use crate::store::StoredView;
use vstd::prelude::*;

verus! {

/// A GET request that is not permitted reads nothing, neither the value nor a
/// variable of its key.
pub proof fn denied_reads_read_nothing(
    state: BrokerState,
    namespace: Seq<char>,
    key: Seq<char>,
    context: ContextView,
    now: nat,
)
    requires
        namespace != broker::LEASE_NAMESPACE@,
        state.may_read(context, namespace, broker::marked(key) is Some, now) is Err,
    ensures
        state.get_start(namespace, key, context, now) == (
            state,
            broker::failing(
                state.may_read(context, namespace, broker::marked(key) is Some, now)->Err_0,
            ),
        ),
{
}

/// A GET request reads its own namespace only, and the variables of its key
/// cannot make an encrypted read of a plain one, nor a plain read of an encrypted
/// one, without that permission.
pub proof fn resolved_reads_are_permitted(state: BrokerState, request: GetView, now: nat)
    ensures
        match state.get_next(request, now) {
            StepView::ReadValue(value) => {
                &&& value.namespace == request.namespace
                &&& broker::is_record_namespace(request.namespace) || value.encrypted
                    == request.raw_encrypted || state.may_read(
                    request.context,
                    request.namespace,
                    value.encrypted,
                    now,
                ) is Ok
            },
            StepView::ReadVariable { request: next, .. } => {
                &&& next.namespace == request.namespace
                &&& next.raw_encrypted == request.raw_encrypted
                &&& next.context == request.context
            },
            step => step is Finished,
        },
{
}

/// The records of the broker are for its administrator: nobody else reads, sets,
/// provides or stores them.
pub proof fn records_are_for_the_administrator(
    state: BrokerState,
    namespace: Seq<char>,
    context: ContextView,
    key: Seq<char>,
    value: JsonView,
    ttl_seconds: Option<u64>,
    max_rate: Option<u32>,
    timeout: Option<u64>,
    miss_ttl: Option<u64>,
    id: Uuid,
    now: nat,
)
    requires
        broker::is_record_namespace(namespace),
        broker::bootstrap_required(context) is Err,
        max_rate != Some(0u32),
    ensures
        ({
            let denied = broker::failing(ErrorView::PermissionDenied(broker::AUTH_NAMESPACE@));
            let counted = BrokerState { requests: broker::counted(state.requests), ..state };
            &&& state.executed(CommandView::Get { namespace, key }, context, id, now) == (
                counted,
                denied,
            )
            &&& state.executed(
                CommandView::SetValue { namespace, key, value, ttl_seconds },
                context,
                id,
                now,
            ) == (counted, denied)
            &&& state.executed(
                CommandView::Provide {
                    namespace_pattern: namespace,
                    key_pattern: key,
                    max_rate,
                    timeout,
                    miss_ttl,
                },
                context,
                id,
                now,
            ) == (counted, denied)
            &&& state.executed(
                CommandView::Store { namespace_pattern: namespace, key_pattern: key },
                context,
                id,
                now,
            ) == (counted, denied)
        }),
{
    reveal_strlit("/__auth");
    reveal_strlit("/__secrets");
    reveal_strlit("/__lease");
    assert(broker::AUTH_NAMESPACE@.len() == 7);
    assert(broker::SECURITY_NAMESPACE@.len() == 10);
    assert(broker::LEASE_NAMESPACE@.len() == 8);
}

/// The namespaces of the broker itself are neither deleted nor moved.
pub proof fn reserved_namespaces_stay(
    state: BrokerState,
    namespace: Seq<char>,
    other: Seq<char>,
    key_pattern: Option<Seq<char>>,
    context: ContextView,
    id: Uuid,
    now: nat,
)
    requires
        broker::is_reserved(namespace),
    ensures
        state.delete_start(namespace, key_pattern, context, id, now) == broker::failing(
            ErrorView::PermissionDenied(namespace),
        ),
        state.move_start(namespace, other, context, id, now) == broker::failing(
            ErrorView::PermissionDenied(broker::AUTH_NAMESPACE@),
        ),
        state.move_start(other, namespace, context, id, now) == broker::failing(
            ErrorView::PermissionDenied(broker::AUTH_NAMESPACE@),
        ),
{
}

/// A lease that one adapter acquired is refused to every other until its time is
/// over, and granted after that.
pub proof fn leases_exclude_each_other(
    state: BrokerState,
    key: Seq<char>,
    first: ContextView,
    second: ContextView,
    now: nat,
    later: nat,
)
    requires
        now + broker::LEASE_NANOS <= u128::MAX,
        now <= later,
        broker::lease_adapter(first) is Ok,
        broker::lease_adapter(second) is Ok,
        broker::lease_adapter(first) != broker::lease_adapter(second),
        state.lease_acquired(key, first, now).1 == broker::answered(
            ResponseView::Value { value: JsonView::Bool(true), ttl_seconds: Some(30) },
        ),
    ensures
        ({
            let held = state.lease_acquired(key, first, now).0;
            let (next, step) = held.lease_acquired(key, second, later);
            if later < now + broker::LEASE_NANOS {
                next == held && step == broker::answered(
                    ResponseView::Value { value: JsonView::Bool(false), ttl_seconds: None },
                )
            } else {
                step == broker::answered(
                    ResponseView::Value { value: JsonView::Bool(true), ttl_seconds: Some(30) },
                )
            }
        }),
{
}

/// A lease is released by the adapter that holds it and by no other; once it is
/// released, any adapter acquires it.
pub proof fn leases_are_released_by_their_holder(
    state: BrokerState,
    key: Seq<char>,
    holder: ContextView,
    other: ContextView,
    now: nat,
)
    requires
        state.leases.dom().contains(key),
        broker::lease_adapter(holder) == Ok::<Uuid, ErrorView>(state.leases[key].owner),
        broker::lease_adapter(other) is Ok,
        broker::lease_adapter(other) != broker::lease_adapter(holder),
    ensures
        ({
            let zero = JsonView::Number(seq!['0']);
            let (released, step) = state.lease_released(key, zero, holder);
            &&& state.lease_released(key, zero, other) == (
                state,
                broker::failing(ErrorView::PermissionDenied(broker::LEASE_NAMESPACE@)),
            )
            &&& step == broker::answered(ResponseView::Okay)
            &&& released.leases == state.leases.remove(key)
            &&& released.lease_acquired(key, other, now).1 == broker::answered(
                ResponseView::Value { value: JsonView::Bool(true), ttl_seconds: Some(30) },
            )
        }),
{
}

/// A generation after a number of changes.
pub open spec fn advanced(generation: u64, n: nat) -> u64
    decreases n,
{
    if n == 0 {
        generation
    } else {
        routes::next_generation(advanced(generation, (n - 1) as nat))
    }
}

proof fn lemma_advanced(generation: u64, n: nat)
    ensures
        advanced(generation, n) as int == (generation + n) % 0x1_0000_0000_0000_0000,
    decreases n,
{
    if n > 0 {
        lemma_advanced(generation, (n - 1) as nat);
    }
}

/// How often a key occurs.
pub open spec fn occurrences(keys: Seq<Seq<char>>, key: Seq<char>) -> nat
    decreases keys.len(),
{
    if keys.len() == 0 {
        0
    } else {
        occurrences(keys.drop_last(), key) + if keys.last() == key {
            1nat
        } else {
            0
        }
    }
}

proof fn lemma_occurrences(keys: Seq<Seq<char>>, key: Seq<char>)
    ensures
        occurrences(keys, key) <= keys.len(),
        keys.contains(key) <==> occurrences(keys, key) > 0,
    decreases keys.len(),
{
    if keys.len() > 0 {
        let rest = keys.drop_last();
        lemma_occurrences(rest, key);
        if keys.contains(key) {
            let i = choose|i: int| 0 <= i < keys.len() && keys[i] == key;
            if i < rest.len() {
                assert(rest[i] == key);
            }
        }
        if rest.contains(key) {
            let i = choose|i: int| 0 <= i < rest.len() && rest[i] == key;
            assert(keys[i] == key);
        }
        if keys.last() == key {
            assert(keys[keys.len() - 1] == key);
        }
    }
}

proof fn lemma_all_mutated(
    state: BrokerState,
    namespace: Seq<char>,
    keys: Seq<Seq<char>>,
    route: RouteView,
)
    requires
        state.routes.dom().contains(route),
    ensures
        ({
            let after = state.all_mutated(namespace, keys).routes;
            &&& after.dom().contains(route)
            &&& after[route].provider_refresh_id == state.routes[route].provider_refresh_id
            &&& after[route].generation == (if route.namespace == namespace {
                advanced(state.routes[route].generation, occurrences(keys, route.key))
            } else {
                state.routes[route].generation
            })
        }),
    decreases keys.len(),
{
    if keys.len() > 0 {
        lemma_all_mutated(state, namespace, keys.drop_last(), route);
        let last = RouteView { namespace, key: keys.last() };
        if route.namespace == namespace && route.key == keys.last() {
            assert(route == last);
        } else {
            assert(route != last);
        }
    }
}

/// A change that concerns an active route voids its refresh: what a provider was
/// asked before the change does not mark the route as a miss after it. (Of more
/// changes at once than a generation counts, nothing is said.)
pub proof fn changes_void_refreshes(
    state: BrokerState,
    mutation: MutationView,
    record: Option<AuthRecordView>,
    route: RouteView,
    miss_ttl_seconds: u64,
    is_absent: bool,
    now: nat,
)
    requires
        state.routes.dom().contains(route),
        state.concerned(mutation, route),
        mutation matches MutationView::SetBatch { entries, .. } ==> entries.len() <= u64::MAX,
    ensures
        ({
            let asked = state.routes[route];
            let after = state.committed(mutation, record, now);
            &&& !after.is_current(route, asked.generation, asked.provider_refresh_id)
            &&& !after.miss_reported(
                route,
                miss_ttl_seconds,
                asked.generation,
                asked.provider_refresh_id,
            ).1
            &&& after.miss_confirmed(
                route,
                miss_ttl_seconds,
                asked.generation,
                asked.provider_refresh_id,
                is_absent,
            ).1 is None
        }),
{
    lemma_star_affects(route);
    match mutation {
        MutationView::SetBatch { namespace, entries, .. } => {
            let keys = broker::entry_keys(entries);
            lemma_all_mutated(state, namespace, keys, route);
            lemma_occurrences(keys, route.key);
            let i = choose|i: int|
                0 <= i < entries.len() && route == (RouteView {
                    namespace,
                    key: (#[trigger] entries[i]).0,
                });
            assert(keys[i] == route.key);
            lemma_advanced(state.routes[route].generation, occurrences(keys, route.key));
            lemma_wraps(
                state.routes[route].generation as int,
                occurrences(keys, route.key) as int,
            );
        },
        MutationView::Move { source, destination } => {
            let once = state.broadly_mutated(source, seq!['*']);
            assert(once.routes.dom().contains(route));
        },
        _ => {},
    }
}

proof fn lemma_wraps(g: int, n: int)
    requires
        0 <= g < 0x1_0000_0000_0000_0000,
        0 < n < 0x1_0000_0000_0000_0000,
    ensures
        (g + n) % 0x1_0000_0000_0000_0000 != g,
{
}

proof fn lemma_star_affects(route: RouteView)
    ensures
        forall|namespace: Seq<char>| #[trigger]
            routes::is_affected(route, namespace, seq!['*']) <==> route.namespace == namespace,
{
    reveal_strlit("*");
    assert(seq!['*'].drop_last() =~= Seq::<char>::empty());
    assert(route.key.take(0) =~= Seq::<char>::empty());
    assert(route::key_matches(seq!['*'], route.key));
}

/// A change leaves alone the refresh of every route that it does not concern, and
/// ends none.
pub proof fn changes_are_scoped(
    state: BrokerState,
    mutation: MutationView,
    record: Option<AuthRecordView>,
    route: RouteView,
    now: nat,
)
    ensures
        state.committed(mutation, record, now).routes.dom().contains(route)
            == state.routes.dom().contains(route),
        state.routes.dom().contains(route) && !state.concerned(mutation, route)
            ==> state.committed(mutation, record, now).routes[route] == state.routes[route],
{
    lemma_star_affects(route);
    match mutation {
        MutationView::SetBatch { namespace, entries, .. } => {
            let keys = broker::entry_keys(entries);
            lemma_domain_kept(state, namespace, keys, route);
            if state.routes.dom().contains(route) && !state.concerned(mutation, route) {
                lemma_all_mutated(state, namespace, keys, route);
                lemma_occurrences(keys, route.key);
                if route.namespace == namespace && keys.contains(route.key) {
                    let i = choose|i: int| 0 <= i < keys.len() && keys[i] == route.key;
                    assert(entries[i].0 == route.key);
                    assert(route == (RouteView { namespace, key: entries[i].0 }));
                }
            }
        },
        MutationView::Move { source, destination } => {
            let once = state.broadly_mutated(source, seq!['*']);
            assert(once.routes.dom().contains(route) == state.routes.dom().contains(route));
        },
        _ => {},
    }
}

proof fn lemma_domain_kept(
    state: BrokerState,
    namespace: Seq<char>,
    keys: Seq<Seq<char>>,
    route: RouteView,
)
    ensures
        state.all_mutated(namespace, keys).routes.dom().contains(route)
            == state.routes.dom().contains(route),
    decreases keys.len(),
{
    if keys.len() > 0 {
        lemma_domain_kept(state, namespace, keys.drop_last(), route);
    }
}

/// A change that was made to the store, the permission record that it brought, and
/// when it was recorded.
pub struct CommitView {
    pub mutation: MutationView,
    pub record: Option<AuthRecordView>,
    pub now: nat,
}

/// The state after changes were made, in order.
pub open spec fn all_committed(state: BrokerState, commits: Seq<CommitView>) -> BrokerState
    decreases commits.len(),
{
    if commits.len() == 0 {
        state
    } else {
        let last = commits.last();
        all_committed(state, commits.drop_last()).committed(last.mutation, last.record, last.now)
    }
}

/// How often a change touches a route: a batch as often as it sets the key, a move by
/// its source and by its destination.
pub open spec fn touches(mutation: MutationView, route: RouteView) -> nat {
    match mutation {
        MutationView::SetValue { namespace, key, .. } => if route == (RouteView {
            namespace,
            key,
        }) {
            1
        } else {
            0
        },
        MutationView::SetBatch { namespace, entries, .. } => if route.namespace == namespace {
            occurrences(broker::entry_keys(entries), route.key)
        } else {
            0
        },
        MutationView::Delete { namespace, key_pattern } => if routes::is_affected(
            route,
            namespace,
            broker::deleted_keys(key_pattern),
        ) {
            1
        } else {
            0
        },
        MutationView::Move { source, destination } => {
            let from = if route.namespace == source {
                1nat
            } else {
                0
            };
            let to = if route.namespace == destination {
                1nat
            } else {
                0
            };
            from + to
        },
    }
}

/// How often changes touch a route.
pub open spec fn all_touches(commits: Seq<CommitView>, route: RouteView) -> nat
    decreases commits.len(),
{
    if commits.len() == 0 {
        0
    } else {
        all_touches(commits.drop_last(), route) + touches(commits.last().mutation, route)
    }
}

proof fn lemma_advanced_twice(generation: u64, m: nat, n: nat)
    ensures
        advanced(advanced(generation, m), n) == advanced(generation, m + n),
    decreases n,
{
    if n > 0 {
        lemma_advanced_twice(generation, m, (n - 1) as nat);
    }
}

proof fn lemma_committed(state: BrokerState, commit: CommitView, route: RouteView)
    requires
        state.routes.dom().contains(route),
    ensures
        ({
            let after = state.committed(commit.mutation, commit.record, commit.now);
            &&& after.registry == state.registry
            &&& after.routes.dom().contains(route)
            &&& after.routes[route].provider_refresh_id == state.routes[route].provider_refresh_id
            &&& after.routes[route].generation == advanced(
                state.routes[route].generation,
                touches(commit.mutation, route),
            )
        }),
{
    reveal_with_fuel(advanced, 3);
    lemma_star_affects(route);
    match commit.mutation {
        MutationView::SetBatch { namespace, entries, .. } => {
            let keys = broker::entry_keys(entries);
            lemma_all_mutated(state, namespace, keys, route);
            lemma_registry_kept(state, namespace, keys);
        },
        MutationView::Move { source, destination } => {
            let once = state.broadly_mutated(source, seq!['*']);
            assert(once.routes.dom().contains(route));
        },
        _ => {},
    }
}

proof fn lemma_registry_kept(state: BrokerState, namespace: Seq<char>, keys: Seq<Seq<char>>)
    ensures
        state.all_mutated(namespace, keys).registry == state.registry,
    decreases keys.len(),
{
    if keys.len() > 0 {
        lemma_registry_kept(state, namespace, keys.drop_last());
    }
}

proof fn lemma_all_committed(state: BrokerState, commits: Seq<CommitView>, route: RouteView)
    requires
        state.routes.dom().contains(route),
    ensures
        ({
            let after = all_committed(state, commits);
            &&& after.registry == state.registry
            &&& after.routes.dom().contains(route)
            &&& after.routes[route].provider_refresh_id == state.routes[route].provider_refresh_id
            &&& after.routes[route].generation == advanced(
                state.routes[route].generation,
                all_touches(commits, route),
            )
        }),
    decreases commits.len(),
{
    if commits.len() > 0 {
        let before = all_committed(state, commits.drop_last());
        lemma_all_committed(state, commits.drop_last(), route);
        lemma_committed(before, commits.last(), route);
        lemma_advanced_twice(
            state.routes[route].generation,
            all_touches(commits.drop_last(), route),
            touches(commits.last().mutation, route),
        );
    }
}

/// What a GET request asks a provider.
pub open spec fn asked(step: StepView) -> Option<DispatchView> {
    match step {
        StepView::Finished(Ok(outcome)) => outcome.dispatch,
        _ => None,
    }
}

/// A miss that a provider reports after changes touched the route is not recorded,
/// however many changes to whatever routes there were since the provider was asked,
/// and the next GET request asks a provider anew. (Of more touches than a generation
/// counts, nothing is said.)
pub proof fn stale_misses_are_not_recorded(
    state: BrokerState,
    request: ValueView,
    request_id: Uuid,
    refresh_id: Uuid,
    commits: Seq<CommitView>,
    miss_ttl_seconds: u64,
    is_absent: bool,
    later_request_id: Uuid,
    later_refresh_id: Uuid,
)
    requires
        state.registry.provider_for(request.namespace, request.key) is Some,
        miss_ttl_seconds > 0,
        0 < all_touches(
            commits,
            RouteView { namespace: request.namespace, key: request.key },
        ) <= u64::MAX,
    ensures
        ({
            let route = RouteView { namespace: request.namespace, key: request.key };
            let (missed, step) = state.miss_checked(request, false, request_id, refresh_id);
            let dispatch = asked(step)->0;
            let after = all_committed(missed, commits);
            let (reported, recheck) = after.miss_reported(
                route,
                miss_ttl_seconds,
                dispatch.mutation_generation,
                dispatch.provider_refresh_id->0,
            );
            let (confirmed, marker) = after.miss_confirmed(
                route,
                miss_ttl_seconds,
                dispatch.mutation_generation,
                dispatch.provider_refresh_id->0,
                is_absent,
            );
            let again = reported.miss_checked(request, false, later_request_id, later_refresh_id);
            &&& asked(step) is Some
            &&& dispatch.provider_refresh_id is Some
            &&& !recheck
            &&& marker is None
            &&& confirmed == reported
            &&& asked(again.1) is Some
            &&& asked(again.1)->0.provider_refresh_id == Some(later_refresh_id)
        }),
{
    let route = RouteView { namespace: request.namespace, key: request.key };
    let missed = state.miss_checked(request, false, request_id, refresh_id).0;
    lemma_all_committed(missed, commits, route);
    let generation = missed.routes[route].generation;
    lemma_advanced(generation, all_touches(commits, route));
    lemma_wraps(generation as int, all_touches(commits, route) as int);
}

/// A miss that a provider reports is recorded where the value is still absent and the
/// changes since the provider was asked concerned other routes only, however many
/// they were; while it is recorded, a GET request asks nobody.
pub proof fn current_misses_are_recorded(
    state: BrokerState,
    request: ValueView,
    request_id: Uuid,
    refresh_id: Uuid,
    commits: Seq<CommitView>,
    miss_ttl_seconds: u64,
    later_request_id: Uuid,
    later_refresh_id: Uuid,
)
    requires
        state.registry.provider_for(request.namespace, request.key) is Some,
        miss_ttl_seconds > 0,
        all_touches(commits, RouteView { namespace: request.namespace, key: request.key }) == 0,
    ensures
        ({
            let route = RouteView { namespace: request.namespace, key: request.key };
            let (missed, step) = state.miss_checked(request, false, request_id, refresh_id);
            let dispatch = asked(step)->0;
            let after = all_committed(missed, commits);
            let (confirmed, marker) = after.miss_confirmed(
                route,
                miss_ttl_seconds,
                dispatch.mutation_generation,
                dispatch.provider_refresh_id->0,
                true,
            );
            &&& after.miss_reported(
                route,
                miss_ttl_seconds,
                dispatch.mutation_generation,
                dispatch.provider_refresh_id->0,
            ) == (after, true)
            &&& marker == Some((miss_ttl_seconds * 1_000_000_000) as nat)
            &&& confirmed.miss_checked(request, true, later_request_id, later_refresh_id) == (
                confirmed,
                broker::answered(ResponseView::Miss { retry_after_ms: 0 }),
            )
        }),
{
    let route = RouteView { namespace: request.namespace, key: request.key };
    let missed = state.miss_checked(request, false, request_id, refresh_id).0;
    lemma_all_committed(missed, commits, route);
    assert(advanced(missed.routes[route].generation, 0) == missed.routes[route].generation);
}

/// A change touches a route that is being refreshed exactly where it concerns it.
pub proof fn changes_touch_what_they_concern(
    state: BrokerState,
    mutation: MutationView,
    route: RouteView,
)
    requires
        state.routes.dom().contains(route),
    ensures
        touches(mutation, route) > 0 <==> state.concerned(mutation, route),
{
    if let MutationView::SetBatch { namespace, entries, .. } = mutation {
        let keys = broker::entry_keys(entries);
        lemma_occurrences(keys, route.key);
        if route.namespace == namespace && keys.contains(route.key) {
            let i = choose|i: int| 0 <= i < keys.len() && keys[i] == route.key;
            assert(route == (RouteView { namespace, key: entries[i].0 }));
        }
        if state.concerned(mutation, route) {
            let i = choose|i: int|
                0 <= i < entries.len() && route == (RouteView {
                    namespace,
                    key: (#[trigger] entries[i]).0,
                });
            assert(keys[i] == route.key);
        }
    }
}

/// Within a second of its first request, a provider is asked no more often than
/// it allows, and is never charged for more.
pub proof fn provider_requests_are_limited(
    state: BrokerState,
    provider_id: Uuid,
    limit: u32,
    now: u128,
)
    requires
        state.limits.dom().contains(provider_id),
        state.limits[provider_id].requests <= limit,
        state.limits[provider_id].window_started <= now,
        now - state.limits[provider_id].window_started < 1_000_000_000,
    ensures
        ({
            let before = state.limits[provider_id];
            let (next, wait) = state.charged(provider_id, limit, now);
            let after = next.limits[provider_id];
            &&& after.window_started == before.window_started
            &&& after.requests <= limit
            &&& wait is None <==> before.requests < limit
            &&& after.requests == before.requests + if wait is None {
                1int
            } else {
                0
            }
            &&& wait is Some ==> 1 <= wait->0 <= 1000
        }),
{
}

/// Every command is counted, whatever comes of it.
pub proof fn every_command_is_counted(
    state: BrokerState,
    command: CommandView,
    context: ContextView,
    id: Uuid,
    now: nat,
)
    ensures
        state.executed(command, context, id, now).0.requests == broker::counted(state.requests),
{
}

/// Where authentication is configured, a connection that has not authenticated
/// changes nothing and registers nothing.
pub proof fn strangers_change_nothing(
    state: BrokerState,
    command: CommandView,
    context: ContextView,
    id: Uuid,
    now: nat,
)
    requires
        state.auth is Some,
        context.auth is None,
        !(command is Auth || command is Ping || command is Stats),
    ensures
        ({
            let (next, step) = state.executed(command, context, id, now);
            &&& next == (BrokerState { requests: broker::counted(state.requests), ..state })
            &&& step matches StepView::Finished(Err(_))
        }),
{
    match command {
        CommandView::SetBatch { namespace, entries, .. } => {
            reveal_with_fuel(BrokerState::batch_next, 2);
        },
        _ => {},
    }
}

/// A value under an encrypted key is never handed on as it came: its encryption
/// key is read first, and without one the request fails.
pub proof fn encrypted_values_wait_for_their_key(
    state: BrokerState,
    request: SetView,
    id: Uuid,
    nonce: Seq<u8>,
    load: crate::outcome::KeyLoadView,
    now: nat,
)
    ensures
        state.set_next(request, true, id) == (StepView::ReadSecurityKey {
            scope: route::base_of(request.namespace),
            purpose: PurposeView::Change(request),
        }),
        !(load is Found) ==> state.key_read(PurposeView::Change(request), load, nonce, id, now)
            is Finished && state.key_read(
            PurposeView::Change(request),
            load,
            nonce,
            id,
            now,
        )->Finished_0 is Err,
{
}

/// A readable value that was stored encrypted is answered in the clear, from whatever
/// context of its base namespace, by a request that reads the same encryption key.
pub proof fn encrypted_values_are_given_back(
    broker: BrokerState,
    written: SetView,
    request: ValueView,
    stored: StoredView,
    load: KeyLoadView,
    nonce: Seq<u8>,
    later_nonce: Seq<u8>,
    request_id: Uuid,
    now: nat,
)
    requires
        json::readable(written.value),
        broker::keeps_values(PurposeView::Change(written), load, nonce),
        broker::keeps_values(PurposeView::Answer { request, stored }, load, later_nonce),
        broker::sealed_value(written.namespace, written.key, written.value, load, nonce) == Ok::<
            JsonView,
            ErrorView,
        >(stored.value),
        route::base_of(request.namespace) == route::base_of(written.namespace),
        request.key == written.key,
    ensures
        broker.key_read(
            PurposeView::Answer { request, stored },
            load,
            later_nonce,
            request_id,
            now,
        ) == broker::value_answer(written.value, stored.remaining_ttl),
{
    assert(broker::seals(
        load,
        request.namespace,
        request.key,
        stored.value,
        written.value,
    ));
}

} // verus!
