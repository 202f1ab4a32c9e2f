//! What the broker keeps from one command to the next.

use crate::broker::BrokerState;
use crate::command_laws::{answer, failure, is_ordinary};
use crate::error::ErrorView;
use crate::json::JsonView;
use crate::outcome::{ContextView, KeyLoadView, MutationView, ProvideOptions, ValueView};
use crate::protocol::{ResponseView, Stats, Uuid};
use crate::registry::{ProviderView, StoreView};
use crate::route::{self, RouteView};
use crate::security::AuthRecordView;
use vstd::prelude::*;

verus! {

/// A counter that has gone on, and begins again with zero behind the largest number.
pub open spec fn gone_on(before: u64, steps: nat) -> int {
    (before + steps) % 0x1_0000_0000_0000_0000
}

proof fn lemma_all_mutated(state: BrokerState, namespace: Seq<char>, keys: Seq<Seq<char>>)
    ensures
        state.all_mutated(namespace, keys).mutation_clock == gone_on(
            state.mutation_clock,
            keys.len(),
        ),
    decreases keys.len(),
{
    if keys.len() > 0 {
        lemma_all_mutated(state, namespace, keys.drop_last());
    }
}

/// The clock of changes goes on with every change: by one for a value and for a deletion,
/// by one for each entry of a batch, and by one for each end of a move.
pub proof fn changes_move_the_clock(
    state: BrokerState,
    namespace: Seq<char>,
    key: Seq<char>,
    value: JsonView,
    ttl: Option<nat>,
    entries: Seq<(Seq<char>, JsonView)>,
    key_pattern: Option<Seq<char>>,
    destination: Seq<char>,
    record: Option<AuthRecordView>,
    now: nat,
)
    ensures
        state.committed(
            MutationView::SetValue { namespace, key, value, ttl },
            record,
            now,
        ).mutation_clock == gone_on(state.mutation_clock, 1),
        state.committed(
            MutationView::SetBatch { namespace, entries, ttl },
            record,
            now,
        ).mutation_clock == gone_on(state.mutation_clock, entries.len()),
        state.committed(
            MutationView::Delete { namespace, key_pattern },
            record,
            now,
        ).mutation_clock == gone_on(state.mutation_clock, 1),
        state.committed(
            MutationView::Move { source: namespace, destination },
            record,
            now,
        ).mutation_clock == gone_on(state.mutation_clock, 2),
{
    lemma_all_mutated(state, namespace, crate::broker::entry_keys(entries));
}

/// A refresh that is over releases its route, and no other one does; the other routes
/// and everything else stay.
pub proof fn routes_are_released_by_their_refresh(
    state: BrokerState,
    route: RouteView,
    other: RouteView,
    refresh_id: Uuid,
)
    ensures
        ({
            let after = state.released(route, refresh_id);
            &&& state.routes.dom().contains(route) && state.routes[route].provider_refresh_id
                == refresh_id ==> !after.routes.dom().contains(route)
            &&& state.routes.dom().contains(route) && state.routes[route].provider_refresh_id
                != refresh_id ==> after.routes.dom().contains(route) && after.routes[route]
                == state.routes[route]
            &&& other != route ==> (after.routes.dom().contains(other)
                <==> state.routes.dom().contains(other))
            &&& other != route && state.routes.dom().contains(other) ==> after.routes[other]
                == state.routes[other]
            &&& after == (BrokerState { routes: after.routes, ..state })
        }),
{
}

/// A registration is the newest of its kind, and holds the patterns and options as they
/// were given, whose it is, and when it was made.
pub proof fn registrations_are_kept_as_they_were_made(
    state: BrokerState,
    namespace_pattern: Seq<char>,
    key_pattern: Seq<char>,
    options: ProvideOptions,
    context: ContextView,
    id: Uuid,
    now: u128,
)
    requires
        is_ordinary(namespace_pattern),
        state.auth is None,
        context.adapter_instance is Some,
        options.max_rate != Some(0u32),
    ensures
        state.provider_registered(
            namespace_pattern,
            key_pattern,
            options,
            context,
            id,
            now as nat,
        ).0.registry.providers == state.registry.providers.push(
            ProviderView {
                id,
                owner: context.owner,
                namespace_pattern,
                key_pattern,
                options,
                registered_at: now,
            },
        ),
        state.store_registered(
            namespace_pattern,
            key_pattern,
            context,
            id,
            now as nat,
        ).0.registry.stores == state.registry.stores.push(
            StoreView {
                id,
                owner: context.owner,
                adapter_instance: context.adapter_instance,
                namespace_pattern,
                key_pattern,
                registered_at: now,
            },
        ),
{
    reveal_strlit("/__auth");
    reveal_strlit("/__secrets");
    reveal_strlit("/__lease");
}

/// Whenever a provider is asked, the next one is another's turn.
pub proof fn providers_are_asked_in_turn(
    state: BrokerState,
    request: ValueView,
    namespace: Seq<char>,
    api_key: Seq<char>,
    request_id: Uuid,
    refresh_id: Uuid,
    now: nat,
)
    ensures
        ({
            let turn = if state.registry.next_provider == usize::MAX {
                0
            } else {
                state.registry.next_provider + 1
            };
            &&& state.registry.provider_for(request.namespace, request.key) is Some
                ==> state.miss_checked(
                request,
                false,
                request_id,
                refresh_id,
            ).0.registry.next_provider == turn
            &&& state.registry.provider_for("/__secrets"@, route::base_of(namespace)) is Some
                ==> state.key_dispatched(
                namespace,
                KeyLoadView::Missing,
                request_id,
            ).0.registry.next_provider == turn
            &&& state.auth_dispatched(api_key, request_id, now).1 is Some ==> state.auth_dispatched(
                api_key,
                request_id,
                now,
            ).0.registry.next_provider == turn
            &&& state.miss_checked(request, true, request_id, refresh_id).0.registry
                == state.registry
        }),
{
    reveal_strlit("/__secrets");
}

/// The counters are told as they are kept, with the number of values that were counted; a
/// count that failed is a failure.
pub proof fn counters_are_told(state: BrokerState, values: u64, error: ErrorView)
    ensures
        state.values_counted(Ok::<u64, ErrorView>(values)) == answer(
            ResponseView::Stats(
                Stats {
                    requests: state.requests,
                    hits: state.hits,
                    misses: state.misses,
                    values,
                },
            ),
        ),
        state.values_counted(Err::<u64, ErrorView>(error)) == failure(error),
{
}

} // verus!
