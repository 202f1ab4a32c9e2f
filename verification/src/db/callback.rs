//! How the requests of a server are routed to configured queries and stores, and
//! answered.

use crate::checks;
use crate::client::{self, ClientError};
use crate::db::bridge;
use crate::db::config::{AdapterConfig, QueryConfig, StoreConfig};
use crate::db::error::{AdapterError, AdapterErrorView};
use crate::db::plan::{
    self, DatabaseQueryProvider, DatabaseStoreWriter, DatabaseValue, DatabaseValueView, PlanView,
    SqlPlan,
};
use crate::duration::Duration;
use crate::json::{JsonView, Value};
use crate::protocol::{
    clone_entries, clone_pattern, Command, CommandView, ServerCommand, ServerCommandView,
    ServerResult, ServerResultView, SetEntry, Uuid,
};
use crate::route::{Key, KeyPattern, NamespaceContext};
use crate::text;
use vstd::prelude::*;

verus! {

/// A change that the other servers are told of after it was persisted.
#[derive(Debug)]
pub enum ForwardedMutation {
    SetValue(DatabaseValue),
    SetBatch { namespace: NamespaceContext, entries: Vec<SetEntry>, ttl: Option<Duration> },
    Delete { namespace: NamespaceContext, key_pattern: Option<KeyPattern> },
    Move { source: NamespaceContext, destination: NamespaceContext },
}

/// A [`ForwardedMutation`] as a mathematical value.
#[verifier::ext_equal]
pub enum ForwardedView {
    SetValue(DatabaseValueView),
    SetBatch { namespace: Seq<char>, entries: Seq<(Seq<char>, JsonView)>, ttl: Option<nat> },
    Delete { namespace: Seq<char>, key_pattern: Option<Seq<char>> },
    Move { source: Seq<char>, destination: Seq<char> },
}

impl View for ForwardedMutation {
    type V = ForwardedView;

    open spec fn view(&self) -> ForwardedView {
        match self {
            ForwardedMutation::SetValue(value) => ForwardedView::SetValue(value@),
            ForwardedMutation::SetBatch { namespace, entries, ttl } => ForwardedView::SetBatch {
                namespace: namespace@,
                entries: crate::error::views(entries@),
                ttl: crate::error::inner(*ttl),
            },
            ForwardedMutation::Delete { namespace, key_pattern } => ForwardedView::Delete {
                namespace: namespace@,
                key_pattern: crate::error::inner(*key_pattern),
            },
            ForwardedMutation::Move { source, destination } => ForwardedView::Move {
                source: source@,
                destination: destination@,
            },
        }
    }
}

/// The request that makes a change on another server.
pub open spec fn forwarded(change: ForwardedView) -> CommandView {
    match change {
        ForwardedView::SetValue(value) => CommandView::SetValue {
            namespace: value.namespace,
            key: value.key,
            value: value.value,
            ttl_seconds: crate::broker::whole_seconds(value.ttl),
        },
        ForwardedView::SetBatch { namespace, entries, ttl } => CommandView::SetBatch {
            namespace,
            entries,
            ttl_seconds: crate::broker::whole_seconds(ttl),
        },
        ForwardedView::Delete { namespace, key_pattern } => CommandView::Delete {
            namespace,
            key_pattern,
        },
        ForwardedView::Move { source, destination } => CommandView::Move { source, destination },
    }
}

impl ForwardedMutation {
    /// The request that makes the change on another server.
    pub fn command(&self) -> (r: Command)
        ensures
            r@ == forwarded(self@),
    {
        match self {
            ForwardedMutation::SetValue(value) => client::set(
                value.namespace.clone(),
                value.key.clone(),
                value.value.clone(),
                value.ttl,
            ),
            ForwardedMutation::SetBatch { namespace, entries, ttl } => client::set_batch(
                namespace.clone(),
                clone_entries(entries),
                *ttl,
            ),
            ForwardedMutation::Delete { namespace, key_pattern } => Command::Delete {
                namespace: namespace.clone(),
                key_pattern: clone_pattern(key_pattern),
            },
            ForwardedMutation::Move { source, destination } => Command::Move {
                source: source.clone(),
                destination: destination.clone(),
            },
        }
    }

    /// How the change is called in messages.
    pub fn name(&self) -> (r: &'static str)
        ensures
            r@ == (match self@ {
                ForwardedView::SetValue(_) => "set"@,
                ForwardedView::SetBatch { .. } => "set_batch"@,
                ForwardedView::Delete { .. } => "delete"@,
                ForwardedView::Move { .. } => "move"@,
            }),
    {
        match self {
            ForwardedMutation::SetValue(_) => "set",
            ForwardedMutation::SetBatch { .. } => "set_batch",
            ForwardedMutation::Delete { .. } => "delete",
            ForwardedMutation::Move { .. } => "move",
        }
    }
}

/// The servers that a change is forwarded to: all but the one that it came from.
pub fn forward_targets(endpoints: usize, source_endpoint: usize) -> (r: Vec<usize>)
    ensures
        forall|k: int| 0 <= k < r.len() ==> #[trigger] r@[k] < endpoints && r@[k] != source_endpoint,
        forall|i: usize| i < endpoints && i != source_endpoint ==> #[trigger] r@.contains(i),
        forall|j: int, k: int| 0 <= j < k < r.len() ==> #[trigger] r@[j] < #[trigger] r@[k],
{
    let mut out: Vec<usize> = Vec::new();
    let mut i: usize = 0;
    while i < endpoints
        invariant
            i <= endpoints,
            forall|k: int| 0 <= k < out.len() ==> #[trigger] out@[k] < i && out@[k] != source_endpoint,
            forall|x: usize| x < i && x != source_endpoint ==> #[trigger] out@.contains(x),
            forall|j: int, k: int| 0 <= j < k < out.len() ==> #[trigger] out@[j] < #[trigger] out@[k],
        decreases endpoints - i,
    {
        let ghost before = out@;
        if i != source_endpoint {
            out.push(i);
            assert forall|x: usize| x < i + 1 && x != source_endpoint implies #[trigger] out@.contains(
                x,
            ) by {
                if x < i {
                    assert(before.contains(x));
                    let k = choose|k: int| 0 <= k < before.len() && before[k] == x;
                    assert(out@[k] == x);
                } else {
                    assert(out@[out@.len() - 1] == x);
                }
            }
        }
        i += 1;
    }
    out
}

/// What a request of a server needs of the database.
#[derive(Debug)]
pub enum BridgeStep {
    /// The request is answered.
    Finished(ServerResult),
    /// Run the query at a position, and answer with its first value.
    Query {
        request_id: Uuid,
        position: usize,
        plan: SqlPlan,
        query_timeout_seconds: Option<u64>,
        ttl_seconds: Option<u64>,
    },
    /// Run the statements of the store at a position, all of them or none, and
    /// forward the change.
    Persist {
        request_id: Uuid,
        position: usize,
        plans: Vec<SqlPlan>,
        is_batch: bool,
        timeout_seconds: u64,
        forward: ForwardedMutation,
    },
}

/// A [`BridgeStep`] as a mathematical value.
#[verifier::ext_equal]
pub enum BridgeStepView {
    Finished(ServerResultView),
    Query {
        request_id: Uuid,
        position: int,
        plan: PlanView,
        query_timeout_seconds: Option<u64>,
        ttl_seconds: Option<u64>,
    },
    Persist {
        request_id: Uuid,
        position: int,
        plans: Seq<PlanView>,
        is_batch: bool,
        timeout_seconds: u64,
        forward: ForwardedView,
    },
}

impl View for BridgeStep {
    type V = BridgeStepView;

    open spec fn view(&self) -> BridgeStepView {
        match self {
            BridgeStep::Finished(result) => BridgeStepView::Finished(result@),
            BridgeStep::Query { request_id, position, plan, query_timeout_seconds, ttl_seconds } =>
            BridgeStepView::Query {
                request_id: *request_id,
                position: *position as int,
                plan: plan@,
                query_timeout_seconds: *query_timeout_seconds,
                ttl_seconds: *ttl_seconds,
            },
            BridgeStep::Persist {
                request_id,
                position,
                plans,
                is_batch,
                timeout_seconds,
                forward,
            } => BridgeStepView::Persist {
                request_id: *request_id,
                position: *position as int,
                plans: crate::error::views(plans@),
                is_batch: *is_batch,
                timeout_seconds: *timeout_seconds,
                forward: forward@,
            },
        }
    }
}

/// The answer to a request for a value.
pub open spec fn query_answer(
    request_id: Uuid,
    result: Result<Option<JsonView>, AdapterErrorView>,
    ttl_seconds: Option<u64>,
) -> ServerResultView {
    match result {
        Ok(Some(value)) => ServerResultView::Query {
            request_id,
            value: Some(value),
            ttl_seconds,
            error: None,
        },
        Ok(None) => ServerResultView::Query {
            request_id,
            value: None,
            ttl_seconds: None,
            error: None,
        },
        Err(error) => ServerResultView::Query {
            request_id,
            value: None,
            ttl_seconds: None,
            error: Some(error.message()),
        },
    }
}

/// The answer to a request for a value.
pub fn query_result(
    request_id: Uuid,
    result: Result<Option<Value>, AdapterError>,
    ttl_seconds: Option<u64>,
) -> (r: ServerResult)
    ensures
        r@ == query_answer(
            request_id,
            match result {
                Ok(value) => Ok(crate::error::inner(value)),
                Err(error) => Err(error@),
            },
            ttl_seconds,
        ),
{
    match result {
        Ok(Some(value)) => ServerResult::Query {
            request_id,
            value: Some(value),
            ttl_seconds,
            error: None,
        },
        Ok(None) => ServerResult::Query {
            request_id,
            value: None,
            ttl_seconds: None,
            error: None,
        },
        Err(error) => ServerResult::Query {
            request_id,
            value: None,
            ttl_seconds: None,
            error: Some(error.message()),
        },
    }
}

/// The answer to a request that changes something.
pub open spec fn operation_answer(request_id: Uuid, result: Result<(), AdapterErrorView>) -> ServerResultView {
    ServerResultView::Operation {
        request_id,
        error: match result {
            Ok(_) => None,
            Err(error) => Some(error.message()),
        },
    }
}

/// The answer to a request that changes something.
pub fn operation(request_id: Uuid, result: Result<(), AdapterError>) -> (r: ServerResult)
    ensures
        r@ == operation_answer(request_id, crate::db::error::adapter_outcome(result)),
{
    ServerResult::Operation {
        request_id,
        error: match result {
            Ok(_) => None,
            Err(error) => Some(error.message()),
        },
    }
}

/// Routes the requests of a server to configured queries and stores.
#[derive(Debug)]
pub struct CallbackBridge {
    pub queries: Vec<DatabaseQueryProvider>,
    pub stores: Vec<DatabaseStoreWriter>,
}

/// A query stands for a route.
pub open spec fn query_stands(config: QueryConfig, namespace: Seq<char>, key: Seq<char>) -> bool {
    bridge::captured_route(config.namespace_pattern@, config.key_pattern@, namespace, key) is Some
}

/// The first query from a position on that stands for a route.
pub open spec fn first_query(
    queries: Seq<DatabaseQueryProvider>,
    namespace: Seq<char>,
    key: Seq<char>,
    position: int,
) -> Option<int>
    decreases queries.len() - position,
{
    if position < 0 || position >= queries.len() {
        None
    } else if query_stands(queries[position].config, namespace, key) {
        Some(position)
    } else {
        first_query(queries, namespace, key, position + 1)
    }
}

/// The last store before a position that stands for a route.
pub open spec fn last_store(
    stores: Seq<DatabaseStoreWriter>,
    namespace: Seq<char>,
    key_pattern: Option<Seq<char>>,
    position: int,
) -> Option<int>
    decreases position,
{
    if position <= 0 || position > stores.len() {
        None
    } else if plan::stands_for(stores[position - 1].config, namespace, key_pattern) {
        Some(position - 1)
    } else {
        last_store(stores, namespace, key_pattern, position - 1)
    }
}

/// The answer where no store stands for a change.
pub open spec fn no_store(request_id: Uuid) -> BridgeStepView {
    BridgeStepView::Finished(
        operation_answer(
            request_id,
            Err(
                AdapterErrorView::Publish(
                    crate::client::ClientErrorView::Server("no matching store"@),
                ),
            ),
        ),
    )
}

/// What one statement of a store comes to.
pub open spec fn persisted(
    request_id: Uuid,
    position: int,
    plan: Result<PlanView, AdapterErrorView>,
    timeout_seconds: u64,
    forward: ForwardedView,
) -> BridgeStepView {
    match plan {
        Err(error) => BridgeStepView::Finished(operation_answer(request_id, Err(error))),
        Ok(plan) => BridgeStepView::Persist {
            request_id,
            position,
            plans: seq![plan],
            is_batch: false,
            timeout_seconds,
            forward,
        },
    }
}

/// What a request of a server needs of the database.
pub open spec fn handled(
    queries: Seq<DatabaseQueryProvider>,
    stores: Seq<DatabaseStoreWriter>,
    command: ServerCommandView,
) -> BridgeStepView {
    let last = stores.len() as int;
    match command {
        ServerCommandView::Query { request_id, namespace, key } => match first_query(
            queries,
            namespace,
            key,
            0,
        ) {
            None => BridgeStepView::Finished(query_answer(request_id, Ok(None), None)),
            Some(position) => {
                let config = queries[position].config;
                match plan::query_plan(config, namespace, key) {
                    Err(error) => BridgeStepView::Finished(
                        query_answer(request_id, Err(error), None),
                    ),
                    Ok(None) => BridgeStepView::Finished(query_answer(request_id, Ok(None), None)),
                    Ok(Some(plan)) => BridgeStepView::Query {
                        request_id,
                        position,
                        plan,
                        query_timeout_seconds: config.timeout_seconds,
                        ttl_seconds: config.ttl_seconds,
                    },
                }
            },
        },
        ServerCommandView::PersistSet { request_id, namespace, key, value, ttl_seconds } => {
            match last_store(stores, namespace, Some(key), last) {
                None => no_store(request_id),
                Some(position) => {
                    let written = DatabaseValueView {
                        namespace,
                        key,
                        value,
                        ttl: crate::broker::ttl_nanos(ttl_seconds),
                    };
                    let config = stores[position].config;
                    persisted(
                        request_id,
                        position,
                        plan::set_plan(config, written),
                        config.timeout_seconds,
                        ForwardedView::SetValue(written),
                    )
                },
            }
        },
        ServerCommandView::PersistSetBatch { request_id, namespace, entries, ttl_seconds } => {
            let found = if entries.len() == 0 {
                None
            } else {
                last_store(stores, namespace, Some(entries[0].0), last)
            };
            match found {
                None => no_store(request_id),
                Some(position) => {
                    let config = stores[position].config;
                    let ttl = crate::broker::ttl_nanos(ttl_seconds);
                    match plan::batch_plan(config, namespace, entries, ttl) {
                        Err(error) => BridgeStepView::Finished(
                            operation_answer(request_id, Err(error)),
                        ),
                        Ok(plans) => BridgeStepView::Persist {
                            request_id,
                            position,
                            plans,
                            is_batch: true,
                            timeout_seconds: config.timeout_seconds,
                            forward: ForwardedView::SetBatch { namespace, entries, ttl },
                        },
                    }
                },
            }
        },
        ServerCommandView::PersistDelete { request_id, namespace, key_pattern } => {
            match last_store(stores, namespace, key_pattern, last) {
                None => no_store(request_id),
                Some(position) => {
                    let config = stores[position].config;
                    persisted(
                        request_id,
                        position,
                        plan::delete_plan(config, namespace, key_pattern),
                        config.timeout_seconds,
                        ForwardedView::Delete { namespace, key_pattern },
                    )
                },
            }
        },
        ServerCommandView::PersistMove { request_id, source, destination } => {
            match last_store(stores, source, None, last) {
                None => no_store(request_id),
                Some(position) => {
                    let config = stores[position].config;
                    persisted(
                        request_id,
                        position,
                        plan::move_plan(config, source, destination),
                        config.timeout_seconds,
                        ForwardedView::Move { source, destination },
                    )
                },
            }
        },
    }
}

fn unmatched(request_id: Uuid) -> (r: BridgeStep)
    ensures
        r@ == no_store(request_id),
{
    BridgeStep::Finished(
        operation(
            request_id,
            Err(AdapterError::Publish(ClientError::Server("no matching store".to_owned()))),
        ),
    )
}

fn persist(
    request_id: Uuid,
    position: usize,
    plan: Result<SqlPlan, AdapterError>,
    timeout_seconds: u64,
    forward: ForwardedMutation,
) -> (r: BridgeStep)
    ensures
        r@ == persisted(
            request_id,
            position as int,
            crate::db::error::adapter_outcome(plan),
            timeout_seconds,
            forward@,
        ),
{
    match plan {
        Err(error) => BridgeStep::Finished(operation(request_id, Err(error))),
        Ok(plan) => {
            let ghost one = plan@;
            let mut plans: Vec<SqlPlan> = Vec::new();
            plans.push(plan);
            assert(crate::error::views(plans@) =~= seq![one]);
            BridgeStep::Persist {
                request_id,
                position,
                plans,
                is_batch: false,
                timeout_seconds,
                forward,
            }
        },
    }
}

fn seconds(ttl_seconds: Option<u64>) -> (r: Option<Duration>)
    ensures
        crate::error::inner(r) == crate::broker::ttl_nanos(ttl_seconds),
{
    match ttl_seconds {
        Some(n) => Some(Duration::from_secs(n)),
        None => None,
    }
}

fn exact(key: &Key) -> (r: KeyPattern)
    ensures
        r@ == key@,
{
    match KeyPattern::new(key.as_str()) {
        Ok(pattern) => pattern,
        Err(_) => {
            assert(false);
            KeyPattern::new("*").unwrap()
        },
    }
}

impl CallbackBridge {
    pub fn new(queries: Vec<DatabaseQueryProvider>, stores: Vec<DatabaseStoreWriter>) -> (r: Self)
        ensures
            r.queries == queries,
            r.stores == stores,
    {
        CallbackBridge { queries, stores }
    }

    fn query(&self, namespace: &NamespaceContext, key: &Key) -> (r: Option<usize>)
        ensures
            match r {
                Some(i) => i < self.queries.len() && first_query(
                    self.queries@,
                    namespace@,
                    key@,
                    0,
                ) == Some(i as int),
                None => first_query(self.queries@, namespace@, key@, 0) is None,
            },
    {
        let mut i: usize = 0;
        while i < self.queries.len()
            invariant
                i <= self.queries.len(),
                first_query(self.queries@, namespace@, key@, 0) == first_query(
                    self.queries@,
                    namespace@,
                    key@,
                    i as int,
                ),
            decreases self.queries.len() - i,
        {
            if self.queries[i].matches(namespace, key) {
                return Some(i);
            }
            i += 1;
        }
        None
    }

    fn store(&self, namespace: &NamespaceContext, pattern: Option<&KeyPattern>) -> (r: Option<usize>)
        ensures
            ({
                let wanted = match pattern {
                    Some(pattern) => Some(pattern@),
                    None => None,
                };
                let found = last_store(
                    self.stores@,
                    namespace@,
                    wanted,
                    self.stores@.len() as int,
                );
                match r {
                    Some(i) => i < self.stores.len() && found == Some(i as int),
                    None => found is None,
                }
            }),
    {
        let ghost wanted = match pattern {
            Some(pattern) => Some(pattern@),
            None => None,
        };
        let mut n: usize = self.stores.len();
        while n > 0
            invariant
                n <= self.stores.len(),
                wanted == (match pattern {
                    Some(pattern) => Some(pattern@),
                    None => None,
                }),
                last_store(self.stores@, namespace@, wanted, self.stores@.len() as int)
                    == last_store(self.stores@, namespace@, wanted, n as int),
            decreases n,
        {
            if self.stores[n - 1].matches(namespace, pattern) {
                return Some(n - 1);
            }
            n -= 1;
        }
        None
    }

    /// What a request of a server needs of the database: the first query, or the
    /// last store, that stands for its route.
    pub fn handle(&self, command: ServerCommand) -> (r: BridgeStep)
        ensures
            r@ == handled(self.queries@, self.stores@, command@),
    {
        match command {
            ServerCommand::Query { request_id, namespace, key } => {
                let position = match self.query(&namespace, &key) {
                    Some(position) => position,
                    None => {
                        return BridgeStep::Finished(query_result(request_id, Ok(None), None));
                    },
                };
                let provider = &self.queries[position];
                match provider.query(&namespace, &key) {
                    Err(error) => BridgeStep::Finished(query_result(request_id, Err(error), None)),
                    Ok(None) => BridgeStep::Finished(query_result(request_id, Ok(None), None)),
                    Ok(Some(plan)) => BridgeStep::Query {
                        request_id,
                        position,
                        plan,
                        query_timeout_seconds: provider.config.timeout_seconds,
                        ttl_seconds: provider.config.ttl_seconds,
                    },
                }
            },
            ServerCommand::PersistSet { request_id, namespace, key, value, ttl_seconds } => {
                let pattern = exact(&key);
                match self.store(&namespace, Some(&pattern)) {
                    None => unmatched(request_id),
                    Some(position) => {
                        let store = &self.stores[position];
                        let written = DatabaseValue {
                            namespace,
                            key,
                            value,
                            ttl: seconds(ttl_seconds),
                        };
                        let plan = store.set(&written);
                        persist(
                            request_id,
                            position,
                            plan,
                            store.config.timeout_seconds,
                            ForwardedMutation::SetValue(written),
                        )
                    },
                }
            },
            ServerCommand::PersistSetBatch { request_id, namespace, entries, ttl_seconds } => {
                if entries.len() == 0 {
                    return unmatched(request_id);
                }
                assert(crate::error::views(entries@)[0] == entries@[0]@);
                let pattern = exact(&entries[0].key);
                match self.store(&namespace, Some(&pattern)) {
                    None => unmatched(request_id),
                    Some(position) => {
                        let store = &self.stores[position];
                        let ttl = seconds(ttl_seconds);
                        match store.set_batch(&namespace, &entries, ttl) {
                            Err(error) => BridgeStep::Finished(operation(request_id, Err(error))),
                            Ok(plans) => BridgeStep::Persist {
                                request_id,
                                position,
                                plans,
                                is_batch: true,
                                timeout_seconds: store.config.timeout_seconds,
                                forward: ForwardedMutation::SetBatch { namespace, entries, ttl },
                            },
                        }
                    },
                }
            },
            ServerCommand::PersistDelete { request_id, namespace, key_pattern } => {
                match self.store(&namespace, key_pattern.as_ref()) {
                    None => unmatched(request_id),
                    Some(position) => {
                        let store = &self.stores[position];
                        let plan = store.delete(&namespace, key_pattern.as_ref());
                        persist(
                            request_id,
                            position,
                            plan,
                            store.config.timeout_seconds,
                            ForwardedMutation::Delete { namespace, key_pattern },
                        )
                    },
                }
            },
            ServerCommand::PersistMove { request_id, source, destination } => {
                match self.store(&source, None) {
                    None => unmatched(request_id),
                    Some(position) => {
                        let store = &self.stores[position];
                        let plan = store.move_namespace(&source, &destination);
                        persist(
                            request_id,
                            position,
                            plan,
                            store.config.timeout_seconds,
                            ForwardedMutation::Move { source, destination },
                        )
                    },
                }
            },
        }
    }
}

/// Every request of a server is answered under its own identifier.
pub proof fn answers_keep_their_request(
    queries: Seq<DatabaseQueryProvider>,
    stores: Seq<DatabaseStoreWriter>,
    command: ServerCommandView,
)
    ensures
        ({
            let id = match command {
                ServerCommandView::Query { request_id, .. } => request_id,
                ServerCommandView::PersistSet { request_id, .. } => request_id,
                ServerCommandView::PersistSetBatch { request_id, .. } => request_id,
                ServerCommandView::PersistDelete { request_id, .. } => request_id,
                ServerCommandView::PersistMove { request_id, .. } => request_id,
            };
            match handled(queries, stores, command) {
                BridgeStepView::Finished(ServerResultView::Query { request_id, .. }) => request_id
                    == id,
                BridgeStepView::Finished(ServerResultView::Operation { request_id, .. }) =>
                request_id == id,
                BridgeStepView::Query { request_id, .. } => request_id == id,
                BridgeStepView::Persist { request_id, .. } => request_id == id,
            }
        }),
{
}

/// A later store stands before an earlier one: a store that stands for a route is
/// passed over only for one after it.
pub proof fn later_stores_come_first(
    stores: Seq<DatabaseStoreWriter>,
    namespace: Seq<char>,
    key_pattern: Option<Seq<char>>,
    position: int,
    i: int,
)
    requires
        0 <= i < position <= stores.len(),
        plan::stands_for(stores[i].config, namespace, key_pattern),
    ensures
        last_store(stores, namespace, key_pattern, position) matches Some(found) && found >= i
            && plan::stands_for(stores[found].config, namespace, key_pattern),
    decreases position,
{
    if !plan::stands_for(stores[position - 1].config, namespace, key_pattern) {
        later_stores_come_first(stores, namespace, key_pattern, position - 1, i);
    }
}

/// What is wrong with each query on its own.
pub open spec fn provider_complaints(queries: Seq<(String, QueryConfig)>) -> Seq<
    Option<Seq<char>>,
> {
    Seq::new(queries.len(), |i: int| plan::provider_complaint(queries[i].1))
}

/// What is wrong with each store on its own.
pub open spec fn writer_complaints(stores: Seq<(String, StoreConfig)>) -> Seq<Option<Seq<char>>> {
    Seq::new(stores.len(), |i: int| plan::writer_complaint(stores[i].1))
}

fn providers_of(configs: Vec<(String, QueryConfig)>) -> (r: Result<
    Vec<DatabaseQueryProvider>,
    AdapterError,
>)
    ensures
        match checks::first_of(provider_complaints(configs@)) {
            Some(message) => r matches Err(error) && error@ == AdapterErrorView::Configuration(
                message,
            ),
            None => r matches Ok(queries) && queries@.len() == configs@.len() && forall|i: int|
                0 <= i < queries@.len() ==> (#[trigger] queries@[i]).config == configs@[i].1,
        },
{
    let ghost all = configs@;
    let ghost complaints = provider_complaints(all);
    let mut queries: Vec<DatabaseQueryProvider> = Vec::new();
    let mut left = text::reversed(configs);
    assert(complaints.take(0) =~= Seq::empty());
    while left.len() > 0
        invariant
            all == configs@,
            complaints == provider_complaints(all),
            left.len() + queries.len() == all.len(),
            left@ == all.reverse().take(left.len() as int),
            checks::first_of(complaints.take(queries.len() as int)) is None,
            forall|i: int|
                0 <= i < queries@.len() ==> (#[trigger] queries@[i]).config == all[i].1,
        decreases left.len(),
    {
        let ghost n = left.len() - 1;
        let ghost done = queries.len() as int;
        proof {
            assert(complaints.take(done + 1).drop_last() =~= complaints.take(done));
            assert(complaints.take(done + 1).last() == plan::provider_complaint(all[done].1));
        }
        if let Some((_, config)) = left.pop() {
            match DatabaseQueryProvider::new(config) {
                Ok(query) => {
                    queries.push(query);
                },
                Err(error) => {
                    proof {
                        checks::lemma_first_of(complaints, done + 1);
                    }
                    return Err(error);
                },
            }
        }
        assert(left@ =~= all.reverse().take(n));
    }
    assert(complaints.take(all.len() as int) =~= complaints);
    Ok(queries)
}

fn writers_of(configs: Vec<(String, StoreConfig)>) -> (r: Result<
    Vec<DatabaseStoreWriter>,
    AdapterError,
>)
    ensures
        match checks::first_of(writer_complaints(configs@)) {
            Some(message) => r matches Err(error) && error@ == AdapterErrorView::Configuration(
                message,
            ),
            None => r matches Ok(stores) && stores@.len() == configs@.len() && forall|i: int|
                0 <= i < stores@.len() ==> (#[trigger] stores@[i]).config == configs@[i].1,
        },
{
    let ghost all = configs@;
    let ghost complaints = writer_complaints(all);
    let mut stores: Vec<DatabaseStoreWriter> = Vec::new();
    let mut left = text::reversed(configs);
    assert(complaints.take(0) =~= Seq::empty());
    while left.len() > 0
        invariant
            all == configs@,
            complaints == writer_complaints(all),
            left.len() + stores.len() == all.len(),
            left@ == all.reverse().take(left.len() as int),
            checks::first_of(complaints.take(stores.len() as int)) is None,
            forall|i: int| 0 <= i < stores@.len() ==> (#[trigger] stores@[i]).config == all[i].1,
        decreases left.len(),
    {
        let ghost n = left.len() - 1;
        let ghost done = stores.len() as int;
        proof {
            assert(complaints.take(done + 1).drop_last() =~= complaints.take(done));
            assert(complaints.take(done + 1).last() == plan::writer_complaint(all[done].1));
        }
        if let Some((_, config)) = left.pop() {
            match DatabaseStoreWriter::new(config) {
                Ok(store) => {
                    stores.push(store);
                },
                Err(error) => {
                    proof {
                        checks::lemma_first_of(complaints, done + 1);
                    }
                    return Err(error);
                },
            }
        }
        assert(left@ =~= all.reverse().take(n));
    }
    assert(complaints.take(all.len() as int) =~= complaints);
    Ok(stores)
}

impl AdapterConfig {
    /// What answers the requests of a server: the queries and the stores in the order
    /// of their names.
    pub fn database_callback_bridge(self) -> (r: Result<CallbackBridge, AdapterError>)
        ensures
            match checks::either(
                checks::first_of(provider_complaints(self.queries@)),
                checks::first_of(writer_complaints(self.stores@)),
            ) {
                Some(message) => r matches Err(error) && error@ == AdapterErrorView::Configuration(
                    message,
                ),
                None => {
                    &&& r matches Ok(bridge)
                    &&& bridge.queries@.len() == self.queries@.len()
                    &&& bridge.stores@.len() == self.stores@.len()
                    &&& forall|i: int|
                        0 <= i < bridge.queries@.len() ==> (#[trigger] bridge.queries@[i]).config
                            == self.queries@[i].1
                    &&& forall|i: int|
                        0 <= i < bridge.stores@.len() ==> (#[trigger] bridge.stores@[i]).config
                            == self.stores@[i].1
                },
            },
    {
        let queries = match providers_of(self.queries) {
            Ok(queries) => queries,
            Err(error) => {
                return Err(error);
            },
        };
        match writers_of(self.stores) {
            Ok(stores) => Ok(CallbackBridge::new(queries, stores)),
            Err(error) => Err(error),
        }
    }
}

} // verus!
