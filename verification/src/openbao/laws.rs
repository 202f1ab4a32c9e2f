//! What the requests of a server come to in the key-value store.

use crate::json::{self, JsonView};
use crate::openbao::bridge::{
    self, BaoValueView, BridgeStepView, ForwardedView, IndexChangeView, IndexTaskView,
    OpenBaoQueryProvider, OpenBaoStoreWriter, QueryStepView, StoreStepView,
};
use crate::openbao::client::{self, Answer, VersionedView};
use crate::openbao::config::StoreConfig;
use crate::openbao::error::AdapterErrorView;
use crate::openbao::index;
use crate::openbao::mapping;
use crate::openbao::percent;
use crate::openbao::sync::{self, ListingView, ReadingView, SyncStepView};
use crate::pattern;
use crate::protocol::{CommandView, ServerCommandView, ServerResultView, Uuid};
use crate::route;
use crate::text;
use vstd::prelude::*;

verus! {

/// A value that was found is the answer under the identifier of the request, with the
/// whole seconds of its time to live and without an error. Where nothing was found the
/// answer is empty, and a failure is told.
pub proof fn found_values_are_answered(request_id: Uuid, value: BaoValueView, error: AdapterErrorView)
    ensures
        bridge::query_answer(request_id, Ok(Some(value))) matches ServerResultView::Query {
            request_id: id,
            value: answered,
            ttl_seconds,
            error: told,
        } && id == request_id && answered == Some(value.value) && told is None && (ttl_seconds
            is Some <==> value.ttl is Some) && (value.ttl is Some && value.ttl->0
            < 0x1_0000_0000_0000_0000 * 1_000_000_000 ==> ttl_seconds->0 * 1_000_000_000
            <= value.ttl->0 < (ttl_seconds->0 + 1) * 1_000_000_000),
        bridge::query_answer(request_id, Ok(None)) == (ServerResultView::Query {
            request_id,
            value: None,
            ttl_seconds: None,
            error: None,
        }),
        bridge::query_answer(request_id, Err(error)) == (ServerResultView::Query {
            request_id,
            value: None,
            ttl_seconds: None,
            error: Some(error.message()),
        }),
        bridge::operation_answer(request_id, Ok(())) == (ServerResultView::Operation {
            request_id,
            error: None,
        }),
        bridge::operation_answer(request_id, Err(error)) == (ServerResultView::Operation {
            request_id,
            error: Some(error.message()),
        }),
{
}

/// The whole seconds of a time to live, in nanoseconds.
pub open spec fn in_whole_seconds(ttl: Option<nat>) -> Option<nat> {
    match ttl {
        Some(nanos) => Some((nanos - nanos % 1_000_000_000) as nat),
        None => None,
    }
}

proof fn lemma_whole_seconds(ttl: Option<nat>)
    ensures
        in_whole_seconds(ttl) == (match ttl {
            Some(nanos) => Some((nanos / 1_000_000_000) * 1_000_000_000),
            None => None::<nat>,
        }),
{
}

/// A value without a context that is persisted is written where a query of its route
/// reads it, and the query is answered with that very value; deleting its key removes
/// that document.
pub proof fn persisted_values_are_given_back(
    prefix: Seq<char>,
    value: BaoValueView,
    version: u64,
    generates: bool,
)
    requires
        route::context_of(value.namespace) is None,
        value.key.len() > 0,
        value.key[value.key.len() - 1] != '*',
        value.ttl matches Some(nanos) ==> nanos <= crate::duration::max_nanos(),
    ensures
        ({
            let query = (value.namespace, value.key);
            &&& bridge::set_step(prefix, value) matches StoreStepView::WriteValue { path, document }
            &&& bridge::query_step(prefix, value.namespace, value.key) == (
            QueryStepView::ReadValue { path, query })
            &&& bridge::document_read(
                generates,
                path,
                query,
                Ok(Some(VersionedView { value: document, version })),
            ) == QueryStepView::Finished(
                Ok(Some(BaoValueView { ttl: in_whole_seconds(value.ttl), ..value })),
            )
            &&& bridge::delete_step(prefix, value.namespace, Some(value.key)) == (
            StoreStepView::DeleteValue { path })
        }),
{
    bridge::documents_are_read_back(value);
    lemma_whole_seconds(value.ttl);
}

/// A value with a context is written below the collection of its context, and a query of
/// its route reads it there by the same index; deleting its key removes that document.
pub proof fn persisted_context_values_are_given_back(
    prefix: Seq<char>,
    value: BaoValueView,
    context: Seq<char>,
    document: VersionedView,
    collection: Seq<char>,
    fresh: Seq<char>,
    version: u64,
    generates: bool,
)
    requires
        route::context_of(value.namespace) == Some(context),
        index::collection_in(document.value, context) == Some(collection),
        value.key.len() > 0,
        value.key[value.key.len() - 1] != '*',
        value.ttl matches Some(nanos) ==> nanos <= crate::duration::max_nanos(),
    ensures
        ({
            let query = (value.namespace, value.key);
            &&& bridge::set_step(prefix, value) matches StoreStepView::ReadIndex {
                path: index_path,
                task,
            }
            &&& bridge::query_step(prefix, value.namespace, value.key) == (
            QueryStepView::ReadIndex { path: index_path, query })
            &&& bridge::index_step(
                prefix,
                task,
                Some(document),
                fresh,
            ) matches StoreStepView::WriteValue { path, document: written }
            &&& bridge::collection_read(prefix, query, Ok(Some(document))) == (
            QueryStepView::ReadValue { path, query })
            &&& bridge::document_read(
                generates,
                path,
                query,
                Ok(Some(VersionedView { value: written, version })),
            ) == QueryStepView::Finished(
                Ok(Some(BaoValueView { ttl: in_whole_seconds(value.ttl), ..value })),
            )
            &&& bridge::delete_step(
                prefix,
                value.namespace,
                Some(value.key),
            ) matches StoreStepView::ReadIndex { path: deleting_path, task: deleting }
            &&& deleting_path == index_path
            &&& bridge::index_step(prefix, deleting, Some(document), fresh) == (
            StoreStepView::DeleteValue { path })
        }),
{
    bridge::documents_are_read_back(value);
    lemma_whole_seconds(value.ttl);
}

/// A context without a collection is given one before its first value is written: the
/// index is written over the version that was read, and once that is done the value is
/// written below the collection, under which a query finds it by the new index.
pub proof fn new_contexts_are_given_a_collection(
    prefix: Seq<char>,
    value: BaoValueView,
    context: Seq<char>,
    found: VersionedView,
    fresh: Seq<char>,
    attempt: u32,
    version: u64,
)
    requires
        route::context_of(value.namespace) == Some(context),
        index::contexts_of(found.value) matches Some((_, _, contexts)) && index::distinct(contexts),
        index::collection_in(found.value, context) is None,
        index::claim(Some(found), context, fresh) is Ok,
    ensures
        ({
            let query = (value.namespace, value.key);
            let path = bridge::index_path(prefix, value.namespace);
            &&& bridge::index_step(prefix, IndexTaskView::Find(value), Some(found), fresh) == (
            StoreStepView::ReadIndex { path, task: IndexTaskView::Claim { value, attempt: 1 } })
            &&& bridge::index_step(prefix, IndexTaskView::Find(value), None, fresh) == (
            StoreStepView::ReadIndex { path, task: IndexTaskView::Claim { value, attempt: 1 } })
            &&& bridge::index_step(
                prefix,
                IndexTaskView::Claim { value, attempt },
                Some(found),
                fresh,
            ) matches StoreStepView::WriteIndex { path: written, index: next, version: over, change }
            &&& written == path
            &&& over == found.version
            &&& index::collection_in(next, context) == Some(fresh)
            &&& bridge::change_step(prefix, change, true) matches StoreStepView::WriteValue {
                path: value_path,
                document,
            }
            &&& document == bridge::document_for(value)
            &&& bridge::collection_read(
                prefix,
                query,
                Ok(Some(VersionedView { value: next, version })),
            ) == (QueryStepView::ReadValue { path: value_path, query })
        }),
{
    index::claims_are_found(found, context, fresh, context);
    let (members, i, contexts) = index::contexts_of(found.value)->0;
    match json::member_from(contexts, context, 0) {
        Some(k) => {
            assert(json::member(JsonView::Object(contexts), context) == Some(contexts[k].1));
        },
        None => {},
    }
}

/// A move that the store allows rewrites the index of the base namespace alone: what was
/// found under the source is found under the destination then, at the same place. It ends
/// there; without an index, or without the source in it, nothing is done.
pub proof fn moved_values_are_found_at_their_destination(
    prefix: Seq<char>,
    config: StoreConfig,
    source: Seq<char>,
    destination: Seq<char>,
    from: Seq<char>,
    to: Seq<char>,
    found: VersionedView,
    collection: Seq<char>,
    fresh: Seq<char>,
    key: Seq<char>,
    attempt: u32,
    version: u64,
)
    requires
        config.allow_context_move,
        route::context_of(source) == Some(from),
        route::context_of(destination) == Some(to),
        route::base_of(source) == route::base_of(destination),
        from != to,
        index::contexts_of(found.value) matches Some((_, _, contexts)) && index::distinct(contexts),
        index::collection_in(found.value, from) == Some(collection),
        index::relocation(found.value, from, to) matches Ok(Some(_)),
    ensures
        ({
            let path = bridge::index_path(prefix, source);
            &&& bridge::move_step(prefix, config, source, destination) == (
            StoreStepView::ReadIndex {
                path,
                task: IndexTaskView::Relocate { source, destination, attempt: 1 },
            })
            &&& bridge::index_step(
                prefix,
                IndexTaskView::Relocate { source, destination, attempt },
                Some(found),
                fresh,
            ) matches StoreStepView::WriteIndex { path: written, index: next, version: over, change }
            &&& written == path
            &&& over == found.version
            &&& bridge::change_step(prefix, change, true) == StoreStepView::Finished(Ok(()))
            &&& bridge::collection_read(
                prefix,
                (source, key),
                Ok(Some(found)),
            ) matches QueryStepView::ReadValue { path: before, .. }
            &&& bridge::collection_read(
                prefix,
                (destination, key),
                Ok(Some(VersionedView { value: next, version })),
            ) == (QueryStepView::ReadValue { path: before, query: (destination, key) })
            &&& !(bridge::collection_read(
                prefix,
                (source, key),
                Ok(Some(VersionedView { value: next, version })),
            ) is ReadValue)
            &&& bridge::index_step(
                prefix,
                IndexTaskView::Relocate { source, destination, attempt },
                None,
                fresh,
            ) == StoreStepView::Finished(Ok(()))
        }),
{
    index::moves_carry_the_collection(found.value, from, to, from);
}

/// A move is refused where the store does not allow it, or where it would leave the base
/// namespace; so are the deletion of a namespace, of a pattern with a star, and a batch.
pub proof fn unsupported_changes_are_refused(
    prefix: Seq<char>,
    config: StoreConfig,
    source: Seq<char>,
    destination: Seq<char>,
    pattern: Seq<char>,
)
    ensures
        !config.allow_context_move ==> bridge::move_step(prefix, config, source, destination)
            == StoreStepView::Finished(Err(AdapterErrorView::Unsupported("context move"@))),
        config.allow_context_move && route::base_of(source) != route::base_of(destination)
            ==> bridge::move_step(prefix, config, source, destination) matches StoreStepView::Finished(
            Err(_),
        ),
        bridge::delete_step(prefix, source, None) == StoreStepView::Finished(
            Err(AdapterErrorView::Unsupported("namespace delete"@)),
        ),
        bridge::delete_step(prefix, source, Some(pattern.push('*'))) == StoreStepView::Finished(
            Err(AdapterErrorView::Unsupported("wildcard delete"@)),
        ),
{
}

/// An index that was overtaken is read and changed again, the same way; after eight
/// attempts the change fails.
pub proof fn overtaken_changes_are_tried_again(
    prefix: Seq<char>,
    value: BaoValueView,
    collection: Seq<char>,
    source: Seq<char>,
    destination: Seq<char>,
    attempt: u32,
)
    ensures
        attempt < 8 ==> bridge::change_step(
            prefix,
            IndexChangeView::Claimed { value, collection, attempt },
            false,
        ) == (StoreStepView::ReadIndex {
            path: bridge::index_path(prefix, value.namespace),
            task: IndexTaskView::Claim { value, attempt: (attempt + 1) as u32 },
        }),
        attempt < 8 ==> bridge::change_step(
            prefix,
            IndexChangeView::Relocated { source, destination, attempt },
            false,
        ) == (StoreStepView::ReadIndex {
            path: bridge::index_path(prefix, source),
            task: IndexTaskView::Relocate { source, destination, attempt: (attempt + 1) as u32 },
        }),
        attempt >= 8 ==> (bridge::change_step(
            prefix,
            IndexChangeView::Claimed { value, collection, attempt },
            false,
        ) matches StoreStepView::Finished(Err(_))),
        attempt >= 8 ==> (bridge::change_step(
            prefix,
            IndexChangeView::Relocated { source, destination, attempt },
            false,
        ) matches StoreStepView::Finished(Err(_))),
{
}

/// A document that is not there is no value, unless the query makes a key: then it is
/// written where it was looked for, and what is there afterwards is the answer, whoever
/// wrote it. A failure is passed on, and so is a context without a collection.
pub proof fn missing_documents_are_no_value(
    prefix: Seq<char>,
    path: Seq<char>,
    query: (Seq<char>, Seq<char>),
    document: VersionedView,
    error: AdapterErrorView,
)
    ensures
        bridge::document_read(false, path, query, Ok(None)) == QueryStepView::Finished(Ok(None)),
        bridge::document_read(true, path, query, Ok(None)) == (QueryStepView::Create {
            path,
            query,
        }),
        bridge::document_read_again(query, Ok(Some(document))) == bridge::document_read(
            true,
            path,
            query,
            Ok(Some(document)),
        ),
        bridge::document_read_again(query, Ok(None)) matches QueryStepView::Finished(Err(_)),
        bridge::document_read_again(query, Err(error)) == QueryStepView::Finished(Err(error)),
        forall|generates: bool| #[trigger]
            bridge::document_read(generates, path, query, Err(error)) == QueryStepView::Finished(
                Err(error),
            ),
        bridge::collection_read(prefix, query, Err(error)) == QueryStepView::Finished(Err(error)),
        bridge::collection_read(prefix, query, Ok(None)) matches QueryStepView::Finished(Err(_)),
{
}

/// A permission record answers for the key that it names and for no other.
pub proof fn records_answer_for_their_key(
    namespace: Seq<char>,
    key: Seq<char>,
    other: Seq<char>,
    value: JsonView,
    ttl: Option<nat>,
)
    requires
        mapping::is_auth(namespace),
        key.len() > 0,
        other != key,
        ttl matches Some(nanos) ==> nanos <= crate::duration::max_nanos(),
    ensures
        bridge::value_in((namespace, key), mapping::auth_document(key, value, ttl)) == Ok::<
            BaoValueView,
            AdapterErrorView,
        >(BaoValueView { namespace, key, value, ttl: in_whole_seconds(ttl) }),
        bridge::value_in((namespace, other), mapping::auth_document(key, value, ttl)) is Err,
{
    mapping::auth_documents_are_read_back(key, value, ttl);
    lemma_whole_seconds(ttl);
}

/// A generated key is the digits of two random identifiers, with the second at which it
/// was made where the query records that.
pub proof fn generated_keys_hold_two_identifiers(
    config: crate::openbao::config::QueryConfig,
    namespace: Seq<char>,
    key: Seq<char>,
    first: Uuid,
    second: Uuid,
    now: u64,
)
    requires
        !mapping::is_auth(namespace),
    ensures
        ({
            let digits = JsonView::Text(
                crate::words::simple_text(first) + crate::words::simple_text(second),
            );
            let found = bridge::value_in(
                (namespace, key),
                bridge::new_record(config, (namespace, key), first, second, now),
            );
            &&& found matches Ok(made)
            &&& made.namespace == namespace && made.key == key && made.ttl is None
            &&& json::member(made.value, "key"@) == Some(digits)
            &&& config.on_missing.record_created_unix_seconds ==> json::member(
                made.value,
                "created"@,
            ) == Some(JsonView::Number(text::decimal(now as nat)))
            &&& !config.on_missing.record_created_unix_seconds ==> json::member(
                made.value,
                "created"@,
            ) is None
        }),
{
    reveal_strlit("key");
    reveal_strlit("created");
    reveal_strlit("value");
    reveal_strlit("ttl_seconds");
    assert("key"@.len() == 3 && "created"@.len() == 7 && "value"@.len() == 5
        && "ttl_seconds"@.len() == 11);
    reveal_with_fuel(json::member_from, 3);
    let document = bridge::new_record(config, (namespace, key), first, second, now);
    let members = document->Object_0;
    assert(members.len() == 1 && members[0].0 == "value"@);
    let record = members[0].1->Object_0;
    if config.on_missing.record_created_unix_seconds {
        assert(record[0].0 == "created"@ && record[1].0 == "key"@);
    } else {
        assert(record.len() == 1 && record[0].0 == "key"@);
    }
    assert(json::member_from(members, "value"@, 0) == Some(0int));
}

/// Values, contexts and indexes have their own places below the prefix of the mapping,
/// their names encoded.
pub proof fn documents_have_their_places(
    prefix: Seq<char>,
    namespace: Seq<char>,
    key: Seq<char>,
    context: Seq<char>,
    collection: Seq<char>,
)
    ensures
        route::context_of(namespace) is None && namespace != "/__auth"@ ==> bridge::path_of(
            prefix,
            namespace,
            key,
            None,
        ) == prefix + "/values/"@ + percent::segment(namespace) + "/root"@ + "/"@
            + percent::segment(key),
        route::context_of(namespace) == Some(context) ==> bridge::path_of(
            prefix,
            namespace,
            key,
            Some(collection),
        ) == prefix + "/values/"@ + percent::segment(route::base_of(namespace)) + "/contexts/"@
            + collection + "/"@ + percent::segment(key),
        bridge::index_path(prefix, namespace) == prefix + "/indexes/"@ + percent::segment(
            route::base_of(namespace),
        ),
{
}

/// Whether the patterns of a query stand for a route.
pub open spec fn asks(query: OpenBaoQueryProvider, namespace: Seq<char>, key: Seq<char>) -> bool {
    pattern::pattern_match(query.config.namespace_pattern@, namespace) is Some
        && pattern::pattern_match(query.config.key_pattern@, key) is Some
}

/// Whether the patterns of a store stand for a change.
pub open spec fn keeps(
    store: OpenBaoStoreWriter,
    namespace: Seq<char>,
    key_pattern: Option<Seq<char>>,
) -> bool {
    &&& pattern::pattern_match(store.config.namespace_pattern@, namespace) is Some
    &&& key_pattern matches Some(key) ==> pattern::pattern_match(store.config.key_pattern@, key)
        is Some
}

proof fn lemma_first_query(
    queries: Seq<OpenBaoQueryProvider>,
    namespace: Seq<char>,
    key: Seq<char>,
    from: int,
)
    requires
        0 <= from <= queries.len(),
    ensures
        match bridge::first_query(queries, namespace, key, from) {
            Some(i) => from <= i < queries.len() && asks(queries[i], namespace, key) && forall|
                j: int,
            |
                from <= j < i ==> !asks(#[trigger] queries[j], namespace, key),
            None => forall|j: int|
                from <= j < queries.len() ==> !asks(#[trigger] queries[j], namespace, key),
        },
    decreases queries.len() - from,
{
    if from < queries.len() && !asks(queries[from], namespace, key) {
        lemma_first_query(queries, namespace, key, from + 1);
    }
}

proof fn lemma_last_store(
    stores: Seq<OpenBaoStoreWriter>,
    namespace: Seq<char>,
    key_pattern: Option<Seq<char>>,
    position: int,
)
    requires
        0 <= position <= stores.len(),
    ensures
        match bridge::last_store(stores, namespace, key_pattern, position) {
            Some(i) => 0 <= i < position && keeps(stores[i], namespace, key_pattern) && forall|
                j: int,
            |
                i < j < position ==> !keeps(#[trigger] stores[j], namespace, key_pattern),
            None => forall|j: int|
                0 <= j < position ==> !keeps(#[trigger] stores[j], namespace, key_pattern),
        },
    decreases position,
{
    if position > 0 && !keeps(stores[position - 1], namespace, key_pattern) {
        lemma_last_store(stores, namespace, key_pattern, position - 1);
    }
}

/// The last of the stores that stand for a change.
pub open spec fn is_last(
    stores: Seq<OpenBaoStoreWriter>,
    namespace: Seq<char>,
    key_pattern: Option<Seq<char>>,
    i: int,
) -> bool {
    &&& 0 <= i < stores.len()
    &&& keeps(stores[i], namespace, key_pattern)
    &&& forall|j: int| i < j < stores.len() ==> !keeps(#[trigger] stores[j], namespace, key_pattern)
}

/// A change that is not made.
pub open spec fn refused(request_id: Uuid, what: Seq<char>) -> BridgeStepView {
    BridgeStepView::Finished(
        ServerResultView::Operation {
            request_id,
            error: Some(AdapterErrorView::Unsupported(what).message()),
        },
    )
}

/// A request for a value reads it through the first query that stands for the route;
/// without one the answer is empty.
pub proof fn values_are_asked_of_the_first_query(
    queries: Seq<OpenBaoQueryProvider>,
    stores: Seq<OpenBaoStoreWriter>,
    request_id: Uuid,
    namespace: Seq<char>,
    key: Seq<char>,
    i: int,
)
    requires
        0 <= i <= queries.len(),
        i < queries.len() ==> asks(queries[i], namespace, key),
        forall|j: int| 0 <= j < i ==> !asks(#[trigger] queries[j], namespace, key),
    ensures
        bridge::handled(
            queries,
            stores,
            ServerCommandView::Query { request_id, namespace, key },
        ) == if i == queries.len() {
            BridgeStepView::Finished(
                ServerResultView::Query { request_id, value: None, ttl_seconds: None, error: None },
            )
        } else {
            BridgeStepView::Query {
                request_id,
                position: i,
                read: bridge::query_step(queries[i].mapping@, namespace, key),
            }
        },
{
    lemma_first_query(queries, namespace, key, 0);
    if let Some(k) = bridge::first_query(queries, namespace, key, 0) {
        assert(asks(queries[k], namespace, key));
    }
}

/// A change is made by the last store that stands for it, as it was asked for, and the
/// other servers are told of that very change. Batches, and what no store stands for, are
/// refused.
pub proof fn changes_are_made_by_the_last_store(
    queries: Seq<OpenBaoQueryProvider>,
    stores: Seq<OpenBaoStoreWriter>,
    request_id: Uuid,
    namespace: Seq<char>,
    key: Seq<char>,
    value: JsonView,
    ttl_seconds: Option<u64>,
    key_pattern: Option<Seq<char>>,
    destination: Seq<char>,
    entries: Seq<(Seq<char>, JsonView)>,
    i: int,
)
    ensures
        ({
            let handled = |command: ServerCommandView| bridge::handled(queries, stores, command);
            let set = handled(
                ServerCommandView::PersistSet { request_id, namespace, key, value, ttl_seconds },
            );
            let written = BaoValueView {
                namespace,
                key,
                value,
                ttl: match ttl_seconds {
                    Some(n) => Some((n * 1_000_000_000) as nat),
                    None => None,
                },
            };
            let delete = handled(
                ServerCommandView::PersistDelete { request_id, namespace, key_pattern },
            );
            let moved = handled(
                ServerCommandView::PersistMove { request_id, source: namespace, destination },
            );
            &&& is_last(stores, namespace, Some(key), i) ==> set == (BridgeStepView::Persist {
                request_id,
                position: i,
                change: bridge::set_step(stores[i].mapping@, written),
                forward: ForwardedView::SetValue(written),
            })
            &&& is_last(stores, namespace, key_pattern, i) ==> delete == (BridgeStepView::Persist {
                request_id,
                position: i,
                change: bridge::delete_step(stores[i].mapping@, namespace, key_pattern),
                forward: ForwardedView::Delete { namespace, key_pattern },
            })
            &&& is_last(stores, namespace, None, i) ==> moved == (BridgeStepView::Persist {
                request_id,
                position: i,
                change: bridge::move_step(
                    stores[i].mapping@,
                    stores[i].config,
                    namespace,
                    destination,
                ),
                forward: ForwardedView::Move { source: namespace, destination },
            })
            &&& (forall|j: int|
                0 <= j < stores.len() ==> !keeps(#[trigger] stores[j], namespace, Some(key)))
                ==> set == refused(request_id, "no matching store"@)
            &&& (forall|j: int|
                0 <= j < stores.len() ==> !keeps(#[trigger] stores[j], namespace, key_pattern))
                ==> delete == refused(request_id, "no matching store"@)
            &&& (forall|j: int|
                0 <= j < stores.len() ==> !keeps(#[trigger] stores[j], namespace, None)) ==> moved
                == refused(request_id, "no matching store"@)
            &&& handled(
                ServerCommandView::PersistSetBatch { request_id, namespace, entries, ttl_seconds },
            ) == refused(request_id, "batch persistence"@)
        }),
{
    lemma_last_store(stores, namespace, Some(key), stores.len() as int);
    lemma_last_store(stores, namespace, key_pattern, stores.len() as int);
    lemma_last_store(stores, namespace, None, stores.len() as int);
}

/// A change is made on another server by the command that made it here.
pub proof fn forwarded_changes_are_the_same(
    namespace: Seq<char>,
    key: Seq<char>,
    value: JsonView,
    ttl_seconds: Option<u64>,
    key_pattern: Option<Seq<char>>,
    destination: Seq<char>,
)
    ensures
        ({
            let ttl = match ttl_seconds {
                Some(n) => Some((n * 1_000_000_000) as nat),
                None => None,
            };
            bridge::forwarded(ForwardedView::SetValue(BaoValueView { namespace, key, value, ttl }))
                == (CommandView::SetValue { namespace, key, value, ttl_seconds })
        }),
        bridge::forwarded(ForwardedView::Delete { namespace, key_pattern }) == (
        CommandView::Delete { namespace, key_pattern }),
        bridge::forwarded(ForwardedView::Move { source: namespace, destination }) == (
        CommandView::Move { source: namespace, destination }),
{
}

/// Listed names are read one after the other in the order given, each for the key that it
/// encodes; one whose document is gone is passed over, and at the end the values that were
/// read are the result, in that order.
pub proof fn listed_keys_are_read_in_order(
    namespace: Seq<char>,
    collection: Seq<char>,
    key: Seq<char>,
    names: Seq<Seq<char>>,
    values: Seq<BaoValueView>,
    document: VersionedView,
    value: JsonView,
)
    requires
        key.len() > 0,
        json::member(document.value, "value"@) == Some(value),
        json::member(document.value, "ttl_seconds"@) is None,
    ensures
        ({
            let all = seq![percent::segment(key)] + names;
            let reading = ReadingView::Key { namespace, collection, key, names, values };
            let read = BaoValueView { namespace, key, value, ttl: None };
            &&& sync::next_key(namespace, collection, Seq::empty(), values)
                == SyncStepView::Finished(Ok(values))
            &&& sync::next_key(namespace, collection, all, values) == (SyncStepView::Read {
                path: collection + "/"@ + percent::segment(key),
                reading,
            })
            &&& sync::reading_step(reading, Some(document)) == sync::next_key(
                namespace,
                collection,
                names,
                values.push(read),
            )
            &&& sync::reading_step(reading, None) == sync::next_key(
                namespace,
                collection,
                names,
                values,
            )
        }),
{
    let all = seq![percent::segment(key)] + names;
    percent::decode_after_encode(key);
    percent::segments_are_safe(key, percent::segment(key).len() - 1);
    assert(all[0] == percent::segment(key));
    assert(all.skip(1) =~= names);
}

/// A document that the store has is read with its version, one that it has not is none;
/// an answer without success is an error with its status.
pub proof fn answers_hold_their_document(
    answer: Answer,
    body: JsonView,
    data: JsonView,
    value: JsonView,
    metadata: JsonView,
    version: JsonView,
)
    requires
        answer.body matches Ok(found) && found@ == body,
        json::member(body, "data"@) == Some(data),
        json::member(data, "data"@) == Some(value),
    ensures
        answer.status == 404 ==> client::document_of(answer) == Ok::<
            Option<VersionedView>,
            AdapterErrorView,
        >(None),
        200 <= answer.status < 300 ==> client::document_of(answer) == Ok::<
            Option<VersionedView>,
            AdapterErrorView,
        >(Some(VersionedView { value, version: client::version_of(body) })),
        answer.status != 404 && !(200 <= answer.status < 300) ==> client::document_of(answer)
            == Err::<Option<VersionedView>, AdapterErrorView>(
            AdapterErrorView::OpenBao { status: answer.status_text@ },
        ),
        json::member(data, "metadata"@) == Some(metadata) && json::member(metadata, "version"@)
            == Some(version) && json::unsigned(version) is Some ==> client::version_of(body)
            == json::unsigned(version)->0,
{
}

/// What is written is the document itself, over the version that was read where there is
/// one; a conflict is told as one, and any other failure with its status.
pub proof fn writes_carry_their_document(data: JsonView, version: u64, status: u16, shown: Seq<char>)
    ensures
        json::member(client::payload(data, None), "data"@) == Some(data),
        json::member(client::payload(data, None), "options"@) is None,
        json::member(client::payload(data, Some(version)), "data"@) == Some(data),
        json::member(client::payload(data, Some(version)), "options"@) matches Some(options)
            && json::member(options, "cas"@) == Some(
            JsonView::Number(text::decimal(version as nat)),
        ),
        client::written_of(400, shown, Some(version)) == Ok::<bool, AdapterErrorView>(false),
        200 <= status < 300 ==> client::written_of(status, shown, None) == Ok::<
            bool,
            AdapterErrorView,
        >(true) && client::written_of(status, shown, Some(version)) == Ok::<
            bool,
            AdapterErrorView,
        >(true),
        !(200 <= status < 300) ==> client::written_of(status, shown, None) == Err::<
            bool,
            AdapterErrorView,
        >(AdapterErrorView::OpenBao { status: shown }),
        !(200 <= status < 300) && status != 400 ==> client::written_of(
            status,
            shown,
            Some(version),
        ) == Err::<bool, AdapterErrorView>(AdapterErrorView::OpenBao { status: shown }),
{
    reveal_strlit("data");
    reveal_strlit("options");
    reveal_strlit("cas");
    assert("data"@.len() == 4 && "options"@.len() == 7);
    reveal_with_fuel(json::member_from, 3);
    let plain = client::payload(data, None)->Object_0;
    let versioned = client::payload(data, Some(version))->Object_0;
    assert(plain.len() == 1 && plain[0].0 == "data"@);
    assert(versioned[0].0 == "data"@ && versioned[1].0 == "options"@);
    assert(json::member_from(versioned, "data"@, 0) == Some(0int));
    assert(json::member_from(versioned, "options"@, 0) == Some(1int));
    let options = versioned[1].1->Object_0;
    assert(options[0].0 == "cas"@);
    assert(json::member_from(options, "cas"@, 0) == Some(0int));
}

proof fn lemma_member_some(members: Seq<(Seq<char>, JsonView)>, key: Seq<char>, i: int, at: int)
    requires
        0 <= i <= at < members.len(),
        members[at].0 == key,
    ensures
        json::member_from(members, key, i) is Some,
    decreases at - i,
{
    if i < at && members[i].0 != key {
        lemma_member_some(members, key, i + 1, at);
    }
}

proof fn lemma_member_at(members: Seq<(Seq<char>, JsonView)>, key: Seq<char>, i: int)
    requires
        0 <= i,
    ensures
        json::member_from(members, key, i) matches Some(k) ==> i <= k < members.len()
            && members[k].0 == key,
    decreases members.len() - i,
{
    if i < members.len() && members[i].0 != key {
        lemma_member_at(members, key, i + 1);
    }
}

/// A collection for a context is claimed over the version of the index that was read,
/// over none where there is no index yet; a context that has one keeps it, and the index
/// stays as it is. A context is moved where it is known and its destination is not: where
/// the destination is known it is refused, and where the context is not known nothing is
/// done.
pub proof fn indexes_are_changed_over_their_version(
    found: VersionedView,
    context: Seq<char>,
    destination: Seq<char>,
    fresh: Seq<char>,
)
    ensures
        index::claim(None, context, fresh) matches Ok((written, version, collection)) && version
            == 0 && collection == fresh && index::collection_in(written, context) == Some(fresh),
        index::claim(Some(found), context, fresh) matches Ok((written, version, collection)) ==> {
            &&& version == found.version
            &&& index::collection_in(found.value, context) matches Some(known) ==> collection
                == known && written == found.value
        },
        destination != context && index::collection_in(found.value, context) is Some
            && index::collection_in(found.value, destination) is Some ==> index::relocation(
            found.value,
            context,
            destination,
        ) == Err::<Option<JsonView>, AdapterErrorView>(AdapterErrorView::NamespaceExists),
        index::relocation(found.value, context, destination) == Ok::<
            Option<JsonView>,
            AdapterErrorView,
        >(None) ==> index::collection_in(found.value, context) is None,
{
    reveal_strlit("contexts");
    let empty = index::empty_index();
    let members = empty->Object_0;
    assert(members[0].0 == "contexts"@);
    assert(json::member_from(members, "contexts"@, 0) == Some(0int));
    let none = Seq::<(Seq<char>, JsonView)>::empty();
    assert(json::member_from(none, context, 0) is None);
    let one = index::with_member(none, context, JsonView::Text(fresh));
    assert(one =~= seq![(context, JsonView::Text(fresh))]);
    assert(json::member_from(one, context, 0) == Some(0int));
    let written = index::with_contexts(members, 0, one);
    assert(written->Object_0[0] == ("contexts"@, JsonView::Object(one)));
    assert(json::member_from(written->Object_0, "contexts"@, 0) == Some(0int));
    if let Some((_, _, contexts)) = index::contexts_of(found.value) {
        lemma_member_at(contexts, context, 0);
        lemma_member_at(contexts, destination, 0);
        if let (Some(k), Some(m)) = (
            json::member_from(contexts, context, 0),
            json::member_from(contexts, destination, 0),
        ) {
            let left = contexts.remove(k);
            if destination != context {
                let at: int = if m < k {
                    m
                } else {
                    m - 1
                };
                assert(left[at] == contexts[m]);
                lemma_member_some(left, destination, 0, at);
            }
        }
    }
}

/// A deletion removes the document that a write of the same key would write, from the same
/// place: below the root at once, below a context by the index, where nothing is done
/// when the index does not have the context.
pub proof fn deletions_remove_what_was_written(
    prefix: Seq<char>,
    value: BaoValueView,
    found: Option<VersionedView>,
    fresh: Seq<char>,
)
    requires
        value.key.len() > 0,
        value.key.last() != '*',
    ensures
        ({
            let write = bridge::set_step(prefix, value);
            let deletion = bridge::delete_step(prefix, value.namespace, Some(value.key));
            match write {
                StoreStepView::WriteValue { path, .. } => route::context_of(value.namespace) is None
                    && deletion == (StoreStepView::DeleteValue { path }),
                StoreStepView::ReadIndex { path, task } => {
                    &&& route::context_of(value.namespace) is Some
                    &&& task == IndexTaskView::Find(value)
                    &&& deletion matches StoreStepView::ReadIndex { path: index_path, task: removal }
                    &&& index_path == path
                    &&& bridge::index_step(prefix, removal, found, fresh) == match bridge::index_step(
                        prefix,
                        task,
                        found,
                        fresh,
                    ) {
                        StoreStepView::WriteValue { path: value_path, .. } =>
                        StoreStepView::DeleteValue { path: value_path },
                        _ => StoreStepView::Finished(Ok(())),
                    }
                },
                _ => false,
            }
        }),
        bridge::delete_step(prefix, value.namespace, None) matches StoreStepView::Finished(
            Err(error),
        ) && error is Unsupported,
        bridge::delete_step(prefix, value.namespace, Some(value.key.push('*'))) matches
            StoreStepView::Finished(Err(error)) && error is Unsupported,
{
}

} // verus!
