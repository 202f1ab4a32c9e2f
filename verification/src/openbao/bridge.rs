//! How the requests of a server are answered from an OpenBao store.
//!
//! Each function makes one move and says what has to be read or written before the
//! next.

use crate::client;
use crate::crypto;
use crate::duration::Duration;
use crate::json::{self, JsonView, Value};
use crate::openbao::client::{Versioned, VersionedView};
use crate::openbao::config::{QueryConfig, StoreConfig};
use crate::openbao::error::{configuration, AdapterError, AdapterErrorView};
use crate::openbao::index;
use crate::openbao::mapping::{self, OpenBaoMapping};
use crate::pattern::{self, Pattern};
use crate::protocol::{
    clone_pattern, Command, CommandView, ServerCommand, ServerCommandView, ServerResult,
    ServerResultView, Uuid,
};
use crate::route::{self, Key, KeyPattern, NamespaceContext};
use crate::text;
use crate::words;
use vstd::prelude::*;

verus! {

/// How often a change of an index that others change too is tried.
pub const INDEX_ATTEMPTS: u32 = 8;

/// One value of the store.
#[derive(Debug)]
pub struct OpenBaoValue {
    pub namespace: NamespaceContext,
    pub key: Key,
    pub value: Value,
    pub ttl: Option<Duration>,
}

/// An [`OpenBaoValue`] as a mathematical value; times are in nanoseconds.
#[verifier::ext_equal]
pub struct BaoValueView {
    pub namespace: Seq<char>,
    pub key: Seq<char>,
    pub value: JsonView,
    pub ttl: Option<nat>,
}

impl View for OpenBaoValue {
    type V = BaoValueView;

    open spec fn view(&self) -> BaoValueView {
        BaoValueView {
            namespace: self.namespace@,
            key: self.key@,
            value: self.value@,
            ttl: crate::error::inner(self.ttl),
        }
    }
}

impl Clone for OpenBaoValue {
    fn clone(&self) -> (r: Self)
        ensures
            r@ == self@,
    {
        OpenBaoValue {
            namespace: self.namespace.clone(),
            key: self.key.clone(),
            value: self.value.clone(),
            ttl: self.ttl,
        }
    }
}

/// A route that is read.
#[derive(Debug)]
pub struct BaoQuery {
    pub namespace: NamespaceContext,
    pub key: Key,
}

impl View for BaoQuery {
    type V = (Seq<char>, Seq<char>);

    open spec fn view(&self) -> (Seq<char>, Seq<char>) {
        (self.namespace@, self.key@)
    }
}

/// What a request for a value needs.
#[derive(Debug)]
pub enum QueryStep {
    Finished(Result<Option<OpenBaoValue>, AdapterError>),
    /// Read the index of the base namespace.
    ReadIndex { path: String, query: BaoQuery },
    /// Read the value.
    ReadValue { path: String, query: BaoQuery },
    /// Make a new key record, and write it where there is none.
    Create { path: String, query: BaoQuery },
    /// Read the value after a record was made, or found.
    ReadAgain { path: String, query: BaoQuery, created: bool },
}

/// A [`QueryStep`] as a mathematical value.
#[verifier::ext_equal]
pub enum QueryStepView {
    Finished(Result<Option<BaoValueView>, AdapterErrorView>),
    ReadIndex { path: Seq<char>, query: (Seq<char>, Seq<char>) },
    ReadValue { path: Seq<char>, query: (Seq<char>, Seq<char>) },
    Create { path: Seq<char>, query: (Seq<char>, Seq<char>) },
    ReadAgain { path: Seq<char>, query: (Seq<char>, Seq<char>), created: bool },
}

/// The views of a value that may be missing, or of an error.
pub open spec fn optional_value(result: Result<Option<OpenBaoValue>, AdapterError>) -> Result<
    Option<BaoValueView>,
    AdapterErrorView,
> {
    match result {
        Ok(value) => Ok(crate::error::inner(value)),
        Err(error) => Err(error@),
    }
}

impl View for QueryStep {
    type V = QueryStepView;

    open spec fn view(&self) -> QueryStepView {
        match self {
            QueryStep::Finished(result) => QueryStepView::Finished(optional_value(*result)),
            QueryStep::ReadIndex { path, query } => QueryStepView::ReadIndex {
                path: path@,
                query: query@,
            },
            QueryStep::ReadValue { path, query } => QueryStepView::ReadValue {
                path: path@,
                query: query@,
            },
            QueryStep::Create { path, query } => QueryStepView::Create {
                path: path@,
                query: query@,
            },
            QueryStep::ReadAgain { path, query, created } => QueryStepView::ReadAgain {
                path: path@,
                query: query@,
                created: *created,
            },
        }
    }
}

/// The path of a value.
pub open spec fn path_of(
    prefix: Seq<char>,
    namespace: Seq<char>,
    key: Seq<char>,
    collection: Option<Seq<char>>,
) -> Seq<char> {
    mapping::location(prefix, namespace, key, collection)->Ok_0.path()
}

/// The path of a value whose index was read.
pub open spec fn indexed_path(
    prefix: Seq<char>,
    namespace: Seq<char>,
    key: Seq<char>,
    found: Option<VersionedView>,
) -> Option<Seq<char>> {
    match (found, route::context_of(namespace)) {
        (Some(document), Some(context)) => match index::collection_in(document.value, context) {
            Some(collection) => Some(path_of(prefix, namespace, key, Some(collection))),
            None => None,
        },
        _ => None,
    }
}

/// The value of a document.
pub open spec fn value_in(query: (Seq<char>, Seq<char>), document: JsonView) -> Result<
    BaoValueView,
    AdapterErrorView,
> {
    if mapping::is_auth(query.0) {
        match mapping::read_auth_document(document) {
            Err(error) => Err(error),
            Ok(record) => if record.key != query.1 {
                Err(
                    AdapterErrorView::Configuration(
                        "OpenBao auth document key did not match requested key"@,
                    ),
                )
            } else {
                Ok(
                    BaoValueView {
                        namespace: query.0,
                        key: query.1,
                        value: record.value,
                        ttl: record.ttl,
                    },
                )
            },
        }
    } else {
        plain_value_in(query, document)
    }
}

/// The time to live of a document.
pub open spec fn document_ttl(document: JsonView) -> Option<nat> {
    match json::member(document, "ttl_seconds"@) {
        Some(ttl) => crate::broker::ttl_nanos(json::unsigned(ttl)),
        None => None,
    }
}

/// The value of a document that is no permission record.
pub open spec fn plain_value_in(query: (Seq<char>, Seq<char>), document: JsonView) -> Result<
    BaoValueView,
    AdapterErrorView,
> {
    match json::member(document, "value"@) {
        None => Err(AdapterErrorView::Configuration("OpenBao value document had no value"@)),
        Some(value) => Ok(
            BaoValueView {
                namespace: query.0,
                key: query.1,
                value,
                ttl: document_ttl(document),
            },
        ),
    }
}

/// A new key record.
pub open spec fn key_record(first: Uuid, second: Uuid, created: Option<u64>) -> JsonView {
    let key = ("key"@, JsonView::Text(words::simple_text(first) + words::simple_text(second)));
    match created {
        Some(seconds) => JsonView::Object(
            seq![("created"@, JsonView::Number(text::decimal(seconds as nat))), key],
        ),
        None => JsonView::Object(seq![key]),
    }
}

/// A new key record in the form in which it is kept.
pub open spec fn record_document(namespace: Seq<char>, key: Seq<char>, record: JsonView) -> JsonView {
    if mapping::is_auth(namespace) {
        mapping::auth_document(key, record, None)
    } else {
        JsonView::Object(seq![("value"@, record)])
    }
}

/// The key record that a query makes at a time in seconds, in the form in which it
/// is kept.
pub open spec fn new_record(
    config: QueryConfig,
    query: (Seq<char>, Seq<char>),
    first: Uuid,
    second: Uuid,
    now: u64,
) -> JsonView {
    let created = if config.on_missing.record_created_unix_seconds {
        Some(now)
    } else {
        None
    };
    record_document(query.0, query.1, key_record(first, second, created))
}

/// The value of a document that is no permission record.
pub fn plain_value(query: BaoQuery, document: &Value) -> (r: Result<OpenBaoValue, AdapterError>)
    ensures
        crate::openbao::error::bao_outcome(r) == plain_value_in(query@, document@),
{
    let value = match document.get("value") {
        Some(value) => value.clone(),
        None => {
            return Err(configuration("OpenBao value document had no value"));
        },
    };
    let ttl = match document.get("ttl_seconds") {
        Some(ttl) => match ttl.as_u64() {
            Some(n) => Some(Duration::from_secs(n)),
            None => None,
        },
        None => None,
    };
    Ok(OpenBaoValue { namespace: query.namespace, key: query.key, value, ttl })
}

/// The value of a document that was read for a route.
pub fn stored_value(query: BaoQuery, document: &Value) -> (r: Result<OpenBaoValue, AdapterError>)
    ensures
        crate::openbao::error::bao_outcome(r) == value_in(query@, document@),
{
    if !OpenBaoMapping::is_auth_namespace(&query.namespace) {
        return plain_value(query, document);
    }
    match OpenBaoMapping::decode_auth_document(document) {
        Err(error) => Err(error),
        Ok(record) => if !text::same(record.key.as_str(), query.key.as_str()) {
            Err(configuration("OpenBao auth document key did not match requested key"))
        } else {
            Ok(
                OpenBaoValue {
                    namespace: query.namespace,
                    key: query.key,
                    value: record.value,
                    ttl: record.ttl,
                },
            )
        },
    }
}

fn finish_read(query: BaoQuery, document: &Value) -> (r: QueryStep)
    ensures
        r@ == QueryStepView::Finished(
            match value_in(query@, document@) {
                Ok(value) => Ok(Some(value)),
                Err(error) => Err(error),
            },
        ),
{
    QueryStep::Finished(
        match stored_value(query, document) {
            Ok(value) => Ok(Some(value)),
            Err(error) => Err(error),
        },
    )
}

fn path_in(
    mapping: &OpenBaoMapping,
    namespace: &NamespaceContext,
    key: &Key,
    collection: Option<&str>,
) -> (r: String)
    requires
        collection is None ==> route::context_of(namespace@) is None,
    ensures
        r@ == path_of(
            mapping@,
            namespace@,
            key@,
            match collection {
                Some(collection) => Some(collection@),
                None => None,
            },
        ),
{
    match mapping.locate(namespace, key, collection) {
        Ok(location) => location.path().to_owned(),
        Err(_) => {
            assert(false);
            String::new()
        },
    }
}

fn path_from_index(
    mapping: &OpenBaoMapping,
    namespace: &NamespaceContext,
    key: &Key,
    found: &Option<Versioned>,
) -> (r: Option<String>)
    ensures
        match r {
            Some(path) => indexed_path(
                mapping@,
                namespace@,
                key@,
                crate::error::inner(*found),
            ) == Some(path@),
            None => indexed_path(
                mapping@,
                namespace@,
                key@,
                crate::error::inner(*found),
            ) is None,
        },
{
    match (found, namespace.ctx()) {
        (Some(document), Some(context)) => match index::collection_of(&document.value, context) {
            Some(collection) => Some(path_in(mapping, namespace, key, Some(collection.as_str()))),
            None => None,
        },
        _ => None,
    }
}

/// A pattern stands for a text.
pub open spec fn stands_for(pattern: Seq<char>, text: Seq<char>) -> bool {
    pattern::pattern_match(pattern, text) is Some
}

fn stands(pattern: &str, text: &str) -> (r: bool)
    ensures
        r == stands_for(pattern@, text@),
{
    Pattern::new(pattern).matches(text).is_some()
}

/// A query on demand.
#[derive(Debug)]
pub struct OpenBaoQueryProvider {
    pub mapping: OpenBaoMapping,
    pub config: QueryConfig,
}

/// A query stands for a route.
pub open spec fn query_stands(config: QueryConfig, namespace: Seq<char>, key: Seq<char>) -> bool {
    stands_for(config.namespace_pattern@, namespace) && stands_for(config.key_pattern@, key)
}

/// How a query begins: a value without a context is read where it belongs, one with a
/// context by the index of its base namespace.
pub open spec fn query_step(prefix: Seq<char>, namespace: Seq<char>, key: Seq<char>) -> QueryStepView {
    if route::context_of(namespace) is None {
        QueryStepView::ReadValue {
            path: path_of(prefix, namespace, key, None),
            query: (namespace, key),
        }
    } else {
        QueryStepView::ReadIndex { path: index_path(prefix, namespace), query: (namespace, key) }
    }
}

/// What follows on reading the index for a query.
pub open spec fn collection_read(
    prefix: Seq<char>,
    query: (Seq<char>, Seq<char>),
    result: Result<Option<VersionedView>, AdapterErrorView>,
) -> QueryStepView {
    match result {
        Err(error) => QueryStepView::Finished(Err(error)),
        Ok(found) => match indexed_path(prefix, query.0, query.1, found) {
            Some(path) => QueryStepView::ReadValue { path, query },
            None => QueryStepView::Finished(
                Err(AdapterErrorView::Configuration("missing context collection"@)),
            ),
        },
    }
}

/// What a document that was read says of a query.
pub open spec fn value_found(
    query: (Seq<char>, Seq<char>),
    document: VersionedView,
) -> QueryStepView {
    QueryStepView::Finished(
        match value_in(query, document.value) {
            Ok(value) => Ok(Some(value)),
            Err(error) => Err(error),
        },
    )
}

/// What follows on reading the document of a query; `generates` is whether one that is
/// missing is made.
pub open spec fn document_read(
    generates: bool,
    path: Seq<char>,
    query: (Seq<char>, Seq<char>),
    result: Result<Option<VersionedView>, AdapterErrorView>,
) -> QueryStepView {
    match result {
        Err(error) => QueryStepView::Finished(Err(error)),
        Ok(Some(document)) => value_found(query, document),
        Ok(None) => if generates {
            QueryStepView::Create { path, query }
        } else {
            QueryStepView::Finished(Ok(None))
        },
    }
}

/// What follows on reading a document after it was made, or found.
pub open spec fn document_read_again(
    query: (Seq<char>, Seq<char>),
    result: Result<Option<VersionedView>, AdapterErrorView>,
) -> QueryStepView {
    match result {
        Err(error) => QueryStepView::Finished(Err(error)),
        Ok(Some(document)) => value_found(query, document),
        Ok(None) => QueryStepView::Finished(
            Err(
                AdapterErrorView::Configuration(
                    "OpenBao security-key creation raced with deletion"@,
                ),
            ),
        ),
    }
}

impl OpenBaoQueryProvider {
    pub fn new(mapping: OpenBaoMapping, config: QueryConfig) -> (r: Self)
        ensures
            r.mapping == mapping,
            r.config == config,
    {
        OpenBaoQueryProvider { mapping, config }
    }

    /// Whether the query stands for a route.
    pub fn matches(&self, namespace: &NamespaceContext, key: &Key) -> (r: bool)
        ensures
            r == query_stands(self.config, namespace@, key@),
    {
        stands(self.config.namespace_pattern.as_str(), namespace.as_str()) && stands(
            self.config.key_pattern.as_str(),
            key.as_str(),
        )
    }

    /// Begins to read a value.
    pub fn query(&self, namespace: NamespaceContext, key: Key) -> (r: QueryStep)
        ensures
            r@ == query_step(self.mapping@, namespace@, key@),
    {
        if namespace.ctx().is_none() {
            let path = path_in(&self.mapping, &namespace, &key, None);
            QueryStep::ReadValue { path, query: BaoQuery { namespace, key } }
        } else {
            let path = self.mapping.index_path(namespace.ns());
            QueryStep::ReadIndex { path, query: BaoQuery { namespace, key } }
        }
    }

    /// Goes on after the index was read.
    pub fn index_read(&self, query: BaoQuery, result: Result<Option<Versioned>, AdapterError>) -> (r:
        QueryStep)
        ensures
            r@ == collection_read(
                self.mapping@,
                query@,
                crate::openbao::client::document_view(result),
            ),
    {
        let found = match result {
            Ok(found) => found,
            Err(error) => {
                return QueryStep::Finished(Err(error));
            },
        };
        match path_from_index(&self.mapping, &query.namespace, &query.key, &found) {
            Some(path) => QueryStep::ReadValue { path, query },
            None => QueryStep::Finished(Err(configuration("missing context collection"))),
        }
    }

    /// Goes on after the value was read.
    pub fn value_read(
        &self,
        path: String,
        query: BaoQuery,
        result: Result<Option<Versioned>, AdapterError>,
    ) -> (r: QueryStep)
        ensures
            r@ == document_read(
                self.config.on_missing.generate_xchacha20poly1305_key,
                path@,
                query@,
                crate::openbao::client::document_view(result),
            ),
    {
        match result {
            Err(error) => QueryStep::Finished(Err(error)),
            Ok(Some(document)) => finish_read(query, &document.value),
            Ok(None) => if self.config.on_missing.generate_xchacha20poly1305_key {
                QueryStep::Create { path, query }
            } else {
                QueryStep::Finished(Ok(None))
            },
        }
    }

    /// A new key record made of two identifiers, to be written where there is none.
    /// `now` is the time in seconds.
    pub fn new_document_with(&self, query: &BaoQuery, first: Uuid, second: Uuid, now: u64) -> (r: Value)
        ensures
            r@ == new_record(self.config, query@, first, second, now),
    {
        let start = words::write_simple(first);
        let end = words::write_simple(second);
        let key = Value::Text(text::joined(start.as_str(), end.as_str()));
        let ghost shown = key@;
        let mut members: Vec<(String, Value)> = Vec::new();
        if self.config.on_missing.record_created_unix_seconds {
            members.push(("created".to_owned(), Value::from_u64(now)));
            members.push(("key".to_owned(), key));
            assert(json::members_view(members@) =~= seq![
                ("created"@, JsonView::Number(text::decimal(now as nat))),
                ("key"@, shown),
            ]);
        } else {
            members.push(("key".to_owned(), key));
            assert(json::members_view(members@) =~= seq![("key"@, shown)]);
        }
        proof {
            json::lemma_object_view(members);
        }
        let record = Value::Object(members);
        if OpenBaoMapping::is_auth_namespace(&query.namespace) {
            return OpenBaoMapping::encode_auth_document(&query.key, record, None);
        }
        let ghost inner = record@;
        let mut document: Vec<(String, Value)> = Vec::new();
        document.push(("value".to_owned(), record));
        proof {
            json::lemma_object_view(document);
            assert(json::members_view(document@) =~= seq![("value"@, inner)]);
        }
        Value::Object(document)
    }

    /// A new key record, to be written where there is none.
    pub fn new_document(&self, query: &BaoQuery, now: u64) -> (r: Value)
        ensures
            exists|first: Uuid, second: Uuid|
                r@ == #[trigger] new_record(self.config, query@, first, second, now),
    {
        let first: Uuid = crypto::fresh_uuid();
        let second: Uuid = crypto::fresh_uuid();
        self.new_document_with(query, first, second, now)
    }

    /// Goes on after a key record was written, or another was found in its place.
    pub fn record_written(&self, path: String, query: BaoQuery, result: Result<bool, AdapterError>) -> (r:
        QueryStep)
        ensures
            r@ == (match result {
                Err(error) => QueryStepView::Finished(Err(error@)),
                Ok(created) => QueryStepView::ReadAgain { path: path@, query: query@, created },
            }),
    {
        match result {
            Err(error) => QueryStep::Finished(Err(error)),
            Ok(created) => QueryStep::ReadAgain { path, query, created },
        }
    }

    /// Ends after a key record was read again. One that was just made is there.
    pub fn record_read(
        &self,
        query: BaoQuery,
        created: bool,
        result: Result<Option<Versioned>, AdapterError>,
    ) -> (r: QueryStep)
        requires
            created ==> result != Ok::<Option<Versioned>, AdapterError>(None),
        ensures
            r@ == document_read_again(query@, crate::openbao::client::document_view(result)),
    {
        match result {
            Err(error) => QueryStep::Finished(Err(error)),
            Ok(Some(document)) => finish_read(query, &document.value),
            Ok(None) => QueryStep::Finished(
                Err(configuration("OpenBao security-key creation raced with deletion")),
            ),
        }
    }
}

/// What is to be done once an index was read.
#[derive(Debug)]
pub enum IndexTask {
    /// Write a value, where its context is known.
    Find(OpenBaoValue),
    /// Write a value, and give its context a collection.
    Claim { value: OpenBaoValue, attempt: u32 },
    /// Delete a value.
    Remove(BaoQuery),
    /// Move a context.
    Relocate { source: NamespaceContext, destination: NamespaceContext, attempt: u32 },
}

/// An [`IndexTask`] as a mathematical value.
#[verifier::ext_equal]
pub enum IndexTaskView {
    Find(BaoValueView),
    Claim { value: BaoValueView, attempt: u32 },
    Remove((Seq<char>, Seq<char>)),
    Relocate { source: Seq<char>, destination: Seq<char>, attempt: u32 },
}

impl View for IndexTask {
    type V = IndexTaskView;

    open spec fn view(&self) -> IndexTaskView {
        match self {
            IndexTask::Find(value) => IndexTaskView::Find(value@),
            IndexTask::Claim { value, attempt } => IndexTaskView::Claim {
                value: value@,
                attempt: *attempt,
            },
            IndexTask::Remove(query) => IndexTaskView::Remove(query@),
            IndexTask::Relocate { source, destination, attempt } => IndexTaskView::Relocate {
                source: source@,
                destination: destination@,
                attempt: *attempt,
            },
        }
    }
}

/// What was to be done by writing an index.
#[derive(Debug)]
pub enum IndexChange {
    /// Give the context of a value a collection.
    Claimed { value: OpenBaoValue, collection: String, attempt: u32 },
    /// Move a context.
    Relocated { source: NamespaceContext, destination: NamespaceContext, attempt: u32 },
}

/// An [`IndexChange`] as a mathematical value.
#[verifier::ext_equal]
pub enum IndexChangeView {
    Claimed { value: BaoValueView, collection: Seq<char>, attempt: u32 },
    Relocated { source: Seq<char>, destination: Seq<char>, attempt: u32 },
}

impl View for IndexChange {
    type V = IndexChangeView;

    open spec fn view(&self) -> IndexChangeView {
        match self {
            IndexChange::Claimed { value, collection, attempt } => IndexChangeView::Claimed {
                value: value@,
                collection: collection@,
                attempt: *attempt,
            },
            IndexChange::Relocated { source, destination, attempt } => IndexChangeView::Relocated {
                source: source@,
                destination: destination@,
                attempt: *attempt,
            },
        }
    }
}

/// What a change of the store needs.
#[derive(Debug)]
pub enum StoreStep {
    Finished(Result<(), AdapterError>),
    /// Read the index of the base namespace.
    ReadIndex { path: String, task: IndexTask },
    /// Write the index over a version.
    WriteIndex { path: String, index: Value, version: u64, change: IndexChange },
    /// Write the document.
    WriteValue { path: String, document: Value },
    /// Delete the document.
    DeleteValue { path: String },
}

/// A [`StoreStep`] as a mathematical value.
#[verifier::ext_equal]
pub enum StoreStepView {
    Finished(Result<(), AdapterErrorView>),
    ReadIndex { path: Seq<char>, task: IndexTaskView },
    WriteIndex { path: Seq<char>, index: JsonView, version: u64, change: IndexChangeView },
    WriteValue { path: Seq<char>, document: JsonView },
    DeleteValue { path: Seq<char> },
}

impl View for StoreStep {
    type V = StoreStepView;

    open spec fn view(&self) -> StoreStepView {
        match self {
            StoreStep::Finished(result) => StoreStepView::Finished(
                crate::openbao::error::bao_outcome(*result),
            ),
            StoreStep::ReadIndex { path, task } => StoreStepView::ReadIndex {
                path: path@,
                task: task@,
            },
            StoreStep::WriteIndex { path, index, version, change } => StoreStepView::WriteIndex {
                path: path@,
                index: index@,
                version: *version,
                change: change@,
            },
            StoreStep::WriteValue { path, document } => StoreStepView::WriteValue {
                path: path@,
                document: document@,
            },
            StoreStep::DeleteValue { path } => StoreStepView::DeleteValue { path: path@ },
        }
    }
}

/// A value in the form in which it is kept.
pub open spec fn document_for(value: BaoValueView) -> JsonView {
    if mapping::is_auth(value.namespace) {
        mapping::auth_document(value.key, value.value, value.ttl)
    } else {
        mapping::value_document(value.value, value.ttl)
    }
}

/// The path of the index of a namespace.
pub open spec fn index_path(prefix: Seq<char>, namespace: Seq<char>) -> Seq<char> {
    mapping::index_path_of(prefix, route::base_of(namespace))
}

/// What writing a value begins with.
pub open spec fn set_step(prefix: Seq<char>, value: BaoValueView) -> StoreStepView {
    if route::context_of(value.namespace) is None {
        StoreStepView::WriteValue {
            path: path_of(prefix, value.namespace, value.key, None),
            document: document_for(value),
        }
    } else {
        StoreStepView::ReadIndex {
            path: index_path(prefix, value.namespace),
            task: IndexTaskView::Find(value),
        }
    }
}

/// What deleting a value begins with.
pub open spec fn delete_step(
    prefix: Seq<char>,
    namespace: Seq<char>,
    key_pattern: Option<Seq<char>>,
) -> StoreStepView {
    match key_pattern {
        None => StoreStepView::Finished(Err(AdapterErrorView::Unsupported("namespace delete"@))),
        Some(key) => if key.len() > 0 && key.last() == '*' {
            StoreStepView::Finished(Err(AdapterErrorView::Unsupported("wildcard delete"@)))
        } else if route::context_of(namespace) is None {
            StoreStepView::DeleteValue { path: path_of(prefix, namespace, key, None) }
        } else {
            StoreStepView::ReadIndex {
                path: index_path(prefix, namespace),
                task: IndexTaskView::Remove((namespace, key)),
            }
        },
    }
}

/// What moving a context begins with.
pub open spec fn move_step(
    prefix: Seq<char>,
    config: StoreConfig,
    source: Seq<char>,
    destination: Seq<char>,
) -> StoreStepView {
    if !config.allow_context_move {
        StoreStepView::Finished(Err(AdapterErrorView::Unsupported("context move"@)))
    } else {
        match route::context_move(source, destination) {
            Err(error) => StoreStepView::Finished(Err(AdapterErrorView::Route(error))),
            Ok(_) => StoreStepView::ReadIndex {
                path: index_path(prefix, source),
                task: IndexTaskView::Relocate { source, destination, attempt: 1 },
            },
        }
    }
}

/// The context of a namespace that has one.
pub open spec fn context_text(namespace: Seq<char>) -> Seq<char> {
    match route::context_of(namespace) {
        Some(context) => context,
        None => Seq::empty(),
    }
}

/// What follows on reading an index.
pub open spec fn index_step(
    prefix: Seq<char>,
    task: IndexTaskView,
    found: Option<VersionedView>,
    fresh: Seq<char>,
) -> StoreStepView {
    match task {
        IndexTaskView::Find(value) => match indexed_path(
            prefix,
            value.namespace,
            value.key,
            found,
        ) {
            Some(path) => StoreStepView::WriteValue { path, document: document_for(value) },
            None => StoreStepView::ReadIndex {
                path: index_path(prefix, value.namespace),
                task: IndexTaskView::Claim { value, attempt: 1 },
            },
        },
        IndexTaskView::Claim { value, attempt } => match index::claim(
            found,
            context_text(value.namespace),
            fresh,
        ) {
            Err(error) => StoreStepView::Finished(Err(error)),
            Ok((next, version, collection)) => StoreStepView::WriteIndex {
                path: index_path(prefix, value.namespace),
                index: next,
                version,
                change: IndexChangeView::Claimed { value, collection, attempt },
            },
        },
        IndexTaskView::Remove((namespace, key)) => match indexed_path(
            prefix,
            namespace,
            key,
            found,
        ) {
            Some(path) => StoreStepView::DeleteValue { path },
            None => StoreStepView::Finished(Ok(())),
        },
        IndexTaskView::Relocate { source, destination, attempt } => match found {
            None => StoreStepView::Finished(Ok(())),
            Some(document) => match index::relocation(
                document.value,
                context_text(source),
                context_text(destination),
            ) {
                Err(error) => StoreStepView::Finished(Err(error)),
                Ok(None) => StoreStepView::Finished(Ok(())),
                Ok(Some(next)) => StoreStepView::WriteIndex {
                    path: index_path(prefix, source),
                    index: next,
                    version: document.version,
                    change: IndexChangeView::Relocated { source, destination, attempt },
                },
            },
        },
    }
}

/// What follows on writing an index, or on finding that another was written first.
pub open spec fn change_step(prefix: Seq<char>, change: IndexChangeView, done: bool) -> StoreStepView {
    match change {
        IndexChangeView::Claimed { value, collection, attempt } => if done {
            StoreStepView::WriteValue {
                path: path_of(prefix, value.namespace, value.key, Some(collection)),
                document: document_for(value),
            }
        } else if attempt >= INDEX_ATTEMPTS {
            StoreStepView::Finished(
                Err(
                    AdapterErrorView::Configuration(
                        "OpenBao context index update conflicted repeatedly"@,
                    ),
                ),
            )
        } else {
            StoreStepView::ReadIndex {
                path: index_path(prefix, value.namespace),
                task: IndexTaskView::Claim { value, attempt: (attempt + 1) as u32 },
            }
        },
        IndexChangeView::Relocated { source, destination, attempt } => if done {
            StoreStepView::Finished(Ok(()))
        } else if attempt >= INDEX_ATTEMPTS {
            StoreStepView::Finished(
                Err(
                    AdapterErrorView::Configuration(
                        "OpenBao index update conflicted repeatedly"@,
                    ),
                ),
            )
        } else {
            StoreStepView::ReadIndex {
                path: index_path(prefix, source),
                task: IndexTaskView::Relocate {
                    source,
                    destination,
                    attempt: (attempt + 1) as u32,
                },
            }
        },
    }
}

fn document_of(value: OpenBaoValue) -> (r: Value)
    ensures
        r@ == document_for(value@),
{
    if OpenBaoMapping::is_auth_namespace(&value.namespace) {
        OpenBaoMapping::encode_auth_document(&value.key, value.value, value.ttl)
    } else {
        mapping::encode_value_document(value.value, value.ttl)
    }
}

fn context_or_empty(namespace: &NamespaceContext) -> (r: String)
    ensures
        r@ == context_text(namespace@),
{
    match namespace.ctx() {
        Some(context) => context.to_owned(),
        None => {
            let empty = String::new();
            assert(empty@ =~= Seq::<char>::empty());
            empty
        },
    }
}

fn fail(error: AdapterError) -> (r: StoreStep)
    ensures
        r@ == StoreStepView::Finished(Err(error@)),
{
    StoreStep::Finished(Err(error))
}

/// Values that are kept in the store.
#[derive(Debug)]
pub struct OpenBaoStoreWriter {
    pub mapping: OpenBaoMapping,
    pub config: StoreConfig,
}

/// A store stands for a route, or for a whole namespace.
pub open spec fn store_stands(
    config: StoreConfig,
    namespace: Seq<char>,
    key_pattern: Option<Seq<char>>,
) -> bool {
    stands_for(config.namespace_pattern@, namespace) && (key_pattern is None || stands_for(
        config.key_pattern@,
        key_pattern->0,
    ))
}

impl OpenBaoStoreWriter {
    pub fn new(mapping: OpenBaoMapping, config: StoreConfig) -> (r: Self)
        ensures
            r.mapping == mapping,
            r.config == config,
    {
        OpenBaoStoreWriter { mapping, config }
    }

    /// Whether the store stands for a route, or for a whole namespace.
    pub fn matches(&self, namespace: &NamespaceContext, key: Option<&KeyPattern>) -> (r: bool)
        ensures
            r == store_stands(
                self.config,
                namespace@,
                match key {
                    Some(key) => Some(key@),
                    None => None,
                },
            ),
    {
        if !stands(self.config.namespace_pattern.as_str(), namespace.as_str()) {
            return false;
        }
        match key {
            Some(key) => stands(self.config.key_pattern.as_str(), key.as_str()),
            None => true,
        }
    }

    /// Begins to write a value.
    pub fn set(&self, value: OpenBaoValue) -> (r: StoreStep)
        ensures
            r@ == set_step(self.mapping@, value@),
    {
        if value.namespace.ctx().is_none() {
            let path = path_in(&self.mapping, &value.namespace, &value.key, None);
            StoreStep::WriteValue { path, document: document_of(value) }
        } else {
            let path = self.mapping.index_path(value.namespace.ns());
            StoreStep::ReadIndex { path, task: IndexTask::Find(value) }
        }
    }

    /// Begins to delete a value.
    pub fn delete(&self, namespace: NamespaceContext, key_pattern: Option<KeyPattern>) -> (r: StoreStep)
        ensures
            r@ == delete_step(self.mapping@, namespace@, crate::error::inner(key_pattern)),
    {
        let pattern = match key_pattern {
            Some(pattern) => pattern,
            None => {
                return fail(AdapterError::Unsupported("namespace delete"));
            },
        };
        let chars = text::chars_of(pattern.as_str());
        if chars.len() > 0 && chars[chars.len() - 1] == '*' {
            return fail(AdapterError::Unsupported("wildcard delete"));
        }
        let key = match Key::new(pattern.as_str()) {
            Ok(key) => key,
            Err(error) => {
                assert(false);
                return fail(AdapterError::Route(error));
            },
        };
        if namespace.ctx().is_none() {
            StoreStep::DeleteValue { path: path_in(&self.mapping, &namespace, &key, None) }
        } else {
            let path = self.mapping.index_path(namespace.ns());
            StoreStep::ReadIndex { path, task: IndexTask::Remove(BaoQuery { namespace, key }) }
        }
    }

    /// Begins to move a context.
    pub fn move_namespace(&self, source: NamespaceContext, destination: NamespaceContext) -> (r:
        StoreStep)
        ensures
            r@ == move_step(self.mapping@, self.config, source@, destination@),
    {
        if !self.config.allow_context_move {
            return fail(AdapterError::Unsupported("context move"));
        }
        match route::validate_context_move(&source, &destination) {
            Err(error) => fail(AdapterError::Route(error)),
            Ok(_) => {
                let path = self.mapping.index_path(source.ns());
                StoreStep::ReadIndex {
                    path,
                    task: IndexTask::Relocate { source, destination, attempt: 1 },
                }
            },
        }
    }

    /// Goes on after an index was read; `fresh` is the collection of a context that
    /// has none.
    pub fn index_read_with(
        &self,
        task: IndexTask,
        result: Result<Option<Versioned>, AdapterError>,
        fresh: Uuid,
    ) -> (r: StoreStep)
        ensures
            r@ == (match result {
                Err(error) => StoreStepView::Finished(Err(error@)),
                Ok(found) => index_step(
                    self.mapping@,
                    task@,
                    crate::error::inner(found),
                    words::uuid_text(fresh),
                ),
            }),
    {
        let found = match result {
            Ok(found) => found,
            Err(error) => {
                return fail(error);
            },
        };
        match task {
            IndexTask::Find(value) => match path_from_index(
                &self.mapping,
                &value.namespace,
                &value.key,
                &found,
            ) {
                Some(path) => StoreStep::WriteValue { path, document: document_of(value) },
                None => {
                    let path = self.mapping.index_path(value.namespace.ns());
                    StoreStep::ReadIndex { path, task: IndexTask::Claim { value, attempt: 1 } }
                },
            },
            IndexTask::Claim { value, attempt } => {
                let context = context_or_empty(&value.namespace);
                let name = words::write_uuid(fresh);
                match index::claim_context(found, context.as_str(), name.as_str()) {
                    Err(error) => fail(error),
                    Ok(claim) => {
                        let path = self.mapping.index_path(value.namespace.ns());
                        StoreStep::WriteIndex {
                            path,
                            index: claim.index,
                            version: claim.version,
                            change: IndexChange::Claimed {
                                value,
                                collection: claim.collection,
                                attempt,
                            },
                        }
                    },
                }
            },
            IndexTask::Remove(query) => match path_from_index(
                &self.mapping,
                &query.namespace,
                &query.key,
                &found,
            ) {
                Some(path) => StoreStep::DeleteValue { path },
                None => StoreStep::Finished(Ok(())),
            },
            IndexTask::Relocate { source, destination, attempt } => {
                let document = match found {
                    Some(document) => document,
                    None => {
                        return StoreStep::Finished(Ok(()));
                    },
                };
                let from = context_or_empty(&source);
                let to = context_or_empty(&destination);
                match index::move_entry(&document.value, from.as_str(), to.as_str()) {
                    Err(error) => fail(error),
                    Ok(None) => StoreStep::Finished(Ok(())),
                    Ok(Some(next)) => {
                        let path = self.mapping.index_path(source.ns());
                        StoreStep::WriteIndex {
                            path,
                            index: next,
                            version: document.version,
                            change: IndexChange::Relocated { source, destination, attempt },
                        }
                    },
                }
            },
        }
    }

    /// Goes on after an index was read.
    pub fn index_read(&self, task: IndexTask, result: Result<Option<Versioned>, AdapterError>) -> (r:
        StoreStep)
        ensures
            exists|fresh: Uuid|
                #![trigger words::uuid_text(fresh)]
                r@ == (match result {
                    Err(error) => StoreStepView::Finished(Err(error@)),
                    Ok(found) => index_step(
                        self.mapping@,
                        task@,
                        crate::error::inner(found),
                        words::uuid_text(fresh),
                    ),
                }),
    {
        let fresh: Uuid = crypto::fresh_uuid();
        let step = self.index_read_with(task, result, fresh);
        let ghost shown = words::uuid_text(fresh);
        step
    }

    /// Goes on after an index was written, or was not because another was written
    /// first.
    pub fn index_written(&self, change: IndexChange, result: Result<bool, AdapterError>) -> (r: StoreStep)
        ensures
            r@ == (match result {
                Err(error) => StoreStepView::Finished(Err(error@)),
                Ok(done) => change_step(self.mapping@, change@, done),
            }),
    {
        let done = match result {
            Ok(done) => done,
            Err(error) => {
                return fail(error);
            },
        };
        match change {
            IndexChange::Claimed { value, collection, attempt } => {
                if done {
                    let path = path_in(
                        &self.mapping,
                        &value.namespace,
                        &value.key,
                        Some(collection.as_str()),
                    );
                    StoreStep::WriteValue { path, document: document_of(value) }
                } else if attempt >= INDEX_ATTEMPTS {
                    fail(configuration("OpenBao context index update conflicted repeatedly"))
                } else {
                    let path = self.mapping.index_path(value.namespace.ns());
                    StoreStep::ReadIndex {
                        path,
                        task: IndexTask::Claim { value, attempt: attempt + 1 },
                    }
                }
            },
            IndexChange::Relocated { source, destination, attempt } => {
                if done {
                    StoreStep::Finished(Ok(()))
                } else if attempt >= INDEX_ATTEMPTS {
                    fail(configuration("OpenBao index update conflicted repeatedly"))
                } else {
                    let path = self.mapping.index_path(source.ns());
                    StoreStep::ReadIndex {
                        path,
                        task: IndexTask::Relocate { source, destination, attempt: attempt + 1 },
                    }
                }
            },
        }
    }
}

/// A change that the other servers are told of after it was persisted.
#[derive(Debug)]
pub enum ForwardedMutation {
    SetValue(OpenBaoValue),
    Delete { namespace: NamespaceContext, key_pattern: Option<KeyPattern> },
    Move { source: NamespaceContext, destination: NamespaceContext },
}

/// A [`ForwardedMutation`] as a mathematical value.
#[verifier::ext_equal]
pub enum ForwardedView {
    SetValue(BaoValueView),
    Delete { namespace: Seq<char>, key_pattern: Option<Seq<char>> },
    Move { source: Seq<char>, destination: Seq<char> },
}

impl View for ForwardedMutation {
    type V = ForwardedView;

    open spec fn view(&self) -> ForwardedView {
        match self {
            ForwardedMutation::SetValue(value) => ForwardedView::SetValue(value@),
            ForwardedMutation::Delete { namespace, key_pattern } => ForwardedView::Delete {
                namespace: namespace@,
                key_pattern: crate::error::inner(*key_pattern),
            },
            ForwardedMutation::Move { source, destination } => ForwardedView::Move {
                source: source@,
                destination: destination@,
            },
        }
    }
}

/// The request that makes a change on another server.
pub open spec fn forwarded(change: ForwardedView) -> CommandView {
    match change {
        ForwardedView::SetValue(value) => CommandView::SetValue {
            namespace: value.namespace,
            key: value.key,
            value: value.value,
            ttl_seconds: crate::broker::whole_seconds(value.ttl),
        },
        ForwardedView::Delete { namespace, key_pattern } => CommandView::Delete {
            namespace,
            key_pattern,
        },
        ForwardedView::Move { source, destination } => CommandView::Move { source, destination },
    }
}

impl ForwardedMutation {
    /// The request that makes the change on another server.
    pub fn command(&self) -> (r: Command)
        ensures
            r@ == forwarded(self@),
    {
        match self {
            ForwardedMutation::SetValue(value) => client::set(
                value.namespace.clone(),
                value.key.clone(),
                value.value.clone(),
                value.ttl,
            ),
            ForwardedMutation::Delete { namespace, key_pattern } => Command::Delete {
                namespace: namespace.clone(),
                key_pattern: clone_pattern(key_pattern),
            },
            ForwardedMutation::Move { source, destination } => Command::Move {
                source: source.clone(),
                destination: destination.clone(),
            },
        }
    }

    /// How the change is called in messages.
    pub fn name(&self) -> (r: &'static str)
        ensures
            r@ == (match self@ {
                ForwardedView::SetValue(_) => "set"@,
                ForwardedView::Delete { .. } => "delete"@,
                ForwardedView::Move { .. } => "move"@,
            }),
    {
        match self {
            ForwardedMutation::SetValue(_) => "set",
            ForwardedMutation::Delete { .. } => "delete",
            ForwardedMutation::Move { .. } => "move",
        }
    }
}

/// What a request of a server needs.
#[derive(Debug)]
pub enum BridgeStep {
    /// The request is answered.
    Finished(ServerResult),
    /// Read a value through the query at a position.
    Query { request_id: Uuid, position: usize, read: QueryStep },
    /// Make a change through the store at a position, and forward it.
    Persist { request_id: Uuid, position: usize, change: StoreStep, forward: ForwardedMutation },
}

/// A [`BridgeStep`] as a mathematical value.
#[verifier::ext_equal]
pub enum BridgeStepView {
    Finished(ServerResultView),
    Query { request_id: Uuid, position: int, read: QueryStepView },
    Persist { request_id: Uuid, position: int, change: StoreStepView, forward: ForwardedView },
}

impl View for BridgeStep {
    type V = BridgeStepView;

    open spec fn view(&self) -> BridgeStepView {
        match self {
            BridgeStep::Finished(result) => BridgeStepView::Finished(result@),
            BridgeStep::Query { request_id, position, read } => BridgeStepView::Query {
                request_id: *request_id,
                position: *position as int,
                read: read@,
            },
            BridgeStep::Persist { request_id, position, change, forward } => BridgeStepView::Persist {
                request_id: *request_id,
                position: *position as int,
                change: change@,
                forward: forward@,
            },
        }
    }
}

/// The answer to a request for a value.
pub open spec fn query_answer(
    request_id: Uuid,
    result: Result<Option<BaoValueView>, AdapterErrorView>,
) -> ServerResultView {
    match result {
        Ok(Some(value)) => ServerResultView::Query {
            request_id,
            value: Some(value.value),
            ttl_seconds: crate::broker::whole_seconds(value.ttl),
            error: None,
        },
        Ok(None) => ServerResultView::Query {
            request_id,
            value: None,
            ttl_seconds: None,
            error: None,
        },
        Err(error) => ServerResultView::Query {
            request_id,
            value: None,
            ttl_seconds: None,
            error: Some(error.message()),
        },
    }
}

/// The answer to a request for a value.
pub fn query_result(request_id: Uuid, result: Result<Option<OpenBaoValue>, AdapterError>) -> (r:
    ServerResult)
    ensures
        r@ == query_answer(request_id, optional_value(result)),
{
    match result {
        Ok(Some(value)) => ServerResult::Query {
            request_id,
            value: Some(value.value),
            ttl_seconds: match value.ttl {
                Some(ttl) => Some(ttl.as_secs()),
                None => None,
            },
            error: None,
        },
        Ok(None) => ServerResult::Query {
            request_id,
            value: None,
            ttl_seconds: None,
            error: None,
        },
        Err(error) => ServerResult::Query {
            request_id,
            value: None,
            ttl_seconds: None,
            error: Some(error.message()),
        },
    }
}

/// The answer to a request that changes something.
pub open spec fn operation_answer(request_id: Uuid, result: Result<(), AdapterErrorView>) -> ServerResultView {
    ServerResultView::Operation {
        request_id,
        error: match result {
            Ok(_) => None,
            Err(error) => Some(error.message()),
        },
    }
}

/// The answer to a request that changes something.
pub fn operation(request_id: Uuid, result: Result<(), AdapterError>) -> (r: ServerResult)
    ensures
        r@ == operation_answer(request_id, crate::openbao::error::bao_outcome(result)),
{
    ServerResult::Operation {
        request_id,
        error: match result {
            Ok(_) => None,
            Err(error) => Some(error.message()),
        },
    }
}

/// Routes the requests of a server to configured queries and stores.
#[derive(Debug)]
pub struct CallbackBridge {
    pub queries: Vec<OpenBaoQueryProvider>,
    pub stores: Vec<OpenBaoStoreWriter>,
}

/// The first query from a position on that stands for a route.
pub open spec fn first_query(
    queries: Seq<OpenBaoQueryProvider>,
    namespace: Seq<char>,
    key: Seq<char>,
    position: int,
) -> Option<int>
    decreases queries.len() - position,
{
    if position < 0 || position >= queries.len() {
        None
    } else if query_stands(queries[position].config, namespace, key) {
        Some(position)
    } else {
        first_query(queries, namespace, key, position + 1)
    }
}

/// The last store before a position that stands for a route.
pub open spec fn last_store(
    stores: Seq<OpenBaoStoreWriter>,
    namespace: Seq<char>,
    key_pattern: Option<Seq<char>>,
    position: int,
) -> Option<int>
    decreases position,
{
    if position <= 0 || position > stores.len() {
        None
    } else if store_stands(stores[position - 1].config, namespace, key_pattern) {
        Some(position - 1)
    } else {
        last_store(stores, namespace, key_pattern, position - 1)
    }
}

/// The answer to a change that is not supported.
pub open spec fn unsupported(request_id: Uuid, what: Seq<char>) -> BridgeStepView {
    BridgeStepView::Finished(
        operation_answer(request_id, Err(AdapterErrorView::Unsupported(what))),
    )
}

/// What a request of a server needs.
pub open spec fn handled(
    queries: Seq<OpenBaoQueryProvider>,
    stores: Seq<OpenBaoStoreWriter>,
    command: ServerCommandView,
) -> BridgeStepView {
    let last = stores.len() as int;
    match command {
        ServerCommandView::Query { request_id, namespace, key } => match first_query(
            queries,
            namespace,
            key,
            0,
        ) {
            None => BridgeStepView::Finished(query_answer(request_id, Ok(None))),
            Some(position) => BridgeStepView::Query {
                request_id,
                position,
                read: query_step(queries[position].mapping@, namespace, key),
            },
        },
        ServerCommandView::PersistSet { request_id, namespace, key, value, ttl_seconds } => {
            match last_store(stores, namespace, Some(key), last) {
                None => unsupported(request_id, "no matching store"@),
                Some(position) => {
                    let written = BaoValueView {
                        namespace,
                        key,
                        value,
                        ttl: crate::broker::ttl_nanos(ttl_seconds),
                    };
                    BridgeStepView::Persist {
                        request_id,
                        position,
                        change: set_step(stores[position].mapping@, written),
                        forward: ForwardedView::SetValue(written),
                    }
                },
            }
        },
        ServerCommandView::PersistDelete { request_id, namespace, key_pattern } => {
            match last_store(stores, namespace, key_pattern, last) {
                None => unsupported(request_id, "no matching store"@),
                Some(position) => BridgeStepView::Persist {
                    request_id,
                    position,
                    change: delete_step(stores[position].mapping@, namespace, key_pattern),
                    forward: ForwardedView::Delete { namespace, key_pattern },
                },
            }
        },
        ServerCommandView::PersistMove { request_id, source, destination } => {
            match last_store(stores, source, None, last) {
                None => unsupported(request_id, "no matching store"@),
                Some(position) => BridgeStepView::Persist {
                    request_id,
                    position,
                    change: move_step(
                        stores[position].mapping@,
                        stores[position].config,
                        source,
                        destination,
                    ),
                    forward: ForwardedView::Move { source, destination },
                },
            }
        },
        ServerCommandView::PersistSetBatch { request_id, .. } => unsupported(
            request_id,
            "batch persistence"@,
        ),
    }
}

fn refuse(request_id: Uuid, what: &'static str) -> (r: BridgeStep)
    ensures
        r@ == unsupported(request_id, what@),
{
    BridgeStep::Finished(operation(request_id, Err(AdapterError::Unsupported(what))))
}

impl CallbackBridge {
    pub fn new(queries: Vec<OpenBaoQueryProvider>, stores: Vec<OpenBaoStoreWriter>) -> (r: Self)
        ensures
            r.queries == queries,
            r.stores == stores,
    {
        CallbackBridge { queries, stores }
    }

    fn query(&self, namespace: &NamespaceContext, key: &Key) -> (r: Option<usize>)
        ensures
            match r {
                Some(i) => i < self.queries.len() && first_query(
                    self.queries@,
                    namespace@,
                    key@,
                    0,
                ) == Some(i as int),
                None => first_query(self.queries@, namespace@, key@, 0) is None,
            },
    {
        let mut i: usize = 0;
        while i < self.queries.len()
            invariant
                i <= self.queries.len(),
                first_query(self.queries@, namespace@, key@, 0) == first_query(
                    self.queries@,
                    namespace@,
                    key@,
                    i as int,
                ),
            decreases self.queries.len() - i,
        {
            if self.queries[i].matches(namespace, key) {
                return Some(i);
            }
            i += 1;
        }
        None
    }

    fn store(&self, namespace: &NamespaceContext, pattern: Option<&KeyPattern>) -> (r: Option<usize>)
        ensures
            ({
                let wanted = match pattern {
                    Some(pattern) => Some(pattern@),
                    None => None,
                };
                let found = last_store(
                    self.stores@,
                    namespace@,
                    wanted,
                    self.stores@.len() as int,
                );
                match r {
                    Some(i) => i < self.stores.len() && found == Some(i as int),
                    None => found is None,
                }
            }),
    {
        let ghost wanted = match pattern {
            Some(pattern) => Some(pattern@),
            None => None,
        };
        let mut n: usize = self.stores.len();
        while n > 0
            invariant
                n <= self.stores.len(),
                wanted == (match pattern {
                    Some(pattern) => Some(pattern@),
                    None => None,
                }),
                last_store(self.stores@, namespace@, wanted, self.stores@.len() as int)
                    == last_store(self.stores@, namespace@, wanted, n as int),
            decreases n,
        {
            if self.stores[n - 1].matches(namespace, pattern) {
                return Some(n - 1);
            }
            n -= 1;
        }
        None
    }

    /// Begins to answer a request of a server: through the first query, or the last
    /// store, that stands for its route.
    pub fn handle(&self, command: ServerCommand) -> (r: BridgeStep)
        ensures
            r@ == handled(self.queries@, self.stores@, command@),
    {
        match command {
            ServerCommand::Query { request_id, namespace, key } => {
                match self.query(&namespace, &key) {
                    None => BridgeStep::Finished(query_result(request_id, Ok(None))),
                    Some(position) => {
                        let read = self.queries[position].query(namespace, key);
                        BridgeStep::Query { request_id, position, read }
                    },
                }
            },
            ServerCommand::PersistSet { request_id, namespace, key, value, ttl_seconds } => {
                let pattern = match KeyPattern::new(key.as_str()) {
                    Ok(pattern) => pattern,
                    Err(_) => {
                        assert(false);
                        return refuse(request_id, "no matching store");
                    },
                };
                match self.store(&namespace, Some(&pattern)) {
                    None => refuse(request_id, "no matching store"),
                    Some(position) => {
                        let written = OpenBaoValue {
                            namespace,
                            key,
                            value,
                            ttl: match ttl_seconds {
                                Some(n) => Some(Duration::from_secs(n)),
                                None => None,
                            },
                        };
                        let change = self.stores[position].set(written.clone());
                        BridgeStep::Persist {
                            request_id,
                            position,
                            change,
                            forward: ForwardedMutation::SetValue(written),
                        }
                    },
                }
            },
            ServerCommand::PersistDelete { request_id, namespace, key_pattern } => {
                match self.store(&namespace, key_pattern.as_ref()) {
                    None => refuse(request_id, "no matching store"),
                    Some(position) => {
                        let change = self.stores[position].delete(
                            namespace.clone(),
                            clone_pattern(&key_pattern),
                        );
                        BridgeStep::Persist {
                            request_id,
                            position,
                            change,
                            forward: ForwardedMutation::Delete { namespace, key_pattern },
                        }
                    },
                }
            },
            ServerCommand::PersistMove { request_id, source, destination } => {
                match self.store(&source, None) {
                    None => refuse(request_id, "no matching store"),
                    Some(position) => {
                        let change = self.stores[position].move_namespace(
                            source.clone(),
                            destination.clone(),
                        );
                        BridgeStep::Persist {
                            request_id,
                            position,
                            change,
                            forward: ForwardedMutation::Move { source, destination },
                        }
                    },
                }
            },
            ServerCommand::PersistSetBatch { request_id, .. } => refuse(
                request_id,
                "batch persistence",
            ),
        }
    }
}

/// What is written for a route is read back for it, with the whole seconds of its
/// time to live.
pub proof fn documents_are_read_back(value: BaoValueView)
    requires
        value.key.len() > 0,
        value.ttl matches Some(nanos) ==> nanos <= crate::duration::max_nanos(),
    ensures
        value_in((value.namespace, value.key), document_for(value)) == Ok::<
            BaoValueView,
            AdapterErrorView,
        >(
            BaoValueView {
                ttl: match value.ttl {
                    Some(nanos) => Some((nanos / 1_000_000_000) * 1_000_000_000),
                    None => None,
                },
                ..value
            },
        ),
{
    if mapping::is_auth(value.namespace) {
        mapping::auth_documents_are_read_back(value.key, value.value, value.ttl);
    } else {
        reveal_strlit("ttl_seconds");
        reveal_strlit("value");
        assert("ttl_seconds"@.len() == 11 && "value"@.len() == 5);
        let members = document_for(value)->Object_0;
        reveal_with_fuel(json::member_from, 3);
        assert(members[0].0 == "ttl_seconds"@ && members[1].0 == "value"@);
        assert(json::member_from(members, "ttl_seconds"@, 0) == Some(0int));
        assert(json::member_from(members, "value"@, 0) == Some(1int));
        if let Some(nanos) = value.ttl {
            text::lemma_decimal(nanos / 1_000_000_000);
        }
    }
}

/// A change of an index that keeps being overtaken is given up after a fixed number
/// of attempts.
pub proof fn index_changes_are_given_up(prefix: Seq<char>, change: IndexChangeView)
    ensures
        match change_step(prefix, change, false) {
            StoreStepView::ReadIndex { task: IndexTaskView::Claim { attempt, .. }, .. } => change
                matches IndexChangeView::Claimed { attempt: before, .. } && attempt == before + 1
                && attempt <= INDEX_ATTEMPTS,
            StoreStepView::ReadIndex { task: IndexTaskView::Relocate { attempt, .. }, .. } => change
                matches IndexChangeView::Relocated { attempt: before, .. } && attempt == before + 1
                && attempt <= INDEX_ATTEMPTS,
            step => step matches StoreStepView::Finished(Err(_)),
        },
{
}

} // verus!
