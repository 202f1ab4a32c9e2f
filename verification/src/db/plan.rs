//! What the statements of the database adapter are run with, and what their rows
//! mean. Running them is around it.

use crate::checks;
use crate::db::bridge;
use crate::db::config::{self, QueryConfig, StoreConfig};
use crate::db::error::{configuration, AdapterError, AdapterErrorView};
use crate::duration::Duration;
use crate::json::{self, JsonView, Value};
use crate::pattern::{self, Capture};
use crate::protocol::SetEntry;
use crate::route::{Key, KeyPattern, NamespaceContext};
use crate::table::Table;
use crate::text;
use vstd::prelude::*;

verus! {

/// One JSON value ready to be published.
#[derive(Debug)]
pub struct DatabaseValue {
    pub namespace: NamespaceContext,
    pub key: Key,
    pub value: Value,
    pub ttl: Option<Duration>,
}

/// A [`DatabaseValue`] as a mathematical value; times are in nanoseconds.
#[verifier::ext_equal]
pub struct DatabaseValueView {
    pub namespace: Seq<char>,
    pub key: Seq<char>,
    pub value: JsonView,
    pub ttl: Option<nat>,
}

impl View for DatabaseValue {
    type V = DatabaseValueView;

    open spec fn view(&self) -> DatabaseValueView {
        DatabaseValueView {
            namespace: self.namespace@,
            key: self.key@,
            value: self.value@,
            ttl: crate::error::inner(self.ttl),
        }
    }
}

impl Clone for DatabaseValue {
    fn clone(&self) -> (r: Self)
        ensures
            r@ == self@,
    {
        DatabaseValue {
            namespace: self.namespace.clone(),
            key: self.key.clone(),
            value: self.value.clone(),
            ttl: self.ttl,
        }
    }
}

/// A parameter of a statement.
#[derive(Debug)]
pub enum AnyParameter {
    Text(String),
    Integer(i64),
    Bool(bool),
    Null,
}

/// An [`AnyParameter`] as a mathematical value.
#[verifier::ext_equal]
pub enum ParameterView {
    Text(Seq<char>),
    Integer(i64),
    Bool(bool),
    Null,
}

impl View for AnyParameter {
    type V = ParameterView;

    open spec fn view(&self) -> ParameterView {
        match self {
            AnyParameter::Text(text) => ParameterView::Text(text@),
            AnyParameter::Integer(n) => ParameterView::Integer(*n),
            AnyParameter::Bool(b) => ParameterView::Bool(*b),
            AnyParameter::Null => ParameterView::Null,
        }
    }
}

/// What a statement can use.
#[verifier::ext_equal]
pub struct Inputs {
    pub namespace: Seq<char>,
    pub key: Option<Seq<char>>,
    pub key_pattern: Option<Seq<char>>,
    pub value: Option<JsonView>,
    pub ttl: Option<nat>,
    pub captures: Map<Seq<char>, Seq<char>>,
}

/// A text that may be missing, as a parameter.
pub open spec fn text_or(text: Option<Seq<char>>, message: Seq<char>) -> Result<
    ParameterView,
    AdapterErrorView,
> {
    match text {
        Some(text) => Ok(ParameterView::Text(text)),
        None => Err(AdapterErrorView::Configuration(message)),
    }
}

/// The capture of a name.
pub open spec fn capture_of(captures: Map<Seq<char>, Seq<char>>, name: Seq<char>) -> Option<
    Seq<char>,
> {
    if captures.dom().contains(name) {
        Some(captures[name])
    } else {
        None
    }
}

/// What a name stands for.
pub open spec fn parameter(name: Seq<char>, inputs: Inputs) -> Result<
    ParameterView,
    AdapterErrorView,
> {
    if name == "namespace"@ {
        Ok(ParameterView::Text(inputs.namespace))
    } else if name == "key"@ {
        text_or(inputs.key, "parameter 'key' is unavailable"@)
    } else if name == "key_pattern"@ {
        text_or(inputs.key_pattern, "parameter 'key_pattern' is unavailable"@)
    } else if name == "value"@ {
        text_or(
            match inputs.value {
                Some(value) => Some(json::json_text(value)),
                None => None,
            },
            "parameter 'value' is unavailable"@,
        )
    } else if name == "ttl_seconds"@ {
        Ok(
            match inputs.ttl {
                Some(nanos) => ParameterView::Integer((nanos / 1_000_000_000) as u64 as i64),
                None => ParameterView::Null,
            },
        )
    } else if name == "source_namespace"@ || name == "destination_namespace"@ {
        text_or(
            capture_of(inputs.captures, name),
            "parameter '"@ + name + "' is unavailable"@,
        )
    } else if name == "source_context"@ || name == "destination_context"@ || name == "context"@ {
        Ok(
            ParameterView::Text(
                match capture_of(inputs.captures, name) {
                    Some(text) => text,
                    None => Seq::empty(),
                },
            ),
        )
    } else {
        text_or(capture_of(inputs.captures, name), "unknown SQL parameter '"@ + name + "'"@)
    }
}

/// What names stand for, in order; the first that stands for nothing is an error.
pub open spec fn parameters(names: Seq<Seq<char>>, inputs: Inputs) -> Result<
    Seq<ParameterView>,
    AdapterErrorView,
>
    decreases names.len(),
{
    if names.len() == 0 {
        Ok(Seq::empty())
    } else {
        match parameters(names.drop_last(), inputs) {
            Err(error) => Err(error),
            Ok(list) => match parameter(names.last(), inputs) {
                Err(error) => Err(error),
                Ok(one) => Ok(list.push(one)),
            },
        }
    }
}

/// The texts of names.
pub open spec fn name_texts(names: Seq<String>) -> Seq<Seq<char>> {
    names.map_values(|name: String| name@)
}

fn required(text: Option<&str>, message: &str) -> (r: Result<AnyParameter, AdapterError>)
    ensures
        crate::db::error::adapter_outcome(r) == text_or(
            match text {
                Some(text) => Some(text@),
                None => None,
            },
            message@,
        ),
{
    match text {
        Some(text) => Ok(AnyParameter::Text(text.to_owned())),
        None => Err(configuration(message)),
    }
}

fn capture<'a>(captures: &'a Capture, name: &str) -> (r: Option<&'a str>)
    ensures
        match r {
            Some(text) => capture_of(pattern::captured(*captures), name@) == Some(text@),
            None => capture_of(pattern::captured(*captures), name@) is None,
        },
{
    match captures.get(name) {
        Some(text) => Some(text.as_str()),
        None => None,
    }
}

/// The view of what a statement can use.
pub open spec fn inputs(
    namespace: &NamespaceContext,
    key: Option<&Key>,
    key_pattern: Option<&KeyPattern>,
    value: Option<&Value>,
    ttl: Option<Duration>,
    captures: &Capture,
) -> Inputs {
    Inputs {
        namespace: namespace@,
        key: match key {
            Some(key) => Some(key@),
            None => None,
        },
        key_pattern: match key_pattern {
            Some(pattern) => Some(pattern@),
            None => None,
        },
        value: match value {
            Some(value) => Some(value@),
            None => None,
        },
        ttl: crate::error::inner(ttl),
        captures: pattern::captured(*captures),
    }
}

fn any_parameter(
    name: &str,
    namespace: &NamespaceContext,
    key: Option<&Key>,
    key_pattern: Option<&KeyPattern>,
    value: Option<&Value>,
    ttl: Option<Duration>,
    captures: &Capture,
) -> (r: Result<AnyParameter, AdapterError>)
    ensures
        crate::db::error::adapter_outcome(r) == parameter(
            name@,
            inputs(namespace, key, key_pattern, value, ttl, captures),
        ),
{
    if text::same(name, "namespace") {
        return Ok(AnyParameter::Text(namespace.as_str().to_owned()));
    }
    if text::same(name, "key") {
        return match key {
            Some(key) => Ok(AnyParameter::Text(key.as_str().to_owned())),
            None => Err(configuration("parameter 'key' is unavailable")),
        };
    }
    if text::same(name, "key_pattern") {
        return match key_pattern {
            Some(pattern) => Ok(AnyParameter::Text(pattern.as_str().to_owned())),
            None => Err(configuration("parameter 'key_pattern' is unavailable")),
        };
    }
    if text::same(name, "value") {
        return match value {
            Some(value) => Ok(AnyParameter::Text(json::render(value))),
            None => Err(configuration("parameter 'value' is unavailable")),
        };
    }
    if text::same(name, "ttl_seconds") {
        return Ok(
            match ttl {
                Some(ttl) => AnyParameter::Integer(ttl.as_secs() as i64),
                None => AnyParameter::Null,
            },
        );
    }
    if text::same(name, "source_namespace") || text::same(name, "destination_namespace") {
        let message = text::joined3("parameter '", name, "' is unavailable");
        return required(capture(captures, name), message.as_str());
    }
    if text::same(name, "source_context") || text::same(name, "destination_context") || text::same(
        name,
        "context",
    ) {
        return Ok(
            match capture(captures, name) {
                Some(text) => AnyParameter::Text(text.to_owned()),
                None => {
                    let empty = String::new();
                    assert(empty@ =~= Seq::<char>::empty());
                    AnyParameter::Text(empty)
                },
            },
        );
    }
    let message = text::joined3("unknown SQL parameter '", name, "'");
    required(capture(captures, name), message.as_str())
}

/// The views of parameters, or of an error.
pub open spec fn parameter_views(result: Result<Vec<AnyParameter>, AdapterError>) -> Result<
    Seq<ParameterView>,
    AdapterErrorView,
> {
    match result {
        Ok(list) => Ok(crate::error::views(list@)),
        Err(error) => Err(error@),
    }
}

proof fn lemma_first_error(names: Seq<Seq<char>>, inputs: Inputs, n: int)
    requires
        0 <= n <= names.len(),
        parameters(names.take(n), inputs) is Err,
    ensures
        parameters(names, inputs) == parameters(names.take(n), inputs),
    decreases names.len() - n,
{
    if n < names.len() {
        assert(names.take(n + 1).drop_last() =~= names.take(n));
        lemma_first_error(names, inputs, n + 1);
    } else {
        assert(names.take(n) =~= names);
    }
}

/// What names stand for, in order.
pub fn any_parameters(
    names: &Vec<String>,
    namespace: &NamespaceContext,
    key: Option<&Key>,
    key_pattern: Option<&KeyPattern>,
    value: Option<&Value>,
    ttl: Option<Duration>,
    captures: &Capture,
) -> (r: Result<Vec<AnyParameter>, AdapterError>)
    ensures
        parameter_views(r) == parameters(
            name_texts(names@),
            inputs(namespace, key, key_pattern, value, ttl, captures),
        ),
{
    let ghost given = inputs(namespace, key, key_pattern, value, ttl, captures);
    let ghost all = name_texts(names@);
    let mut out: Vec<AnyParameter> = Vec::new();
    let mut i: usize = 0;
    assert(all.take(0) =~= Seq::empty());
    assert(crate::error::views(out@) =~= Seq::<ParameterView>::empty());
    while i < names.len()
        invariant
            i <= names.len(),
            given == inputs(namespace, key, key_pattern, value, ttl, captures),
            all == name_texts(names@),
            parameters(all.take(i as int), given) == Ok::<Seq<ParameterView>, AdapterErrorView>(
                crate::error::views(out@),
            ),
        decreases names.len() - i,
    {
        let ghost before = crate::error::views(out@);
        proof {
            assert(all.take(i + 1).drop_last() =~= all.take(i as int));
            assert(all.take(i + 1).last() == names@[i as int]@);
        }
        match any_parameter(
            names[i].as_str(),
            namespace,
            key,
            key_pattern,
            value,
            ttl,
            captures,
        ) {
            Err(error) => {
                proof {
                    lemma_first_error(all, given, i + 1);
                }
                return Err(error);
            },
            Ok(one) => {
                out.push(one);
                assert(crate::error::views(out@) =~= before.push(one@));
            },
        }
        i += 1;
    }
    assert(all.take(names.len() as int) =~= all);
    Ok(out)
}

/// A statement with its parameters.
#[derive(Debug)]
pub struct SqlPlan {
    pub query: String,
    pub parameters: Vec<AnyParameter>,
}

/// A [`SqlPlan`] as a mathematical value.
#[verifier::ext_equal]
pub struct PlanView {
    pub query: Seq<char>,
    pub parameters: Seq<ParameterView>,
}

impl View for SqlPlan {
    type V = PlanView;

    open spec fn view(&self) -> PlanView {
        PlanView { query: self.query@, parameters: crate::error::views(self.parameters@) }
    }
}

/// A statement with what its names stand for.
pub open spec fn planned(query: Seq<char>, names: Seq<String>, inputs: Inputs) -> Result<
    PlanView,
    AdapterErrorView,
> {
    match parameters(name_texts(names), inputs) {
        Err(error) => Err(error),
        Ok(list) => Ok(PlanView { query, parameters: list }),
    }
}

fn plan(query: &str, parameters: Result<Vec<AnyParameter>, AdapterError>) -> (r: Result<
    SqlPlan,
    AdapterError,
>)
    ensures
        crate::db::error::adapter_outcome(r) == (match parameter_views(parameters) {
            Err(error) => Err(error),
            Ok(list) => Ok(PlanView { query: query@, parameters: list }),
        }),
{
    match parameters {
        Err(error) => Err(error),
        Ok(parameters) => Ok(SqlPlan { query: query.to_owned(), parameters }),
    }
}

/// A query on demand.
#[derive(Debug)]
pub struct DatabaseQueryProvider {
    pub config: QueryConfig,
}

/// What is asked of the database for a route, if the query stands for it.
pub open spec fn query_plan(config: QueryConfig, namespace: Seq<char>, key: Seq<char>) -> Result<
    Option<PlanView>,
    AdapterErrorView,
> {
    match bridge::captured_route(
        config.namespace_pattern@,
        config.key_pattern@,
        namespace,
        key,
    ) {
        None => Ok(None),
        Some(captures) => match planned(
            config.query@,
            config.parameters@,
            Inputs {
                namespace,
                key: Some(key),
                key_pattern: None,
                value: None,
                ttl: None,
                captures,
            },
        ) {
            Err(error) => Err(error),
            Ok(plan) => Ok(Some(plan)),
        },
    }
}

/// What is wrong with a query on its own.
pub open spec fn provider_complaint(config: QueryConfig) -> Option<Seq<char>> {
    checks::either(
        config::callback_complaint(
            "query"@,
            config.namespace_pattern@,
            config.key_pattern@,
            config.query@,
        ),
        config::query_parameters_complaint("query"@, config),
    )
}

impl DatabaseQueryProvider {
    /// A query with the given configuration.
    pub fn new(config: QueryConfig) -> (r: Result<Self, AdapterError>)
        ensures
            match provider_complaint(config) {
                Some(message) => r matches Err(error) && error@ == AdapterErrorView::Configuration(
                    message,
                ),
                None => r matches Ok(provider) && provider.config == config,
            },
    {
        match config::validate_callback_config(
            "query",
            config.namespace_pattern.as_str(),
            config.key_pattern.as_str(),
            config.query.as_str(),
        ) {
            Err(error) => {
                return Err(error);
            },
            Ok(_) => {},
        }
        match config::validate_query_parameters("query", &config) {
            Err(error) => Err(error),
            Ok(_) => Ok(DatabaseQueryProvider { config }),
        }
    }

    fn captures(&self, namespace: &NamespaceContext, key: &Key) -> (r: Option<Capture>)
        ensures
            match r {
                Some(captures) => bridge::captured_route(
                    self.config.namespace_pattern@,
                    self.config.key_pattern@,
                    namespace@,
                    key@,
                ) == Some(pattern::captured(captures)),
                None => bridge::captured_route(
                    self.config.namespace_pattern@,
                    self.config.key_pattern@,
                    namespace@,
                    key@,
                ) is None,
            },
    {
        bridge::route_captures(
            self.config.namespace_pattern.as_str(),
            self.config.key_pattern.as_str(),
            namespace,
            key,
        )
    }

    /// Whether the query stands for a route.
    pub fn matches(&self, namespace: &NamespaceContext, key: &Key) -> (r: bool)
        ensures
            r == (bridge::captured_route(
                self.config.namespace_pattern@,
                self.config.key_pattern@,
                namespace@,
                key@,
            ) is Some),
    {
        self.captures(namespace, key).is_some()
    }

    /// What is asked of the database for a route.
    pub fn query(&self, namespace: &NamespaceContext, key: &Key) -> (r: Result<
        Option<SqlPlan>,
        AdapterError,
    >)
        ensures
            match r {
                Ok(plan) => query_plan(self.config, namespace@, key@) == Ok::<
                    Option<PlanView>,
                    AdapterErrorView,
                >(crate::error::inner(plan)),
                Err(error) => query_plan(self.config, namespace@, key@) == Err::<
                    Option<PlanView>,
                    AdapterErrorView,
                >(error@),
            },
    {
        let captures = match self.captures(namespace, key) {
            Some(captures) => captures,
            None => {
                return Ok(None);
            },
        };
        let parameters = any_parameters(
            &self.config.parameters,
            namespace,
            Some(key),
            None,
            None,
            None,
            &captures,
        );
        match plan(self.config.query.as_str(), parameters) {
            Err(error) => Err(error),
            Ok(plan) => Ok(Some(plan)),
        }
    }
}

/// Durable statements of a store.
#[derive(Debug)]
pub struct DatabaseStoreWriter {
    pub config: StoreConfig,
}

/// What is wrong with a store on its own.
pub open spec fn writer_complaint(config: StoreConfig) -> Option<Seq<char>> {
    checks::either(
        config::callback_complaint(
            "store"@,
            config.namespace_pattern@,
            config.key_pattern@,
            config.set_query@,
        ),
        checks::either(
            if config::blank(config.delete_query@) {
                Some("store has no delete_query"@)
            } else {
                None
            },
            checks::either(
                config::store_operations_complaint("store"@, config),
                config::store_parameters_complaint("store"@, config),
            ),
        ),
    )
}

/// A store stands for a route, or for a whole namespace.
pub open spec fn stands_for(
    config: StoreConfig,
    namespace: Seq<char>,
    key_pattern: Option<Seq<char>>,
) -> bool {
    match key_pattern {
        Some(pattern) => bridge::captured_route(
            config.namespace_pattern@,
            config.key_pattern@,
            namespace,
            pattern,
        ) is Some,
        None => bridge::namespace_captures(config.namespace_pattern@, namespace) is Some,
    }
}

/// What writes a value.
pub open spec fn set_plan(config: StoreConfig, value: DatabaseValueView) -> Result<
    PlanView,
    AdapterErrorView,
> {
    match bridge::captured_route(
        config.namespace_pattern@,
        config.key_pattern@,
        value.namespace,
        value.key,
    ) {
        None => Err(AdapterErrorView::Configuration("set route does not match store"@)),
        Some(captures) => planned(
            config.set_query@,
            config.set_parameters@,
            Inputs {
                namespace: value.namespace,
                key: Some(value.key),
                key_pattern: None,
                value: Some(value.value),
                ttl: value.ttl,
                captures,
            },
        ),
    }
}

/// What writes several values, in order; the first that cannot be written is an
/// error.
pub open spec fn batch_plan(
    config: StoreConfig,
    namespace: Seq<char>,
    entries: Seq<(Seq<char>, JsonView)>,
    ttl: Option<nat>,
) -> Result<Seq<PlanView>, AdapterErrorView>
    decreases entries.len(),
{
    if entries.len() == 0 {
        Ok(Seq::empty())
    } else {
        match batch_plan(config, namespace, entries.drop_last(), ttl) {
            Err(error) => Err(error),
            Ok(list) => match set_plan(
                config,
                DatabaseValueView {
                    namespace,
                    key: entries.last().0,
                    value: entries.last().1,
                    ttl,
                },
            ) {
                Err(error) => Err(error),
                Ok(plan) => Ok(list.push(plan)),
            },
        }
    }
}

/// What deletes values.
pub open spec fn delete_plan(
    config: StoreConfig,
    namespace: Seq<char>,
    key_pattern: Option<Seq<char>>,
) -> Result<PlanView, AdapterErrorView> {
    let captures = match key_pattern {
        Some(pattern) => match bridge::captured_route(
            config.namespace_pattern@,
            config.key_pattern@,
            namespace,
            pattern,
        ) {
            Some(captures) => captures,
            None => Map::empty(),
        },
        None => Map::empty(),
    };
    let inputs = Inputs { namespace, key: None, key_pattern, value: None, ttl: None, captures };
    if key_pattern is Some {
        planned(config.delete_query@, config.delete_parameters@, inputs)
    } else {
        match config.delete_ns_query {
            None => Err(
                AdapterErrorView::Configuration("store does not support namespace deletes"@),
            ),
            Some(query) => planned(query@, config.delete_ns_parameters@, inputs),
        }
    }
}

/// The captures of a pattern, or none.
pub open spec fn captures_or_none(pattern: Seq<char>, namespace: Seq<char>) -> Map<
    Seq<char>,
    Seq<char>,
> {
    match bridge::namespace_captures(pattern, namespace) {
        Some(captures) => captures,
        None => Map::empty(),
    }
}

/// What a move can use: what the patterns of its ends capture, and the ends
/// themselves.
pub open spec fn move_captures(
    config: StoreConfig,
    source: Seq<char>,
    destination: Seq<char>,
) -> Map<Seq<char>, Seq<char>> {
    let from = captures_or_none(config.namespace_pattern@, source);
    let both = match config.move_ns_pattern {
        Some(pattern) => from.union_prefer_right(captures_or_none(pattern@, destination)),
        None => from,
    };
    both.insert("source_namespace"@, source).insert("destination_namespace"@, destination).insert(
        "source_context"@,
        bridge::context_text(source),
    ).insert("destination_context"@, bridge::context_text(destination))
}

/// What moves a namespace.
pub open spec fn move_plan(
    config: StoreConfig,
    source: Seq<char>,
    destination: Seq<char>,
) -> Result<PlanView, AdapterErrorView> {
    if config.move_ns_pattern is Some && bridge::namespace_captures(
        config.move_ns_pattern->0@,
        destination,
    ) is None {
        Err(AdapterErrorView::Configuration("store does not support moves to this namespace"@))
    } else {
        match config.move_ns_query {
            None => Err(
                AdapterErrorView::Configuration("store does not support namespace moves"@),
            ),
            Some(query) => planned(
                query@,
                config.move_ns_parameters@,
                Inputs {
                    namespace: source,
                    key: None,
                    key_pattern: None,
                    value: None,
                    ttl: None,
                    captures: move_captures(config, source, destination),
                },
            ),
        }
    }
}

fn no_captures() -> (r: Capture)
    ensures
        pattern::captured(r) == Map::<Seq<char>, Seq<char>>::empty(),
{
    let none: Capture = Table::new();
    assert(pattern::captured(none) =~= Map::<Seq<char>, Seq<char>>::empty());
    none
}

fn captures_of(pattern: &str, namespace: &str) -> (r: Capture)
    ensures
        pattern::captured(r) == captures_or_none(pattern@, namespace@),
{
    match bridge::namespace_pattern_captures(pattern, namespace) {
        Some(captures) => captures,
        None => no_captures(),
    }
}

impl DatabaseStoreWriter {
    /// A store with the given configuration.
    pub fn new(config: StoreConfig) -> (r: Result<Self, AdapterError>)
        ensures
            match writer_complaint(config) {
                Some(message) => r matches Err(error) && error@ == AdapterErrorView::Configuration(
                    message,
                ),
                None => r matches Ok(writer) && writer.config == config,
            },
    {
        match config::validate_callback_config(
            "store",
            config.namespace_pattern.as_str(),
            config.key_pattern.as_str(),
            config.set_query.as_str(),
        ) {
            Err(error) => {
                return Err(error);
            },
            Ok(_) => {},
        }
        if text::is_blank(config.delete_query.as_str()) {
            return Err(configuration("store has no delete_query"));
        }
        match config::validate_store_operations("store", &config) {
            Err(error) => {
                return Err(error);
            },
            Ok(_) => {},
        }
        match config::validate_store_parameters("store", &config) {
            Err(error) => Err(error),
            Ok(_) => Ok(DatabaseStoreWriter { config }),
        }
    }

    fn captures(&self, namespace: &NamespaceContext, key: &Key) -> (r: Option<Capture>)
        ensures
            match r {
                Some(captures) => bridge::captured_route(
                    self.config.namespace_pattern@,
                    self.config.key_pattern@,
                    namespace@,
                    key@,
                ) == Some(pattern::captured(captures)),
                None => bridge::captured_route(
                    self.config.namespace_pattern@,
                    self.config.key_pattern@,
                    namespace@,
                    key@,
                ) is None,
            },
    {
        bridge::route_captures(
            self.config.namespace_pattern.as_str(),
            self.config.key_pattern.as_str(),
            namespace,
            key,
        )
    }

    fn pattern_captures(&self, namespace: &NamespaceContext, pattern: &KeyPattern) -> (r: Option<
        Capture,
    >)
        ensures
            match r {
                Some(captures) => bridge::captured_route(
                    self.config.namespace_pattern@,
                    self.config.key_pattern@,
                    namespace@,
                    pattern@,
                ) == Some(pattern::captured(captures)),
                None => bridge::captured_route(
                    self.config.namespace_pattern@,
                    self.config.key_pattern@,
                    namespace@,
                    pattern@,
                ) is None,
            },
    {
        match Key::new(pattern.as_str()) {
            Ok(key) => self.captures(namespace, &key),
            Err(_) => {
                assert(false);
                None
            },
        }
    }

    /// Whether the store stands for a route, or for a whole namespace.
    pub fn matches(&self, namespace: &NamespaceContext, key_pattern: Option<&KeyPattern>) -> (r: bool)
        ensures
            r == stands_for(
                self.config,
                namespace@,
                match key_pattern {
                    Some(pattern) => Some(pattern@),
                    None => None,
                },
            ),
    {
        match key_pattern {
            Some(pattern) => self.pattern_captures(namespace, pattern).is_some(),
            None => bridge::namespace_pattern_matches(
                self.config.namespace_pattern.as_str(),
                namespace.as_str(),
            ),
        }
    }

    fn write(
        &self,
        namespace: &NamespaceContext,
        key: &Key,
        value: &Value,
        ttl: Option<Duration>,
    ) -> (r: Result<SqlPlan, AdapterError>)
        ensures
            crate::db::error::adapter_outcome(r) == set_plan(
                self.config,
                DatabaseValueView {
                    namespace: namespace@,
                    key: key@,
                    value: value@,
                    ttl: crate::error::inner(ttl),
                },
            ),
    {
        let captures = match self.captures(namespace, key) {
            Some(captures) => captures,
            None => {
                return Err(configuration("set route does not match store"));
            },
        };
        let parameters = any_parameters(
            &self.config.set_parameters,
            namespace,
            Some(key),
            None,
            Some(value),
            ttl,
            &captures,
        );
        plan(self.config.set_query.as_str(), parameters)
    }

    /// What writes a value.
    pub fn set(&self, value: &DatabaseValue) -> (r: Result<SqlPlan, AdapterError>)
        ensures
            crate::db::error::adapter_outcome(r) == set_plan(self.config, value@),
    {
        self.write(&value.namespace, &value.key, &value.value, value.ttl)
    }

    /// What writes several values, all of them or none.
    pub fn set_batch(
        &self,
        namespace: &NamespaceContext,
        entries: &Vec<SetEntry>,
        ttl: Option<Duration>,
    ) -> (r: Result<Vec<SqlPlan>, AdapterError>)
        ensures
            match r {
                Ok(plans) => batch_plan(
                    self.config,
                    namespace@,
                    crate::error::views(entries@),
                    crate::error::inner(ttl),
                ) == Ok::<Seq<PlanView>, AdapterErrorView>(crate::error::views(plans@)),
                Err(error) => batch_plan(
                    self.config,
                    namespace@,
                    crate::error::views(entries@),
                    crate::error::inner(ttl),
                ) == Err::<Seq<PlanView>, AdapterErrorView>(error@),
            },
    {
        let ghost all = crate::error::views(entries@);
        let ghost time = crate::error::inner(ttl);
        let mut out: Vec<SqlPlan> = Vec::new();
        let mut i: usize = 0;
        assert(all.take(0) =~= Seq::empty());
        assert(crate::error::views(out@) =~= Seq::<PlanView>::empty());
        while i < entries.len()
            invariant
                i <= entries.len(),
                all == crate::error::views(entries@),
                time == crate::error::inner(ttl),
                batch_plan(self.config, namespace@, all.take(i as int), time) == Ok::<
                    Seq<PlanView>,
                    AdapterErrorView,
                >(crate::error::views(out@)),
            decreases entries.len() - i,
        {
            let ghost before = crate::error::views(out@);
            proof {
                assert(all.take(i + 1).drop_last() =~= all.take(i as int));
                assert(all.take(i + 1).last() == entries@[i as int]@);
            }
            match self.write(namespace, &entries[i].key, &entries[i].value, ttl) {
                Err(error) => {
                    proof {
                        lemma_first_failure(self.config, namespace@, all, time, i + 1);
                    }
                    return Err(error);
                },
                Ok(plan) => {
                    out.push(plan);
                    assert(crate::error::views(out@) =~= before.push(plan@));
                },
            }
            i += 1;
        }
        assert(all.take(entries.len() as int) =~= all);
        Ok(out)
    }

    /// What deletes the values that a pattern stands for, or those of a whole
    /// namespace.
    pub fn delete(&self, namespace: &NamespaceContext, key_pattern: Option<&KeyPattern>) -> (r: Result<
        SqlPlan,
        AdapterError,
    >)
        ensures
            crate::db::error::adapter_outcome(r) == delete_plan(
                self.config,
                namespace@,
                match key_pattern {
                    Some(pattern) => Some(pattern@),
                    None => None,
                },
            ),
    {
        match key_pattern {
            Some(pattern) => {
                let captures = match self.pattern_captures(namespace, pattern) {
                    Some(captures) => captures,
                    None => no_captures(),
                };
                let parameters = any_parameters(
                    &self.config.delete_parameters,
                    namespace,
                    None,
                    Some(pattern),
                    None,
                    None,
                    &captures,
                );
                plan(self.config.delete_query.as_str(), parameters)
            },
            None => match &self.config.delete_ns_query {
                None => Err(configuration("store does not support namespace deletes")),
                Some(query) => {
                    let captures = no_captures();
                    let parameters = any_parameters(
                        &self.config.delete_ns_parameters,
                        namespace,
                        None,
                        None,
                        None,
                        None,
                        &captures,
                    );
                    plan(query.as_str(), parameters)
                },
            },
        }
    }

    /// What moves a namespace.
    pub fn move_namespace(&self, source: &NamespaceContext, destination: &NamespaceContext) -> (r:
        Result<SqlPlan, AdapterError>)
        ensures
            crate::db::error::adapter_outcome(r) == move_plan(
                self.config,
                source@,
                destination@,
            ),
    {
        if let Some(pattern) = &self.config.move_ns_pattern {
            if !bridge::namespace_pattern_matches(pattern.as_str(), destination.as_str()) {
                return Err(configuration("store does not support moves to this namespace"));
            }
        }
        let query = match &self.config.move_ns_query {
            Some(query) => query,
            None => {
                return Err(configuration("store does not support namespace moves"));
            },
        };
        let from = captures_of(self.config.namespace_pattern.as_str(), source.as_str());
        let both = match &self.config.move_ns_pattern {
            Some(pattern) => {
                let to = captures_of(pattern.as_str(), destination.as_str());
                bridge::joined_captures(from, to)
            },
            None => from,
        };
        let all = bridge::with_capture(both, "source_namespace", source.as_str());
        let all = bridge::with_capture(all, "destination_namespace", destination.as_str());
        let context = bridge::context_or_empty(source);
        let all = bridge::with_capture(all, "source_context", context.as_str());
        let context = bridge::context_or_empty(destination);
        let all = bridge::with_capture(all, "destination_context", context.as_str());
        let parameters = any_parameters(
            &self.config.move_ns_parameters,
            source,
            None,
            None,
            None,
            None,
            &all,
        );
        plan(query.as_str(), parameters)
    }
}

proof fn lemma_first_failure(
    config: StoreConfig,
    namespace: Seq<char>,
    entries: Seq<(Seq<char>, JsonView)>,
    ttl: Option<nat>,
    n: int,
)
    requires
        0 <= n <= entries.len(),
        batch_plan(config, namespace, entries.take(n), ttl) is Err,
    ensures
        batch_plan(config, namespace, entries, ttl) == batch_plan(
            config,
            namespace,
            entries.take(n),
            ttl,
        ),
    decreases entries.len() - n,
{
    if n < entries.len() {
        assert(entries.take(n + 1).drop_last() =~= entries.take(n));
        lemma_first_failure(config, namespace, entries, ttl, n + 1);
    } else {
        assert(entries.take(n) =~= entries);
    }
}

} // verus!
