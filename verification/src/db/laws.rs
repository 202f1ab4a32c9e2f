//! What the requests of a server come to in the database, and what its rows mean.

use crate::client::ClientErrorView;
use crate::db::bridge;
use crate::db::callback::{
    self, BridgeStepView, ForwardedView,
};
use crate::db::config::{QueryConfig, StoreConfig};
use crate::db::error::{AdapterError, AdapterErrorView};
use crate::db::plan::{
    self, DatabaseQueryProvider, DatabaseStoreWriter, DatabaseValueView, Inputs, ParameterView,
    PlanView,
};
use crate::db::publisher;
use crate::db::rows::{self, Column, ProviderRow};
use crate::json::{self, JsonView, Value};
use crate::pattern;
use crate::protocol::{CommandView, ServerCommandView, ServerResultView, Uuid};
use crate::text;
use vstd::prelude::*;

verus! {

proof fn lemma_names()
    ensures
        "namespace"@.len() == 9,
        "key"@.len() == 3,
        "key_pattern"@.len() == 11,
        "value"@.len() == 5,
        "ttl_seconds"@.len() == 11,
        "key_pattern"@ != "ttl_seconds"@,
        "source_namespace"@.len() == 16,
        "destination_namespace"@.len() == 21,
        "source_context"@.len() == 14,
        "destination_context"@.len() == 19,
        "context"@.len() == 7,
{
    reveal_strlit("namespace");
    reveal_strlit("key");
    reveal_strlit("key_pattern");
    reveal_strlit("value");
    reveal_strlit("ttl_seconds");
    reveal_strlit("source_namespace");
    reveal_strlit("destination_namespace");
    reveal_strlit("source_context");
    reveal_strlit("destination_context");
    reveal_strlit("context");
    assert("key_pattern"@[0] == 'k');
    assert("ttl_seconds"@[0] == 't');
}

proof fn lemma_parameters(names: Seq<Seq<char>>, inputs: Inputs)
    ensures
        plan::parameters(names, inputs) matches Ok(list) ==> list.len() == names.len() && forall|
            i: int,
        |
            0 <= i < names.len() ==> plan::parameter(#[trigger] names[i], inputs) == Ok::<
                ParameterView,
                AdapterErrorView,
            >(list[i]),
        plan::parameters(names, inputs) matches Err(error) ==> exists|i: int|
            0 <= i < names.len() && plan::parameter(#[trigger] names[i], inputs) == Err::<
                ParameterView,
                AdapterErrorView,
            >(error),
    decreases names.len(),
{
    if names.len() > 0 {
        let rest = names.drop_last();
        lemma_parameters(rest, inputs);
        match plan::parameters(rest, inputs) {
            Err(error) => {
                let i = choose|i: int|
                    0 <= i < rest.len() && plan::parameter(#[trigger] rest[i], inputs) == Err::<
                        ParameterView,
                        AdapterErrorView,
                    >(error);
                assert(names[i] == rest[i]);
            },
            Ok(list) => {
                assert(names[names.len() - 1] == names.last());
                if let Ok(all) = plan::parameters(names, inputs) {
                    assert forall|i: int| 0 <= i < names.len() implies plan::parameter(
                        #[trigger] names[i],
                        inputs,
                    ) == Ok::<ParameterView, AdapterErrorView>(all[i]) by {
                        if i < rest.len() {
                            assert(rest[i] == names[i]);
                        }
                    }
                }
            },
        }
    }
}

/// A statement is run with one parameter for each of its names, in their order.
pub proof fn statements_bind_their_names(query: Seq<char>, names: Seq<String>, inputs: Inputs)
    ensures
        plan::planned(query, names, inputs) matches Ok(plan) ==> {
            &&& plan.query == query
            &&& plan.parameters.len() == names.len()
            &&& forall|i: int|
                0 <= i < names.len() ==> plan::parameter((#[trigger] names[i])@, inputs) == Ok::<
                    ParameterView,
                    AdapterErrorView,
                >(plan.parameters[i])
        },
        plan::planned(query, names, inputs) matches Err(error) ==> exists|i: int|
            0 <= i < names.len() && plan::parameter((#[trigger] names[i])@, inputs) == Err::<
                ParameterView,
                AdapterErrorView,
            >(error),
{
    let texts = plan::name_texts(names);
    lemma_parameters(texts, inputs);
    if let Ok(plan) = plan::planned(query, names, inputs) {
        assert forall|i: int| 0 <= i < names.len() implies plan::parameter(
            (#[trigger] names[i])@,
            inputs,
        ) == Ok::<ParameterView, AdapterErrorView>(plan.parameters[i]) by {
            assert(texts[i] == names[i]@);
        }
    }
    if let Err(error) = plan::planned(query, names, inputs) {
        let i = choose|i: int|
            0 <= i < texts.len() && plan::parameter(#[trigger] texts[i], inputs) == Err::<
                ParameterView,
                AdapterErrorView,
            >(error);
        assert(texts[i] == names[i]@);
    }
}

/// The whole seconds of a time, as an integer parameter: no more than it, and less than
/// a second short of it.
pub open spec fn seconds_of(nanos: nat, seconds: i64) -> bool {
    seconds * 1_000_000_000 <= nanos < (seconds + 1) * 1_000_000_000
}

/// The names that stand for the route, the value and its time to live stand for those of
/// the statement, and one that it has not got is an error. The time to live is in whole
/// seconds, or null without one. Any other name stands for what the patterns captured.
pub proof fn names_stand_for_their_inputs(inputs: Inputs, name: Seq<char>)
    ensures
        plan::parameter("namespace"@, inputs) == Ok::<ParameterView, AdapterErrorView>(
            ParameterView::Text(inputs.namespace),
        ),
        inputs.key matches Some(key) ==> plan::parameter("key"@, inputs) == Ok::<
            ParameterView,
            AdapterErrorView,
        >(ParameterView::Text(key)),
        inputs.key is None ==> plan::parameter("key"@, inputs) is Err,
        inputs.key_pattern matches Some(pattern) ==> plan::parameter("key_pattern"@, inputs) == Ok::<
            ParameterView,
            AdapterErrorView,
        >(ParameterView::Text(pattern)),
        inputs.key_pattern is None ==> plan::parameter("key_pattern"@, inputs) is Err,
        inputs.value matches Some(value) ==> plan::parameter("value"@, inputs) == Ok::<
            ParameterView,
            AdapterErrorView,
        >(ParameterView::Text(json::json_text(value))),
        inputs.value is None ==> plan::parameter("value"@, inputs) is Err,
        inputs.ttl is None ==> plan::parameter("ttl_seconds"@, inputs) == Ok::<
            ParameterView,
            AdapterErrorView,
        >(ParameterView::Null),
        inputs.ttl matches Some(nanos) ==> (nanos < 0x8000_0000_0000_0000 * 1_000_000_000 ==> (
        plan::parameter("ttl_seconds"@, inputs) matches Ok(ParameterView::Integer(seconds))
            && seconds_of(nanos, seconds))),
        name != "namespace"@ && name != "key"@ && name != "key_pattern"@ && name != "value"@ && name
            != "ttl_seconds"@ && inputs.captures.dom().contains(name) ==> plan::parameter(
            name,
            inputs,
        ) == Ok::<ParameterView, AdapterErrorView>(ParameterView::Text(inputs.captures[name])),
        name != "namespace"@ && name != "key"@ && name != "key_pattern"@ && name != "value"@ && name
            != "ttl_seconds"@ && name != "source_context"@ && name != "destination_context"@ && name
            != "context"@ && !inputs.captures.dom().contains(name) ==> plan::parameter(name, inputs)
            is Err,
        !inputs.captures.dom().contains("context"@) ==> plan::parameter("context"@, inputs) == Ok::<
            ParameterView,
            AdapterErrorView,
        >(ParameterView::Text(Seq::empty())),
{
    lemma_names();
    if let Some(nanos) = inputs.ttl {
        if nanos < 0x8000_0000_0000_0000 * 1_000_000_000 {
            let seconds = nanos / 1_000_000_000;
            assert(seconds < 0x8000_0000_0000_0000);
            assert(seconds as u64 as i64 == seconds);
        }
    }
}

/// The context of a namespace, or nothing: what stands behind its first double colon.
pub proof fn contexts_are_captured(base: Seq<char>, context: Seq<char>)
    requires
        base.len() > 0,
        context.len() > 0,
        text::find(base, seq![':', ':']) is None,
        base[base.len() - 1] != ':',
    ensures
        bridge::context_text(base + seq![':', ':'] + context) == context,
        bridge::context_text(base) == Seq::<char>::empty(),
{
    let whole = base + seq![':', ':'] + context;
    let at = base.len() as int;
    let colons = seq![':', ':'];
    assert(whole.subrange(at, at + 2) =~= colons);
    text::lemma_find_from(base, colons, 0);
    assert forall|j: int| 0 <= j < at implies !#[trigger] text::occurs_at(whole, colons, j) by {
        if text::occurs_at(whole, colons, j) {
            assert(whole.subrange(j, j + 2)[0] == whole[j]);
            assert(whole.subrange(j, j + 2)[1] == whole[j + 1]);
            assert(whole[j] == base[j]);
            if j + 1 < at {
                assert(base.subrange(j, j + 2) =~= colons);
                assert(text::occurs_at(base, colons, j));
            } else {
                assert(base[at - 1] == ':');
            }
        }
    }
    text::lemma_find_from_is(whole, colons, 0, at);
    assert(whole.skip(at + 2) =~= context);
}

/// The patterns of a query or a store stand for a route where the namespace pattern
/// covers the namespace and the key pattern the key; then a statement can use the
/// namespace, the key and the context under these names, and else what the key pattern
/// captured before what the namespace pattern captured.
pub proof fn routes_are_captured(
    namespace_pattern: Seq<char>,
    key_pattern: Seq<char>,
    namespace: Seq<char>,
    key: Seq<char>,
    name: Seq<char>,
)
    ensures
        ({
            let outer = bridge::namespace_captures(namespace_pattern, namespace);
            let inner = pattern::pattern_match(key_pattern, key);
            let captured = bridge::captured_route(namespace_pattern, key_pattern, namespace, key);
            &&& captured is Some <==> outer is Some && inner is Some
            &&& captured matches Some(all) ==> {
                &&& all.dom().contains("namespace"@) && all["namespace"@] == namespace
                &&& all.dom().contains("key"@) && all["key"@] == key
                &&& all.dom().contains("context"@) && all["context"@] == bridge::context_text(
                    namespace,
                )
                &&& name != "namespace"@ && name != "key"@ && name != "context"@
                    && inner->0.dom().contains(name) ==> all.dom().contains(name) && all[name]
                    == inner->0[name]
                &&& name != "namespace"@ && name != "key"@ && name != "context"@
                    && !inner->0.dom().contains(name) && outer->0.dom().contains(name)
                    ==> all.dom().contains(name) && all[name] == outer->0[name]
                &&& all.dom().contains(name) ==> name == "namespace"@ || name == "key"@ || name
                    == "context"@ || inner->0.dom().contains(name) || outer->0.dom().contains(name)
            }
        }),
{
    lemma_names();
}

/// A namespace pattern covers what it matches, with what it captures; a plain one covers
/// its contexts too.
pub proof fn namespaces_are_covered(pattern: Seq<char>, namespace: Seq<char>)
    ensures
        pattern::pattern_match(pattern, namespace) matches Some(captures)
            ==> bridge::namespace_captures(pattern, namespace) == Some(captures),
        pattern::pattern_match(pattern, namespace) is None ==> (bridge::namespace_captures(
            pattern,
            namespace,
        ) is Some <==> !pattern.contains('*') && !pattern.contains('{') && exists|rest: Seq<char>|
            namespace == #[trigger] (pattern.push(':').push(':') + rest)),
        pattern::pattern_match(pattern, namespace) is None && bridge::namespace_captures(
            pattern,
            namespace,
        ) is Some ==> bridge::namespace_captures(pattern, namespace) == Some(
            Map::<Seq<char>, Seq<char>>::empty(),
        ),
{
    lemma_holds(pattern, '*');
    lemma_holds(pattern, '{');
    let colons = pattern + seq![':', ':'];
    assert(colons =~= pattern.push(':').push(':'));
    if colons.is_prefix_of(namespace) {
        assert(namespace =~= colons + namespace.skip(colons.len() as int));
    }
    assert forall|rest: Seq<char>| namespace == #[trigger] (pattern.push(':').push(':')
        + rest) implies colons.is_prefix_of(namespace) by {
        assert(namespace.take(colons.len() as int) =~= colons);
    }
}

proof fn lemma_holds(s: Seq<char>, c: char)
    ensures
        text::contains(s, seq![c]) <==> s.contains(c),
{
    let part = seq![c];
    text::lemma_find_from(s, part, 0);
    if let Some(at) = text::find(s, part) {
        assert(s.subrange(at, at + 1)[0] == s[at]);
    }
    if s.contains(c) {
        let i = choose|i: int| 0 <= i < s.len() && s[i] == c;
        assert(s.subrange(i, i + 1) =~= part);
        assert(text::occurs_at(s, part, i));
    }
}

/// A query that stands for a route is run as it is configured, with the namespace, the
/// key and the context of the request; one that does not is not run.
pub proof fn queries_ask_for_their_route(
    config: QueryConfig,
    namespace: Seq<char>,
    key: Seq<char>,
    i: int,
)
    ensures
        bridge::captured_route(config.namespace_pattern@, config.key_pattern@, namespace, key) is None
            ==> plan::query_plan(config, namespace, key) == Ok::<
            Option<PlanView>,
            AdapterErrorView,
        >(None),
        bridge::captured_route(config.namespace_pattern@, config.key_pattern@, namespace, key) is Some
            ==> !(plan::query_plan(config, namespace, key) matches Ok(None)),
        plan::query_plan(config, namespace, key) matches Ok(Some(plan)) ==> {
            &&& plan.query == config.query@
            &&& plan.parameters.len() == config.parameters@.len()
            &&& 0 <= i < config.parameters@.len() ==> {
                let name = config.parameters@[i]@;
                &&& name == "namespace"@ ==> plan.parameters[i] == ParameterView::Text(namespace)
                &&& name == "key"@ ==> plan.parameters[i] == ParameterView::Text(key)
                &&& name == "context"@ ==> plan.parameters[i] == ParameterView::Text(
                    bridge::context_text(namespace),
                )
            }
        },
{
    lemma_names();
    if let Some(captures) = bridge::captured_route(
        config.namespace_pattern@,
        config.key_pattern@,
        namespace,
        key,
    ) {
        let inputs = Inputs {
            namespace,
            key: Some(key),
            key_pattern: None,
            value: None,
            ttl: None,
            captures,
        };
        routes_are_captured(
            config.namespace_pattern@,
            config.key_pattern@,
            namespace,
            key,
            "context"@,
        );
        statements_bind_their_names(config.query@, config.parameters@, inputs);
        names_stand_for_their_inputs(inputs, "context"@);
        if 0 <= i < config.parameters@.len() {
            let name = config.parameters@[i];
        }
    }
}

/// A value is written by the statement of the store, with its own namespace, key and
/// value, the whole seconds of its time to live, and its context; a store that does not
/// stand for the route refuses it.
pub proof fn writes_carry_their_value(config: StoreConfig, value: DatabaseValueView, i: int)
    ensures
        bridge::captured_route(
            config.namespace_pattern@,
            config.key_pattern@,
            value.namespace,
            value.key,
        ) is None ==> plan::set_plan(config, value) is Err,
        plan::set_plan(config, value) matches Ok(plan) ==> {
            &&& plan.query == config.set_query@
            &&& plan.parameters.len() == config.set_parameters@.len()
            &&& 0 <= i < config.set_parameters@.len() ==> {
                let name = config.set_parameters@[i]@;
                &&& name == "namespace"@ ==> plan.parameters[i] == ParameterView::Text(
                    value.namespace,
                )
                &&& name == "key"@ ==> plan.parameters[i] == ParameterView::Text(value.key)
                &&& name == "value"@ ==> plan.parameters[i] == ParameterView::Text(
                    json::json_text(value.value),
                )
                &&& name == "context"@ ==> plan.parameters[i] == ParameterView::Text(
                    bridge::context_text(value.namespace),
                )
                &&& name == "ttl_seconds"@ && value.ttl is None ==> plan.parameters[i]
                    == ParameterView::Null
                &&& name == "ttl_seconds"@ && value.ttl is Some && value.ttl->0
                    < 0x8000_0000_0000_0000 * 1_000_000_000 ==> (
                plan.parameters[i] matches ParameterView::Integer(seconds) && seconds_of(
                    value.ttl->0,
                    seconds,
                ))
            }
        },
{
    lemma_names();
    if let Some(captures) = bridge::captured_route(
        config.namespace_pattern@,
        config.key_pattern@,
        value.namespace,
        value.key,
    ) {
        let inputs = Inputs {
            namespace: value.namespace,
            key: Some(value.key),
            key_pattern: None,
            value: Some(value.value),
            ttl: value.ttl,
            captures,
        };
        routes_are_captured(
            config.namespace_pattern@,
            config.key_pattern@,
            value.namespace,
            value.key,
            "context"@,
        );
        statements_bind_their_names(config.set_query@, config.set_parameters@, inputs);
        names_stand_for_their_inputs(inputs, "context"@);
        if 0 <= i < config.set_parameters@.len() {
            let name = config.set_parameters@[i];
        }
    }
}

/// A batch is written entry by entry, in order, each as a value of its own with the time
/// to live of the batch; one entry that cannot be written refuses the batch.
pub proof fn batches_write_every_entry(
    config: StoreConfig,
    namespace: Seq<char>,
    entries: Seq<(Seq<char>, JsonView)>,
    ttl: Option<nat>,
)
    ensures
        plan::batch_plan(config, namespace, entries, ttl) matches Ok(plans) ==> plans.len()
            == entries.len() && forall|i: int|
            0 <= i < entries.len() ==> plan::set_plan(
                config,
                DatabaseValueView {
                    namespace,
                    key: (#[trigger] entries[i]).0,
                    value: entries[i].1,
                    ttl,
                },
            ) == Ok::<PlanView, AdapterErrorView>(plans[i]),
        plan::batch_plan(config, namespace, entries, ttl) matches Err(error) ==> exists|i: int|
            0 <= i < entries.len() && plan::set_plan(
                config,
                DatabaseValueView {
                    namespace,
                    key: (#[trigger] entries[i]).0,
                    value: entries[i].1,
                    ttl,
                },
            ) == Err::<PlanView, AdapterErrorView>(error),
    decreases entries.len(),
{
    if entries.len() > 0 {
        let rest = entries.drop_last();
        batches_write_every_entry(config, namespace, rest, ttl);
        assert(entries[entries.len() - 1] == entries.last());
        match plan::batch_plan(config, namespace, rest, ttl) {
            Err(error) => {
                let i = choose|i: int|
                    0 <= i < rest.len() && plan::set_plan(
                        config,
                        DatabaseValueView {
                            namespace,
                            key: (#[trigger] rest[i]).0,
                            value: rest[i].1,
                            ttl,
                        },
                    ) == Err::<PlanView, AdapterErrorView>(error);
                assert(entries[i] == rest[i]);
            },
            Ok(list) => {
                if let Ok(plans) = plan::batch_plan(config, namespace, entries, ttl) {
                    assert forall|i: int| 0 <= i < entries.len() implies plan::set_plan(
                        config,
                        DatabaseValueView {
                            namespace,
                            key: (#[trigger] entries[i]).0,
                            value: entries[i].1,
                            ttl,
                        },
                    ) == Ok::<PlanView, AdapterErrorView>(plans[i]) by {
                        if i < rest.len() {
                            assert(rest[i] == entries[i]);
                        }
                    }
                }
            },
        }
    }
}

/// A deletion with a key pattern runs the statement for that, with the namespace and that
/// pattern; one without runs the statement that deletes a namespace, and is refused where
/// the store has none.
pub proof fn deletions_carry_their_pattern(
    config: StoreConfig,
    namespace: Seq<char>,
    pattern: Seq<char>,
    i: int,
)
    ensures
        plan::delete_plan(config, namespace, Some(pattern)) matches Ok(plan) ==> {
            &&& plan.query == config.delete_query@
            &&& plan.parameters.len() == config.delete_parameters@.len()
            &&& 0 <= i < config.delete_parameters@.len() ==> {
                let name = config.delete_parameters@[i]@;
                &&& name == "namespace"@ ==> plan.parameters[i] == ParameterView::Text(namespace)
                &&& name == "key_pattern"@ ==> plan.parameters[i] == ParameterView::Text(pattern)
            }
        },
        plan::delete_plan(config, namespace, None) matches Ok(plan) ==> {
            &&& config.delete_ns_query matches Some(query)
            &&& plan.query == query@
            &&& plan.parameters.len() == config.delete_ns_parameters@.len()
            &&& 0 <= i < config.delete_ns_parameters@.len() ==> (
            config.delete_ns_parameters@[i]@ == "namespace"@ ==> plan.parameters[i]
                == ParameterView::Text(namespace))
        },
        config.delete_ns_query is None ==> plan::delete_plan(config, namespace, None) == Err::<
            PlanView,
            AdapterErrorView,
        >(AdapterErrorView::Configuration("store does not support namespace deletes"@)),
        config.delete_ns_query is Some && config.delete_ns_parameters@.len() == 0
            ==> plan::delete_plan(config, namespace, None) is Ok,
{
    lemma_names();
    let captures = match bridge::captured_route(
        config.namespace_pattern@,
        config.key_pattern@,
        namespace,
        pattern,
    ) {
        Some(captures) => captures,
        None => Map::empty(),
    };
    let keyed = Inputs {
        namespace,
        key: None,
        key_pattern: Some(pattern),
        value: None,
        ttl: None,
        captures,
    };
    let whole = Inputs {
        namespace,
        key: None,
        key_pattern: None,
        value: None,
        ttl: None,
        captures: Map::empty(),
    };
    statements_bind_their_names(config.delete_query@, config.delete_parameters@, keyed);
    names_stand_for_their_inputs(keyed, "context"@);
    names_stand_for_their_inputs(whole, "context"@);
    if 0 <= i < config.delete_parameters@.len() {
        let name = config.delete_parameters@[i];
    }
    if let Some(query) = config.delete_ns_query {
        statements_bind_their_names(query@, config.delete_ns_parameters@, whole);
        if 0 <= i < config.delete_ns_parameters@.len() {
            let name = config.delete_ns_parameters@[i];
        }
    }
}

/// A move runs the statement for moves with its source as the source and its destination
/// as the destination, and their contexts, whatever the patterns of the store capture. It
/// is refused where the store has no such statement, or has a pattern for destinations
/// that does not stand for this one.
pub proof fn moves_carry_their_ends(
    config: StoreConfig,
    source: Seq<char>,
    destination: Seq<char>,
    i: int,
)
    ensures
        plan::move_plan(config, source, destination) matches Ok(plan) ==> {
            &&& config.move_ns_query matches Some(query)
            &&& plan.query == query@
            &&& plan.parameters.len() == config.move_ns_parameters@.len()
            &&& 0 <= i < config.move_ns_parameters@.len() ==> {
                let name = config.move_ns_parameters@[i]@;
                &&& name == "source_namespace"@ ==> plan.parameters[i] == ParameterView::Text(
                    source,
                )
                &&& name == "destination_namespace"@ ==> plan.parameters[i] == ParameterView::Text(
                    destination,
                )
                &&& name == "namespace"@ ==> plan.parameters[i] == ParameterView::Text(source)
                &&& name == "source_context"@ ==> plan.parameters[i] == ParameterView::Text(
                    bridge::context_text(source),
                )
                &&& name == "destination_context"@ ==> plan.parameters[i] == ParameterView::Text(
                    bridge::context_text(destination),
                )
            }
        },
        config.move_ns_pattern is Some && bridge::namespace_captures(
            config.move_ns_pattern->0@,
            destination,
        ) is None ==> plan::move_plan(config, source, destination) == Err::<
            PlanView,
            AdapterErrorView,
        >(AdapterErrorView::Configuration("store does not support moves to this namespace"@)),
        config.move_ns_pattern is None && config.move_ns_query is None ==> plan::move_plan(
            config,
            source,
            destination,
        ) == Err::<PlanView, AdapterErrorView>(
            AdapterErrorView::Configuration("store does not support namespace moves"@),
        ),
        config.move_ns_pattern is None && config.move_ns_query is Some
            && config.move_ns_parameters@.len() == 0 ==> plan::move_plan(
            config,
            source,
            destination,
        ) is Ok,
{
    lemma_names();
    if let Some(query) = config.move_ns_query {
        let inputs = Inputs {
            namespace: source,
            key: None,
            key_pattern: None,
            value: None,
            ttl: None,
            captures: plan::move_captures(config, source, destination),
        };
        statements_bind_their_names(query@, config.move_ns_parameters@, inputs);
        if 0 <= i < config.move_ns_parameters@.len() {
            let name = config.move_ns_parameters@[i];
        }
    }
}

/// A value that the database gave is the answer under the identifier of the request, for
/// as long as the query says; without one the answer is empty, and an error is told.
pub proof fn found_values_are_answered(
    request_id: Uuid,
    value: JsonView,
    error: AdapterErrorView,
    ttl_seconds: Option<u64>,
)
    ensures
        callback::query_answer(request_id, Ok(Some(value)), ttl_seconds) == (
        ServerResultView::Query { request_id, value: Some(value), ttl_seconds, error: None }),
        callback::query_answer(request_id, Ok(None), ttl_seconds) == (ServerResultView::Query {
            request_id,
            value: None,
            ttl_seconds: None,
            error: None,
        }),
        callback::query_answer(request_id, Err(error), ttl_seconds) == (ServerResultView::Query {
            request_id,
            value: None,
            ttl_seconds: None,
            error: Some(error.message()),
        }),
        callback::operation_answer(request_id, Ok(())) == (ServerResultView::Operation {
            request_id,
            error: None,
        }),
        callback::operation_answer(request_id, Err(error)) == (ServerResultView::Operation {
            request_id,
            error: Some(error.message()),
        }),
{
}

proof fn lemma_first_query(
    queries: Seq<DatabaseQueryProvider>,
    namespace: Seq<char>,
    key: Seq<char>,
    from: int,
)
    requires
        0 <= from <= queries.len(),
    ensures
        match callback::first_query(queries, namespace, key, from) {
            Some(i) => from <= i < queries.len() && callback::query_stands(
                queries[i].config,
                namespace,
                key,
            ) && forall|j: int|
                from <= j < i ==> !callback::query_stands(
                    (#[trigger] queries[j]).config,
                    namespace,
                    key,
                ),
            None => forall|j: int|
                from <= j < queries.len() ==> !callback::query_stands(
                    (#[trigger] queries[j]).config,
                    namespace,
                    key,
                ),
        },
    decreases queries.len() - from,
{
    if from < queries.len() && !callback::query_stands(queries[from].config, namespace, key) {
        lemma_first_query(queries, namespace, key, from + 1);
    }
}

/// Whether the patterns of a query stand for a route.
pub open spec fn asks(query: DatabaseQueryProvider, namespace: Seq<char>, key: Seq<char>) -> bool {
    bridge::captured_route(
        query.config.namespace_pattern@,
        query.config.key_pattern@,
        namespace,
        key,
    ) is Some
}

/// A request for a value runs the first query that stands for the route, for the time
/// that the query allows; without one the answer is empty.
pub proof fn values_are_asked_of_the_first_query(
    queries: Seq<DatabaseQueryProvider>,
    stores: Seq<DatabaseStoreWriter>,
    request_id: Uuid,
    namespace: Seq<char>,
    key: Seq<char>,
    i: int,
)
    requires
        0 <= i <= queries.len(),
        i < queries.len() ==> asks(queries[i], namespace, key),
        forall|j: int| 0 <= j < i ==> !asks(#[trigger] queries[j], namespace, key),
    ensures
        ({
            let step = callback::handled(
                queries,
                stores,
                ServerCommandView::Query { request_id, namespace, key },
            );
            &&& i == queries.len() ==> step == BridgeStepView::Finished(
                ServerResultView::Query { request_id, value: None, ttl_seconds: None, error: None },
            )
            &&& i < queries.len() ==> step == (match plan::query_plan(
                queries[i].config,
                namespace,
                key,
            ) {
                Ok(Some(plan)) => BridgeStepView::Query {
                    request_id,
                    position: i,
                    plan,
                    query_timeout_seconds: queries[i].config.timeout_seconds,
                    ttl_seconds: queries[i].config.ttl_seconds,
                },
                Ok(None) => BridgeStepView::Finished(
                    ServerResultView::Query {
                        request_id,
                        value: None,
                        ttl_seconds: None,
                        error: None,
                    },
                ),
                Err(error) => BridgeStepView::Finished(
                    ServerResultView::Query {
                        request_id,
                        value: None,
                        ttl_seconds: None,
                        error: Some(error.message()),
                    },
                ),
            })
        }),
{
    lemma_first_query(queries, namespace, key, 0);
    if i < queries.len() {
        assert(callback::query_stands(queries[i].config, namespace, key));
    }
    if let Some(k) = callback::first_query(queries, namespace, key, 0) {
        assert(asks(queries[k], namespace, key));
    }
}

proof fn lemma_last_store(
    stores: Seq<DatabaseStoreWriter>,
    namespace: Seq<char>,
    key_pattern: Option<Seq<char>>,
    position: int,
)
    requires
        0 <= position <= stores.len(),
    ensures
        match callback::last_store(stores, namespace, key_pattern, position) {
            Some(i) => 0 <= i < position && keeps(stores[i], namespace, key_pattern) && forall|
                j: int,
            |
                i < j < position ==> !keeps(#[trigger] stores[j], namespace, key_pattern),
            None => forall|j: int|
                0 <= j < position ==> !keeps(#[trigger] stores[j], namespace, key_pattern),
        },
    decreases position,
{
    if position > 0 && !keeps(stores[position - 1], namespace, key_pattern) {
        lemma_last_store(stores, namespace, key_pattern, position - 1);
    }
}

/// Whether the patterns of a store stand for a key, or for a namespace where there is
/// none.
pub open spec fn keeps(
    store: DatabaseStoreWriter,
    namespace: Seq<char>,
    key_pattern: Option<Seq<char>>,
) -> bool {
    match key_pattern {
        Some(pattern) => bridge::captured_route(
            store.config.namespace_pattern@,
            store.config.key_pattern@,
            namespace,
            pattern,
        ) is Some,
        None => bridge::namespace_captures(store.config.namespace_pattern@, namespace) is Some,
    }
}

/// The last of the stores that stand for a change.
pub open spec fn is_last(
    stores: Seq<DatabaseStoreWriter>,
    namespace: Seq<char>,
    key_pattern: Option<Seq<char>>,
    i: int,
) -> bool {
    &&& 0 <= i < stores.len()
    &&& keeps(stores[i], namespace, key_pattern)
    &&& forall|j: int| i < j < stores.len() ==> !keeps(#[trigger] stores[j], namespace, key_pattern)
}

/// The answer where no store stands for a change.
pub open spec fn unkept(request_id: Uuid) -> BridgeStepView {
    BridgeStepView::Finished(
        ServerResultView::Operation {
            request_id,
            error: Some(
                AdapterErrorView::Publish(ClientErrorView::Server("no matching store"@)).message(),
            ),
        },
    )
}

/// What a statement of a store comes to.
pub open spec fn run(
    request_id: Uuid,
    position: int,
    plan: Result<PlanView, AdapterErrorView>,
    timeout_seconds: u64,
    forward: ForwardedView,
) -> BridgeStepView {
    match plan {
        Ok(plan) => BridgeStepView::Persist {
            request_id,
            position,
            plans: seq![plan],
            is_batch: false,
            timeout_seconds,
            forward,
        },
        Err(error) => BridgeStepView::Finished(
            ServerResultView::Operation { request_id, error: Some(error.message()) },
        ),
    }
}

/// A value that is to be persisted is written by the last store that stands for it, and
/// the other servers are told of that very value.
pub proof fn values_are_persisted_by_the_last_store(
    queries: Seq<DatabaseQueryProvider>,
    stores: Seq<DatabaseStoreWriter>,
    request_id: Uuid,
    namespace: Seq<char>,
    key: Seq<char>,
    value: JsonView,
    ttl_seconds: Option<u64>,
    i: int,
)
    ensures
        ({
            let step = callback::handled(
                queries,
                stores,
                ServerCommandView::PersistSet { request_id, namespace, key, value, ttl_seconds },
            );
            let written = DatabaseValueView {
                namespace,
                key,
                value,
                ttl: match ttl_seconds {
                    Some(n) => Some((n * 1_000_000_000) as nat),
                    None => None,
                },
            };
            &&& is_last(stores, namespace, Some(key), i) ==> step == run(
                request_id,
                i,
                plan::set_plan(stores[i].config, written),
                stores[i].config.timeout_seconds,
                ForwardedView::SetValue(written),
            )
            &&& (forall|j: int|
                0 <= j < stores.len() ==> !keeps(#[trigger] stores[j], namespace, Some(key)))
                ==> step == unkept(request_id)
        }),
{
    lemma_last_store(stores, namespace, Some(key), stores.len() as int);
}

/// A batch that is to be persisted is written by the last store that stands for its first
/// key, all entries together, and the other servers are told of that very batch.
pub proof fn batches_are_persisted_by_the_last_store(
    queries: Seq<DatabaseQueryProvider>,
    stores: Seq<DatabaseStoreWriter>,
    request_id: Uuid,
    namespace: Seq<char>,
    entries: Seq<(Seq<char>, JsonView)>,
    ttl_seconds: Option<u64>,
    i: int,
)
    ensures
        ({
            let step = callback::handled(
                queries,
                stores,
                ServerCommandView::PersistSetBatch { request_id, namespace, entries, ttl_seconds },
            );
            let ttl = match ttl_seconds {
                Some(n) => Some((n * 1_000_000_000) as nat),
                None => None,
            };
            &&& entries.len() == 0 ==> step == unkept(request_id)
            &&& entries.len() > 0 && is_last(stores, namespace, Some(entries[0].0), i) ==> step == (
            match plan::batch_plan(stores[i].config, namespace, entries, ttl) {
                Ok(plans) => BridgeStepView::Persist {
                    request_id,
                    position: i,
                    plans,
                    is_batch: true,
                    timeout_seconds: stores[i].config.timeout_seconds,
                    forward: ForwardedView::SetBatch { namespace, entries, ttl },
                },
                Err(error) => BridgeStepView::Finished(
                    ServerResultView::Operation { request_id, error: Some(error.message()) },
                ),
            })
        }),
{
    if entries.len() > 0 {
        lemma_last_store(stores, namespace, Some(entries[0].0), stores.len() as int);
    }
}

/// A deletion is run by the last store that stands for its keys, or for its namespace
/// without a key pattern, and the other servers are told of that very deletion.
pub proof fn deletions_are_persisted_by_the_last_store(
    queries: Seq<DatabaseQueryProvider>,
    stores: Seq<DatabaseStoreWriter>,
    request_id: Uuid,
    namespace: Seq<char>,
    key_pattern: Option<Seq<char>>,
    i: int,
)
    ensures
        ({
            let step = callback::handled(
                queries,
                stores,
                ServerCommandView::PersistDelete { request_id, namespace, key_pattern },
            );
            &&& is_last(stores, namespace, key_pattern, i) ==> step == run(
                request_id,
                i,
                plan::delete_plan(stores[i].config, namespace, key_pattern),
                stores[i].config.timeout_seconds,
                ForwardedView::Delete { namespace, key_pattern },
            )
            &&& (forall|j: int|
                0 <= j < stores.len() ==> !keeps(#[trigger] stores[j], namespace, key_pattern))
                ==> step == unkept(request_id)
        }),
{
    lemma_last_store(stores, namespace, key_pattern, stores.len() as int);
}

/// A move is run by the last store that stands for its source, and the other servers are
/// told of that very move.
pub proof fn moves_are_persisted_by_the_last_store(
    queries: Seq<DatabaseQueryProvider>,
    stores: Seq<DatabaseStoreWriter>,
    request_id: Uuid,
    source: Seq<char>,
    destination: Seq<char>,
    i: int,
)
    ensures
        ({
            let step = callback::handled(
                queries,
                stores,
                ServerCommandView::PersistMove { request_id, source, destination },
            );
            &&& is_last(stores, source, None, i) ==> step == run(
                request_id,
                i,
                plan::move_plan(stores[i].config, source, destination),
                stores[i].config.timeout_seconds,
                ForwardedView::Move { source, destination },
            )
            &&& (forall|j: int|
                0 <= j < stores.len() ==> !keeps(#[trigger] stores[j], source, None)) ==> step
                == unkept(request_id)
        }),
{
    lemma_last_store(stores, source, None, stores.len() as int);
}

/// A row stands for its own value under its own key, in the namespace that it names, or
/// in that of the provider; a context is set behind the namespace. It lives as long as it
/// says, or as long as the provider says.
pub proof fn rows_stand_for_their_value(
    row: ProviderRow,
    base: Option<Seq<char>>,
    ttl_seconds: Option<u64>,
    key: String,
    value: Value,
)
    requires
        row.key == Ok::<String, AdapterError>(key),
        row.value == Ok::<Value, AdapterError>(value),
        key@.len() > 0,
    ensures
        ({
            let named = match (row.namespace, row.ns) {
                (Some(namespace), _) => Some(namespace@),
                (None, Some(namespace)) => Some(namespace@),
                (None, None) => base,
            };
            let context = match row.context {
                Some(context) => context@,
                None => Seq::empty(),
            };
            let ttl = match (row.ttl_seconds, ttl_seconds) {
                (Some(n), _) => Some(
                    if n > 0 {
                        (n * 1_000_000_000) as nat
                    } else {
                        0
                    },
                ),
                (None, Some(n)) => Some((n * 1_000_000_000) as nat),
                (None, None) => None,
            };
            let result = rows::row_value(row, base, ttl_seconds);
            &&& named is None ==> result is Err
            &&& named is Some && named->0.len() > 0 && context.len() == 0 ==> result == Ok::<
                DatabaseValueView,
                AdapterErrorView,
            >(DatabaseValueView { namespace: named->0, key: key@, value: value@, ttl })
            &&& named is Some && named->0.len() > 0 && context.len() > 0 && text::find(
                named->0,
                "::"@,
            ) is None ==> result == Ok::<DatabaseValueView, AdapterErrorView>(
                DatabaseValueView {
                    namespace: named->0 + "::"@ + context,
                    key: key@,
                    value: value@,
                    ttl,
                },
            )
            &&& named is Some && context.len() > 0 && text::find(named->0, "::"@) is Some
                ==> result is Err
        }),
{
}

/// A column is the JSON value that it holds: a text that is JSON as that, any other text
/// as a string, numbers and truth values as themselves, and nothing as null. A number
/// that is not finite is an error, and so is what cannot be read.
pub proof fn columns_hold_their_value(text: String, n: i64, b: bool)
    ensures
        json::read(text@) matches Some(value) ==> rows::column_value(Column::Text(Some(text))) == Ok::<
            JsonView,
            AdapterErrorView,
        >(value),
        json::read(text@) is None ==> rows::column_value(Column::Text(Some(text))) == Ok::<
            JsonView,
            AdapterErrorView,
        >(JsonView::Text(text@)),
        rows::column_value(Column::Integer(Some(n))) == Ok::<JsonView, AdapterErrorView>(
            JsonView::Number(text::signed_decimal(n as int)),
        ),
        rows::column_value(Column::Number(Some(text))) == Ok::<JsonView, AdapterErrorView>(
            JsonView::Number(text@),
        ),
        rows::column_value(Column::Bool(Some(b))) == Ok::<JsonView, AdapterErrorView>(
            JsonView::Bool(b),
        ),
        rows::column_value(Column::Text(None)) == Ok::<JsonView, AdapterErrorView>(JsonView::Null),
        rows::column_value(Column::Integer(None)) == Ok::<JsonView, AdapterErrorView>(
            JsonView::Null,
        ),
        rows::column_value(Column::Bool(None)) == Ok::<JsonView, AdapterErrorView>(JsonView::Null),
        rows::column_value(Column::Number(None)) is Err,
        rows::column_value(Column::Unreadable) is Err,
{
}

/// A change is made on another server by the command that made it here.
pub proof fn forwarded_changes_are_the_same(
    namespace: Seq<char>,
    key: Seq<char>,
    value: JsonView,
    entries: Seq<(Seq<char>, JsonView)>,
    ttl_seconds: Option<u64>,
    key_pattern: Option<Seq<char>>,
    destination: Seq<char>,
)
    ensures
        ({
            let ttl = match ttl_seconds {
                Some(n) => Some((n * 1_000_000_000) as nat),
                None => None,
            };
            &&& callback::forwarded(
                ForwardedView::SetValue(DatabaseValueView { namespace, key, value, ttl }),
            ) == (CommandView::SetValue { namespace, key, value, ttl_seconds })
            &&& callback::forwarded(ForwardedView::SetBatch { namespace, entries, ttl }) == (
            CommandView::SetBatch { namespace, entries, ttl_seconds })
        }),
        callback::forwarded(ForwardedView::Delete { namespace, key_pattern }) == (
        CommandView::Delete { namespace, key_pattern }),
        callback::forwarded(ForwardedView::Move { source: namespace, destination }) == (
        CommandView::Move { source: namespace, destination }),
{
}

/// Two letters that are the same but for their case; of other characters only the
/// same ones.
pub open spec fn is_same_letter(a: char, b: char) -> bool {
    ||| a == b
    ||| 'A' <= a && a <= 'Z' && b as int == a as int + 32
    ||| 'A' <= b && b <= 'Z' && a as int == b as int + 32
}

/// The names of columns are compared letter by letter, whatever their case.
pub proof fn columns_are_named_in_any_case(a: Seq<char>, b: Seq<char>)
    ensures
        rows::same_name(a, b) <==> a.len() == b.len() && forall|i: int|
            0 <= i < a.len() ==> is_same_letter(#[trigger] a[i], b[i]),
{
    assert forall|i: int| 0 <= i < a.len() implies (is_same_letter(#[trigger] a[i], b[i])
        <==> rows::lower(a[i]) == rows::lower(b[i])) by {
        lemma_lower(a[i]);
        lemma_lower(b[i]);
    }
    if rows::same_name(a, b) {
        assert forall|i: int| 0 <= i < a.len() implies is_same_letter(#[trigger] a[i], b[i]) by {
            assert(rows::lower(a[i]) == rows::lower(b[i]));
        }
    }
}

proof fn lemma_lower(c: char)
    ensures
        'A' <= c && c <= 'Z' ==> rows::lower(c) as int == c as int + 32,
        !('A' <= c && c <= 'Z') ==> rows::lower(c) == c,
{
}

/// The failures of servers are told one after the other, each with the number of its
/// server and its message.
pub proof fn failures_are_told_in_order(
    failures: Seq<(usize, AdapterError)>,
    position: usize,
    error: AdapterError,
)
    ensures
        publisher::failure_text(failures.push((position, error))) == (if failures.len() == 0 {
            text::decimal(position as nat) + ": "@ + error@.message()
        } else {
            publisher::failure_text(failures) + ", "@ + text::decimal(position as nat) + ": "@
                + error@.message()
        }),
{
    let all = failures.push((position, error));
    assert(all.drop_last() =~= failures);
    let number = text::decimal(position as nat);
    assert(publisher::failure_text(failures) + ", "@ + (number + ": "@ + error@.message())
        =~= publisher::failure_text(failures) + ", "@ + number + ": "@ + error@.message());
}

/// A name that no statement has a meaning of its own for.
pub open spec fn is_own_name(name: Seq<char>) -> bool {
    &&& name != "namespace"@ && name != "context"@ && name != "key"@
    &&& name != "key_pattern"@ && name != "value"@ && name != "ttl_seconds"@
    &&& name != "source_namespace"@ && name != "destination_namespace"@
    &&& name != "source_context"@ && name != "destination_context"@
}

/// A name that the pattern for destinations captures stands for its part of the
/// destination; any other that the pattern of the store captures for its part of the
/// source; and one that neither captures is an error.
pub proof fn moves_carry_what_their_patterns_capture(
    config: StoreConfig,
    source: Seq<char>,
    destination: Seq<char>,
    i: int,
)
    requires
        config.move_ns_query is Some,
        0 <= i < config.move_ns_parameters@.len(),
        is_own_name(config.move_ns_parameters@[i]@),
    ensures
        ({
            let name = config.move_ns_parameters@[i]@;
            let there = match config.move_ns_pattern {
                Some(pattern) => bridge::namespace_captures(pattern@, destination),
                None => None,
            };
            let here = bridge::namespace_captures(config.namespace_pattern@, source);
            match plan::move_plan(config, source, destination) {
                Ok(plan) => if there matches Some(captures) && captures.dom().contains(name) {
                    plan.parameters[i] == ParameterView::Text(there->0[name])
                } else {
                    &&& here matches Some(captures)
                    &&& captures.dom().contains(name)
                    &&& plan.parameters[i] == ParameterView::Text(captures[name])
                },
                Err(error) => error is Configuration,
            }
        }),
{
    lemma_names();
    let query = config.move_ns_query->0;
    let inputs = Inputs {
        namespace: source,
        key: None,
        key_pattern: None,
        value: None,
        ttl: None,
        captures: plan::move_captures(config, source, destination),
    };
    let names = plan::name_texts(config.move_ns_parameters@);
    statements_bind_their_names(query@, config.move_ns_parameters@, inputs);
    lemma_parameters(names, inputs);
    assert(names[i] == config.move_ns_parameters@[i]@);
}

} // verus!
