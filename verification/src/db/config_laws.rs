//! Which configurations of the adapter are accepted, and what it tells the servers.

use crate::checks;
use crate::db::config::{
    self, AdapterConfig, DatabaseConfig, InitConfig, ProviderConfig, QueryConfig, Statement,
    StoreConfig, ValkyrConfig, ValkyrEndpoint,
};
use crate::db::error::AdapterErrorView;
use crate::db::plan;
use crate::db::service::{self, RegistrationView};
use crate::duration::Duration;
use crate::pattern::{self, TokenView};
use crate::protocol::CommandView;
use crate::text;
use crate::text_laws::{self, is_filled};
use vstd::prelude::*;

verus! {

/// A time that is a whole number of units, which a wire number can hold.
pub open spec fn is_whole(time: Option<Duration>, per_unit: nat) -> bool {
    time matches Some(time) ==> time@ % per_unit == 0 && time@ / per_unit <= u64::MAX
}

/// A database with an address, and with limits that let something through.
pub open spec fn is_usable_database(config: DatabaseConfig) -> bool {
    &&& is_filled(config.url@)
    &&& config.max_connections > 0
    &&& config.connection_timeout_seconds > 0
    &&& config.query_timeout_seconds > 0
}

/// Something that stands behind a prefix.
pub open spec fn is_behind(url: Seq<char>, prefix: Seq<char>) -> bool {
    prefix.is_prefix_of(url) && is_filled(url.skip(prefix.len() as int))
}

/// An address without a scheme, or behind one that the adapter speaks.
pub open spec fn is_usable_url(url: Seq<char>) -> bool {
    ||| is_filled(url) && forall|i: int| !#[trigger] text::occurs_at(url, "://"@, i)
    ||| is_behind(url, "://"@)
    ||| is_behind(url, "tcp://"@)
    ||| is_behind(url, "tls://"@)
}

/// A server that can be reached, whose key is there, and whose certificate is there
/// where one is named, which only a TLS address does.
pub open spec fn is_usable_endpoint(endpoint: ValkyrEndpoint) -> bool {
    &&& is_usable_url(endpoint.url@)
    &&& endpoint.api_key_file_exists
    &&& endpoint.api_key@.len() == 0 || is_filled(endpoint.api_key@)
    &&& endpoint.ca_certificate_file is Some ==> endpoint.ca_certificate_exists
        && "tls://"@.is_prefix_of(endpoint.url@)
}

/// Servers of which there is one at least, and times and attempts that let them answer.
pub open spec fn are_usable_servers(config: ValkyrConfig) -> bool {
    &&& config.endpoints@.len() > 0
    &&& forall|i: int|
        0 <= i < config.endpoints@.len() ==> is_usable_endpoint(#[trigger] config.endpoints@[i])
    &&& config.request_timeout@ > 0
    &&& config.max_retries > 0
    &&& is_whole(config.provider_wait_timeout, 1_000_000)
    &&& is_whole(config.miss_cache_ttl, 1_000_000_000)
}

/// A name that stands in a pattern as one of its captures.
pub open spec fn is_in(pattern: Seq<char>, name: Seq<char>) -> bool {
    exists|i: int|
        0 <= i < pattern::parts(pattern).len() && #[trigger] pattern::parts(pattern)[i]
            == TokenView::Capture(name)
}

/// Parameters each of which is one of the given names, or one that a pattern captures.
pub open spec fn are_declared(
    parameters: Seq<String>,
    names: Set<Seq<char>>,
    patterns: Set<Seq<char>>,
) -> bool {
    forall|i: int|
        #![trigger parameters[i]]
        0 <= i < parameters.len() ==> names.contains(parameters[i]@) || exists|
            pattern: Seq<char>,
        | #[trigger]
            patterns.contains(pattern) && is_in(pattern, parameters[i]@)
}

/// A query with a route and a statement, whose times are whole and whose parameters are
/// those of a lookup.
pub open spec fn is_usable_query(query: QueryConfig) -> bool {
    &&& is_filled(query.namespace_pattern@)
    &&& is_filled(query.key_pattern@)
    &&& is_filled(query.query@)
    &&& query.timeout_seconds != Some(0u64)
    &&& is_whole(query.provider_wait_timeout, 1_000_000)
    &&& is_whole(query.miss_cache_ttl, 1_000_000_000)
    &&& are_declared(
        query.parameters@,
        set!["context"@, "namespace"@, "key"@],
        set![query.namespace_pattern@, query.key_pattern@],
    )
}

/// A store with a route and its two statements, whose further statements say something
/// where they are there, and alone have parameters, each those of its change.
pub open spec fn is_usable_store(store: StoreConfig) -> bool {
    let route = set![store.namespace_pattern@, store.key_pattern@];
    &&& is_filled(store.namespace_pattern@)
    &&& is_filled(store.key_pattern@)
    &&& is_filled(store.set_query@)
    &&& is_filled(store.delete_query@)
    &&& store.timeout_seconds > 0
    &&& match store.move_ns_query {
        Some(query) => is_filled(query@),
        None => store.move_ns_pattern is None && store.move_ns_parameters@.len() == 0,
    }
    &&& match store.delete_ns_query {
        Some(query) => is_filled(query@),
        None => store.delete_ns_parameters@.len() == 0,
    }
    &&& are_declared(
        store.set_parameters@,
        set!["context"@, "namespace"@, "key"@, "value"@, "ttl_seconds"@],
        route,
    )
    &&& are_declared(
        store.delete_parameters@,
        set!["context"@, "namespace"@, "key_pattern"@],
        route,
    )
    &&& are_declared(
        store.move_ns_parameters@,
        set![
            "context"@,
            "namespace"@,
            "source_namespace"@,
            "destination_namespace"@,
            "source_context"@,
            "destination_context"@,
        ],
        match store.move_ns_pattern {
            Some(pattern) => route.insert(pattern@),
            None => route,
        },
    )
    &&& are_declared(store.delete_ns_parameters@, set!["context"@, "namespace"@], route)
}

/// Statements with a name of their own, a text and a time.
pub open spec fn are_usable_statements(statements: Seq<InitConfig>) -> bool {
    &&& forall|i: int|
        #![trigger statements[i]]
        0 <= i < statements.len() ==> is_filled(statements[i].name@) && is_filled(
            statements[i].sql@,
        ) && statements[i].timeout_seconds > 0
    &&& forall|i: int, j: int|
        #![trigger statements[i], statements[j]]
        0 <= i < j < statements.len() ==> statements[i].name@ != statements[j].name@
}

/// There is no first complaint where there is none at all.
pub proof fn no_complaint_is_none(complaints: Seq<Option<Seq<char>>>)
    ensures
        checks::first_of(complaints) is None <==> forall|i: int|
            0 <= i < complaints.len() ==> (#[trigger] complaints[i]) is None,
    decreases complaints.len(),
{
    if complaints.len() > 0 {
        no_complaint_is_none(complaints.drop_last());
        let rest = complaints.drop_last();
        if checks::first_of(complaints) is None {
            assert forall|i: int| 0 <= i < complaints.len() implies (
            #[trigger] complaints[i]) is None by {
                if i < rest.len() {
                    assert(rest[i] is None);
                }
            }
        } else if checks::first_of(rest) is Some {
            let i: int = choose|i: int| 0 <= i < rest.len() && (#[trigger] rest[i]) is Some;
            assert(complaints[i] is Some);
        }
    }
}

proof fn lemma_scheme(url: Seq<char>, scheme: Seq<char>)
    requires
        scheme.len() == 0 || scheme == "tcp"@ || scheme == "tls"@,
        (scheme + "://"@).is_prefix_of(url),
    ensures
        text::find(url, "://"@) == Some(scheme.len() as int),
        url.take(scheme.len() as int) == scheme,
{
    reveal_strlit("://");
    reveal_strlit("tcp");
    reveal_strlit("tls");
    let part = "://"@;
    let whole = scheme + part;
    let at = scheme.len() as int;
    assert forall|j: int| 0 <= j < whole.len() implies url[j] == #[trigger] whole[j] by {}
    assert(url.subrange(at, at + 3) =~= part) by {
        assert(whole[at] == ':' && whole[at + 1] == '/' && whole[at + 2] == '/');
    }
    assert forall|j: int| 0 <= j < at implies !#[trigger] text::occurs_at(url, part, j) by {
        assert(whole[j] == scheme[j]);
        assert(url.subrange(j, j + 3)[0] == url[j]);
        assert(part[0] == ':');
    }
    text::lemma_find_from_is(url, part, 0, at);
    assert(url.take(at) =~= scheme) by {
        assert forall|j: int| 0 <= j < at implies url[j] == #[trigger] scheme[j] by {
            assert(whole[j] == scheme[j]);
        }
    }
}

/// A URL is accepted where something stands in it, behind a scheme that the adapter
/// speaks or none.
pub proof fn usable_urls_are_accepted(url: Seq<char>, position: nat)
    ensures
        config::url_complaint(position, url) is None <==> is_usable_url(url),
{
    let part = "://"@;
    assert("tcp"@ + part =~= "tcp://"@ && "tls"@ + part =~= "tls://"@ && Seq::<char>::empty() + part
        =~= part && "tcp"@.len() == 3 && "tls"@.len() == 3 && part.len() == 3) by {
        reveal_strlit("://");
        reveal_strlit("tcp://");
        reveal_strlit("tls://");
        reveal_strlit("tcp");
        reveal_strlit("tls");
    }
    text::lemma_find_from(url, part, 0);
    let (scheme, address) = config::scheme_and_address(url);
    text_laws::white_space_is_trimmed_to_nothing(address);
    if is_behind(url, part) {
        lemma_scheme(url, Seq::empty());
    } else if is_behind(url, "tcp://"@) {
        lemma_scheme(url, "tcp"@);
    } else if is_behind(url, "tls://"@) {
        lemma_scheme(url, "tls"@);
    }
    if let Some(at) = text::find(url, part) {
        assert(text::occurs_at(url, part, at));
        assert(url.take(at + 3) =~= scheme + part);
        assert((scheme + part).is_prefix_of(url));
        assert((scheme + part).len() == at + 3);
        if scheme.len() == 0 {
            assert(scheme =~= Seq::<char>::empty());
        }
    }
}

/// An endpoint is accepted where it can be reached with what is configured of it.
pub proof fn usable_endpoints_are_accepted(endpoint: ValkyrEndpoint, position: nat)
    ensures
        config::endpoint_complaint(position, endpoint) is None <==> is_usable_endpoint(endpoint),
{
    usable_urls_are_accepted(endpoint.url@, position);
    text_laws::white_space_is_trimmed_to_nothing(endpoint.api_key@);
}

/// The address of a server is its URL without the scheme that says how it is reached.
pub proof fn schemes_are_no_part_of_the_address(address: Seq<char>)
    ensures
        config::address_of("tcp://"@ + address) == address,
        config::address_of("tls://"@ + address) == address,
        !config::is_tls("tcp://"@ + address),
        config::is_tls("tls://"@ + address),
        address.len() == 0 || address[0] != 't' ==> config::address_of(address) == address
            && !config::is_tls(address),
{
    reveal_strlit("tcp://");
    reveal_strlit("tls://");
    text_laws::prefixes_are_taken_off(address, "tcp://"@, address);
    text_laws::prefixes_are_taken_off(address, "tls://"@, address);
    let tls = "tls://"@ + address;
    let tcp = "tcp://"@ + address;
    assert(tls[1] == 'l');
    assert(tcp[1] == 'c');
    if "tcp://"@.is_prefix_of(tls) {
        assert("tcp://"@[1] == tls[1]);
    }
    if "tls://"@.is_prefix_of(tcp) {
        assert("tls://"@[1] == tcp[1]);
    }
    if "tcp://"@.is_prefix_of(address) {
        assert("tcp://"@[0] == address[0]);
    }
    if "tls://"@.is_prefix_of(address) {
        assert("tls://"@[0] == address[0]);
    }
}

/// The providers and writers that the adapter makes of single parts of a configuration
/// are made of those alone that have a route, say something, and have no parameters
/// but those that are there for them.
pub proof fn parts_are_accepted_alone(query: QueryConfig, store: StoreConfig)
    ensures
        is_usable_query(query) ==> plan::provider_complaint(query) is None,
        is_usable_store(store) ==> plan::writer_complaint(store) is None,
        plan::provider_complaint(query) is None && query.timeout_seconds != Some(0u64) && is_whole(
            query.provider_wait_timeout,
            1_000_000,
        ) && is_whole(query.miss_cache_ttl, 1_000_000_000) ==> is_usable_query(query),
        plan::writer_complaint(store) is None && store.timeout_seconds > 0 ==> is_usable_store(
            store,
        ),
{
    usable_queries_are_accepted("query"@, query);
    usable_stores_are_accepted("store"@, store);
}

/// A database is accepted where it has an address and its limits are not zero.
pub proof fn usable_databases_are_accepted(config: DatabaseConfig)
    ensures
        config::database_complaint(config) is None <==> is_usable_database(config),
{
    text_laws::white_space_is_trimmed_to_nothing(config.url@);
}

/// The servers are accepted where there is one, each can be reached, and the times and
/// attempts are not zero and can be told to them.
pub proof fn usable_servers_are_accepted(config: ValkyrConfig)
    ensures
        config::valkyr_complaint(config) is None <==> are_usable_servers(config),
{
    let complaints = config::endpoint_complaints(config.endpoints@);
    no_complaint_is_none(complaints);
    assert forall|i: int| 0 <= i < config.endpoints@.len() implies ((
    #[trigger] complaints[i]) is None <==> is_usable_endpoint(config.endpoints@[i])) by {
        usable_endpoints_are_accepted(config.endpoints@[i], i as nat);
    }
    if checks::first_of(complaints) is None {
        assert forall|i: int| 0 <= i < config.endpoints@.len() implies is_usable_endpoint(
            #[trigger] config.endpoints@[i],
        ) by {
            assert(complaints[i] is None);
        }
    }
}

proof fn lemma_declared(
    callback: Seq<char>,
    statement: Statement,
    parameters: Seq<String>,
    namespace_pattern: Seq<char>,
    key_pattern: Seq<char>,
    target: Option<Seq<char>>,
    names: Set<Seq<char>>,
)
    requires
        forall|name: Seq<char>| #[trigger]
            names.contains(name) <==> config::is_built_in(statement, name),
    ensures
        checks::first_of(
            config::parameter_complaints(
                callback,
                statement,
                parameters,
                namespace_pattern,
                key_pattern,
                target,
            ),
        ) is None <==> are_declared(
            parameters,
            names,
            match target {
                Some(pattern) => if statement == Statement::Move {
                    set![namespace_pattern, key_pattern].insert(pattern)
                } else {
                    set![namespace_pattern, key_pattern]
                },
                None => set![namespace_pattern, key_pattern],
            },
        ),
{
    let patterns = match target {
        Some(pattern) => if statement == Statement::Move {
            set![namespace_pattern, key_pattern].insert(pattern)
        } else {
            set![namespace_pattern, key_pattern]
        },
        None => set![namespace_pattern, key_pattern],
    };
    let complaints = config::parameter_complaints(
        callback,
        statement,
        parameters,
        namespace_pattern,
        key_pattern,
        target,
    );
    no_complaint_is_none(complaints);
    assert forall|i: int| 0 <= i < parameters.len() implies ((
    #[trigger] complaints[i]) is None <==> (names.contains(parameters[i]@) || exists|
        pattern: Seq<char>,
    | #[trigger]
        patterns.contains(pattern) && is_in(pattern, parameters[i]@))) by {
        let name = parameters[i]@;
        lemma_captured(namespace_pattern, name);
        lemma_captured(key_pattern, name);
        assert(patterns.contains(namespace_pattern));
        assert(patterns.contains(key_pattern));
        if let Some(pattern) = target {
            lemma_captured(pattern, name);
            if statement == Statement::Move {
                assert(patterns.contains(pattern));
            }
        }
    }
    if checks::first_of(complaints) is None {
        assert forall|i: int|
            #![trigger parameters[i]]
            0 <= i < parameters.len() implies names.contains(parameters[i]@) || exists|
            pattern: Seq<char>,
        | #[trigger]
            patterns.contains(pattern) && is_in(pattern, parameters[i]@) by {
            assert(complaints[i] is None);
        }
    }
    if are_declared(parameters, names, patterns) {
        assert forall|i: int| 0 <= i < complaints.len() implies (
        #[trigger] complaints[i]) is None by {
            assert(parameters[i] == parameters[i]);
        }
    }
}

proof fn lemma_captured(pattern: Seq<char>, name: Seq<char>)
    ensures
        config::is_captured(pattern, name) <==> is_in(pattern, name),
{
    let tokens = pattern::parts(pattern);
    if tokens.contains(TokenView::Capture(name)) {
        let i: int = choose|i: int| 0 <= i < tokens.len() && tokens[i] == TokenView::Capture(name);
        assert(tokens[i] == TokenView::Capture(name));
    }
}

/// A query is accepted where it has a route and a statement, times that can be told to a
/// server, and no parameters but those of a lookup and what its route captures.
pub proof fn usable_queries_are_accepted(name: Seq<char>, query: QueryConfig)
    ensures
        config::query_complaint(name, query) is None <==> is_usable_query(query),
{
    text_laws::white_space_is_trimmed_to_nothing(query.namespace_pattern@);
    text_laws::white_space_is_trimmed_to_nothing(query.key_pattern@);
    text_laws::white_space_is_trimmed_to_nothing(query.query@);
    lemma_declared(
        name,
        Statement::Query,
        query.parameters@,
        query.namespace_pattern@,
        query.key_pattern@,
        None,
        set!["context"@, "namespace"@, "key"@],
    );
}

/// A store is accepted where it has a route, its statements say something, and their
/// parameters are those of the change that they make and what the route captures.
pub proof fn usable_stores_are_accepted(name: Seq<char>, store: StoreConfig)
    ensures
        config::store_complaint(name, store) is None <==> is_usable_store(store),
{
    text_laws::white_space_is_trimmed_to_nothing(store.namespace_pattern@);
    text_laws::white_space_is_trimmed_to_nothing(store.key_pattern@);
    text_laws::white_space_is_trimmed_to_nothing(store.set_query@);
    text_laws::white_space_is_trimmed_to_nothing(store.delete_query@);
    if let Some(query) = store.move_ns_query {
        text_laws::white_space_is_trimmed_to_nothing(query@);
    }
    if let Some(query) = store.delete_ns_query {
        text_laws::white_space_is_trimmed_to_nothing(query@);
    }
    let namespace = store.namespace_pattern@;
    let key = store.key_pattern@;
    let target = crate::error::inner(store.move_ns_pattern);
    lemma_declared(
        name,
        Statement::Write,
        store.set_parameters@,
        namespace,
        key,
        target,
        set!["context"@, "namespace"@, "key"@, "value"@, "ttl_seconds"@],
    );
    lemma_declared(
        name,
        Statement::Delete,
        store.delete_parameters@,
        namespace,
        key,
        target,
        set!["context"@, "namespace"@, "key_pattern"@],
    );
    lemma_declared(
        name,
        Statement::Move,
        store.move_ns_parameters@,
        namespace,
        key,
        target,
        set![
            "context"@,
            "namespace"@,
            "source_namespace"@,
            "destination_namespace"@,
            "source_context"@,
            "destination_context"@,
        ],
    );
    lemma_declared(
        name,
        Statement::DeleteNamespace,
        store.delete_ns_parameters@,
        namespace,
        key,
        target,
        set!["context"@, "namespace"@],
    );
}

/// The statements at startup are accepted where each has a name, a text and a time, and
/// no two have the same name.
pub proof fn usable_statements_are_accepted(statements: Seq<InitConfig>)
    ensures
        checks::first_of(config::init_complaints(statements)) is None <==> are_usable_statements(
            statements,
        ),
{
    let complaints = config::init_complaints(statements);
    no_complaint_is_none(complaints);
    assert forall|i: int| 0 <= i < statements.len() implies ((
    #[trigger] complaints[i]) is None <==> is_filled(statements[i].name@) && is_filled(
        statements[i].sql@,
    ) && statements[i].timeout_seconds > 0 && !config::is_repeated(statements, i)) by {
        text_laws::white_space_is_trimmed_to_nothing(statements[i].name@);
        text_laws::white_space_is_trimmed_to_nothing(statements[i].sql@);
    }
    if checks::first_of(complaints) is None {
        assert forall|i: int|
            #![trigger statements[i]]
            0 <= i < statements.len() implies is_filled(statements[i].name@) && is_filled(
            statements[i].sql@,
        ) && statements[i].timeout_seconds > 0 by {
            assert(complaints[i] is None);
        }
        assert forall|i: int, j: int|
            #![trigger statements[i], statements[j]]
            0 <= i < j < statements.len() implies statements[i].name@ != statements[j].name@ by {
            assert(complaints[j] is None);
        }
    }
}

/// A scheduled query is accepted where it says something and its schedule can be read.
pub proof fn usable_providers_are_accepted(
    name: Seq<char>,
    provider: ProviderConfig,
    failure: Option<Seq<char>>,
)
    ensures
        config::provider_complaint(name, provider, failure) is None <==> is_filled(provider.query@)
            && failure is None,
{
    text_laws::white_space_is_trimmed_to_nothing(provider.query@);
}

/// A configuration is accepted where each of its parts is.
pub proof fn usable_configurations_are_accepted(config: AdapterConfig)
    ensures
        config::config_complaint(config, config::schedule_failures(config.providers@)) is None <==> {
            &&& is_usable_database(config.database)
            &&& are_usable_servers(config.valkyr)
            &&& is_filled(config.logging.level@)
            &&& forall|i: int|
                #![trigger config.providers@[i]]
                0 <= i < config.providers@.len() ==> is_filled(config.providers@[i].1.query@)
                    && config::cron_failure(config.providers@[i].1.frequency@) is None
            &&& forall|i: int|
                0 <= i < config.queries@.len() ==> is_usable_query(
                    (#[trigger] config.queries@[i]).1,
                )
            &&& forall|i: int|
                0 <= i < config.stores@.len() ==> is_usable_store((#[trigger] config.stores@[i]).1)
            &&& are_usable_statements(config.init@)
        },
{
    let failures = config::schedule_failures(config.providers@);
    usable_databases_are_accepted(config.database);
    usable_servers_are_accepted(config.valkyr);
    text_laws::white_space_is_trimmed_to_nothing(config.logging.level@);
    usable_statements_are_accepted(config.init@);
    let providers = config::provider_complaints(config.providers@, failures);
    let queries = config::query_complaints(config.queries@);
    let stores = config::store_complaints(config.stores@);
    no_complaint_is_none(providers);
    no_complaint_is_none(queries);
    no_complaint_is_none(stores);
    assert forall|i: int| 0 <= i < config.providers@.len() implies ((
    #[trigger] providers[i]) is None <==> is_filled(config.providers@[i].1.query@)
        && config::cron_failure(config.providers@[i].1.frequency@) is None) by {
        assert(failures[i] == config::cron_failure(config.providers@[i].1.frequency@));
        usable_providers_are_accepted(
            config.providers@[i].0@,
            config.providers@[i].1,
            failures[i],
        );
    }
    assert forall|i: int| 0 <= i < config.queries@.len() implies ((
    #[trigger] queries[i]) is None <==> is_usable_query(config.queries@[i].1)) by {
        usable_queries_are_accepted(config.queries@[i].0@, config.queries@[i].1);
    }
    assert forall|i: int| 0 <= i < config.stores@.len() implies ((
    #[trigger] stores[i]) is None <==> is_usable_store(config.stores@[i].1)) by {
        usable_stores_are_accepted(config.stores@[i].0@, config.stores@[i].1);
    }
    if checks::first_of(providers) is None {
        assert forall|i: int|
            #![trigger config.providers@[i]]
            0 <= i < config.providers@.len() implies is_filled(config.providers@[i].1.query@)
            && config::cron_failure(config.providers@[i].1.frequency@) is None by {
            assert(providers[i] is None);
        }
    }
    if checks::first_of(queries) is None {
        assert forall|i: int| 0 <= i < config.queries@.len() implies is_usable_query(
            (#[trigger] config.queries@[i]).1,
        ) by {
            assert(queries[i] is None);
        }
    }
    if checks::first_of(stores) is None {
        assert forall|i: int| 0 <= i < config.stores@.len() implies is_usable_store(
            (#[trigger] config.stores@[i]).1,
        ) by {
            assert(stores[i] is None);
        }
    }
}

/// The key in a file is what it holds without the white space around it; a file that
/// holds no more than that is refused.
pub proof fn keys_are_read_from_their_file(contents: Seq<char>, file: Seq<char>)
    ensures
        is_filled(contents) ==> config::key_in_file(contents, file) == Ok::<
            Seq<char>,
            AdapterErrorView,
        >(text::trim(contents)),
        !is_filled(contents) ==> config::key_in_file(contents, file) is Err,
{
    text_laws::white_space_is_trimmed_to_nothing(contents);
}

/// The units that a time of a query comes to: those of its own time, else those of the
/// time that the servers are configured with, else none.
pub open spec fn comes_to(
    own: Option<Duration>,
    common: Option<Duration>,
    per_unit: nat,
    units: u64,
) -> bool {
    match (own, common) {
        (Some(time), _) => time@ == units * per_unit,
        (None, Some(time)) => time@ == units * per_unit,
        (None, None) => units == 0,
    }
}

proof fn lemma_options(wait: u64, miss: u64)
    ensures
        config::query_options((wait * 1_000_000) as nat, (miss * 1_000_000_000) as nat) matches Ok(
            options,
        ) && options.timeout_ms == wait && options.miss_ttl_seconds == miss
            && options.max_rate is None,
{
}

/// A server is told of every query at its place, with its patterns and with its times in
/// milliseconds and seconds, its own before those of the servers; and after the queries
/// of every store, with its patterns.
pub proof fn registrations_tell_the_patterns(
    config: AdapterConfig,
    position: int,
    wait: u64,
    miss: u64,
)
    ensures
        0 <= position < config.queries@.len() && ({
            let query = config.queries@[position].1;
            &&& query.namespace_pattern@.len() > 0
            &&& query.key_pattern@.len() > 0
            &&& comes_to(
                query.provider_wait_timeout,
                config.valkyr.provider_wait_timeout,
                1_000_000,
                wait,
            )
            &&& comes_to(query.miss_cache_ttl, config.valkyr.miss_cache_ttl, 1_000_000_000, miss)
        }) ==> (service::registered(config, position) matches Ok(registration)
            && registration.command == (CommandView::Provide {
            namespace_pattern: config.queries@[position].1.namespace_pattern@,
            key_pattern: config.queries@[position].1.key_pattern@,
            max_rate: None,
            timeout: Some(wait),
            miss_ttl: Some(miss),
        }) && registration.failure == "could not register query '"@ + config.queries@[position].0@
            + "': "@),
        0 <= position < config.stores@.len() && ({
            let store = config.stores@[position].1;
            store.namespace_pattern@.len() > 0 && store.key_pattern@.len() > 0
        }) ==> service::registered(config, config.queries@.len() + position) == Ok::<
            RegistrationView,
            Seq<char>,
        >(
            RegistrationView {
                command: CommandView::Store {
                    namespace_pattern: config.stores@[position].1.namespace_pattern@,
                    key_pattern: config.stores@[position].1.key_pattern@,
                },
                failure: "could not register store '"@ + config.stores@[position].0@ + "': "@,
            },
        ),
{
    lemma_options(wait, miss);
}

/// The waits between attempts begin with a quarter of a second and double until they
/// are half a minute, which they then stay.
pub proof fn delays_double(attempt: nat)
    ensures
        service::delay_millis(0) == 250,
        service::delay_millis(1) == 250,
        1 <= attempt < 7 ==> service::delay_millis(attempt + 1) == 2 * service::delay_millis(
            attempt,
        ),
        attempt >= 8 ==> service::delay_millis(attempt) == 30_000,
{
    vstd::arithmetic::power2::lemma2_to64();
    if attempt >= 8 {
        service::delays_grow_to_a_limit(8, attempt);
        assert(service::delay_millis(8) == 30_000);
    }
}

} // verus!
