//! Which configurations of the adapter are accepted, and what it tells the servers.

use crate::checks;
use crate::db::config;
use crate::db::config_laws::{
    self, comes_to, is_usable_url, is_whole, no_complaint_is_none,
};
use crate::openbao::config::{
    self as bao, AdapterConfig, OpenBaoConfig, ProviderConfig, QueryConfig, ValkyrConfig,
    ValkyrEndpoint,
};
use crate::openbao::error::AdapterErrorView;
use crate::openbao::mapping;
use crate::openbao::service;
use crate::protocol::CommandView;
use crate::text;
use crate::text_laws::{self, is_filled};
use vstd::prelude::*;

verus! {

/// A text that holds more than slashes.
pub open spec fn is_named(prefix: Seq<char>) -> bool {
    exists|k: int| 0 <= k < prefix.len() && (#[trigger] prefix[k]) != '/'
}

/// What stands between two positions has no slash at its ends, and everything around it
/// is slashes.
pub open spec fn is_between_slashes(s: Seq<char>, start: int, end: int) -> bool {
    &&& 0 <= start <= end <= s.len()
    &&& forall|k: int| 0 <= k < start ==> (#[trigger] s[k]) == '/'
    &&& forall|k: int| end <= k < s.len() ==> (#[trigger] s[k]) == '/'
    &&& start < end ==> s[start] != '/' && s[end - 1] != '/'
}

proof fn lemma_trim_start(s: Seq<char>) -> (start: int)
    ensures
        0 <= start <= s.len(),
        mapping::trim_start_slashes(s) == s.skip(start),
        forall|k: int| 0 <= k < start ==> (#[trigger] s[k]) == '/',
        start < s.len() ==> s[start] != '/',
    decreases s.len(),
{
    if s.len() > 0 && s[0] == '/' {
        let start: int = lemma_trim_start(s.skip(1)) + 1;
        assert(s.skip(1).skip(start - 1) =~= s.skip(start));
        assert forall|k: int| 0 <= k < start implies (#[trigger] s[k]) == '/' by {
            if k > 0 {
                assert(s.skip(1)[k - 1] == s[k]);
            }
        }
        if start < s.len() {
            assert(s.skip(1)[start - 1] == s[start]);
        }
        start
    } else {
        assert(s.skip(0) =~= s);
        0
    }
}

proof fn lemma_trim_end(s: Seq<char>) -> (end: int)
    ensures
        0 <= end <= s.len(),
        mapping::trim_end_slashes(s) == s.take(end),
        forall|k: int| end <= k < s.len() ==> (#[trigger] s[k]) == '/',
        end > 0 ==> s[end - 1] != '/',
    decreases s.len(),
{
    if s.len() > 0 && s.last() == '/' {
        let rest = s.drop_last();
        let end: int = lemma_trim_end(rest);
        assert(rest.take(end) =~= s.take(end));
        assert forall|k: int| end <= k < s.len() implies (#[trigger] s[k]) == '/' by {
            if k < rest.len() {
                assert(rest[k] == s[k]);
            }
        }
        if end > 0 {
            assert(rest[end - 1] == s[end - 1]);
        }
        end
    } else {
        assert(s.take(s.len() as int) =~= s);
        s.len() as int
    }
}

/// A prefix is taken without the slashes at its ends, and whole but for them; it is there
/// where it holds more than slashes.
pub proof fn prefixes_are_between_slashes(s: Seq<char>, start: int, end: int)
    ensures
        is_between_slashes(s, start, end) ==> mapping::without_slashes(s) == s.subrange(start, end),
        mapping::without_slashes(s).len() > 0 <==> is_named(s),
{
    let first: int = lemma_trim_start(s);
    let rest = s.skip(first);
    let last: int = lemma_trim_end(rest);
    assert forall|k: int| 0 <= k < rest.len() implies #[trigger] rest[k] == s[first + k] by {}
    assert(rest.take(last) =~= s.subrange(first, first + last));
    if last > 0 {
        assert(rest[0] == s[first]);
    }
    if is_named(s) {
        let k: int = choose|k: int| 0 <= k < s.len() && (#[trigger] s[k]) != '/';
        assert(first <= k);
        assert(rest[k - first] == s[k]);
    }
    if is_between_slashes(s, start, end) {
        if start < end {
            if first < start {
                assert(s[first] == '/');
            }
            if start < first {
                assert(s[start] == '/');
            }
            assert(first == start);
            if first + last < end {
                assert(rest[end - 1 - first] == s[end - 1]);
            }
            if end < first + last {
                assert(rest[last - 1] == s[first + last - 1]);
            }
        } else {
            if first < s.len() {
                assert(s[first] == '/');
            }
            assert(s.subrange(first, first + last) =~= s.subrange(start, end));
        }
    }
}

/// A store that is reached over HTTP, with a mount, a prefix and a time to wait, and
/// with the role that the adapter logs in with.
pub open spec fn is_usable_store(config: OpenBaoConfig) -> bool {
    &&& "http://"@.is_prefix_of(config.address@) || "https://"@.is_prefix_of(config.address@)
    &&& is_filled(config.kv_mount@)
    &&& config.request_timeout_seconds > 0
    &&& is_named(config.prefix@)
    &&& config.auth.kind@ == "approle"@
    &&& is_filled(config.auth.role_id@)
    &&& config.auth.renew_before_seconds > 0
    &&& config.auth.secret_id_file_exists
}

/// A server that can be reached, whose key is there, and whose certificate is there
/// where one is named, which only a TLS address does.
pub open spec fn is_usable_endpoint(endpoint: ValkyrEndpoint) -> bool {
    &&& is_usable_url(endpoint.url@)
    &&& endpoint.api_key_file_exists
    &&& endpoint.ca_certificate_file is Some ==> endpoint.ca_certificate_exists
        && "tls://"@.is_prefix_of(endpoint.url@)
}

/// A namespace pattern below the root, and a key pattern.
pub open spec fn is_usable_route(namespace: Seq<char>, key: Seq<char>) -> bool {
    namespace.len() > 0 && namespace[0] == '/' && is_filled(key)
}

proof fn lemma_slash(namespace: Seq<char>)
    ensures
        text::without_prefix(namespace, "/"@) is None <==> !(namespace.len() > 0 && namespace[0]
            == '/'),
        namespace.len() > 0 && namespace[0] == '/' ==> is_filled(namespace),
{
    reveal_strlit("/");
    if namespace.len() > 0 && namespace[0] == '/' {
        assert("/"@.is_prefix_of(namespace));
        assert(!text::whitespace(namespace[0]));
    }
    if "/"@.is_prefix_of(namespace) {
        assert(namespace[0] == "/"@[0]);
    }
}

/// The store is accepted where it can be reached with what is configured of it.
pub proof fn usable_stores_are_accepted(config: OpenBaoConfig)
    ensures
        bao::openbao_complaint(config) is None <==> is_usable_store(config),
{
    text_laws::white_space_is_trimmed_to_nothing(config.kv_mount@);
    text_laws::white_space_is_trimmed_to_nothing(config.auth.role_id@);
    prefixes_are_between_slashes(config.prefix@, 0, 0);
}

/// An endpoint is accepted where it can be reached with what is configured of it.
pub proof fn usable_endpoints_are_accepted(endpoint: ValkyrEndpoint, position: nat)
    ensures
        bao::endpoint_complaint(position, endpoint) is None <==> is_usable_endpoint(endpoint),
{
    config_laws::usable_urls_are_accepted(endpoint.url@, position);
}

/// A route is accepted where its namespace is below the root and its key says something.
pub proof fn usable_routes_are_accepted(name: Seq<char>, namespace: Seq<char>, key: Seq<char>)
    ensures
        bao::route_complaint(name, namespace, key) is None <==> is_usable_route(namespace, key),
{
    text_laws::white_space_is_trimmed_to_nothing(namespace);
    text_laws::white_space_is_trimmed_to_nothing(key);
    lemma_slash(namespace);
}

/// A query is accepted where its route is and its times can be told to a server.
pub proof fn usable_queries_are_accepted(name: Seq<char>, query: QueryConfig)
    ensures
        bao::query_complaint(name, query) is None <==> is_usable_route(
            query.namespace_pattern@,
            query.key_pattern@,
        ) && is_whole(query.provider_wait_timeout, 1_000_000) && is_whole(
            query.miss_cache_ttl,
            1_000_000_000,
        ),
{
    usable_routes_are_accepted(name, query.namespace_pattern@, query.key_pattern@);
}

/// A synchronised namespace is accepted where it is below the root and its schedule can
/// be read.
pub proof fn usable_providers_are_accepted(
    name: Seq<char>,
    provider: ProviderConfig,
    failure: Option<Seq<char>>,
)
    ensures
        bao::provider_complaint(name, provider, failure) is None <==> provider.namespace@.len() > 0
            && provider.namespace@[0] == '/' && failure is None,
{
    text_laws::white_space_is_trimmed_to_nothing(provider.namespace@);
    lemma_slash(provider.namespace@);
}

/// The servers are accepted where there is one and the times and attempts are not zero
/// and can be told to them.
pub proof fn usable_servers_are_accepted(config: ValkyrConfig)
    ensures
        bao::valkyr_complaint(config) is None <==> config.endpoints@.len() > 0
            && config.request_timeout@ > 0 && config.max_retries > 0 && is_whole(
            config.provider_wait_timeout,
            1_000_000,
        ) && is_whole(config.miss_cache_ttl, 1_000_000_000),
{
}

/// A configuration is accepted where each of its parts is.
pub proof fn usable_configurations_are_accepted(config: AdapterConfig)
    ensures
        bao::config_complaint(config, bao::schedule_failures(config.providers@)) is None <==> {
            &&& is_usable_store(config.openbao)
            &&& config.openbao.ca_certificate_file is Some ==> config.openbao.ca_certificate_exists
            &&& config.valkyr.endpoints@.len() > 0
            &&& forall|i: int|
                0 <= i < config.valkyr.endpoints@.len() ==> is_usable_endpoint(
                    #[trigger] config.valkyr.endpoints@[i],
                )
            &&& config.valkyr.request_timeout@ > 0
            &&& config.valkyr.max_retries > 0
            &&& is_whole(config.valkyr.provider_wait_timeout, 1_000_000)
            &&& is_whole(config.valkyr.miss_cache_ttl, 1_000_000_000)
            &&& forall|i: int|
                #![trigger config.queries@[i]]
                0 <= i < config.queries@.len() ==> is_usable_route(
                    config.queries@[i].1.namespace_pattern@,
                    config.queries@[i].1.key_pattern@,
                ) && is_whole(config.queries@[i].1.provider_wait_timeout, 1_000_000) && is_whole(
                    config.queries@[i].1.miss_cache_ttl,
                    1_000_000_000,
                )
            &&& forall|i: int|
                #![trigger config.stores@[i]]
                0 <= i < config.stores@.len() ==> is_usable_route(
                    config.stores@[i].1.namespace_pattern@,
                    config.stores@[i].1.key_pattern@,
                )
            &&& forall|i: int|
                #![trigger config.providers@[i]]
                0 <= i < config.providers@.len() ==> config.providers@[i].1.namespace@.len() > 0
                    && config.providers@[i].1.namespace@[0] == '/' && config::cron_failure(
                    config.providers@[i].1.frequency@,
                ) is None
        },
{
    let failures = bao::schedule_failures(config.providers@);
    usable_stores_are_accepted(config.openbao);
    usable_servers_are_accepted(config.valkyr);
    let endpoints = bao::endpoint_complaints(config.valkyr.endpoints@);
    let queries = bao::query_complaints(config.queries@);
    let stores = bao::store_complaints(config.stores@);
    let providers = bao::provider_complaints(config.providers@, failures);
    no_complaint_is_none(endpoints);
    no_complaint_is_none(queries);
    no_complaint_is_none(stores);
    no_complaint_is_none(providers);
    assert forall|i: int| 0 <= i < config.valkyr.endpoints@.len() implies ((
    #[trigger] endpoints[i]) is None <==> is_usable_endpoint(config.valkyr.endpoints@[i])) by {
        usable_endpoints_are_accepted(config.valkyr.endpoints@[i], i as nat);
    }
    assert forall|i: int| 0 <= i < config.queries@.len() implies ((
    #[trigger] queries[i]) is None <==> is_usable_route(
        config.queries@[i].1.namespace_pattern@,
        config.queries@[i].1.key_pattern@,
    ) && is_whole(config.queries@[i].1.provider_wait_timeout, 1_000_000) && is_whole(
        config.queries@[i].1.miss_cache_ttl,
        1_000_000_000,
    )) by {
        usable_queries_are_accepted(config.queries@[i].0@, config.queries@[i].1);
    }
    assert forall|i: int| 0 <= i < config.stores@.len() implies ((
    #[trigger] stores[i]) is None <==> is_usable_route(
        config.stores@[i].1.namespace_pattern@,
        config.stores@[i].1.key_pattern@,
    )) by {
        usable_routes_are_accepted(
            config.stores@[i].0@,
            config.stores@[i].1.namespace_pattern@,
            config.stores@[i].1.key_pattern@,
        );
    }
    assert forall|i: int| 0 <= i < config.providers@.len() implies ((
    #[trigger] providers[i]) is None <==> config.providers@[i].1.namespace@.len() > 0
        && config.providers@[i].1.namespace@[0] == '/' && config::cron_failure(
        config.providers@[i].1.frequency@,
    ) is None) by {
        assert(failures[i] == config::cron_failure(config.providers@[i].1.frequency@));
        usable_providers_are_accepted(
            config.providers@[i].0@,
            config.providers@[i].1,
            failures[i],
        );
    }
    if checks::first_of(endpoints) is None {
        assert forall|i: int| 0 <= i < config.valkyr.endpoints@.len() implies is_usable_endpoint(
            #[trigger] config.valkyr.endpoints@[i],
        ) by {
            assert(endpoints[i] is None);
        }
    }
    if checks::first_of(queries) is None {
        assert forall|i: int|
            #![trigger config.queries@[i]]
            0 <= i < config.queries@.len() implies is_usable_route(
            config.queries@[i].1.namespace_pattern@,
            config.queries@[i].1.key_pattern@,
        ) && is_whole(config.queries@[i].1.provider_wait_timeout, 1_000_000) && is_whole(
            config.queries@[i].1.miss_cache_ttl,
            1_000_000_000,
        ) by {
            assert(queries[i] is None);
        }
    }
    if checks::first_of(stores) is None {
        assert forall|i: int|
            #![trigger config.stores@[i]]
            0 <= i < config.stores@.len() implies is_usable_route(
            config.stores@[i].1.namespace_pattern@,
            config.stores@[i].1.key_pattern@,
        ) by {
            assert(stores[i] is None);
        }
    }
    if checks::first_of(providers) is None {
        assert forall|i: int|
            #![trigger config.providers@[i]]
            0 <= i < config.providers@.len() implies config.providers@[i].1.namespace@.len() > 0
            && config.providers@[i].1.namespace@[0] == '/' && config::cron_failure(
            config.providers@[i].1.frequency@,
        ) is None by {
            assert(providers[i] is None);
        }
    }
}

/// A secret in a file is what it holds without the white space around it; a file that
/// holds no more than that is refused.
pub proof fn secrets_are_read_from_their_file(contents: Seq<char>, file: Seq<char>)
    ensures
        is_filled(contents) ==> bao::secret_in_file(contents, file) == Ok::<
            Seq<char>,
            AdapterErrorView,
        >(text::trim(contents)),
        !is_filled(contents) ==> bao::secret_in_file(contents, file) is Err,
{
    text_laws::white_space_is_trimmed_to_nothing(contents);
}

proof fn lemma_options(wait: u64, miss: u64)
    ensures
        bao::query_options((wait * 1_000_000) as nat, (miss * 1_000_000_000) as nat) matches Ok(
            options,
        ) && options.timeout_ms == wait && options.miss_ttl_seconds == miss
            && options.max_rate is None,
{
}

/// A server is told of every query at its place, with its patterns and with its times in
/// milliseconds and seconds, its own before those of the servers; and after the queries
/// of every store, with its patterns.
pub proof fn registrations_tell_the_patterns(
    config: AdapterConfig,
    position: int,
    wait: u64,
    miss: u64,
)
    ensures
        0 <= position < config.queries@.len() && ({
            let query = config.queries@[position].1;
            &&& query.namespace_pattern@.len() > 0
            &&& query.key_pattern@.len() > 0
            &&& comes_to(
                query.provider_wait_timeout,
                config.valkyr.provider_wait_timeout,
                1_000_000,
                wait,
            )
            &&& comes_to(query.miss_cache_ttl, config.valkyr.miss_cache_ttl, 1_000_000_000, miss)
        }) ==> service::registered(config, position) == Ok::<CommandView, Seq<char>>(
            CommandView::Provide {
                namespace_pattern: config.queries@[position].1.namespace_pattern@,
                key_pattern: config.queries@[position].1.key_pattern@,
                max_rate: None,
                timeout: Some(wait),
                miss_ttl: Some(miss),
            },
        ),
        0 <= position < config.stores@.len() && ({
            let store = config.stores@[position].1;
            store.namespace_pattern@.len() > 0 && store.key_pattern@.len() > 0
        }) ==> service::registered(config, config.queries@.len() + position) == Ok::<
            CommandView,
            Seq<char>,
        >(
            CommandView::Store {
                namespace_pattern: config.stores@[position].1.namespace_pattern@,
                key_pattern: config.stores@[position].1.key_pattern@,
            },
        ),
{
    lemma_options(wait, miss);
}

} // verus!
