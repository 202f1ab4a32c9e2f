//! How the adapter keeps its connections: when it tries again, and what it
//! registers.

use crate::client;
use crate::db::config;
use crate::db::service;
use crate::duration::Duration;
use crate::openbao::config::AdapterConfig;
use crate::protocol::{Command, CommandView};
use crate::route::{KeyPattern, NamespacePattern};
use vstd::prelude::*;

verus! {

/// The wait after an attempt, counted from one on.
pub fn delay(attempt: u32) -> (r: Duration)
    ensures
        r@ == service::delay_millis(attempt as nat) * 1_000_000,
{
    service::reconnect_delay(attempt)
}

/// The wait after a failed attempt, and the number of the next one: after the last
/// one of a round another round begins.
pub fn after_failure(attempt: u32, max_retries: u32) -> (r: (Duration, u32))
    ensures
        r.0@ == service::delay_millis(attempt as nat) * 1_000_000,
        r.1 == (if attempt < max_retries {
            attempt + 1
        } else {
            1
        }),
{
    let next: u32 = if attempt < max_retries {
        attempt + 1
    } else {
        1
    };
    (delay(attempt), next)
}

/// What a server is told of the query or the store at a position: the queries come
/// first, both in the order of their names.
pub open spec fn registered(config: AdapterConfig, position: int) -> Result<
    CommandView,
    Seq<char>,
> {
    if position < config.queries@.len() {
        let query = config.queries@[position].1;
        if query.namespace_pattern@.len() == 0 {
            Err(crate::error::ErrorView::EmptyIdentifier("namespace pattern"@).message())
        } else if query.key_pattern@.len() == 0 {
            Err(crate::error::ErrorView::EmptyIdentifier("key pattern"@).message())
        } else {
            match crate::openbao::config::query_options(
                config::inherited(
                    crate::error::inner(query.provider_wait_timeout),
                    crate::error::inner(config.valkyr.provider_wait_timeout),
                ),
                config::inherited(
                    crate::error::inner(query.miss_cache_ttl),
                    crate::error::inner(config.valkyr.miss_cache_ttl),
                ),
            ) {
                Err(error) => Err(error.message()),
                Ok(options) => Ok(
                    CommandView::Provide {
                        namespace_pattern: query.namespace_pattern@,
                        key_pattern: query.key_pattern@,
                        max_rate: None,
                        timeout: Some(options.timeout_ms),
                        miss_ttl: Some(options.miss_ttl_seconds),
                    },
                ),
            }
        }
    } else {
        let store = config.stores@[position - config.queries@.len()].1;
        if store.namespace_pattern@.len() == 0 {
            Err(crate::error::ErrorView::EmptyIdentifier("namespace pattern"@).message())
        } else if store.key_pattern@.len() == 0 {
            Err(crate::error::ErrorView::EmptyIdentifier("key pattern"@).message())
        } else {
            Ok(
                CommandView::Store {
                    namespace_pattern: store.namespace_pattern@,
                    key_pattern: store.key_pattern@,
                },
            )
        }
    }
}

/// The view of a request, or of why there is none.
pub open spec fn registration_view(result: Result<Command, String>) -> Result<
    CommandView,
    Seq<char>,
> {
    match result {
        Ok(command) => Ok(command@),
        Err(message) => Err(message@),
    }
}

/// What a server is told at a position once the adapter has connected, until nothing
/// is left.
pub fn registration(config: &AdapterConfig, position: usize) -> (r: Option<Result<Command, String>>)
    ensures
        match r {
            None => position >= config.queries@.len() + config.stores@.len(),
            Some(result) => position < config.queries@.len() + config.stores@.len()
                && registration_view(result) == registered(*config, position as int),
        },
{
    if position < config.queries.len() {
        let query = &config.queries[position].1;
        let namespace = match NamespacePattern::new(query.namespace_pattern.as_str()) {
            Ok(pattern) => pattern,
            Err(error) => {
                return Some(Err(error.message()));
            },
        };
        let key = match KeyPattern::new(query.key_pattern.as_str()) {
            Ok(pattern) => pattern,
            Err(error) => {
                return Some(Err(error.message()));
            },
        };
        return match config.valkyr.provider_options(query) {
            Err(error) => Some(Err(error.message())),
            Ok(options) => Some(Ok(client::provide_with_options(namespace, key, options))),
        };
    }
    let rest = position - config.queries.len();
    if rest >= config.stores.len() {
        return None;
    }
    let store = &config.stores[rest].1;
    let namespace_pattern = match NamespacePattern::new(store.namespace_pattern.as_str()) {
        Ok(pattern) => pattern,
        Err(error) => {
            return Some(Err(error.message()));
        },
    };
    match KeyPattern::new(store.key_pattern.as_str()) {
        Ok(key_pattern) => Some(Ok(Command::Store { namespace_pattern, key_pattern })),
        Err(error) => Some(Err(error.message())),
    }
}

} // verus!
