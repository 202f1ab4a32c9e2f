//! How the adapter keeps its connections: when it tries again, and what it
//! registers.

use crate::client;
use crate::db::config::{self, AdapterConfig};
use crate::duration::Duration;
use crate::protocol::{Command, CommandView};
use crate::route::{KeyPattern, NamespacePattern};
use crate::text;
use vstd::arithmetic::power2;
use vstd::prelude::*;

verus! {

/// The longest wait between two attempts, in milliseconds.
pub const LONGEST_DELAY_MILLIS: u64 = 30_000;

/// The first wait between two attempts, in milliseconds.
pub const FIRST_DELAY_MILLIS: u64 = 250;

/// The wait after an attempt in milliseconds: it doubles up to a limit.
pub open spec fn delay_millis(attempt: nat) -> nat {
    let doublings: nat = if attempt == 0 {
        0
    } else if attempt > 17 {
        16
    } else {
        (attempt - 1) as nat
    };
    let millis = FIRST_DELAY_MILLIS as nat * power2::pow2(doublings);
    if millis > LONGEST_DELAY_MILLIS {
        LONGEST_DELAY_MILLIS as nat
    } else {
        millis
    }
}

/// The wait after an attempt, counted from one on.
pub fn reconnect_delay(attempt: u32) -> (r: Duration)
    ensures
        r@ == delay_millis(attempt as nat) * 1_000_000,
{
    let doublings: u32 = if attempt == 0 {
        0
    } else if attempt > 17 {
        16
    } else {
        attempt - 1
    };
    let mut millis: u64 = FIRST_DELAY_MILLIS;
    let mut i: u32 = 0;
    proof {
        power2::lemma2_to64();
    }
    while i < doublings
        invariant
            i <= doublings <= 16,
            millis == FIRST_DELAY_MILLIS * power2::pow2(i as nat),
            millis <= FIRST_DELAY_MILLIS * 65536,
            power2::pow2(16) == 65536,
        decreases doublings - i,
    {
        proof {
            power2::lemma_pow2_unfold((i + 1) as nat);
            if i + 1 < 16 {
                power2::lemma_pow2_strictly_increases((i + 1) as nat, 16);
            }
        }
        millis = millis * 2;
        i += 1;
    }
    if millis > LONGEST_DELAY_MILLIS {
        millis = LONGEST_DELAY_MILLIS;
    }
    Duration::from_millis(millis)
}

/// What follows on a failed attempt to connect.
#[derive(Debug)]
pub enum Retry {
    /// Wait, and try again.
    Wait(Duration),
    /// Give up with a message.
    Failed(String),
}

/// What follows on a failed attempt to connect, counted from one on.
pub fn after_failure(attempt: u32, max_retries: u32, error: &str) -> (r: Retry)
    ensures
        match r {
            Retry::Wait(delay) => attempt < max_retries && delay@ == delay_millis(attempt as nat)
                * 1_000_000,
            Retry::Failed(message) => attempt >= max_retries && message@
                == "callback reconnection failed after "@ + text::decimal(max_retries as nat)
                + " attempts: "@ + error@,
        },
{
    if attempt < max_retries {
        return Retry::Wait(reconnect_delay(attempt));
    }
    let number = text::number(max_retries as u128);
    let start = text::joined3(
        "callback reconnection failed after ",
        number.as_str(),
        " attempts: ",
    );
    Retry::Failed(text::joined(start.as_str(), error))
}

/// A query or a store that a server is told of.
#[derive(Debug)]
pub struct Registration {
    pub command: Command,
    /// What a failure is called.
    pub failure: String,
}

/// A [`Registration`] as a mathematical value.
#[verifier::ext_equal]
pub struct RegistrationView {
    pub command: CommandView,
    pub failure: Seq<char>,
}

impl View for Registration {
    type V = RegistrationView;

    open spec fn view(&self) -> RegistrationView {
        RegistrationView { command: self.command@, failure: self.failure@ }
    }
}

/// A registration, or why there is none.
pub open spec fn registration_view(result: Result<Registration, String>) -> Result<
    RegistrationView,
    Seq<char>,
> {
    match result {
        Ok(registration) => Ok(registration@),
        Err(message) => Err(message@),
    }
}

/// What is wrong with a pattern of the given kind.
pub open spec fn pattern_complaint(kind: Seq<char>, field: Seq<char>) -> Seq<char> {
    "invalid "@ + kind + ": "@ + crate::error::ErrorView::EmptyIdentifier(field).message()
}

fn namespace_pattern(value: &str, kind: &str) -> (r: Result<NamespacePattern, String>)
    ensures
        match r {
            Ok(pattern) => value@.len() > 0 && pattern@ == value@,
            Err(message) => value@.len() == 0 && message@ == pattern_complaint(
                kind@,
                "namespace pattern"@,
            ),
        },
{
    match NamespacePattern::new(value) {
        Ok(pattern) => Ok(pattern),
        Err(error) => {
            let shown = error.message();
            let start = text::joined3("invalid ", kind, ": ");
            Err(text::joined(start.as_str(), shown.as_str()))
        },
    }
}

fn key_pattern(value: &str, kind: &str) -> (r: Result<KeyPattern, String>)
    ensures
        match r {
            Ok(pattern) => value@.len() > 0 && pattern@ == value@,
            Err(message) => value@.len() == 0 && message@ == pattern_complaint(
                kind@,
                "key pattern"@,
            ),
        },
{
    match KeyPattern::new(value) {
        Ok(pattern) => Ok(pattern),
        Err(error) => {
            let shown = error.message();
            let start = text::joined3("invalid ", kind, ": ");
            Err(text::joined(start.as_str(), shown.as_str()))
        },
    }
}
/// The registration of the query or the store at a position: the queries come
/// first, both in the order of their names.
pub open spec fn registered(config: AdapterConfig, position: int) -> Result<
    RegistrationView,
    Seq<char>,
> {
    if position < config.queries@.len() {
        let (name, query) = config.queries@[position];
        if query.namespace_pattern@.len() == 0 {
            Err(pattern_complaint("query namespace pattern"@, "namespace pattern"@))
        } else if query.key_pattern@.len() == 0 {
            Err(pattern_complaint("query key pattern"@, "key pattern"@))
        } else {
            match config::query_options(
                config::inherited(
                    crate::error::inner(query.provider_wait_timeout),
                    crate::error::inner(config.valkyr.provider_wait_timeout),
                ),
                config::inherited(
                    crate::error::inner(query.miss_cache_ttl),
                    crate::error::inner(config.valkyr.miss_cache_ttl),
                ),
            ) {
                Err(error) => Err(error.message()),
                Ok(options) => Ok(
                    RegistrationView {
                        command: CommandView::Provide {
                            namespace_pattern: query.namespace_pattern@,
                            key_pattern: query.key_pattern@,
                            max_rate: None,
                            timeout: Some(options.timeout_ms),
                            miss_ttl: Some(options.miss_ttl_seconds),
                        },
                        failure: "could not register query '"@ + name@ + "': "@,
                    },
                ),
            }
        }
    } else {
        let (name, store) = config.stores@[position - config.queries@.len()];
        if store.namespace_pattern@.len() == 0 {
            Err(pattern_complaint("store namespace pattern"@, "namespace pattern"@))
        } else if store.key_pattern@.len() == 0 {
            Err(pattern_complaint("store key pattern"@, "key pattern"@))
        } else {
            Ok(
                RegistrationView {
                    command: CommandView::Store {
                        namespace_pattern: store.namespace_pattern@,
                        key_pattern: store.key_pattern@,
                    },
                    failure: "could not register store '"@ + name@ + "': "@,
                },
            )
        }
    }
}

/// What a server is told at a position once the adapter has connected, until nothing
/// is left.
pub fn registration(config: &AdapterConfig, position: usize) -> (r: Option<
    Result<Registration, String>,
>)
    ensures
        match r {
            None => position >= config.queries@.len() + config.stores@.len(),
            Some(result) => position < config.queries@.len() + config.stores@.len()
                && registration_view(result) == registered(*config, position as int),
        },
{
    if position < config.queries.len() {
        let name = config.queries[position].0.as_str();
        let query = &config.queries[position].1;
        let namespace = match namespace_pattern(
            query.namespace_pattern.as_str(),
            "query namespace pattern",
        ) {
            Ok(pattern) => pattern,
            Err(message) => {
                return Some(Err(message));
            },
        };
        let key = match key_pattern(query.key_pattern.as_str(), "query key pattern") {
            Ok(pattern) => pattern,
            Err(message) => {
                return Some(Err(message));
            },
        };
        return match config.valkyr.provider_options(query) {
            Err(error) => Some(Err(error.message())),
            Ok(options) => Some(
                Ok(
                    Registration {
                        command: client::provide_with_options(namespace, key, options),
                        failure: text::joined3("could not register query '", name, "': "),
                    },
                ),
            ),
        };
    }
    let rest = position - config.queries.len();
    if rest >= config.stores.len() {
        return None;
    }
    let name = config.stores[rest].0.as_str();
    let store = &config.stores[rest].1;
    let namespace = match namespace_pattern(
        store.namespace_pattern.as_str(),
        "store namespace pattern",
    ) {
        Ok(pattern) => pattern,
        Err(message) => {
            return Some(Err(message));
        },
    };
    match key_pattern(store.key_pattern.as_str(), "store key pattern") {
        Ok(key) => Some(
            Ok(
                Registration {
                    command: Command::Store { namespace_pattern: namespace, key_pattern: key },
                    failure: text::joined3("could not register store '", name, "': "),
                },
            ),
        ),
        Err(message) => Some(Err(message)),
    }
}

/// The waits between attempts never become shorter, and never exceed the limit.
pub proof fn delays_grow_to_a_limit(earlier: nat, later: nat)
    requires
        earlier <= later,
    ensures
        FIRST_DELAY_MILLIS <= delay_millis(earlier) <= delay_millis(later) <= LONGEST_DELAY_MILLIS,
{
    power2::lemma2_to64();
    let a: nat = if earlier == 0 {
        0
    } else if earlier > 17 {
        16
    } else {
        (earlier - 1) as nat
    };
    let b: nat = if later == 0 {
        0
    } else if later > 17 {
        16
    } else {
        (later - 1) as nat
    };
    power2::lemma_pow2_pos(a);
    if a < b {
        power2::lemma_pow2_strictly_increases(a, b);
    }
}

} // verus!
