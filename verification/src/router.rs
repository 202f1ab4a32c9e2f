//! Executes protocol commands against one store, without the rules of the broker.

use crate::duration::Duration;
use crate::error::{protocol, Error, ErrorView};
use crate::json::{JsonView, Value};
use crate::protocol::{Command, CommandView, Response, ResponseView, SetEntry, Stats};
use crate::route::{self, Key, KeyPattern, NamespaceContext, Route, RouteView};
use crate::store::{self, StoredValue, StoredView};
use vstd::prelude::*;

verus! {

/// What a command needs of the store.
#[derive(Debug)]
pub enum RouterStep {
    Finished(Result<Response, Error>),
    GetValue { namespace: NamespaceContext, key: Key },
    SetValue { namespace: NamespaceContext, key: Key, value: Value, ttl: Option<Duration> },
    SetBatch { namespace: NamespaceContext, entries: Vec<SetEntry>, ttl: Option<Duration> },
    Delete { namespace: NamespaceContext, key_pattern: Option<KeyPattern> },
    Move { source: NamespaceContext, destination: NamespaceContext },
    CountValues,
}

/// A [`RouterStep`] as a mathematical value; times are in nanoseconds.
#[verifier::ext_equal]
pub enum RouterStepView {
    Finished(Result<ResponseView, ErrorView>),
    GetValue { namespace: Seq<char>, key: Seq<char> },
    SetValue { namespace: Seq<char>, key: Seq<char>, value: JsonView, ttl: Option<nat> },
    SetBatch { namespace: Seq<char>, entries: Seq<(Seq<char>, JsonView)>, ttl: Option<nat> },
    Delete { namespace: Seq<char>, key_pattern: Option<Seq<char>> },
    Move { source: Seq<char>, destination: Seq<char> },
    CountValues,
}

impl View for RouterStep {
    type V = RouterStepView;

    open spec fn view(&self) -> RouterStepView {
        match self {
            RouterStep::Finished(result) => RouterStepView::Finished(
                crate::error::outcome(*result),
            ),
            RouterStep::GetValue { namespace, key } => RouterStepView::GetValue {
                namespace: namespace@,
                key: key@,
            },
            RouterStep::SetValue { namespace, key, value, ttl } => RouterStepView::SetValue {
                namespace: namespace@,
                key: key@,
                value: value@,
                ttl: crate::error::inner(*ttl),
            },
            RouterStep::SetBatch { namespace, entries, ttl } => RouterStepView::SetBatch {
                namespace: namespace@,
                entries: crate::error::views(entries@),
                ttl: crate::error::inner(*ttl),
            },
            RouterStep::Delete { namespace, key_pattern } => RouterStepView::Delete {
                namespace: namespace@,
                key_pattern: crate::error::inner(*key_pattern),
            },
            RouterStep::Move { source, destination } => RouterStepView::Move {
                source: source@,
                destination: destination@,
            },
            RouterStep::CountValues => RouterStepView::CountValues,
        }
    }
}

/// What reading a value comes to, and what it is counted as: a value as a hit, nothing
/// as a miss, and a failure as neither.
pub open spec fn answered(
    state: RouterView,
    route: RouteView,
    result: Result<Option<StoredView>, ErrorView>,
) -> (RouterView, Result<ResponseView, ErrorView>) {
    match result {
        Err(error) => (state, Err(error)),
        Ok(None) => (
            RouterView { misses: crate::broker::counted(state.misses), ..state },
            Err(ErrorView::NotFound(route)),
        ),
        Ok(Some(stored)) => (
            RouterView { hits: crate::broker::counted(state.hits), ..state },
            Ok(
                ResponseView::Value {
                    value: stored.value,
                    ttl_seconds: store::optional_seconds(stored.remaining_ttl),
                },
            ),
        ),
    }
}

/// What a command needs of the store.
pub open spec fn needed(command: CommandView) -> RouterStepView {
    match command {
        CommandView::Get { namespace, key } => RouterStepView::GetValue { namespace, key },
        CommandView::SetValue { namespace, key, value, ttl_seconds } => RouterStepView::SetValue {
            namespace,
            key,
            value,
            ttl: crate::broker::ttl_nanos(ttl_seconds),
        },
        CommandView::SetBatch { namespace, entries, ttl_seconds } => RouterStepView::SetBatch {
            namespace,
            entries,
            ttl: crate::broker::ttl_nanos(ttl_seconds),
        },
        CommandView::Delete { namespace, key_pattern } => RouterStepView::Delete {
            namespace,
            key_pattern,
        },
        CommandView::Move { source, destination } => match route::context_move(
            source,
            destination,
        ) {
            Err(error) => RouterStepView::Finished(Err(error)),
            Ok(_) => RouterStepView::Move { source, destination },
        },
        CommandView::Ping => RouterStepView::Finished(Ok(ResponseView::Pong)),
        CommandView::Stats => RouterStepView::CountValues,
        _ => RouterStepView::Finished(
            Err(ErrorView::Protocol("this command requires the broker"@)),
        ),
    }
}

/// Executes protocol commands against one store.
#[derive(Debug)]
pub struct Router<S> {
    store: S,
    requests: u64,
    hits: u64,
    misses: u64,
}

/// The counters of a [`Router`].
pub struct RouterView {
    pub requests: u64,
    pub hits: u64,
    pub misses: u64,
}

impl<S> View for Router<S> {
    type V = RouterView;

    closed spec fn view(&self) -> RouterView {
        RouterView { requests: self.requests, hits: self.hits, misses: self.misses }
    }
}

fn seconds(ttl_seconds: Option<u64>) -> (r: Option<Duration>)
    ensures
        crate::error::inner(r) == crate::broker::ttl_nanos(ttl_seconds),
{
    match ttl_seconds {
        Some(n) => Some(Duration::from_secs(n)),
        None => None,
    }
}

impl<S> Router<S> {
    pub closed spec fn spec_store(&self) -> S {
        self.store
    }

    /// A router of a store.
    pub fn new(store: S) -> (r: Self)
        ensures
            r.spec_store() == store,
            r@ == (RouterView { requests: 0, hits: 0, misses: 0 }),
    {
        Router { store, requests: 0, hits: 0, misses: 0 }
    }

    /// The store.
    pub fn store(&self) -> (r: &S)
        ensures
            *r == self.spec_store(),
    {
        &self.store
    }

    /// Begins a command.
    pub fn execute(&mut self, command: Command) -> (r: RouterStep)
        ensures
            r@ == needed(command@),
            final(self)@ == (RouterView {
                requests: crate::broker::counted(old(self)@.requests),
                ..old(self)@
            }),
            final(self).spec_store() == old(self).spec_store(),
    {
        self.requests = self.requests.wrapping_add(1);
        match command {
            Command::Get { namespace, key } => RouterStep::GetValue { namespace, key },
            Command::SetValue { namespace, key, value, ttl_seconds } => RouterStep::SetValue {
                namespace,
                key,
                value,
                ttl: seconds(ttl_seconds),
            },
            Command::SetBatch { namespace, entries, ttl_seconds } => RouterStep::SetBatch {
                namespace,
                entries,
                ttl: seconds(ttl_seconds),
            },
            Command::Delete { namespace, key_pattern } => RouterStep::Delete {
                namespace,
                key_pattern,
            },
            Command::Move { source, destination } => match route::validate_context_move(
                &source,
                &destination,
            ) {
                Err(error) => RouterStep::Finished(Err(error)),
                Ok(_) => RouterStep::Move { source, destination },
            },
            Command::Ping => RouterStep::Finished(Ok(Response::Pong)),
            Command::Stats => RouterStep::CountValues,
            _ => RouterStep::Finished(Err(protocol("this command requires the broker"))),
        }
    }

    /// Answers a GET request with what was read.
    pub fn value_read(
        &mut self,
        namespace: NamespaceContext,
        key: Key,
        result: Result<Option<StoredValue>, Error>,
    ) -> (r: Result<Response, Error>)
        ensures
            (final(self)@, crate::error::outcome(r)) == answered(
                old(self)@,
                RouteView { namespace: namespace@, key: key@ },
                crate::broker::stored_read(result),
            ),
            final(self).spec_store() == old(self).spec_store(),
    {
        match result {
            Err(error) => Err(error),
            Ok(None) => {
                self.misses = self.misses.wrapping_add(1);
                Err(Error::NotFound(Route::new(namespace, key)))
            },
            Ok(Some(stored)) => {
                self.hits = self.hits.wrapping_add(1);
                Ok(
                    Response::Value {
                        ttl_seconds: store::ttl_seconds(&stored.remaining_ttl),
                        value: stored.value,
                    },
                )
            },
        }
    }

    /// Answers a command whose change was made.
    pub fn change_made(&self, result: Result<(), Error>) -> (r: Result<Response, Error>)
        ensures
            crate::error::outcome(r) == (match result {
                Err(error) => Err(error@),
                Ok(_) => Ok(ResponseView::Okay),
            }),
    {
        match result {
            Err(error) => Err(error),
            Ok(_) => Ok(Response::Okay),
        }
    }

    /// The counters, with the number of values of the store.
    pub fn stats(&self, values: u64) -> (r: Stats)
        ensures
            r == (Stats {
                requests: self@.requests,
                hits: self@.hits,
                misses: self@.misses,
                values,
            }),
    {
        Stats { requests: self.requests, hits: self.hits, misses: self.misses, values }
    }
}

} // verus!
