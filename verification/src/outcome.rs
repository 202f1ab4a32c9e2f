//! What the broker is asked, what it answers, and what it asks its surroundings
//! to do in between.

use crate::duration::Duration;
use crate::error::{Error, ErrorView};
use crate::json::{JsonView, Value};
use crate::protocol::{
    clone_entries, clone_pattern, Response, ResponseView, ServerCommand, ServerCommandView,
    SetEntry, Uuid,
};
use crate::registry::ConnectionId;
use crate::route::{Key, KeyPattern, NamespaceContext};
use crate::security::{AuthInfo, AuthInfoView};
use crate::store::{StoredValue, StoredView};
use crate::table::Table;
use vstd::prelude::*;

verus! {

/// The encryption key of a base namespace, as it is stored.
#[derive(Debug)]
pub struct SecurityKeyRecord {
    pub key: String,
    pub created: u64,
}

/// A [`SecurityKeyRecord`] as a mathematical value.
#[verifier::ext_equal]
pub struct SecurityKeyView {
    pub key: Seq<char>,
    pub created: u64,
}

impl View for SecurityKeyRecord {
    type V = SecurityKeyView;

    open spec fn view(&self) -> SecurityKeyView {
        SecurityKeyView { key: self.key@, created: self.created }
    }
}

/// Who makes a request.
#[derive(Debug)]
pub struct RequestContext {
    pub owner: ConnectionId,
    pub adapter_instance: Option<Uuid>,
    pub auth: Option<AuthInfo>,
    /// Optional caller-supplied variable values used by `${name}` GET keys.
    pub variables: Table<String>,
}

/// A [`RequestContext`] as a mathematical value.
#[verifier::ext_equal]
pub struct ContextView {
    pub owner: ConnectionId,
    pub adapter_instance: Option<Uuid>,
    pub auth: Option<AuthInfoView>,
    pub variables: Map<Seq<char>, Seq<char>>,
}

impl View for RequestContext {
    type V = ContextView;

    open spec fn view(&self) -> ContextView {
        ContextView {
            owner: self.owner,
            adapter_instance: self.adapter_instance,
            auth: crate::error::inner(self.auth),
            variables: self.variables@.map_values(|value: String| value@),
        }
    }
}

impl RequestContext {
    /// A request of a connection that has not authenticated.
    pub fn anonymous(owner: ConnectionId) -> (r: Self)
        ensures
            r@ == (ContextView {
                owner,
                adapter_instance: None,
                auth: None,
                variables: Map::empty(),
            }),
    {
        let r = RequestContext {
            owner,
            adapter_instance: None,
            auth: None,
            variables: Table::new(),
        };
        assert(r@.variables =~= Map::<Seq<char>, Seq<char>>::empty());
        r
    }
}

/// A change that is still to be made to the store.
#[derive(Debug)]
pub enum PendingMutation {
    SetValue { namespace: NamespaceContext, key: Key, value: Value, ttl: Option<Duration> },
    SetBatch { namespace: NamespaceContext, entries: Vec<SetEntry>, ttl: Option<Duration> },
    Delete { namespace: NamespaceContext, key_pattern: Option<KeyPattern> },
    Move { source: NamespaceContext, destination: NamespaceContext },
}

/// A [`PendingMutation`] as a mathematical value; times are in nanoseconds.
#[verifier::ext_equal]
pub enum MutationView {
    SetValue { namespace: Seq<char>, key: Seq<char>, value: JsonView, ttl: Option<nat> },
    SetBatch { namespace: Seq<char>, entries: Seq<(Seq<char>, JsonView)>, ttl: Option<nat> },
    Delete { namespace: Seq<char>, key_pattern: Option<Seq<char>> },
    Move { source: Seq<char>, destination: Seq<char> },
}

impl View for PendingMutation {
    type V = MutationView;

    open spec fn view(&self) -> MutationView {
        match self {
            PendingMutation::SetValue { namespace, key, value, ttl } => MutationView::SetValue {
                namespace: namespace@,
                key: key@,
                value: value@,
                ttl: crate::error::inner(*ttl),
            },
            PendingMutation::SetBatch { namespace, entries, ttl } => MutationView::SetBatch {
                namespace: namespace@,
                entries: crate::error::views(entries@),
                ttl: crate::error::inner(*ttl),
            },
            PendingMutation::Delete { namespace, key_pattern } => MutationView::Delete {
                namespace: namespace@,
                key_pattern: crate::error::inner(*key_pattern),
            },
            PendingMutation::Move { source, destination } => MutationView::Move {
                source: source@,
                destination: destination@,
            },
        }
    }
}

impl Clone for PendingMutation {
    fn clone(&self) -> (r: Self)
        ensures
            r@ == self@,
    {
        match self {
            PendingMutation::SetValue { namespace, key, value, ttl } => PendingMutation::SetValue {
                namespace: namespace.clone(),
                key: key.clone(),
                value: value.clone(),
                ttl: *ttl,
            },
            PendingMutation::SetBatch { namespace, entries, ttl } => PendingMutation::SetBatch {
                namespace: namespace.clone(),
                entries: clone_entries(entries),
                ttl: *ttl,
            },
            PendingMutation::Delete { namespace, key_pattern } => PendingMutation::Delete {
                namespace: namespace.clone(),
                key_pattern: clone_pattern(key_pattern),
            },
            PendingMutation::Move { source, destination } => PendingMutation::Move {
                source: source.clone(),
                destination: destination.clone(),
            },
        }
    }
}

/// How a provider wants to be asked.
#[derive(Clone, Copy, Debug, PartialEq, Eq)]
pub struct ProvideOptions {
    pub max_rate: Option<u32>,
    pub timeout_ms: u64,
    pub miss_ttl_seconds: u64,
}

impl ProvideOptions {
    /// No limits.
    pub fn new() -> (r: Self)
        ensures
            r == (ProvideOptions { max_rate: None, timeout_ms: 0, miss_ttl_seconds: 0 }),
    {
        ProvideOptions { max_rate: None, timeout_ms: 0, miss_ttl_seconds: 0 }
    }

    pub fn with_max_rate(self, max_rate: Option<u32>) -> (r: Self)
        ensures
            r == (ProvideOptions { max_rate, ..self }),
    {
        ProvideOptions {
            max_rate,
            timeout_ms: self.timeout_ms,
            miss_ttl_seconds: self.miss_ttl_seconds,
        }
    }

    pub fn with_timeout_ms(self, timeout_ms: u64) -> (r: Self)
        ensures
            r == (ProvideOptions { timeout_ms, ..self }),
    {
        ProvideOptions {
            max_rate: self.max_rate,
            timeout_ms,
            miss_ttl_seconds: self.miss_ttl_seconds,
        }
    }

    pub fn with_miss_ttl_seconds(self, miss_ttl_seconds: u64) -> (r: Self)
        ensures
            r == (ProvideOptions { miss_ttl_seconds, ..self }),
    {
        ProvideOptions {
            max_rate: self.max_rate,
            timeout_ms: self.timeout_ms,
            miss_ttl_seconds,
        }
    }
}

impl Default for ProvideOptions {
    fn default() -> (r: Self)
        ensures
            r == (ProvideOptions { max_rate: None, timeout_ms: 0, miss_ttl_seconds: 0 }),
    {
        ProvideOptions::new()
    }
}

/// The options of a provider that names only its rate.
impl From<Option<u32>> for ProvideOptions {
    fn from(max_rate: Option<u32>) -> (r: Self) {
        ProvideOptions { max_rate, timeout_ms: 0, miss_ttl_seconds: 0 }
    }
}

impl vstd::std_specs::convert::FromSpecImpl<Option<u32>> for ProvideOptions {
    open spec fn obeys_from_spec() -> bool {
        true
    }

    open spec fn from_spec(max_rate: Option<u32>) -> Self {
        ProvideOptions { max_rate, timeout_ms: 0, miss_ttl_seconds: 0 }
    }
}

/// A request that goes out to a connected adapter.
#[derive(Debug)]
pub struct Dispatch {
    pub owner: ConnectionId,
    pub provider_id: Option<Uuid>,
    pub provider_refresh_id: Option<Uuid>,
    pub mutation_generation: u64,
    pub command: ServerCommand,
    pub authentication: bool,
    pub provider_options: Option<ProvideOptions>,
    pub encrypted: bool,
}

/// A [`Dispatch`] as a mathematical value.
#[verifier::ext_equal]
pub struct DispatchView {
    pub owner: ConnectionId,
    pub provider_id: Option<Uuid>,
    pub provider_refresh_id: Option<Uuid>,
    pub mutation_generation: u64,
    pub command: ServerCommandView,
    pub authentication: bool,
    pub provider_options: Option<ProvideOptions>,
    pub encrypted: bool,
}

impl View for Dispatch {
    type V = DispatchView;

    open spec fn view(&self) -> DispatchView {
        DispatchView {
            owner: self.owner,
            provider_id: self.provider_id,
            provider_refresh_id: self.provider_refresh_id,
            mutation_generation: self.mutation_generation,
            command: self.command@,
            authentication: self.authentication,
            provider_options: self.provider_options,
            encrypted: self.encrypted,
        }
    }
}

/// What a request comes to.
#[derive(Debug)]
pub struct BrokerOutcome {
    pub response: Response,
    pub dispatch: Option<Dispatch>,
    pub pending_mutation: Option<PendingMutation>,
    pub authenticated: Option<AuthInfo>,
}

/// A [`BrokerOutcome`] as a mathematical value.
#[verifier::ext_equal]
pub struct OutcomeView {
    pub response: ResponseView,
    pub dispatch: Option<DispatchView>,
    pub pending_mutation: Option<MutationView>,
    pub authenticated: Option<AuthInfoView>,
}

impl View for BrokerOutcome {
    type V = OutcomeView;

    open spec fn view(&self) -> OutcomeView {
        OutcomeView {
            response: self.response@,
            dispatch: crate::error::inner(self.dispatch),
            pending_mutation: crate::error::inner(self.pending_mutation),
            authenticated: crate::error::inner(self.authenticated),
        }
    }
}

/// An outcome that is an answer and nothing else.
pub open spec fn answering(response: ResponseView) -> OutcomeView {
    OutcomeView { response, dispatch: None, pending_mutation: None, authenticated: None }
}

impl BrokerOutcome {
    /// An outcome that is an answer and nothing else.
    pub fn response(response: Response) -> (r: Self)
        ensures
            r@ == answering(response@),
    {
        BrokerOutcome { response, dispatch: None, pending_mutation: None, authenticated: None }
    }
}

/// A GET request whose key is being resolved: the text so far, and the position
/// up to which it is resolved.
#[derive(Debug)]
pub struct GetRequest {
    pub namespace: NamespaceContext,
    pub raw_encrypted: bool,
    pub resolved: String,
    pub cursor: usize,
    pub context: RequestContext,
}

/// A [`GetRequest`] as a mathematical value.
#[verifier::ext_equal]
pub struct GetView {
    pub namespace: Seq<char>,
    pub raw_encrypted: bool,
    pub resolved: Seq<char>,
    pub cursor: int,
    pub context: ContextView,
}

impl View for GetRequest {
    type V = GetView;

    open spec fn view(&self) -> GetView {
        GetView {
            namespace: self.namespace@,
            raw_encrypted: self.raw_encrypted,
            resolved: self.resolved@,
            cursor: self.cursor as int,
            context: self.context@,
        }
    }
}

/// A route that is read, and whether its value is encrypted.
#[derive(Debug)]
pub struct ValueRequest {
    pub namespace: NamespaceContext,
    pub key: Key,
    pub encrypted: bool,
}

/// A [`ValueRequest`] as a mathematical value.
#[verifier::ext_equal]
pub struct ValueView {
    pub namespace: Seq<char>,
    pub key: Seq<char>,
    pub encrypted: bool,
}

impl View for ValueRequest {
    type V = ValueView;

    open spec fn view(&self) -> ValueView {
        ValueView { namespace: self.namespace@, key: self.key@, encrypted: self.encrypted }
    }
}

/// A value that is to be set.
#[derive(Debug)]
pub struct SetRequest {
    pub namespace: NamespaceContext,
    pub key: Key,
    pub value: Value,
    pub ttl: Option<Duration>,
    pub source: Option<Uuid>,
}

/// A [`SetRequest`] as a mathematical value.
#[verifier::ext_equal]
pub struct SetView {
    pub namespace: Seq<char>,
    pub key: Seq<char>,
    pub value: JsonView,
    pub ttl: Option<nat>,
    pub source: Option<Uuid>,
}

impl View for SetRequest {
    type V = SetView;

    open spec fn view(&self) -> SetView {
        SetView {
            namespace: self.namespace@,
            key: self.key@,
            value: self.value@,
            ttl: crate::error::inner(self.ttl),
            source: self.source,
        }
    }
}

/// A batch that is being prepared: the entries, and those already prepared.
#[derive(Debug)]
pub struct BatchRequest {
    pub namespace: NamespaceContext,
    pub entries: Vec<SetEntry>,
    pub prepared: Vec<SetEntry>,
    pub ttl: Option<Duration>,
    pub context: RequestContext,
}

/// A [`BatchRequest`] as a mathematical value.
#[verifier::ext_equal]
pub struct BatchView {
    pub namespace: Seq<char>,
    pub entries: Seq<(Seq<char>, JsonView)>,
    pub prepared: Seq<(Seq<char>, JsonView)>,
    pub ttl: Option<nat>,
    pub context: ContextView,
}

impl View for BatchRequest {
    type V = BatchView;

    open spec fn view(&self) -> BatchView {
        BatchView {
            namespace: self.namespace@,
            entries: crate::error::views(self.entries@),
            prepared: crate::error::views(self.prepared@),
            ttl: crate::error::inner(self.ttl),
            context: self.context@,
        }
    }
}

/// What an encryption key is needed for.
#[derive(Debug)]
pub enum Purpose {
    /// Answer a GET with a stored envelope.
    Answer { request: ValueRequest, stored: StoredValue },
    /// Set a value.
    Change(SetRequest),
    /// Set the next entry of a batch.
    Entry(BatchRequest),
}

/// A [`Purpose`] as a mathematical value.
#[verifier::ext_equal]
pub enum PurposeView {
    Answer { request: ValueView, stored: StoredView },
    Change(SetView),
    Entry(BatchView),
}

impl View for Purpose {
    type V = PurposeView;

    open spec fn view(&self) -> PurposeView {
        match self {
            Purpose::Answer { request, stored } => PurposeView::Answer {
                request: request@,
                stored: stored@,
            },
            Purpose::Change(request) => PurposeView::Change(request@),
            Purpose::Entry(request) => PurposeView::Entry(request@),
        }
    }
}

/// What came of looking for the encryption key of a base namespace.
#[derive(Debug)]
pub enum KeyLoad {
    Failed(Error),
    Missing,
    Malformed,
    Found(SecurityKeyRecord),
}

/// A [`KeyLoad`] as a mathematical value.
#[verifier::ext_equal]
pub enum KeyLoadView {
    Failed(ErrorView),
    Missing,
    Malformed,
    Found(SecurityKeyView),
}

impl View for KeyLoad {
    type V = KeyLoadView;

    open spec fn view(&self) -> KeyLoadView {
        match self {
            KeyLoad::Failed(error) => KeyLoadView::Failed(error@),
            KeyLoad::Missing => KeyLoadView::Missing,
            KeyLoad::Malformed => KeyLoadView::Malformed,
            KeyLoad::Found(record) => KeyLoadView::Found(record@),
        }
    }
}

/// What the broker needs done before it can go on with a request.
#[derive(Debug)]
pub enum Step {
    /// The request is finished.
    Finished(Result<BrokerOutcome, Error>),
    /// Read the record of an API key.
    ReadAuthRecord { key: Key },
    /// Read a variable of a key that is being resolved.
    ReadVariable { key: Key, request: GetRequest },
    /// Read a value.
    ReadValue(ValueRequest),
    /// Find out whether the route is marked as a miss.
    CheckMiss(ValueRequest),
    /// Read the encryption key of a base namespace.
    ReadSecurityKey { scope: Key, purpose: Purpose },
    /// Find out whether the value is a permission record.
    CheckAuthRecord(SetRequest),
    /// Find out whether the value is an encryption key record.
    CheckSecurityRecord(SetRequest),
    /// Store an encryption key record.
    WriteSecurityRecord(SetRequest),
    /// Make a change to the store.
    Commit(PendingMutation),
    /// Count the values of the store.
    CountValues,
}

/// A [`Step`] as a mathematical value.
#[verifier::ext_equal]
pub enum StepView {
    Finished(Result<OutcomeView, ErrorView>),
    ReadAuthRecord { key: Seq<char> },
    ReadVariable { key: Seq<char>, request: GetView },
    ReadValue(ValueView),
    CheckMiss(ValueView),
    ReadSecurityKey { scope: Seq<char>, purpose: PurposeView },
    CheckAuthRecord(SetView),
    CheckSecurityRecord(SetView),
    WriteSecurityRecord(SetView),
    Commit(MutationView),
    CountValues,
}

impl View for Step {
    type V = StepView;

    open spec fn view(&self) -> StepView {
        match self {
            Step::Finished(result) => StepView::Finished(crate::error::outcome(*result)),
            Step::ReadAuthRecord { key } => StepView::ReadAuthRecord { key: key@ },
            Step::ReadVariable { key, request } => StepView::ReadVariable {
                key: key@,
                request: request@,
            },
            Step::ReadValue(request) => StepView::ReadValue(request@),
            Step::CheckMiss(request) => StepView::CheckMiss(request@),
            Step::ReadSecurityKey { scope, purpose } => StepView::ReadSecurityKey {
                scope: scope@,
                purpose: purpose@,
            },
            Step::CheckAuthRecord(request) => StepView::CheckAuthRecord(request@),
            Step::CheckSecurityRecord(request) => StepView::CheckSecurityRecord(request@),
            Step::WriteSecurityRecord(request) => StepView::WriteSecurityRecord(request@),
            Step::Commit(mutation) => StepView::Commit(mutation@),
            Step::CountValues => StepView::CountValues,
        }
    }
}

/// What has to be removed from the markers of missing values.
#[derive(Debug)]
pub enum Invalidation {
    Exact { namespace: NamespaceContext, key: Key },
    Matching { namespace: NamespaceContext, pattern: KeyPattern },
    Whole { namespace: NamespaceContext },
}

/// An [`Invalidation`] as a mathematical value.
#[verifier::ext_equal]
pub enum InvalidationView {
    Exact { namespace: Seq<char>, key: Seq<char> },
    Matching { namespace: Seq<char>, pattern: Seq<char> },
    Whole { namespace: Seq<char> },
}

impl View for Invalidation {
    type V = InvalidationView;

    open spec fn view(&self) -> InvalidationView {
        match self {
            Invalidation::Exact { namespace, key } => InvalidationView::Exact {
                namespace: namespace@,
                key: key@,
            },
            Invalidation::Matching { namespace, pattern } => InvalidationView::Matching {
                namespace: namespace@,
                pattern: pattern@,
            },
            Invalidation::Whole { namespace } => InvalidationView::Whole { namespace: namespace@ },
        }
    }
}

} // verus!
