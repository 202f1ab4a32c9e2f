//! The client side of the native text protocol: what its requests say, what their
//! answers mean, and when a connection can no longer be used. The connections
//! themselves are around it.

use crate::broker::LEASE_NAMESPACE;
use crate::duration::Duration;
use crate::error::Error;
use crate::json::{JsonView, Value};
use crate::line_callback;
use crate::line_protocol;
use crate::outcome::ProvideOptions;
use crate::protocol::{
    Command, CommandView, Response, ResponseView, ServerCommand, ServerCommandView, SetEntry,
    Stats, Uuid,
};
use crate::route::{Key, KeyPattern, NamespaceContext, NamespacePattern};
use crate::text;
use std::collections::VecDeque;
use vstd::prelude::*;

verus! {

/// How long a request waits for its answer if nothing else is configured, in
/// seconds.
pub const DEFAULT_REQUEST_TIMEOUT_SECONDS: u64 = 30;

/// Why a request failed.
#[derive(Debug)]
pub enum ClientError {
    Connection(String),
    Tls(String),
    Frame(String),
    Protocol(String),
    Closed,
    /// The request may be retried only after establishing a fresh connection.
    RequestTimeout,
    Server(String),
    UnexpectedResponse(&'static str),
    Configuration(String),
    NoHealthyEndpoints,
    Authentication(String),
    AuthenticationPending { retry_after_ms: u64 },
}

/// A [`ClientError`] as a mathematical value.
#[verifier::ext_equal]
pub enum ClientErrorView {
    Connection(Seq<char>),
    Tls(Seq<char>),
    Frame(Seq<char>),
    Protocol(Seq<char>),
    Closed,
    RequestTimeout,
    Server(Seq<char>),
    UnexpectedResponse(Seq<char>),
    Configuration(Seq<char>),
    NoHealthyEndpoints,
    Authentication(Seq<char>),
    AuthenticationPending { retry_after_ms: u64 },
}

impl View for ClientError {
    type V = ClientErrorView;

    open spec fn view(&self) -> ClientErrorView {
        match self {
            ClientError::Connection(text) => ClientErrorView::Connection(text@),
            ClientError::Tls(text) => ClientErrorView::Tls(text@),
            ClientError::Frame(text) => ClientErrorView::Frame(text@),
            ClientError::Protocol(text) => ClientErrorView::Protocol(text@),
            ClientError::Closed => ClientErrorView::Closed,
            ClientError::RequestTimeout => ClientErrorView::RequestTimeout,
            ClientError::Server(text) => ClientErrorView::Server(text@),
            ClientError::UnexpectedResponse(text) => ClientErrorView::UnexpectedResponse(text@),
            ClientError::Configuration(text) => ClientErrorView::Configuration(text@),
            ClientError::NoHealthyEndpoints => ClientErrorView::NoHealthyEndpoints,
            ClientError::Authentication(text) => ClientErrorView::Authentication(text@),
            ClientError::AuthenticationPending { retry_after_ms } =>
            ClientErrorView::AuthenticationPending { retry_after_ms: *retry_after_ms },
        }
    }
}

/// A result with its value and its error as mathematical values.
pub open spec fn client_outcome<T: View>(result: Result<T, ClientError>) -> Result<
    T::V,
    ClientErrorView,
> {
    match result {
        Ok(value) => Ok(value@),
        Err(error) => Err(error@),
    }
}

impl ClientErrorView {
    /// Retrying on a new connection can plausibly resolve the error.
    pub open spec fn is_connection_failure(self) -> bool {
        self is Connection || self is Frame || self is Closed || self is RequestTimeout
    }

    /// The message that an error shows.
    pub open spec fn message(self) -> Seq<char> {
        match self {
            ClientErrorView::Connection(text) => "connection failed: "@ + text,
            ClientErrorView::Tls(text) => "TLS handshake failed: "@ + text,
            ClientErrorView::Frame(text) => "protocol frame failed: "@ + text,
            ClientErrorView::Protocol(text) => "invalid server response: "@ + text,
            ClientErrorView::Closed => "server closed the connection"@,
            ClientErrorView::RequestTimeout =>
            "server did not respond before the request timeout"@,
            ClientErrorView::Server(text) => "server error: "@ + text,
            ClientErrorView::UnexpectedResponse(text) => "unexpected server response: "@ + text,
            ClientErrorView::Configuration(text) => "invalid client configuration: "@ + text,
            ClientErrorView::NoHealthyEndpoints => "all configured endpoints failed"@,
            ClientErrorView::Authentication(text) => "server authentication failed: "@ + text,
            ClientErrorView::AuthenticationPending { retry_after_ms } =>
            "authentication is warming; retry after "@ + text::decimal(retry_after_ms as nat)
                + "ms"@,
        }
    }
}

impl ClientError {
    /// Whether retrying on a new connection can plausibly resolve this error.
    pub fn is_connection_failure(&self) -> (r: bool)
        ensures
            r == self@.is_connection_failure(),
    {
        match self {
            ClientError::Connection(_)
            | ClientError::Frame(_)
            | ClientError::Closed
            | ClientError::RequestTimeout => true,
            _ => false,
        }
    }

    /// Whether retrying can plausibly resolve this error.
    pub fn is_retryable(&self) -> (r: bool)
        ensures
            r == (self@.is_connection_failure() || self@ is AuthenticationPending),
    {
        self.is_connection_failure() || match self {
            ClientError::AuthenticationPending { .. } => true,
            _ => false,
        }
    }

    /// The message that the error shows.
    pub fn message(&self) -> (r: String)
        ensures
            r@ == self@.message(),
    {
        match self {
            ClientError::Connection(text) => text::joined("connection failed: ", text.as_str()),
            ClientError::Tls(text) => text::joined("TLS handshake failed: ", text.as_str()),
            ClientError::Frame(text) => text::joined("protocol frame failed: ", text.as_str()),
            ClientError::Protocol(text) => text::joined(
                "invalid server response: ",
                text.as_str(),
            ),
            ClientError::Closed => "server closed the connection".to_owned(),
            ClientError::RequestTimeout =>
            "server did not respond before the request timeout".to_owned(),
            ClientError::Server(text) => text::joined("server error: ", text.as_str()),
            ClientError::UnexpectedResponse(text) => text::joined(
                "unexpected server response: ",
                text,
            ),
            ClientError::Configuration(text) => text::joined(
                "invalid client configuration: ",
                text.as_str(),
            ),
            ClientError::NoHealthyEndpoints => "all configured endpoints failed".to_owned(),
            ClientError::Authentication(text) => text::joined(
                "server authentication failed: ",
                text.as_str(),
            ),
            ClientError::AuthenticationPending { retry_after_ms } => {
                let n = text::number(*retry_after_ms as u128);
                text::joined3("authentication is warming; retry after ", n.as_str(), "ms")
            },
        }
    }
}

/// Whether an adapter may run its schedule.
#[derive(Clone, Copy, Debug, PartialEq, Eq, Structural)]
pub enum ScheduleLease {
    Acquired { ttl_seconds: u64 },
    Unavailable,
}

/// Where a server listens.
#[derive(Debug)]
pub struct ServerEndpoint {
    pub address: String,
    pub use_tls: bool,
}

impl ServerEndpoint {
    pub fn tcp(address: &str) -> (r: Self)
        ensures
            r.address@ == address@,
            !r.use_tls,
    {
        ServerEndpoint { address: address.to_owned(), use_tls: false }
    }

    pub fn tls(address: &str) -> (r: Self)
        ensures
            r.address@ == address@,
            r.use_tls,
    {
        ServerEndpoint { address: address.to_owned(), use_tls: true }
    }
}

impl Clone for ServerEndpoint {
    fn clone(&self) -> (r: Self)
        ensures
            r == *self,
    {
        ServerEndpoint { address: self.address.clone(), use_tls: self.use_tls }
    }
}

/// How to connect. `T` is the configuration of TLS.
#[derive(Debug)]
pub struct ClientBuilder<T> {
    endpoints: Vec<(ServerEndpoint, Option<T>)>,
    api_key: Option<String>,
    adapter_instance: Option<Uuid>,
    connection_timeout: Duration,
    request_timeout: Duration,
}

/// A [`ClientBuilder`] as a mathematical value; times are in nanoseconds.
#[verifier::ext_equal]
pub struct BuilderView<T> {
    pub endpoints: Seq<(ServerEndpoint, Option<T>)>,
    pub api_key: Option<Seq<char>>,
    pub adapter_instance: Option<Uuid>,
    pub connection_timeout: nat,
    pub request_timeout: nat,
}

impl<T> View for ClientBuilder<T> {
    type V = BuilderView<T>;

    closed spec fn view(&self) -> BuilderView<T> {
        BuilderView {
            endpoints: self.endpoints@,
            api_key: crate::error::inner(self.api_key),
            adapter_instance: self.adapter_instance,
            connection_timeout: self.connection_timeout@,
            request_timeout: self.request_timeout@,
        }
    }
}

/// The endpoints that are left to try, and what to say to them.
#[derive(Debug)]
pub struct Attempts<T> {
    pub left: VecDeque<(ServerEndpoint, Option<T>)>,
    pub api_key: String,
    pub adapter_instance: Option<Uuid>,
    pub connection_timeout: Duration,
    pub request_timeout: Duration,
}

impl<T> Attempts<T> {
    /// The next endpoint to try, in the order in which they were given.
    pub fn next(&mut self) -> (r: Result<(ServerEndpoint, Option<T>), ClientError>)
        ensures
            if old(self).left@.len() == 0 {
                r matches Err(error) && error@ == ClientErrorView::NoHealthyEndpoints
                    && final(self).left@ == old(self).left@
            } else {
                r == Ok::<(ServerEndpoint, Option<T>), ClientError>(old(self).left@[0]) && final(
                    self).left@ == old(self).left@.drop_first()
            },
            final(self).api_key == old(self).api_key,
            final(self).adapter_instance == old(self).adapter_instance,
            final(self).connection_timeout == old(self).connection_timeout,
            final(self).request_timeout == old(self).request_timeout,
    {
        match self.left.pop_front() {
            Some(endpoint) => Ok(endpoint),
            None => Err(ClientError::NoHealthyEndpoints),
        }
    }
}

impl<T> ClientBuilder<T> {
    /// No endpoints, and the default times.
    pub fn new() -> (r: Self)
        ensures
            r@ == (BuilderView::<T> {
                endpoints: Seq::empty(),
                api_key: None,
                adapter_instance: None,
                connection_timeout: 10_000_000_000,
                request_timeout: 30_000_000_000,
            }),
    {
        ClientBuilder {
            endpoints: Vec::new(),
            api_key: None,
            adapter_instance: None,
            connection_timeout: Duration::from_secs(10),
            request_timeout: Duration::from_secs(DEFAULT_REQUEST_TIMEOUT_SECONDS),
        }
    }

    fn with_endpoint(self, endpoint: ServerEndpoint, config: Option<T>) -> (r: Self)
        ensures
            r@ == (BuilderView {
                endpoints: self@.endpoints.push((endpoint, config)),
                ..self@
            }),
    {
        let mut endpoints = self.endpoints;
        endpoints.push((endpoint, config));
        ClientBuilder {
            endpoints,
            api_key: self.api_key,
            adapter_instance: self.adapter_instance,
            connection_timeout: self.connection_timeout,
            request_timeout: self.request_timeout,
        }
    }

    /// Adds an endpoint without TLS.
    pub fn server(self, address: &str) -> (r: Self)
        ensures
            exists|endpoint: ServerEndpoint|
                endpoint.address@ == address@ && !endpoint.use_tls && r@ == (BuilderView {
                    endpoints: #[trigger] self@.endpoints.push((endpoint, None)),
                    ..self@
                }),
    {
        let endpoint = ServerEndpoint::tcp(address);
        self.with_endpoint(endpoint, None)
    }

    /// Adds an endpoint with the default configuration of TLS.
    pub fn tls_server(self, address: &str) -> (r: Self)
        ensures
            exists|endpoint: ServerEndpoint|
                endpoint.address@ == address@ && endpoint.use_tls && r@ == (BuilderView {
                    endpoints: #[trigger] self@.endpoints.push((endpoint, None)),
                    ..self@
                }),
    {
        let endpoint = ServerEndpoint::tls(address);
        self.with_endpoint(endpoint, None)
    }

    /// Adds an endpoint with a configuration of TLS.
    pub fn tls_server_with_config(self, address: &str, config: T) -> (r: Self)
        ensures
            exists|endpoint: ServerEndpoint|
                endpoint.address@ == address@ && endpoint.use_tls && r@ == (BuilderView {
                    endpoints: #[trigger] self@.endpoints.push((endpoint, Some(config))),
                    ..self@
                }),
    {
        let endpoint = ServerEndpoint::tls(address);
        self.with_endpoint(endpoint, Some(config))
    }

    /// Replaces the endpoints.
    pub fn endpoints(self, endpoints: Vec<ServerEndpoint>) -> (r: Self)
        ensures
            r@ == (BuilderView {
                endpoints: endpoints@.map_values(
                    |endpoint: ServerEndpoint| (endpoint, None::<T>),
                ),
                ..self@
            }),
    {
        let mut out: Vec<(ServerEndpoint, Option<T>)> = Vec::new();
        let mut i: usize = 0;
        while i < endpoints.len()
            invariant
                i <= endpoints.len(),
                out.len() == i,
                forall|k: int| 0 <= k < i ==> #[trigger] out@[k] == (endpoints@[k], None::<T>),
            decreases endpoints.len() - i,
        {
            out.push((endpoints[i].clone(), None));
            i += 1;
        }
        assert(out@ =~= endpoints@.map_values(
            |endpoint: ServerEndpoint| (endpoint, None::<T>),
        ));
        ClientBuilder {
            endpoints: out,
            api_key: self.api_key,
            adapter_instance: self.adapter_instance,
            connection_timeout: self.connection_timeout,
            request_timeout: self.request_timeout,
        }
    }

    pub fn api_key(self, api_key: &str) -> (r: Self)
        ensures
            r@ == (BuilderView { api_key: Some(api_key@), ..self@ }),
    {
        ClientBuilder {
            endpoints: self.endpoints,
            api_key: Some(api_key.to_owned()),
            adapter_instance: self.adapter_instance,
            connection_timeout: self.connection_timeout,
            request_timeout: self.request_timeout,
        }
    }

    pub fn adapter_instance(self, id: Uuid) -> (r: Self)
        ensures
            r@ == (BuilderView { adapter_instance: Some(id), ..self@ }),
    {
        ClientBuilder {
            endpoints: self.endpoints,
            api_key: self.api_key,
            adapter_instance: Some(id),
            connection_timeout: self.connection_timeout,
            request_timeout: self.request_timeout,
        }
    }

    pub fn connection_timeout(self, timeout: Duration) -> (r: Self)
        ensures
            r@ == (BuilderView { connection_timeout: timeout@, ..self@ }),
    {
        ClientBuilder {
            endpoints: self.endpoints,
            api_key: self.api_key,
            adapter_instance: self.adapter_instance,
            connection_timeout: timeout,
            request_timeout: self.request_timeout,
        }
    }

    /// Sets the longest time that a request waits for its answer.
    pub fn request_timeout(self, timeout: Duration) -> (r: Self)
        ensures
            r@ == (BuilderView { request_timeout: timeout@, ..self@ }),
    {
        ClientBuilder {
            endpoints: self.endpoints,
            api_key: self.api_key,
            adapter_instance: self.adapter_instance,
            connection_timeout: self.connection_timeout,
            request_timeout: timeout,
        }
    }

    /// Begins to connect: the endpoints are tried in order until one takes the
    /// key.
    pub fn connect(self) -> (r: Result<Attempts<T>, ClientError>)
        ensures
            match r {
                Ok(attempts) => {
                    &&& self@.endpoints.len() > 0
                    &&& self@.api_key == Some(attempts.api_key@)
                    &&& attempts.left@ == self@.endpoints
                    &&& attempts.adapter_instance == self@.adapter_instance
                    &&& attempts.connection_timeout@ == self@.connection_timeout
                    &&& attempts.request_timeout@ == self@.request_timeout
                },
                Err(error) => if self@.endpoints.len() == 0 {
                    error@ == ClientErrorView::Configuration("at least one endpoint is required"@)
                } else {
                    self@.api_key is None && error@ == ClientErrorView::Configuration(
                        "an API key is required"@,
                    )
                },
            },
    {
        if self.endpoints.len() == 0 {
            return Err(ClientError::Configuration("at least one endpoint is required".to_owned()));
        }
        let api_key = match self.api_key {
            Some(api_key) => api_key,
            None => {
                return Err(ClientError::Configuration("an API key is required".to_owned()));
            },
        };
        let ghost all = self.endpoints@;
        let mut endpoints = self.endpoints;
        let mut left: VecDeque<(ServerEndpoint, Option<T>)> = VecDeque::new();
        assert(all.take(all.len() as int) =~= all);
        assert(all.skip(all.len() as int) =~= Seq::empty());
        while endpoints.len() > 0
            invariant
                endpoints@.len() <= all.len(),
                endpoints@ == all.take(endpoints@.len() as int),
                left@ == all.skip(endpoints@.len() as int),
            decreases endpoints.len(),
        {
            let ghost n = endpoints@.len() as int;
            if let Some(endpoint) = endpoints.pop() {
                left.push_front(endpoint);
                assert(all.take(n).drop_last() =~= all.take(n - 1));
                assert(all.skip(n - 1) =~= seq![all[n - 1]] + all.skip(n));
            }
        }
        assert(all.skip(0) =~= all);
        Ok(
            Attempts {
                left,
                api_key,
                adapter_instance: self.adapter_instance,
                connection_timeout: self.connection_timeout,
                request_timeout: self.request_timeout,
            },
        )
    }
}

impl<T> Default for ClientBuilder<T> {
    fn default() -> (r: Self)
        ensures
            r@ == (BuilderView::<T> {
                endpoints: Seq::empty(),
                api_key: None,
                adapter_instance: None,
                connection_timeout: 10_000_000_000,
                request_timeout: 30_000_000_000,
            }),
    {
        ClientBuilder::new()
    }
}

/// What came back for a request.
#[derive(Debug)]
pub enum Exchange {
    /// A line.
    Line(String),
    /// The connection failed.
    Failed(ClientError),
    /// Nothing, in the time that a request waits.
    TimedOut,
}

/// What an answer means.
pub open spec fn meaning(response: ResponseView) -> Result<ResponseView, ClientErrorView> {
    match response {
        ResponseView::Error { message } => Err(ClientErrorView::Server(message)),
        ResponseView::AuthFailure { message } => Err(ClientErrorView::Authentication(message)),
        response => Ok(response),
    }
}

/// What an answer means.
pub fn interpret(response: Response) -> (r: Result<Response, ClientError>)
    ensures
        client_outcome(r) == meaning(response@),
{
    match response {
        Response::Error { message } => Err(ClientError::Server(message)),
        Response::AuthFailure { message } => Err(ClientError::Authentication(message)),
        response => Ok(response),
    }
}

/// The line of a request on a connection.
pub open spec fn request_line(poisoned: bool, command: CommandView) -> Result<
    Seq<char>,
    ClientErrorView,
> {
    if poisoned {
        Err(ClientErrorView::Closed)
    } else {
        match line_protocol::encoded_command(command) {
            Ok(line) => Ok(line),
            Err(error) => Err(ClientErrorView::Protocol(error.message())),
        }
    }
}

fn encode(poisoned: bool, command: &Command) -> (r: Result<String, ClientError>)
    ensures
        client_outcome(r) == request_line(poisoned, command@),
{
    if poisoned {
        return Err(ClientError::Closed);
    }
    match line_protocol::encode_command(command) {
        Ok(line) => Ok(line),
        Err(error) => Err(ClientError::Protocol(error.message())),
    }
}

/// A request-ordered connection: a request is followed by its answer, and once an
/// answer is missing or not understood, those that follow would be taken for the
/// wrong requests.
#[derive(Debug)]
pub struct Session {
    pub poisoned: bool,
}

/// What a request on a connection comes to, and whether the connection can still
/// be used.
pub open spec fn exchanged(command: CommandView, exchange: Exchange) -> (
    bool,
    Result<ResponseView, ClientErrorView>,
) {
    match exchange {
        Exchange::Failed(error) => (true, Err(error@)),
        Exchange::TimedOut => (true, Err(ClientErrorView::RequestTimeout)),
        Exchange::Line(line) => match line_protocol::decoded_response(command, line@) {
            Err(error) => (true, Err(ClientErrorView::Protocol(error.message()))),
            Ok(response) => (false, meaning(response)),
        },
    }
}

impl Session {
    pub fn new() -> (r: Self)
        ensures
            !r.poisoned,
    {
        Session { poisoned: false }
    }

    /// The line that asks for a command.
    pub fn request(&self, command: &Command) -> (r: Result<String, ClientError>)
        ensures
            client_outcome(r) == request_line(self.poisoned, command@),
    {
        encode(self.poisoned, command)
    }

    /// Ends a request with what came back for it.
    pub fn answer(&mut self, command: &Command, exchange: Exchange) -> (r: Result<
        Response,
        ClientError,
    >)
        ensures
            client_outcome(r) == exchanged(command@, exchange).1,
            final(self).poisoned == (old(self).poisoned || exchanged(command@, exchange).0),
    {
        match exchange {
            Exchange::Failed(error) => {
                self.poisoned = true;
                Err(error)
            },
            Exchange::TimedOut => {
                self.poisoned = true;
                Err(ClientError::RequestTimeout)
            },
            Exchange::Line(line) => match line_protocol::decode_response(command, line.as_str()) {
                Err(error) => {
                    self.poisoned = true;
                    Err(ClientError::Protocol(error.message()))
                },
                Ok(response) => interpret(response),
            },
        }
    }
}

impl Default for Session {
    fn default() -> (r: Self)
        ensures
            !r.poisoned,
    {
        Session::new()
    }
}

/// What a line of a streaming connection is.
#[derive(Debug)]
pub enum Incoming {
    /// A request of the server.
    Callback(ServerCommand),
    /// The answer to the first request that has none.
    Answer(Response),
    /// Nothing that is expected: the connection cannot be used further.
    Unexpected,
}

/// An [`Incoming`] as a mathematical value.
#[verifier::ext_equal]
pub enum IncomingView {
    Callback(ServerCommandView),
    Answer(ResponseView),
    Unexpected,
}

impl View for Incoming {
    type V = IncomingView;

    open spec fn view(&self) -> IncomingView {
        match self {
            Incoming::Callback(command) => IncomingView::Callback(command@),
            Incoming::Answer(response) => IncomingView::Answer(response@),
            Incoming::Unexpected => IncomingView::Unexpected,
        }
    }
}

/// A long-lived connection of an adapter, on which requests of the server come
/// between the answers to its own.
#[derive(Debug)]
pub struct StreamingSession {
    pending: VecDeque<Command>,
    poisoned: bool,
}

/// A [`StreamingSession`] as a mathematical value: the requests that have no
/// answer yet, in order.
#[verifier::ext_equal]
pub struct StreamingView {
    pub pending: Seq<CommandView>,
    pub poisoned: bool,
}

impl View for StreamingSession {
    type V = StreamingView;

    closed spec fn view(&self) -> StreamingView {
        StreamingView {
            pending: crate::error::views(self.pending@),
            poisoned: self.poisoned,
        }
    }
}

impl StreamingView {
    /// What a line is, and the requests that are left without an answer after it.
    pub open spec fn received(self, line: Seq<char>) -> (StreamingView, IncomingView) {
        match line_callback::decoded_server_command(line) {
            Ok(command) => (self, IncomingView::Callback(command)),
            Err(_) => if self.pending.len() == 0 {
                (self, IncomingView::Unexpected)
            } else {
                (
                    StreamingView { pending: self.pending.drop_first(), ..self },
                    match line_protocol::decoded_response(self.pending[0], line) {
                        Ok(response) => IncomingView::Answer(response),
                        Err(_) => IncomingView::Unexpected,
                    },
                )
            },
        }
    }
}

impl StreamingSession {
    pub fn new() -> (r: Self)
        ensures
            r@ == (StreamingView { pending: Seq::empty(), poisoned: false }),
    {
        let r = StreamingSession { pending: VecDeque::new(), poisoned: false };
        assert(r@.pending =~= Seq::<CommandView>::empty());
        r
    }

    /// The line that asks for a command.
    pub fn request(&self, command: &Command) -> (r: Result<String, ClientError>)
        ensures
            client_outcome(r) == request_line(self@.poisoned, command@),
    {
        encode(self.poisoned, command)
    }

    /// Expects an answer to a request that is about to be sent.
    pub fn expect(&mut self, command: Command)
        ensures
            final(self)@ == (StreamingView {
                pending: old(self)@.pending.push(command@),
                ..old(self)@
            }),
    {
        self.pending.push_back(command);
        assert(self@.pending =~= old(self)@.pending.push(command@));
    }

    /// Takes a line of the connection.
    pub fn receive(&mut self, line: &str) -> (r: Incoming)
        ensures
            (final(self)@, r@) == old(self)@.received(line@),
    {
        match line_callback::decode_server_command(line) {
            Ok(command) => Incoming::Callback(command),
            Err(_) => match self.pending.pop_front() {
                None => Incoming::Unexpected,
                Some(command) => {
                    proof {
                        assert(old(self)@.pending[0] == command@);
                        assert(self@.pending =~= old(self)@.pending.drop_first());
                    }
                    match line_protocol::decode_response(&command, line) {
                        Ok(response) => Incoming::Answer(response),
                        Err(_) => Incoming::Unexpected,
                    }
                },
            },
        }
    }

    /// Ends a request whose answer did not come in time, and the connection with
    /// it.
    pub fn time_out(&mut self) -> (r: ClientError)
        ensures
            r@ == ClientErrorView::RequestTimeout,
            final(self)@ == (StreamingView { poisoned: true, ..old(self)@ }),
    {
        self.poisoned = true;
        ClientError::RequestTimeout
    }

    /// Whether the connection can no longer be used.
    pub fn is_poisoned(&self) -> (r: bool)
        ensures
            r == self@.poisoned,
    {
        self.poisoned
    }
}

impl Default for StreamingSession {
    fn default() -> (r: Self)
        ensures
            r@ == (StreamingView { pending: Seq::empty(), poisoned: false }),
    {
        StreamingSession::new()
    }
}

/// The request that registers a provider.
pub fn provide(
    namespace_pattern: NamespacePattern,
    key_pattern: KeyPattern,
    max_rate: Option<u32>,
) -> (r: Command)
    ensures
        r@ == (CommandView::Provide {
            namespace_pattern: namespace_pattern@,
            key_pattern: key_pattern@,
            max_rate,
            timeout: None,
            miss_ttl: None,
        }),
{
    Command::Provide { namespace_pattern, key_pattern, max_rate, timeout: None, miss_ttl: None }
}

/// The request that registers a provider with all its options.
pub fn provide_with_options(
    namespace_pattern: NamespacePattern,
    key_pattern: KeyPattern,
    options: ProvideOptions,
) -> (r: Command)
    ensures
        r@ == (CommandView::Provide {
            namespace_pattern: namespace_pattern@,
            key_pattern: key_pattern@,
            max_rate: options.max_rate,
            timeout: Some(options.timeout_ms),
            miss_ttl: Some(options.miss_ttl_seconds),
        }),
{
    Command::Provide {
        namespace_pattern,
        key_pattern,
        max_rate: options.max_rate,
        timeout: Some(options.timeout_ms),
        miss_ttl: Some(options.miss_ttl_seconds),
    }
}

fn lease_namespace() -> (r: NamespaceContext)
    ensures
        r@ == LEASE_NAMESPACE@,
{
    proof {
        reveal_strlit("/__lease");
    }
    match NamespaceContext::new(LEASE_NAMESPACE) {
        Ok(namespace) => namespace,
        Err(_) => {
            assert(false);
            NamespaceContext::new(LEASE_NAMESPACE).unwrap()
        },
    }
}

fn lease_key(namespace: &NamespaceContext) -> (r: Key)
    ensures
        r@ == namespace@,
{
    match Key::new(namespace.as_str()) {
        Ok(key) => key,
        Err(_) => {
            assert(false);
            Key::new("*").unwrap()
        },
    }
}

/// The request that acquires or renews the lease of a schedule.
pub fn acquire_schedule_lease(namespace: &NamespaceContext) -> (r: Command)
    ensures
        r@ == (CommandView::Get { namespace: LEASE_NAMESPACE@, key: namespace@ }),
{
    Command::Get { namespace: lease_namespace(), key: lease_key(namespace) }
}

/// The request that releases the lease of a schedule.
pub fn release_schedule_lease(namespace: &NamespaceContext) -> (r: Command)
    ensures
        r@ == (CommandView::SetValue {
            namespace: LEASE_NAMESPACE@,
            key: namespace@,
            value: JsonView::Number(seq!['0']),
            ttl_seconds: None,
        }),
{
    let value = Value::from_u64(0);
    proof {
        reveal_with_fuel(text::decimal, 2);
        assert(value@ == JsonView::Number(text::decimal(0)));
        assert(text::decimal(0) =~= seq!['0']);
    }
    Command::SetValue {
        namespace: lease_namespace(),
        key: lease_key(namespace),
        value,
        ttl_seconds: None,
    }
}

/// The request that sets a value; of a time to live its whole seconds count.
pub fn set(namespace: NamespaceContext, key: Key, value: Value, ttl: Option<Duration>) -> (r:
    Command)
    ensures
        r@ == (CommandView::SetValue {
            namespace: namespace@,
            key: key@,
            value: value@,
            ttl_seconds: crate::broker::whole_seconds(crate::error::inner(ttl)),
        }),
{
    Command::SetValue { namespace, key, value, ttl_seconds: whole_seconds(ttl) }
}

fn whole_seconds(ttl: Option<Duration>) -> (r: Option<u64>)
    ensures
        r == crate::broker::whole_seconds(crate::error::inner(ttl)),
{
    match ttl {
        Some(ttl) => Some(ttl.as_secs()),
        None => None,
    }
}

/// The request that sets several values.
pub fn set_batch(namespace: NamespaceContext, entries: Vec<SetEntry>, ttl: Option<Duration>) -> (r:
    Command)
    ensures
        r@ == (CommandView::SetBatch {
            namespace: namespace@,
            entries: crate::error::views(entries@),
            ttl_seconds: crate::broker::whole_seconds(crate::error::inner(ttl)),
        }),
{
    Command::SetBatch { namespace, entries, ttl_seconds: whole_seconds(ttl) }
}

/// Takes an answer that says no more than that the request was carried out.
pub fn expect_ok(response: Response) -> (r: Result<(), ClientError>)
    ensures
        client_outcome(r) == (if response@ is Okay {
            Ok(())
        } else {
            Err(ClientErrorView::UnexpectedResponse("ok"@))
        }),
{
    match response {
        Response::Okay => Ok(()),
        _ => Err(ClientError::UnexpectedResponse("ok")),
    }
}

/// Takes the answer to a ping.
pub fn expect_pong(response: Response) -> (r: Result<(), ClientError>)
    ensures
        client_outcome(r) == (if response@ is Pong {
            Ok(())
        } else {
            Err(ClientErrorView::UnexpectedResponse("pong"@))
        }),
{
    match response {
        Response::Pong => Ok(()),
        _ => Err(ClientError::UnexpectedResponse("pong")),
    }
}

/// The value that an answer gives, or why it gives none.
pub open spec fn value_of(response: ResponseView) -> Result<JsonView, ClientErrorView> {
    match response {
        ResponseView::Value { value, .. } => Ok(value),
        _ => Err(ClientErrorView::UnexpectedResponse("value"@)),
    }
}

/// Takes the answer to a GET request.
pub fn expect_value(response: Response) -> (r: Result<Value, ClientError>)
    ensures
        client_outcome(r) == value_of(response@),
{
    match response {
        Response::Value { value, .. } => Ok(value),
        _ => Err(ClientError::UnexpectedResponse("value")),
    }
}

/// Takes the answer to a request for the counters.
pub fn expect_stats(response: Response) -> (r: Result<Stats, ClientError>)
    ensures
        match (response@, r) {
            (ResponseView::Stats(expected), Ok(stats)) => stats == expected,
            (ResponseView::Stats(_), Err(_)) => false,
            (_, Ok(_)) => false,
            (_, Err(error)) => error@ == ClientErrorView::UnexpectedResponse("stats"@),
        },
{
    match response {
        Response::Stats(stats) => Ok(stats),
        _ => Err(ClientError::UnexpectedResponse("stats")),
    }
}

/// What an answer to an authentication means.
pub open spec fn authentication_of(response: ResponseView) -> Result<(), ClientErrorView> {
    match response {
        ResponseView::AuthSuccess { .. } => Ok(()),
        ResponseView::AuthPending { retry_after_ms } => Err(
            ClientErrorView::AuthenticationPending { retry_after_ms },
        ),
        _ => Err(ClientErrorView::UnexpectedResponse("authentication success"@)),
    }
}

/// Takes the answer to an authentication.
pub fn expect_authentication(response: Response) -> (r: Result<(), ClientError>)
    ensures
        client_outcome(r) == authentication_of(response@),
{
    match response {
        Response::AuthSuccess { .. } => Ok(()),
        Response::AuthPending { retry_after_ms } => Err(
            ClientError::AuthenticationPending { retry_after_ms },
        ),
        _ => Err(ClientError::UnexpectedResponse("authentication success")),
    }
}

/// What an answer to a request for the lease of a schedule means.
pub open spec fn lease_of(response: ResponseView) -> Result<ScheduleLease, ClientErrorView> {
    match response {
        ResponseView::Value { value: JsonView::Bool(true), ttl_seconds: Some(n) } => if n > 0 {
            Ok(ScheduleLease::Acquired { ttl_seconds: n })
        } else {
            Err(ClientErrorView::UnexpectedResponse("schedule lease response"@))
        },
        ResponseView::Value { value: JsonView::Bool(false), .. } => Ok(ScheduleLease::Unavailable),
        _ => Err(ClientErrorView::UnexpectedResponse("schedule lease response"@)),
    }
}

/// Takes the answer to a request for the lease of a schedule.
pub fn expect_lease(response: Response) -> (r: Result<ScheduleLease, ClientError>)
    ensures
        match (r, lease_of(response@)) {
            (Ok(lease), Ok(expected)) => lease == expected,
            (Err(error), Err(expected)) => error@ == expected,
            _ => false,
        },
{
    match response {
        Response::Value { value: Value::Bool(true), ttl_seconds: Some(ttl_seconds) } => {
            if ttl_seconds > 0 {
                Ok(ScheduleLease::Acquired { ttl_seconds })
            } else {
                Err(ClientError::UnexpectedResponse("schedule lease response"))
            }
        },
        Response::Value { value: Value::Bool(false), .. } => Ok(ScheduleLease::Unavailable),
        _ => Err(ClientError::UnexpectedResponse("schedule lease response")),
    }
}

/// A connection that cannot be used refuses every request, whatever it asks for.
pub proof fn poisoned_connections_refuse(command: CommandView)
    ensures
        request_line(true, command) == Err::<Seq<char>, ClientErrorView>(ClientErrorView::Closed),
{
}

/// A request that the broker refuses leaves the connection usable: only a missing
/// answer, or one that is not understood, ends it.
pub proof fn refusals_keep_the_connection(command: CommandView, exchange: Exchange)
    ensures
        exchanged(command, exchange).1 matches Err(error) && (error is Server
            || error is Authentication) && exchange is Line ==> !exchanged(command, exchange).0,
        exchanged(command, exchange).1 is Ok ==> !exchanged(command, exchange).0,
        exchange is TimedOut || exchange is Failed ==> exchanged(command, exchange).0,
{
}

/// Requests of the server do not use up the answers that requests of the client
/// wait for.
pub proof fn callbacks_keep_the_order(session: StreamingView, line: Seq<char>)
    ensures
        line_callback::decoded_server_command(line) is Ok ==> session.received(line).0 == session,
        session.received(line).1 is Answer ==> session.pending == seq![session.pending[0]]
            + session.received(line).0.pending,
{
    if session.received(line).1 is Answer {
        assert(session.pending =~= seq![session.pending[0]] + session.pending.drop_first());
    }
}

} // verus!
