//! The configuration of the database adapter.

use crate::broker::ProvideOptions;
use crate::checks;
use crate::client::ClientBuilder;
use crate::db::error::{configuration, AdapterError, AdapterErrorView};
use crate::duration::{self, Duration};
use crate::pattern::{self, Pattern};
use crate::protocol::Uuid;
use crate::text;
use vstd::prelude::*;

verus! {

/// The configuration of the adapter. Named parts are in the order of their names.
#[derive(Debug)]
pub struct AdapterConfig {
    pub database: DatabaseConfig,
    pub valkyr: ValkyrConfig,
    pub logging: LoggingConfig,
    pub providers: Vec<(String, ProviderConfig)>,
    pub queries: Vec<(String, QueryConfig)>,
    pub stores: Vec<(String, StoreConfig)>,
    pub init: Vec<InitConfig>,
}

/// Structured log output of the adapter.
#[derive(Debug)]
pub struct LoggingConfig {
    /// Which records are written.
    pub level: String,
    /// Human-readable terminal logs or newline-delimited JSON records.
    pub format: LogFormat,
    /// Include module targets in text output.
    pub target: bool,
    /// Include thread names in output.
    pub thread_names: bool,
    /// Enable colours for text output.
    pub ansi: bool,
}

impl Default for LoggingConfig {
    fn default() -> (r: Self)
        ensures
            r.level@ == "info"@,
            r.format == LogFormat::Pretty,
            !r.target,
            !r.thread_names,
            r.ansi,
    {
        LoggingConfig {
            level: "info".to_owned(),
            format: LogFormat::Pretty,
            target: false,
            thread_names: false,
            ansi: true,
        }
    }
}

/// How log records are written.
#[derive(Clone, Copy, Debug, PartialEq, Eq, Structural)]
pub enum LogFormat {
    Pretty,
    Json,
}

/// How the database is reached.
#[derive(Debug)]
pub struct DatabaseConfig {
    /// A SQLite, MySQL, or PostgreSQL connection URL.
    pub url: String,
    pub max_connections: u32,
    pub connection_timeout_seconds: u64,
    /// Bound of database reads and writes.
    pub query_timeout_seconds: u64,
}

/// How the servers are reached, and what is asked of them.
#[derive(Debug)]
pub struct ValkyrConfig {
    pub endpoints: Vec<ValkyrEndpoint>,
    pub provider_wait_timeout: Option<Duration>,
    pub miss_cache_ttl: Option<Duration>,
    pub request_timeout: Duration,
    pub max_retries: u32,
}

/// A server, with what was found of its files.
#[derive(Debug)]
pub struct ValkyrEndpoint {
    pub url: String,
    pub api_key_file: String,
    pub api_key_file_exists: bool,
    pub ca_certificate_file: Option<String>,
    pub ca_certificate_exists: bool,
    pub api_key: String,
}

/// A query that is run on a schedule.
#[derive(Debug)]
pub struct ProviderConfig {
    /// Base namespace when rows do not return a `namespace` or `ns` column. A row
    /// `context` column is appended as `::context`.
    pub namespace_pattern: Option<String>,
    /// Documents the keys that the query returns.
    pub key_pattern: Option<String>,
    pub query: String,
    /// Six-field cron schedule.
    pub frequency: String,
    pub run_on_startup: bool,
    pub ttl_seconds: Option<u64>,
    pub description: Option<String>,
}

/// A query that is run on demand.
#[derive(Debug)]
pub struct QueryConfig {
    pub namespace_pattern: String,
    pub key_pattern: String,
    pub query: String,
    pub parameters: Vec<String>,
    pub description: Option<String>,
    pub timeout_seconds: Option<u64>,
    pub ttl_seconds: Option<u64>,
    pub provider_wait_timeout: Option<Duration>,
    pub miss_cache_ttl: Option<Duration>,
}

/// Statements that persist values.
#[derive(Debug)]
pub struct StoreConfig {
    pub namespace_pattern: String,
    pub key_pattern: String,
    pub set_query: String,
    pub set_parameters: Vec<String>,
    pub delete_query: String,
    pub delete_parameters: Vec<String>,
    pub move_ns_query: Option<String>,
    pub move_ns_pattern: Option<String>,
    pub move_ns_parameters: Vec<String>,
    pub delete_ns_query: Option<String>,
    pub delete_ns_parameters: Vec<String>,
    pub timeout_seconds: u64,
}

/// A statement that is run at startup.
#[derive(Debug)]
pub struct InitConfig {
    pub name: String,
    pub sql: String,
    pub timeout_seconds: u64,
}

/// The connections that a pool holds if nothing else is configured.
pub const DEFAULT_MAX_CONNECTIONS: u32 = 5;

/// The times that apply if nothing else is configured, in seconds.
pub const DEFAULT_TIMEOUT_SECONDS: u64 = 30;

/// The time that a request waits if nothing else is configured, in seconds.
pub const DEFAULT_ADAPTER_REQUEST_SECONDS: u64 = 5;

/// The attempts at a connection if nothing else is configured.
pub const DEFAULT_MAX_RETRIES: u32 = 9;

/// The address of a URL.
pub open spec fn address_of(url: Seq<char>) -> Seq<char> {
    match text::without_prefix(url, "tcp://"@) {
        Some(rest) => rest,
        None => match text::without_prefix(url, "tls://"@) {
            Some(rest) => rest,
            None => url,
        },
    }
}

/// A URL asks for TLS.
pub open spec fn is_tls(url: Seq<char>) -> bool {
    "tls://"@.is_prefix_of(url)
}

/// The address of a URL.
pub fn address(url: &str) -> (r: String)
    ensures
        r@ == address_of(url@),
{
    match text::strip_prefix(url, "tcp://") {
        Some(rest) => rest,
        None => match text::strip_prefix(url, "tls://") {
            Some(rest) => rest,
            None => url.to_owned(),
        },
    }
}

/// What connects to a URL.
pub fn endpoint_builder<T>(
    url: &str,
    api_key: &str,
    tls_config: Option<T>,
    adapter_instance: Uuid,
    timeout: Duration,
) -> (r: ClientBuilder<T>)
    ensures
        r@.endpoints.len() == 1,
        r@.endpoints[0].0.address@ == address_of(url@),
        r@.endpoints[0].0.use_tls == is_tls(url@),
        r@.endpoints[0].1 == (if is_tls(url@) {
            tls_config
        } else {
            None
        }),
        r@.api_key == Some(api_key@),
        r@.adapter_instance == Some(adapter_instance),
        r@.connection_timeout == timeout@,
        r@.request_timeout == timeout@,
{
    let builder = ClientBuilder::new().api_key(api_key).adapter_instance(
        adapter_instance,
    ).connection_timeout(timeout).request_timeout(timeout);
    let address = address(url);
    if text::starts_with(url, "tls://") {
        match tls_config {
            Some(config) => builder.tls_server_with_config(address.as_str(), config),
            None => builder.tls_server(address.as_str()),
        }
    } else {
        builder.server(address.as_str())
    }
}

impl ValkyrEndpoint {
    pub fn address(&self) -> (r: String)
        ensures
            r@ == address_of(self.url@),
    {
        address(self.url.as_str())
    }

    pub fn uses_tls(&self) -> (r: bool)
        ensures
            r == is_tls(self.url@),
    {
        text::starts_with(self.url.as_str(), "tls://")
    }

    /// What connects to the server. `tls_config` is the configuration of TLS that
    /// its certificate file gives, if it has one.
    pub fn client_builder<T>(
        &self,
        tls_config: Option<T>,
        adapter_instance: Uuid,
        timeout: Duration,
    ) -> (r: ClientBuilder<T>)
        ensures
            r@.endpoints.len() == 1,
            r@.endpoints[0].0.address@ == address_of(self.url@),
            r@.endpoints[0].0.use_tls == is_tls(self.url@),
            r@.endpoints[0].1 == (if is_tls(self.url@) {
                tls_config
            } else {
                None
            }),
            r@.api_key == Some(self.api_key@),
            r@.adapter_instance == Some(adapter_instance),
            r@.connection_timeout == timeout@,
            r@.request_timeout == timeout@,
    {
        endpoint_builder(
            self.url.as_str(),
            self.api_key.as_str(),
            tls_config,
            adapter_instance,
            timeout,
        )
    }
}

/// The key that a file holds.
pub open spec fn key_in_file(contents: Seq<char>, file: Seq<char>) -> Result<
    Seq<char>,
    AdapterErrorView,
> {
    if text::trim(contents).len() == 0 {
        Err(AdapterErrorView::Configuration("Valkyr API key file must not be empty: "@ + file))
    } else {
        Ok(text::trim(contents))
    }
}

/// The key that a file holds: its text without white space around it.
pub fn loaded_api_key(contents: &str, file: &str) -> (r: Result<String, AdapterError>)
    ensures
        crate::db::error::adapter_outcome(r) == key_in_file(contents@, file@),
{
    if text::is_blank(contents) {
        Err(
            AdapterError::Configuration(
                text::joined("Valkyr API key file must not be empty: ", file),
            ),
        )
    } else {
        Ok(text::trimmed(contents))
    }
}

/// Why a schedule cannot be read, as `cron::Schedule::from_str` finds it.
pub uninterp spec fn cron_failure(expression: Seq<char>) -> Option<Seq<char>>;

/// Calls `cron::Schedule::from_str`: the result is the message of its error, or
/// nothing where the expression is a schedule. The contract claims that it depends
/// on the expression alone.
#[verifier::external_body]
pub(crate) fn check_schedule(expression: &str) -> (r: Option<String>)
    ensures
        match r {
            Some(message) => cron_failure(expression@) == Some(message@),
            None => cron_failure(expression@) is None,
        },
{
    <cron::Schedule as std::str::FromStr>::from_str(expression)
        .err()
        .map(|error| error.to_string())
}

/// What is wrong with a schedule, where `failure` says why it cannot be read.
pub open spec fn schedule_complaint(frequency: Seq<char>, failure: Option<Seq<char>>) -> Option<
    Seq<char>,
> {
    match failure {
        Some(message) => Some("invalid provider cron '"@ + frequency + "': "@ + message),
        None => None,
    }
}

pub(crate) fn complain_schedule(frequency: &str, failure: &Option<String>) -> (r: Option<String>)
    ensures
        crate::error::inner(r) == schedule_complaint(frequency@, crate::error::inner(*failure)),
{
    match failure {
        Some(message) => {
            let start = text::joined3("invalid provider cron '", frequency, "': ");
            Some(text::joined(start.as_str(), message.as_str()))
        },
        None => None,
    }
}

fn reject(complaint: Option<String>) -> (r: Result<(), AdapterError>)
    ensures
        crate::db::error::adapter_outcome(r) == crate::db::error::checked(
            crate::error::inner(complaint),
        ),
{
    match complaint {
        Some(message) => Err(AdapterError::Configuration(message)),
        None => Ok(()),
    }
}

/// Accepts a schedule, unless it cannot be read.
pub fn accept_schedule(frequency: &str, failure: Option<String>) -> (r: Result<(), AdapterError>)
    ensures
        crate::db::error::adapter_outcome(r) == crate::db::error::checked(
            schedule_complaint(frequency@, crate::error::inner(failure)),
        ),
{
    reject(complain_schedule(frequency, &failure))
}

impl ProviderConfig {
    /// Whether the schedule of the provider can be read.
    pub fn schedule(&self) -> (r: Result<(), AdapterError>)
        ensures
            crate::db::error::adapter_outcome(r) == crate::db::error::checked(
                schedule_complaint(self.frequency@, cron_failure(self.frequency@)),
            ),
    {
        let failure = check_schedule(self.frequency.as_str());
        accept_schedule(self.frequency.as_str(), failure)
    }
}

/// What is wrong with a time that has to be a whole number of units.
pub open spec fn wire_complaint(
    name: Seq<char>,
    value: Option<nat>,
    nanos_per_unit: nat,
    unit: Seq<char>,
) -> Option<Seq<char>> {
    match value {
        Some(nanos) => match duration::wire_units(nanos, nanos_per_unit, unit) {
            Err(message) => Some(name + ": "@ + message),
            Ok(_) => None,
        },
        None => None,
    }
}

pub(crate) fn complain_millis(name: &str, value: Option<Duration>) -> (r: Option<String>)
    ensures
        crate::error::inner(r) == wire_complaint(
            name@,
            crate::error::inner(value),
            1_000_000,
            "milliseconds"@,
        ),
{
    match value {
        Some(value) => match duration::to_millis(value) {
            Err(message) => Some(text::joined3(name, ": ", message.as_str())),
            Ok(_) => None,
        },
        None => None,
    }
}

pub(crate) fn complain_seconds(name: &str, value: Option<Duration>) -> (r: Option<String>)
    ensures
        crate::error::inner(r) == wire_complaint(
            name@,
            crate::error::inner(value),
            1_000_000_000,
            "seconds"@,
        ),
{
    match value {
        Some(value) => match duration::to_seconds(value) {
            Err(message) => Some(text::joined3(name, ": ", message.as_str())),
            Ok(_) => None,
        },
        None => None,
    }
}

/// A time that a query has, or inherits.
pub open spec fn inherited(own: Option<nat>, common: Option<nat>) -> nat {
    match own {
        Some(nanos) => nanos,
        None => match common {
            Some(nanos) => nanos,
            None => 0,
        },
    }
}

/// How a query wants to be asked.
pub open spec fn query_options(wait: nat, miss_ttl: nat) -> Result<
    ProvideOptions,
    AdapterErrorView,
> {
    match duration::wire_units(wait, 1_000_000, "milliseconds"@) {
        Err(message) => Err(
            AdapterErrorView::Configuration("provider_wait_timeout: "@ + message),
        ),
        Ok(timeout_ms) => match duration::wire_units(miss_ttl, 1_000_000_000, "seconds"@) {
            Err(message) => Err(AdapterErrorView::Configuration("miss_cache_ttl: "@ + message)),
            Ok(miss_ttl_seconds) => Ok(
                ProvideOptions {
                    max_rate: None,
                    timeout_ms: timeout_ms as u64,
                    miss_ttl_seconds: miss_ttl_seconds as u64,
                },
            ),
        },
    }
}

pub(crate) fn inherit(own: Option<Duration>, common: Option<Duration>) -> (r: Duration)
    ensures
        r@ == inherited(crate::error::inner(own), crate::error::inner(common)),
{
    match own {
        Some(value) => value,
        None => match common {
            Some(value) => value,
            None => Duration::from_secs(0),
        },
    }
}

/// How something wants to be asked that waits and is marked as a miss for the given
/// times.
pub fn options_of(wait: Duration, miss_ttl: Duration) -> (r: Result<ProvideOptions, AdapterError>)
    ensures
        match r {
            Ok(options) => query_options(wait@, miss_ttl@) == Ok::<
                ProvideOptions,
                AdapterErrorView,
            >(options),
            Err(error) => query_options(wait@, miss_ttl@) == Err::<
                ProvideOptions,
                AdapterErrorView,
            >(error@),
        },
{
    let timeout_ms = match duration::to_millis(wait) {
        Ok(n) => n,
        Err(message) => {
            return Err(
                AdapterError::Configuration(
                    text::joined("provider_wait_timeout: ", message.as_str()),
                ),
            );
        },
    };
    let miss_ttl_seconds = match duration::to_seconds(miss_ttl) {
        Ok(n) => n,
        Err(message) => {
            return Err(
                AdapterError::Configuration(text::joined("miss_cache_ttl: ", message.as_str())),
            );
        },
    };
    Ok(ProvideOptions { max_rate: None, timeout_ms, miss_ttl_seconds })
}

impl ValkyrConfig {
    /// How a query wants to be asked: what it does not say itself it inherits, each
    /// time for itself.
    pub fn provider_options(&self, query: &QueryConfig) -> (r: Result<ProvideOptions, AdapterError>)
        ensures
            ({
                let expected = query_options(
                    inherited(
                        crate::error::inner(query.provider_wait_timeout),
                        crate::error::inner(self.provider_wait_timeout),
                    ),
                    inherited(
                        crate::error::inner(query.miss_cache_ttl),
                        crate::error::inner(self.miss_cache_ttl),
                    ),
                );
                match r {
                    Ok(options) => expected == Ok::<ProvideOptions, AdapterErrorView>(options),
                    Err(error) => expected == Err::<ProvideOptions, AdapterErrorView>(error@),
                }
            }),
    {
        options_of(
            inherit(query.provider_wait_timeout, self.provider_wait_timeout),
            inherit(query.miss_cache_ttl, self.miss_cache_ttl),
        )
    }
}

/// A text without anything but white space.
pub open spec fn blank(s: Seq<char>) -> bool {
    text::trim(s).len() == 0
}

/// What is wrong with the database.
pub open spec fn database_complaint(config: DatabaseConfig) -> Option<Seq<char>> {
    if blank(config.url@) {
        Some("database.url is required"@)
    } else if config.max_connections == 0 || config.connection_timeout_seconds == 0
        || config.query_timeout_seconds == 0 {
        Some("database connection limits must be greater than zero"@)
    } else {
        None
    }
}

fn complain_database(config: &DatabaseConfig) -> (r: Option<String>)
    ensures
        crate::error::inner(r) == database_complaint(*config),
{
    if text::is_blank(config.url.as_str()) {
        Some("database.url is required".to_owned())
    } else if config.max_connections == 0 || config.connection_timeout_seconds == 0
        || config.query_timeout_seconds == 0 {
        Some("database connection limits must be greater than zero".to_owned())
    } else {
        None
    }
}

/// The scheme and the address of a URL; one without a scheme is all address.
pub open spec fn scheme_and_address(url: Seq<char>) -> (Seq<char>, Seq<char>) {
    match text::split(url, "://"@) {
        Some(parts) => parts,
        None => (Seq::empty(), url),
    }
}

/// What is wrong with the URL of the endpoint at a position.
pub open spec fn url_complaint(position: nat, url: Seq<char>) -> Option<Seq<char>> {
    let (scheme, address) = scheme_and_address(url);
    if scheme.len() > 0 && scheme != "tcp"@ && scheme != "tls"@ {
        Some(
            "Valkyr endpoint "@ + text::decimal(position) + " uses unsupported URL scheme '"@
                + scheme + "'"@,
        )
    } else if blank(address) {
        Some("Valkyr endpoint "@ + text::decimal(position) + " URL must not be empty"@)
    } else {
        None
    }
}

/// What is wrong with the endpoint at a position.
pub fn complain_url(position: usize, url: &str) -> (r: Option<String>)
    ensures
        crate::error::inner(r) == url_complaint(position as nat, url@),
{
    let (scheme, address) = match text::split_once(url, "://") {
        Some(parts) => parts,
        None => {
            let none = String::new();
            assert(none@ =~= Seq::<char>::empty());
            (none, url.to_owned())
        },
    };
    let number = text::number(position as u128);
    let start = text::joined("Valkyr endpoint ", number.as_str());
    if text::chars_of(scheme.as_str()).len() > 0 && !text::same(scheme.as_str(), "tcp")
        && !text::same(scheme.as_str(), "tls") {
        let rest = text::joined3(
            " uses unsupported URL scheme '",
            scheme.as_str(),
            "'",
        );
        let message = text::joined(start.as_str(), rest.as_str());
        assert(message@ =~= url_complaint(position as nat, url@)->0);
        Some(message)
    } else if text::is_blank(address.as_str()) {
        Some(text::joined(start.as_str(), " URL must not be empty"))
    } else {
        None
    }
}

/// What is wrong with the endpoint at a position.
pub open spec fn endpoint_complaint(position: nat, endpoint: ValkyrEndpoint) -> Option<Seq<char>> {
    if url_complaint(position, endpoint.url@) is Some {
        url_complaint(position, endpoint.url@)
    } else if !endpoint.api_key_file_exists {
        Some("Valkyr API key file does not exist: "@ + endpoint.api_key_file@)
    } else if endpoint.api_key@.len() > 0 && blank(endpoint.api_key@) {
        Some("Valkyr API key file must not be empty: "@ + endpoint.api_key_file@)
    } else if endpoint.ca_certificate_file is Some && !is_tls(endpoint.url@) {
        Some(
            "Valkyr endpoint "@ + text::decimal(position)
                + " has a CA certificate but is not TLS"@,
        )
    } else if endpoint.ca_certificate_file is Some && !endpoint.ca_certificate_exists {
        Some("Valkyr CA certificate file does not exist: "@ + endpoint.ca_certificate_file->0@)
    } else {
        None
    }
}

fn complain_endpoint(position: usize, endpoint: &ValkyrEndpoint) -> (r: Option<String>)
    ensures
        crate::error::inner(r) == endpoint_complaint(position as nat, *endpoint),
{
    let url = complain_url(position, endpoint.url.as_str());
    if url.is_some() {
        return url;
    }
    let file = endpoint.api_key_file.as_str();
    if !endpoint.api_key_file_exists {
        return Some(text::joined("Valkyr API key file does not exist: ", file));
    }
    if text::chars_of(endpoint.api_key.as_str()).len() > 0 && text::is_blank(
        endpoint.api_key.as_str(),
    ) {
        return Some(text::joined("Valkyr API key file must not be empty: ", file));
    }
    match &endpoint.ca_certificate_file {
        Some(certificate) => {
            if !endpoint.uses_tls() {
                let number = text::number(position as u128);
                Some(
                    text::joined3(
                        "Valkyr endpoint ",
                        number.as_str(),
                        " has a CA certificate but is not TLS",
                    ),
                )
            } else if !endpoint.ca_certificate_exists {
                Some(
                    text::joined("Valkyr CA certificate file does not exist: ", certificate.as_str()),
                )
            } else {
                None
            }
        },
        None => None,
    }
}

/// What is wrong with each endpoint.
pub open spec fn endpoint_complaints(endpoints: Seq<ValkyrEndpoint>) -> Seq<Option<Seq<char>>> {
    Seq::new(endpoints.len(), |i: int| endpoint_complaint(i as nat, endpoints[i]))
}

fn complain_endpoints(endpoints: &Vec<ValkyrEndpoint>) -> (r: Option<String>)
    ensures
        crate::error::inner(r) == checks::first_of(endpoint_complaints(endpoints@)),
{
    let mut out: Vec<Option<String>> = Vec::new();
    let mut i: usize = 0;
    while i < endpoints.len()
        invariant
            i <= endpoints.len(),
            out.len() == i,
            forall|k: int|
                0 <= k < i ==> crate::error::inner(#[trigger] out@[k]) == endpoint_complaint(
                    k as nat,
                    endpoints@[k],
                ),
        decreases endpoints.len() - i,
    {
        let complaint = complain_endpoint(i, &endpoints[i]);
        out.push(complaint);
        i += 1;
    }
    assert(checks::texts(out@) =~= endpoint_complaints(endpoints@));
    checks::first_complaint(out)
}

/// What is wrong with the servers.
pub open spec fn valkyr_complaint(config: ValkyrConfig) -> Option<Seq<char>> {
    if config.endpoints@.len() == 0 {
        Some("at least one Valkyr endpoint is required"@)
    } else if checks::first_of(endpoint_complaints(config.endpoints@)) is Some {
        checks::first_of(endpoint_complaints(config.endpoints@))
    } else if config.request_timeout@ == 0 {
        Some("request_timeout must be greater than zero"@)
    } else {
        checks::either(
            wire_complaint(
                "provider_wait_timeout"@,
                crate::error::inner(config.provider_wait_timeout),
                1_000_000,
                "milliseconds"@,
            ),
            checks::either(
                wire_complaint(
                    "miss_cache_ttl"@,
                    crate::error::inner(config.miss_cache_ttl),
                    1_000_000_000,
                    "seconds"@,
                ),
                if config.max_retries == 0 {
                    Some("max_retries must be greater than zero"@)
                } else {
                    None
                },
            ),
        )
    }
}

fn complain_valkyr(config: &ValkyrConfig) -> (r: Option<String>)
    ensures
        crate::error::inner(r) == valkyr_complaint(*config),
{
    if config.endpoints.len() == 0 {
        return Some("at least one Valkyr endpoint is required".to_owned());
    }
    let complaint = complain_endpoints(&config.endpoints);
    if complaint.is_some() {
        return complaint;
    }
    if config.request_timeout.is_zero() {
        return Some("request_timeout must be greater than zero".to_owned());
    }
    let complaint = complain_millis("provider_wait_timeout", config.provider_wait_timeout);
    if complaint.is_some() {
        return complaint;
    }
    let complaint = complain_seconds("miss_cache_ttl", config.miss_cache_ttl);
    if complaint.is_some() {
        return complaint;
    }
    if config.max_retries == 0 {
        Some("max_retries must be greater than zero".to_owned())
    } else {
        None
    }
}

/// What is wrong with a provider, where `failure` says why its schedule cannot be
/// read.
pub open spec fn provider_complaint(
    name: Seq<char>,
    provider: ProviderConfig,
    failure: Option<Seq<char>>,
) -> Option<Seq<char>> {
    if blank(provider.query@) {
        Some("provider '"@ + name + "' has no query"@)
    } else {
        schedule_complaint(provider.frequency@, failure)
    }
}

/// The failure at a position of a list.
pub open spec fn failure_at(failures: Seq<Option<Seq<char>>>, i: int) -> Option<Seq<char>> {
    if 0 <= i < failures.len() {
        failures[i]
    } else {
        None
    }
}

/// What is wrong with each provider.
pub open spec fn provider_complaints(
    providers: Seq<(String, ProviderConfig)>,
    failures: Seq<Option<Seq<char>>>,
) -> Seq<Option<Seq<char>>> {
    Seq::new(
        providers.len(),
        |i: int| provider_complaint(providers[i].0@, providers[i].1, failure_at(failures, i)),
    )
}

fn complain_providers(
    providers: &Vec<(String, ProviderConfig)>,
    failures: &Vec<Option<String>>,
) -> (r: Option<String>)
    ensures
        crate::error::inner(r) == checks::first_of(
            provider_complaints(providers@, checks::texts(failures@)),
        ),
{
    let mut out: Vec<Option<String>> = Vec::new();
    let mut i: usize = 0;
    while i < providers.len()
        invariant
            i <= providers.len(),
            out.len() == i,
            forall|k: int|
                0 <= k < i ==> crate::error::inner(#[trigger] out@[k]) == provider_complaint(
                    providers@[k].0@,
                    providers@[k].1,
                    failure_at(checks::texts(failures@), k),
                ),
        decreases providers.len() - i,
    {
        let name = providers[i].0.as_str();
        let provider = &providers[i].1;
        let complaint = if text::is_blank(provider.query.as_str()) {
            Some(text::joined3("provider '", name, "' has no query"))
        } else if i < failures.len() {
            complain_schedule(provider.frequency.as_str(), &failures[i])
        } else {
            None
        };
        out.push(complaint);
        i += 1;
    }
    assert(checks::texts(out@) =~= provider_complaints(providers@, checks::texts(failures@)));
    checks::first_complaint(out)
}

/// What is wrong with the route and the statement of a callback.
pub open spec fn callback_complaint(
    name: Seq<char>,
    namespace: Seq<char>,
    key: Seq<char>,
    query: Seq<char>,
) -> Option<Seq<char>> {
    if blank(namespace) || blank(key) || blank(query) {
        Some("callback '"@ + name + "' needs namespace_pattern, key_pattern, and query"@)
    } else {
        None
    }
}

fn complain_callback(name: &str, namespace: &str, key: &str, query: &str) -> (r: Option<String>)
    ensures
        crate::error::inner(r) == callback_complaint(name@, namespace@, key@, query@),
{
    if text::is_blank(namespace) || text::is_blank(key) || text::is_blank(query) {
        Some(
            text::joined3(
                "callback '",
                name,
                "' needs namespace_pattern, key_pattern, and query",
            ),
        )
    } else {
        None
    }
}

/// Refuses a callback whose route or statement is missing.
pub fn validate_callback_config(name: &str, namespace: &str, key: &str, query: &str) -> (r: Result<
    (),
    AdapterError,
>)
    ensures
        crate::db::error::adapter_outcome(r) == crate::db::error::checked(
            callback_complaint(name@, namespace@, key@, query@),
        ),
{
    reject(complain_callback(name, namespace, key, query))
}

/// What a statement with parameters is for.
#[derive(Clone, Copy, Debug, PartialEq, Eq, Structural)]
pub enum Statement {
    Query,
    Write,
    Delete,
    Move,
    DeleteNamespace,
}

/// How a statement is called in messages.
pub open spec fn label(statement: Statement) -> Seq<char> {
    match statement {
        Statement::Query => "query"@,
        Statement::Write => "set"@,
        Statement::Delete => "delete"@,
        Statement::Move => "move"@,
        Statement::DeleteNamespace => "namespace delete"@,
    }
}

fn label_of(statement: Statement) -> (r: &'static str)
    ensures
        r@ == label(statement),
{
    match statement {
        Statement::Query => "query",
        Statement::Write => "set",
        Statement::Delete => "delete",
        Statement::Move => "move",
        Statement::DeleteNamespace => "namespace delete",
    }
}

/// A parameter that a statement has whatever its route captures.
pub open spec fn is_built_in(statement: Statement, name: Seq<char>) -> bool {
    ||| name == "context"@
    ||| name == "namespace"@
    ||| statement == Statement::Query && name == "key"@
    ||| statement == Statement::Write && (name == "key"@ || name == "value"@ || name
        == "ttl_seconds"@)
    ||| statement == Statement::Delete && name == "key_pattern"@
    ||| statement == Statement::Move && (name == "source_namespace"@ || name
        == "destination_namespace"@ || name == "source_context"@ || name
        == "destination_context"@)
}

fn built_in(statement: Statement, name: &str) -> (r: bool)
    ensures
        r == is_built_in(statement, name@),
{
    text::same(name, "context") || text::same(name, "namespace") || match statement {
        Statement::Query => text::same(name, "key"),
        Statement::Write => text::same(name, "key") || text::same(name, "value") || text::same(
            name,
            "ttl_seconds",
        ),
        Statement::Delete => text::same(name, "key_pattern"),
        Statement::Move => text::same(name, "source_namespace") || text::same(
            name,
            "destination_namespace",
        ) || text::same(name, "source_context") || text::same(name, "destination_context"),
        Statement::DeleteNamespace => false,
    }
}

/// A pattern captures a name.
pub open spec fn is_captured(pattern: Seq<char>, name: Seq<char>) -> bool {
    pattern::names_of(pattern::parts(pattern)).contains(name)
}

fn captures(pattern: &str, name: &str) -> (r: bool)
    ensures
        r == is_captured(pattern@, name@),
{
    let names = Pattern::new(pattern).capture_names();
    let ghost all = names@.map_values(|name: String| name@);
    let mut i: usize = 0;
    while i < names.len()
        invariant
            i <= names.len(),
            all == names@.map_values(|name: String| name@),
            all.to_set() == pattern::names_of(pattern::parts(pattern@)),
            forall|k: int| 0 <= k < i ==> #[trigger] all[k] != name@,
        decreases names.len() - i,
    {
        assert(all[i as int] == names@[i as int]@);
        if text::same(names[i].as_str(), name) {
            assert(all.contains(name@));
            assert(all.to_set().contains(name@));
            return true;
        }
        i += 1;
    }
    assert(!all.contains(name@));
    assert(!all.to_set().contains(name@));
    false
}

/// A statement may use a parameter: its route captures it, or it has it anyway.
/// `target` is the pattern of the namespaces that a move leads to.
pub open spec fn is_allowed(
    statement: Statement,
    namespace_pattern: Seq<char>,
    key_pattern: Seq<char>,
    target: Option<Seq<char>>,
    name: Seq<char>,
) -> bool {
    ||| is_built_in(statement, name)
    ||| is_captured(namespace_pattern, name)
    ||| is_captured(key_pattern, name)
    ||| statement == Statement::Move && target is Some && is_captured(target->0, name)
}

/// What is wrong with each parameter of a statement.
pub open spec fn parameter_complaints(
    callback: Seq<char>,
    statement: Statement,
    names: Seq<String>,
    namespace_pattern: Seq<char>,
    key_pattern: Seq<char>,
    target: Option<Seq<char>>,
) -> Seq<Option<Seq<char>>> {
    Seq::new(
        names.len(),
        |i: int|
            if is_allowed(statement, namespace_pattern, key_pattern, target, names[i]@) {
                None
            } else {
                Some(
                    callback + " "@ + label(statement) + " parameter '"@ + names[i]@
                        + "' is not declared by its route"@,
                )
            },
    )
}

fn complain_parameters(
    callback: &str,
    statement: Statement,
    names: &Vec<String>,
    namespace_pattern: &str,
    key_pattern: &str,
    target: &Option<String>,
) -> (r: Option<String>)
    ensures
        crate::error::inner(r) == checks::first_of(
            parameter_complaints(
                callback@,
                statement,
                names@,
                namespace_pattern@,
                key_pattern@,
                crate::error::inner(*target),
            ),
        ),
{
    let ghost all = parameter_complaints(
        callback@,
        statement,
        names@,
        namespace_pattern@,
        key_pattern@,
        crate::error::inner(*target),
    );
    let mut out: Vec<Option<String>> = Vec::new();
    let mut i: usize = 0;
    while i < names.len()
        invariant
            i <= names.len(),
            out.len() == i,
            all == parameter_complaints(
                callback@,
                statement,
                names@,
                namespace_pattern@,
                key_pattern@,
                crate::error::inner(*target),
            ),
            forall|k: int| 0 <= k < i ==> crate::error::inner(#[trigger] out@[k]) == all[k],
        decreases names.len() - i,
    {
        let name = names[i].as_str();
        let in_target = match (statement, target) {
            (Statement::Move, Some(target)) => captures(target.as_str(), name),
            _ => false,
        };
        if built_in(statement, name) || captures(namespace_pattern, name) || captures(
            key_pattern,
            name,
        ) || in_target {
            out.push(None);
        } else {
            let start = text::joined3(callback, " ", label_of(statement));
            let rest = text::joined3(" parameter '", name, "' is not declared by its route");
            let message = text::joined(start.as_str(), rest.as_str());
            assert(message@ =~= all[i as int]->0);
            out.push(Some(message));
        }
        i += 1;
    }
    assert(checks::texts(out@) =~= all);
    checks::first_complaint(out)
}

/// What is wrong with the parameters of a query.
pub open spec fn query_parameters_complaint(name: Seq<char>, query: QueryConfig) -> Option<
    Seq<char>,
> {
    checks::first_of(
        parameter_complaints(
            name,
            Statement::Query,
            query.parameters@,
            query.namespace_pattern@,
            query.key_pattern@,
            None,
        ),
    )
}

fn complain_query_parameters(name: &str, query: &QueryConfig) -> (r: Option<String>)
    ensures
        crate::error::inner(r) == query_parameters_complaint(name@, *query),
{
    complain_parameters(
        name,
        Statement::Query,
        &query.parameters,
        query.namespace_pattern.as_str(),
        query.key_pattern.as_str(),
        &None,
    )
}

/// Refuses a query with a parameter that its route does not declare.
pub fn validate_query_parameters(name: &str, query: &QueryConfig) -> (r: Result<(), AdapterError>)
    ensures
        crate::db::error::adapter_outcome(r) == crate::db::error::checked(
            query_parameters_complaint(name@, *query),
        ),
{
    reject(complain_query_parameters(name, query))
}

/// What is wrong with the parameters of a store.
pub open spec fn store_parameters_complaint(name: Seq<char>, store: StoreConfig) -> Option<
    Seq<char>,
> {
    let namespace = store.namespace_pattern@;
    let key = store.key_pattern@;
    let target = crate::error::inner(store.move_ns_pattern);
    checks::either(
        checks::first_of(
            parameter_complaints(
                name,
                Statement::Write,
                store.set_parameters@,
                namespace,
                key,
                target,
            ),
        ),
        checks::either(
            checks::first_of(
                parameter_complaints(
                    name,
                    Statement::Delete,
                    store.delete_parameters@,
                    namespace,
                    key,
                    target,
                ),
            ),
            checks::either(
                checks::first_of(
                    parameter_complaints(
                        name,
                        Statement::Move,
                        store.move_ns_parameters@,
                        namespace,
                        key,
                        target,
                    ),
                ),
                checks::first_of(
                    parameter_complaints(
                        name,
                        Statement::DeleteNamespace,
                        store.delete_ns_parameters@,
                        namespace,
                        key,
                        target,
                    ),
                ),
            ),
        ),
    )
}

fn complain_store_parameters(name: &str, store: &StoreConfig) -> (r: Option<String>)
    ensures
        crate::error::inner(r) == store_parameters_complaint(name@, *store),
{
    let namespace = store.namespace_pattern.as_str();
    let key = store.key_pattern.as_str();
    let target = &store.move_ns_pattern;
    let complaint = complain_parameters(
        name,
        Statement::Write,
        &store.set_parameters,
        namespace,
        key,
        target,
    );
    if complaint.is_some() {
        return complaint;
    }
    let complaint = complain_parameters(
        name,
        Statement::Delete,
        &store.delete_parameters,
        namespace,
        key,
        target,
    );
    if complaint.is_some() {
        return complaint;
    }
    let complaint = complain_parameters(
        name,
        Statement::Move,
        &store.move_ns_parameters,
        namespace,
        key,
        target,
    );
    if complaint.is_some() {
        return complaint;
    }
    complain_parameters(
        name,
        Statement::DeleteNamespace,
        &store.delete_ns_parameters,
        namespace,
        key,
        target,
    )
}

/// Refuses a store with a parameter that its route does not declare.
pub fn validate_store_parameters(name: &str, store: &StoreConfig) -> (r: Result<(), AdapterError>)
    ensures
        crate::db::error::adapter_outcome(r) == crate::db::error::checked(
            store_parameters_complaint(name@, *store),
        ),
{
    reject(complain_store_parameters(name, store))
}

/// What is wrong with the statements of a store.
pub open spec fn store_operations_complaint(name: Seq<char>, store: StoreConfig) -> Option<
    Seq<char>,
> {
    let start = "store '"@ + name;
    if store.move_ns_query is None && store.move_ns_pattern is Some {
        Some(start + "' has move_ns_pattern without move_ns_query"@)
    } else if store.move_ns_query is Some && blank(store.move_ns_query->0@) {
        Some(start + "' has an empty move_ns_query"@)
    } else if store.move_ns_query is None && store.move_ns_parameters@.len() > 0 {
        Some(start + "' has move_ns_parameters without move_ns_query"@)
    } else if store.delete_ns_query is Some && blank(store.delete_ns_query->0@) {
        Some(start + "' has an empty delete_ns_query"@)
    } else if store.delete_ns_query is None && store.delete_ns_parameters@.len() > 0 {
        Some(start + "' has delete_ns_parameters without delete_ns_query"@)
    } else {
        None
    }
}

fn complain_store_operations(name: &str, store: &StoreConfig) -> (r: Option<String>)
    ensures
        crate::error::inner(r) == store_operations_complaint(name@, *store),
{
    match (&store.move_ns_query, &store.move_ns_pattern) {
        (None, Some(_)) => {
            return Some(
                text::joined3("store '", name, "' has move_ns_pattern without move_ns_query"),
            );
        },
        (Some(query), _) => {
            if text::is_blank(query.as_str()) {
                return Some(text::joined3("store '", name, "' has an empty move_ns_query"));
            }
        },
        _ => {},
    }
    if store.move_ns_query.is_none() && store.move_ns_parameters.len() > 0 {
        return Some(
            text::joined3("store '", name, "' has move_ns_parameters without move_ns_query"),
        );
    }
    match &store.delete_ns_query {
        Some(query) => if text::is_blank(query.as_str()) {
            Some(text::joined3("store '", name, "' has an empty delete_ns_query"))
        } else {
            None
        },
        None => if store.delete_ns_parameters.len() > 0 {
            Some(
                text::joined3("store '", name, "' has delete_ns_parameters without delete_ns_query"),
            )
        } else {
            None
        },
    }
}

/// Refuses a store whose statements do not go together.
pub fn validate_store_operations(name: &str, store: &StoreConfig) -> (r: Result<(), AdapterError>)
    ensures
        crate::db::error::adapter_outcome(r) == crate::db::error::checked(
            store_operations_complaint(name@, *store),
        ),
{
    reject(complain_store_operations(name, store))
}

/// What is wrong with a query.
pub open spec fn query_complaint(name: Seq<char>, query: QueryConfig) -> Option<Seq<char>> {
    let start = "query '"@ + name;
    checks::either(
        callback_complaint(name, query.namespace_pattern@, query.key_pattern@, query.query@),
        checks::either(
            if query.timeout_seconds == Some(0u64) {
                Some(start + "' has a zero timeout"@)
            } else {
                None
            },
            checks::either(
                wire_complaint(
                    start + "' provider_wait_timeout"@,
                    crate::error::inner(query.provider_wait_timeout),
                    1_000_000,
                    "milliseconds"@,
                ),
                checks::either(
                    wire_complaint(
                        start + "' miss_cache_ttl"@,
                        crate::error::inner(query.miss_cache_ttl),
                        1_000_000_000,
                        "seconds"@,
                    ),
                    query_parameters_complaint(name, query),
                ),
            ),
        ),
    )
}

fn complain_query(name: &str, query: &QueryConfig) -> (r: Option<String>)
    ensures
        crate::error::inner(r) == query_complaint(name@, *query),
{
    let complaint = complain_callback(
        name,
        query.namespace_pattern.as_str(),
        query.key_pattern.as_str(),
        query.query.as_str(),
    );
    if complaint.is_some() {
        return complaint;
    }
    if let Some(0) = query.timeout_seconds {
        return Some(text::joined3("query '", name, "' has a zero timeout"));
    }
    let wait = text::joined3("query '", name, "' provider_wait_timeout");
    let complaint = complain_millis(wait.as_str(), query.provider_wait_timeout);
    if complaint.is_some() {
        return complaint;
    }
    let miss = text::joined3("query '", name, "' miss_cache_ttl");
    let complaint = complain_seconds(miss.as_str(), query.miss_cache_ttl);
    if complaint.is_some() {
        return complaint;
    }
    complain_query_parameters(name, query)
}

/// What is wrong with each query.
pub open spec fn query_complaints(queries: Seq<(String, QueryConfig)>) -> Seq<Option<Seq<char>>> {
    Seq::new(queries.len(), |i: int| query_complaint(queries[i].0@, queries[i].1))
}

fn complain_queries(queries: &Vec<(String, QueryConfig)>) -> (r: Option<String>)
    ensures
        crate::error::inner(r) == checks::first_of(query_complaints(queries@)),
{
    let mut out: Vec<Option<String>> = Vec::new();
    let mut i: usize = 0;
    while i < queries.len()
        invariant
            i <= queries.len(),
            out.len() == i,
            forall|k: int|
                0 <= k < i ==> crate::error::inner(#[trigger] out@[k]) == query_complaint(
                    queries@[k].0@,
                    queries@[k].1,
                ),
        decreases queries.len() - i,
    {
        let complaint = complain_query(queries[i].0.as_str(), &queries[i].1);
        out.push(complaint);
        i += 1;
    }
    assert(checks::texts(out@) =~= query_complaints(queries@));
    checks::first_complaint(out)
}

/// What is wrong with a store.
pub open spec fn store_complaint(name: Seq<char>, store: StoreConfig) -> Option<Seq<char>> {
    let start = "store '"@ + name;
    checks::either(
        callback_complaint(name, store.namespace_pattern@, store.key_pattern@, store.set_query@),
        checks::either(
            if blank(store.delete_query@) {
                Some(start + "' has no delete_query"@)
            } else if store.timeout_seconds == 0 {
                Some(start + "' has a zero timeout"@)
            } else {
                None
            },
            checks::either(
                store_operations_complaint(name, store),
                store_parameters_complaint(name, store),
            ),
        ),
    )
}

fn complain_store(name: &str, store: &StoreConfig) -> (r: Option<String>)
    ensures
        crate::error::inner(r) == store_complaint(name@, *store),
{
    let complaint = complain_callback(
        name,
        store.namespace_pattern.as_str(),
        store.key_pattern.as_str(),
        store.set_query.as_str(),
    );
    if complaint.is_some() {
        return complaint;
    }
    if text::is_blank(store.delete_query.as_str()) {
        return Some(text::joined3("store '", name, "' has no delete_query"));
    }
    if store.timeout_seconds == 0 {
        return Some(text::joined3("store '", name, "' has a zero timeout"));
    }
    let complaint = complain_store_operations(name, store);
    if complaint.is_some() {
        return complaint;
    }
    complain_store_parameters(name, store)
}

/// What is wrong with each store.
pub open spec fn store_complaints(stores: Seq<(String, StoreConfig)>) -> Seq<Option<Seq<char>>> {
    Seq::new(stores.len(), |i: int| store_complaint(stores[i].0@, stores[i].1))
}

fn complain_stores(stores: &Vec<(String, StoreConfig)>) -> (r: Option<String>)
    ensures
        crate::error::inner(r) == checks::first_of(store_complaints(stores@)),
{
    let mut out: Vec<Option<String>> = Vec::new();
    let mut i: usize = 0;
    while i < stores.len()
        invariant
            i <= stores.len(),
            out.len() == i,
            forall|k: int|
                0 <= k < i ==> crate::error::inner(#[trigger] out@[k]) == store_complaint(
                    stores@[k].0@,
                    stores@[k].1,
                ),
        decreases stores.len() - i,
    {
        let complaint = complain_store(stores[i].0.as_str(), &stores[i].1);
        out.push(complaint);
        i += 1;
    }
    assert(checks::texts(out@) =~= store_complaints(stores@));
    checks::first_complaint(out)
}

/// A statement of the list before a position has its name.
pub open spec fn is_repeated(statements: Seq<InitConfig>, position: int) -> bool {
    exists|j: int|
        0 <= j < position && (#[trigger] statements[j]).name@ == statements[position].name@
}

/// What is wrong with the startup statement at a position.
pub open spec fn init_complaint(statements: Seq<InitConfig>, position: int) -> Option<Seq<char>> {
    let statement = statements[position];
    if blank(statement.name@) || blank(statement.sql@) || statement.timeout_seconds == 0 {
        Some("init statements require name, SQL, and a non-zero timeout"@)
    } else if is_repeated(statements, position) {
        Some("duplicate init statement '"@ + statement.name@ + "'"@)
    } else {
        None
    }
}

/// What is wrong with each startup statement.
pub open spec fn init_complaints(statements: Seq<InitConfig>) -> Seq<Option<Seq<char>>> {
    Seq::new(statements.len(), |i: int| init_complaint(statements, i))
}

fn repeated(statements: &Vec<InitConfig>, position: usize) -> (r: bool)
    requires
        position < statements.len(),
    ensures
        r == is_repeated(statements@, position as int),
{
    let mut j: usize = 0;
    while j < position
        invariant
            j <= position < statements.len(),
            forall|k: int|
                0 <= k < j ==> (#[trigger] statements@[k]).name@
                    != statements@[position as int].name@,
        decreases position - j,
    {
        if text::same(statements[j].name.as_str(), statements[position].name.as_str()) {
            assert(statements@[j as int].name@ == statements@[position as int].name@);
            return true;
        }
        j += 1;
    }
    false
}

fn complain_init(statements: &Vec<InitConfig>) -> (r: Option<String>)
    ensures
        crate::error::inner(r) == checks::first_of(init_complaints(statements@)),
{
    let mut out: Vec<Option<String>> = Vec::new();
    let mut i: usize = 0;
    while i < statements.len()
        invariant
            i <= statements.len(),
            out.len() == i,
            forall|k: int|
                0 <= k < i ==> crate::error::inner(#[trigger] out@[k]) == init_complaint(
                    statements@,
                    k,
                ),
        decreases statements.len() - i,
    {
        let statement = &statements[i];
        let complaint = if text::is_blank(statement.name.as_str()) || text::is_blank(
            statement.sql.as_str(),
        ) || statement.timeout_seconds == 0 {
            Some("init statements require name, SQL, and a non-zero timeout".to_owned())
        } else if repeated(statements, i) {
            Some(text::joined3("duplicate init statement '", statement.name.as_str(), "'"))
        } else {
            None
        };
        out.push(complaint);
        i += 1;
    }
    assert(checks::texts(out@) =~= init_complaints(statements@));
    checks::first_complaint(out)
}

/// What is wrong with a configuration first, where `failures` says why the schedule
/// of each provider cannot be read.
pub open spec fn config_complaint(
    config: AdapterConfig,
    failures: Seq<Option<Seq<char>>>,
) -> Option<Seq<char>> {
    checks::either(
        database_complaint(config.database),
        checks::either(
            valkyr_complaint(config.valkyr),
            checks::either(
                if blank(config.logging.level@) {
                    Some("logging.level must not be empty"@)
                } else {
                    None
                },
                checks::either(
                    checks::first_of(provider_complaints(config.providers@, failures)),
                    checks::either(
                        checks::first_of(query_complaints(config.queries@)),
                        checks::either(
                            checks::first_of(store_complaints(config.stores@)),
                            checks::first_of(init_complaints(config.init@)),
                        ),
                    ),
                ),
            ),
        ),
    )
}

/// Why the schedule of each provider cannot be read.
pub open spec fn schedule_failures(providers: Seq<(String, ProviderConfig)>) -> Seq<
    Option<Seq<char>>,
> {
    Seq::new(providers.len(), |i: int| cron_failure(providers[i].1.frequency@))
}

impl AdapterConfig {
    /// Refuses a configuration that cannot work, where `failures` says why the
    /// schedule of each provider cannot be read.
    pub fn validate_with(&self, failures: &Vec<Option<String>>) -> (r: Result<(), AdapterError>)
        ensures
            crate::db::error::adapter_outcome(r) == crate::db::error::checked(
                config_complaint(*self, checks::texts(failures@)),
            ),
    {
        let complaint = complain_database(&self.database);
        if complaint.is_some() {
            return reject(complaint);
        }
        let complaint = complain_valkyr(&self.valkyr);
        if complaint.is_some() {
            return reject(complaint);
        }
        if text::is_blank(self.logging.level.as_str()) {
            return Err(configuration("logging.level must not be empty"));
        }
        let complaint = complain_providers(&self.providers, failures);
        if complaint.is_some() {
            return reject(complaint);
        }
        let complaint = complain_queries(&self.queries);
        if complaint.is_some() {
            return reject(complaint);
        }
        let complaint = complain_stores(&self.stores);
        if complaint.is_some() {
            return reject(complaint);
        }
        reject(complain_init(&self.init))
    }

    /// Refuses a configuration that cannot work.
    pub fn validate(&self) -> (r: Result<(), AdapterError>)
        ensures
            crate::db::error::adapter_outcome(r) == crate::db::error::checked(
                config_complaint(*self, schedule_failures(self.providers@)),
            ),
    {
        let mut failures: Vec<Option<String>> = Vec::new();
        let mut i: usize = 0;
        while i < self.providers.len()
            invariant
                i <= self.providers.len(),
                failures.len() == i,
                forall|k: int|
                    0 <= k < i ==> crate::error::inner(#[trigger] failures@[k]) == cron_failure(
                        self.providers@[k].1.frequency@,
                    ),
            decreases self.providers.len() - i,
        {
            let failure = check_schedule(self.providers[i].1.frequency.as_str());
            failures.push(failure);
            i += 1;
        }
        assert(checks::texts(failures@) =~= schedule_failures(self.providers@));
        self.validate_with(&failures)
    }
}

/// In a configuration that is accepted, every parameter of every query is one that
/// its route declares.
pub proof fn accepted_parameters_are_declared(
    config: AdapterConfig,
    failures: Seq<Option<Seq<char>>>,
    i: int,
    j: int,
)
    requires
        config_complaint(config, failures) is None,
        0 <= i < config.queries@.len(),
        0 <= j < config.queries@[i].1.parameters@.len(),
    ensures
        is_allowed(
            Statement::Query,
            config.queries@[i].1.namespace_pattern@,
            config.queries@[i].1.key_pattern@,
            None,
            config.queries@[i].1.parameters@[j]@,
        ),
{
    let query = config.queries@[i].1;
    let name = config.queries@[i].0@;
    checks::lemma_none(query_complaints(config.queries@), i);
    assert(query_complaint(name, query) is None);
    let complaints = parameter_complaints(
        name,
        Statement::Query,
        query.parameters@,
        query.namespace_pattern@,
        query.key_pattern@,
        None,
    );
    checks::lemma_none(complaints, j);
}

} // verus!
