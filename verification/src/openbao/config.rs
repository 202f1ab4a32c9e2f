//! The configuration of the OpenBao adapter.

use crate::broker::ProvideOptions;
use crate::checks;
use crate::client::ClientBuilder;
use crate::db::config::{self, LogFormat};
use crate::duration::Duration;
use crate::openbao::bridge::{CallbackBridge, OpenBaoQueryProvider, OpenBaoStoreWriter};
use crate::openbao::client::OpenBaoClient;
use crate::openbao::error::{configuration, AdapterError, AdapterErrorView};
use crate::openbao::mapping::{self, OpenBaoMapping};
use crate::protocol::Uuid;
use crate::text;
use vstd::prelude::*;

verus! {

/// The configuration of the adapter. Named parts are in the order of their names.
#[derive(Debug)]
pub struct AdapterConfig {
    pub openbao: OpenBaoConfig,
    pub valkyr: ValkyrConfig,
    pub logging: LoggingConfig,
    pub queries: Vec<(String, QueryConfig)>,
    pub stores: Vec<(String, StoreConfig)>,
    pub providers: Vec<(String, ProviderConfig)>,
}

/// How the store is reached, with what was found of its files.
#[derive(Debug)]
pub struct OpenBaoConfig {
    pub address: String,
    pub kv_mount: String,
    pub prefix: String,
    pub request_timeout_seconds: u64,
    pub ca_certificate_file: Option<String>,
    pub ca_certificate_exists: bool,
    pub auth: AppRoleConfig,
}

/// How the adapter logs in, with what was found of its file.
#[derive(Debug)]
pub struct AppRoleConfig {
    pub kind: String,
    pub role_id: String,
    pub secret_id_file: String,
    pub secret_id_file_exists: bool,
    pub renew_before_seconds: u64,
}

/// How the servers are reached, and what is asked of them.
#[derive(Debug)]
pub struct ValkyrConfig {
    pub endpoints: Vec<ValkyrEndpoint>,
    pub provider_wait_timeout: Option<Duration>,
    pub miss_cache_ttl: Option<Duration>,
    pub request_timeout: Duration,
    pub max_retries: u32,
}

/// A server, with what was found of its files.
#[derive(Debug)]
pub struct ValkyrEndpoint {
    pub url: String,
    pub api_key_file: String,
    pub api_key_file_exists: bool,
    pub ca_certificate_file: Option<String>,
    pub ca_certificate_exists: bool,
    pub api_key: String,
}

/// Log output of the adapter.
#[derive(Debug)]
pub struct LoggingConfig {
    pub level: String,
    pub format: LogFormat,
}

impl Default for LoggingConfig {
    fn default() -> (r: Self)
        ensures
            r.level@ == "info"@,
            r.format == LogFormat::Pretty,
    {
        LoggingConfig { level: "info".to_owned(), format: LogFormat::Pretty }
    }
}

/// A query on demand.
#[derive(Debug)]
pub struct QueryConfig {
    pub namespace_pattern: String,
    pub key_pattern: String,
    pub on_missing: OnMissing,
    pub provider_wait_timeout: Option<Duration>,
    pub miss_cache_ttl: Option<Duration>,
}

/// What is done where there is no value.
#[derive(Clone, Copy, Debug)]
pub struct OnMissing {
    pub generate_xchacha20poly1305_key: bool,
    pub record_created_unix_seconds: bool,
}

impl Default for OnMissing {
    fn default() -> (r: Self)
        ensures
            !r.generate_xchacha20poly1305_key,
            !r.record_created_unix_seconds,
    {
        OnMissing { generate_xchacha20poly1305_key: false, record_created_unix_seconds: false }
    }
}

/// Values that are kept in the store.
#[derive(Debug)]
pub struct StoreConfig {
    pub namespace_pattern: String,
    pub key_pattern: String,
    pub allow_context_move: bool,
}

/// A namespace that is synchronised on a schedule.
#[derive(Debug)]
pub struct ProviderConfig {
    pub namespace: String,
    /// Six-field cron schedule.
    pub frequency: String,
    pub run_on_startup: bool,
}

/// The time that a request to the store waits if nothing else is configured, in
/// seconds.
pub const DEFAULT_OPENBAO_REQUEST_SECONDS: u64 = 5;

/// How long before its end a login is renewed if nothing else is configured, in
/// seconds.
pub const DEFAULT_RENEW_BEFORE_SECONDS: u64 = 60;

impl ValkyrEndpoint {
    pub fn address(&self) -> (r: String)
        ensures
            r@ == config::address_of(self.url@),
    {
        config::address(self.url.as_str())
    }

    pub fn uses_tls(&self) -> (r: bool)
        ensures
            r == config::is_tls(self.url@),
    {
        text::starts_with(self.url.as_str(), "tls://")
    }

    /// What connects to the server. `tls_config` is the configuration of TLS that
    /// its certificate file gives, if it has one.
    pub fn client_builder<T>(
        &self,
        tls_config: Option<T>,
        adapter_instance: Uuid,
        timeout: Duration,
    ) -> (r: ClientBuilder<T>)
        ensures
            r@.endpoints.len() == 1,
            r@.endpoints[0].0.address@ == config::address_of(self.url@),
            r@.endpoints[0].0.use_tls == config::is_tls(self.url@),
            r@.endpoints[0].1 == (if config::is_tls(self.url@) {
                tls_config
            } else {
                None
            }),
            r@.api_key == Some(self.api_key@),
            r@.adapter_instance == Some(adapter_instance),
            r@.connection_timeout == timeout@,
            r@.request_timeout == timeout@,
    {
        config::endpoint_builder(
            self.url.as_str(),
            self.api_key.as_str(),
            tls_config,
            adapter_instance,
            timeout,
        )
    }
}

/// The secret that a file holds.
pub open spec fn secret_in_file(contents: Seq<char>, file: Seq<char>) -> Result<
    Seq<char>,
    AdapterErrorView,
> {
    if config::blank(contents) {
        Err(AdapterErrorView::Configuration("credential file is empty: "@ + file))
    } else {
        Ok(text::trim(contents))
    }
}

/// The secret that a file holds: its text without white space around it.
pub fn secret(contents: &str, file: &str) -> (r: Result<String, AdapterError>)
    ensures
        crate::openbao::error::bao_outcome(r) == secret_in_file(contents@, file@),
{
    if text::is_blank(contents) {
        Err(AdapterError::Configuration(text::joined("credential file is empty: ", file)))
    } else {
        Ok(text::trimmed(contents))
    }
}

fn reject(complaint: Option<String>) -> (r: Result<(), AdapterError>)
    ensures
        crate::openbao::error::bao_outcome(r) == crate::openbao::error::checked(
            crate::error::inner(complaint),
        ),
{
    match complaint {
        Some(message) => Err(AdapterError::Configuration(message)),
        None => Ok(()),
    }
}

/// Accepts a schedule, unless it cannot be read.
pub fn accept_schedule(frequency: &str, failure: Option<String>) -> (r: Result<(), AdapterError>)
    ensures
        crate::openbao::error::bao_outcome(r) == crate::openbao::error::checked(
            config::schedule_complaint(frequency@, crate::error::inner(failure)),
        ),
{
    reject(config::complain_schedule(frequency, &failure))
}

impl ProviderConfig {
    /// Whether the schedule of the provider can be read.
    pub fn schedule(&self) -> (r: Result<(), AdapterError>)
        ensures
            crate::openbao::error::bao_outcome(r) == crate::openbao::error::checked(
                config::schedule_complaint(
                    self.frequency@,
                    config::cron_failure(self.frequency@),
                ),
            ),
    {
        let failure = config::check_schedule(self.frequency.as_str());
        accept_schedule(self.frequency.as_str(), failure)
    }
}

/// How a query wants to be asked.
pub open spec fn query_options(wait: nat, miss_ttl: nat) -> Result<
    ProvideOptions,
    AdapterErrorView,
> {
    match config::query_options(wait, miss_ttl) {
        Ok(options) => Ok(options),
        Err(error) => Err(AdapterErrorView::Configuration(error->Configuration_0)),
    }
}

impl ValkyrConfig {
    /// How a query wants to be asked: what it does not say itself it inherits, each
    /// time for itself.
    pub fn provider_options(&self, query: &QueryConfig) -> (r: Result<ProvideOptions, AdapterError>)
        ensures
            ({
                let expected = query_options(
                    config::inherited(
                        crate::error::inner(query.provider_wait_timeout),
                        crate::error::inner(self.provider_wait_timeout),
                    ),
                    config::inherited(
                        crate::error::inner(query.miss_cache_ttl),
                        crate::error::inner(self.miss_cache_ttl),
                    ),
                );
                match r {
                    Ok(options) => expected == Ok::<ProvideOptions, AdapterErrorView>(options),
                    Err(error) => expected == Err::<ProvideOptions, AdapterErrorView>(error@),
                }
            }),
    {
        let wait = config::inherit(query.provider_wait_timeout, self.provider_wait_timeout);
        let miss_ttl = config::inherit(query.miss_cache_ttl, self.miss_cache_ttl);
        let complaint = config::complain_millis("provider_wait_timeout", Some(wait));
        if let Some(message) = complaint {
            assert(message@ =~= query_options(wait@, miss_ttl@)->Err_0->Configuration_0) by {
                reveal_strlit("provider_wait_timeout");
                reveal_strlit("provider_wait_timeout: ");
                reveal_strlit(": ");
                assert("provider_wait_timeout"@ + ": "@ =~= "provider_wait_timeout: "@);
            }
            return Err(AdapterError::Configuration(message));
        }
        let complaint = config::complain_seconds("miss_cache_ttl", Some(miss_ttl));
        if let Some(message) = complaint {
            assert(message@ =~= query_options(wait@, miss_ttl@)->Err_0->Configuration_0) by {
                reveal_strlit("miss_cache_ttl");
                reveal_strlit("miss_cache_ttl: ");
                reveal_strlit(": ");
                assert("miss_cache_ttl"@ + ": "@ =~= "miss_cache_ttl: "@);
            }
            return Err(AdapterError::Configuration(message));
        }
        match config::options_of(wait, miss_ttl) {
            Ok(options) => Ok(options),
            Err(_) => {
                assert(false);
                Err(configuration(""))
            },
        }
    }
}

/// What is wrong with the store.
pub open spec fn openbao_complaint(config: OpenBaoConfig) -> Option<Seq<char>> {
    if text::without_prefix(config.address@, "http://"@) is None && text::without_prefix(
        config.address@,
        "https://"@,
    ) is None {
        Some("openbao.address must be an HTTP(S) URL"@)
    } else if config::blank(config.kv_mount@) || config.request_timeout_seconds == 0 {
        Some("openbao.kv_mount and request_timeout_seconds are required"@)
    } else if mapping::without_slashes(config.prefix@).len() == 0 {
        Some("openbao.prefix is required"@)
    } else if config.auth.kind@ != "approle"@ || config::blank(config.auth.role_id@)
        || config.auth.renew_before_seconds == 0 {
        Some("only AppRole auth with role_id and a positive renewal window is supported"@)
    } else if !config.auth.secret_id_file_exists {
        Some("credential file does not exist: "@ + config.auth.secret_id_file@)
    } else {
        None
    }
}

fn complain_openbao(config: &OpenBaoConfig) -> (r: Option<String>)
    ensures
        crate::error::inner(r) == openbao_complaint(*config),
{
    let address = config.address.as_str();
    if !text::starts_with(address, "http://") && !text::starts_with(address, "https://") {
        return Some("openbao.address must be an HTTP(S) URL".to_owned());
    }
    if text::is_blank(config.kv_mount.as_str()) || config.request_timeout_seconds == 0 {
        return Some("openbao.kv_mount and request_timeout_seconds are required".to_owned());
    }
    let prefix = mapping::trim_slashes(config.prefix.as_str());
    if text::chars_of(prefix.as_str()).len() == 0 {
        return Some("openbao.prefix is required".to_owned());
    }
    if !text::same(config.auth.kind.as_str(), "approle") || text::is_blank(
        config.auth.role_id.as_str(),
    ) || config.auth.renew_before_seconds == 0 {
        return Some(
            "only AppRole auth with role_id and a positive renewal window is supported".to_owned(),
        );
    }
    if !config.auth.secret_id_file_exists {
        return Some(
            text::joined("credential file does not exist: ", config.auth.secret_id_file.as_str()),
        );
    }
    None
}

/// What is wrong with the endpoint at a position.
pub open spec fn endpoint_complaint(position: nat, endpoint: ValkyrEndpoint) -> Option<Seq<char>> {
    if config::url_complaint(position, endpoint.url@) is Some {
        config::url_complaint(position, endpoint.url@)
    } else if !endpoint.api_key_file_exists {
        Some("Valkyr API key file does not exist: "@ + endpoint.api_key_file@)
    } else if endpoint.ca_certificate_file is Some && !config::is_tls(endpoint.url@) {
        Some(
            "Valkyr endpoint "@ + text::decimal(position)
                + " has a CA certificate but is not TLS"@,
        )
    } else if endpoint.ca_certificate_file is Some && !endpoint.ca_certificate_exists {
        Some("Valkyr CA certificate file does not exist: "@ + endpoint.ca_certificate_file->0@)
    } else {
        None
    }
}

fn complain_endpoint(position: usize, endpoint: &ValkyrEndpoint) -> (r: Option<String>)
    ensures
        crate::error::inner(r) == endpoint_complaint(position as nat, *endpoint),
{
    let url = config::complain_url(position, endpoint.url.as_str());
    if url.is_some() {
        return url;
    }
    if !endpoint.api_key_file_exists {
        return Some(
            text::joined("Valkyr API key file does not exist: ", endpoint.api_key_file.as_str()),
        );
    }
    match &endpoint.ca_certificate_file {
        Some(certificate) => if !endpoint.uses_tls() {
            let number = text::number(position as u128);
            Some(
                text::joined3(
                    "Valkyr endpoint ",
                    number.as_str(),
                    " has a CA certificate but is not TLS",
                ),
            )
        } else if !endpoint.ca_certificate_exists {
            Some(
                text::joined("Valkyr CA certificate file does not exist: ", certificate.as_str()),
            )
        } else {
            None
        },
        None => None,
    }
}

/// What is wrong with each endpoint.
pub open spec fn endpoint_complaints(endpoints: Seq<ValkyrEndpoint>) -> Seq<Option<Seq<char>>> {
    Seq::new(endpoints.len(), |i: int| endpoint_complaint(i as nat, endpoints[i]))
}

fn complain_endpoints(endpoints: &Vec<ValkyrEndpoint>) -> (r: Option<String>)
    ensures
        crate::error::inner(r) == checks::first_of(endpoint_complaints(endpoints@)),
{
    let mut out: Vec<Option<String>> = Vec::new();
    let mut i: usize = 0;
    while i < endpoints.len()
        invariant
            i <= endpoints.len(),
            out.len() == i,
            forall|k: int|
                0 <= k < i ==> crate::error::inner(#[trigger] out@[k]) == endpoint_complaint(
                    k as nat,
                    endpoints@[k],
                ),
        decreases endpoints.len() - i,
    {
        let complaint = complain_endpoint(i, &endpoints[i]);
        out.push(complaint);
        i += 1;
    }
    assert(checks::texts(out@) =~= endpoint_complaints(endpoints@));
    checks::first_complaint(out)
}

/// What is wrong with the times and attempts that the servers are given.
pub open spec fn valkyr_complaint(config: ValkyrConfig) -> Option<Seq<char>> {
    if config.endpoints@.len() == 0 || config.request_timeout@ == 0 || config.max_retries == 0 {
        Some("Valkyr endpoints, request_timeout, and max_retries must be set"@)
    } else {
        checks::either(
            config::wire_complaint(
                "provider_wait_timeout"@,
                crate::error::inner(config.provider_wait_timeout),
                1_000_000,
                "milliseconds"@,
            ),
            config::wire_complaint(
                "miss_cache_ttl"@,
                crate::error::inner(config.miss_cache_ttl),
                1_000_000_000,
                "seconds"@,
            ),
        )
    }
}

fn complain_valkyr(config: &ValkyrConfig) -> (r: Option<String>)
    ensures
        crate::error::inner(r) == valkyr_complaint(*config),
{
    if config.endpoints.len() == 0 || config.request_timeout.is_zero() || config.max_retries == 0 {
        return Some("Valkyr endpoints, request_timeout, and max_retries must be set".to_owned());
    }
    let complaint = config::complain_millis("provider_wait_timeout", config.provider_wait_timeout);
    if complaint.is_some() {
        return complaint;
    }
    config::complain_seconds("miss_cache_ttl", config.miss_cache_ttl)
}

/// What is wrong with a route.
pub open spec fn route_complaint(name: Seq<char>, namespace: Seq<char>, key: Seq<char>) -> Option<
    Seq<char>,
> {
    if config::blank(namespace) || config::blank(key) || text::without_prefix(
        namespace,
        "/"@,
    ) is None {
        Some("route '"@ + name + "' has malformed patterns"@)
    } else {
        None
    }
}

/// What is wrong with a route.
pub fn validate_route(name: &str, namespace: &str, key: &str) -> (r: Option<String>)
    ensures
        crate::error::inner(r) == route_complaint(name@, namespace@, key@),
{
    if text::is_blank(namespace) || text::is_blank(key) || !text::starts_with(namespace, "/") {
        Some(text::joined3("route '", name, "' has malformed patterns"))
    } else {
        None
    }
}

/// What is wrong with a query.
pub open spec fn query_complaint(name: Seq<char>, query: QueryConfig) -> Option<Seq<char>> {
    checks::either(
        route_complaint(name, query.namespace_pattern@, query.key_pattern@),
        checks::either(
            config::wire_complaint(
                "query '"@ + name + "' provider_wait_timeout"@,
                crate::error::inner(query.provider_wait_timeout),
                1_000_000,
                "milliseconds"@,
            ),
            config::wire_complaint(
                "query '"@ + name + "' miss_cache_ttl"@,
                crate::error::inner(query.miss_cache_ttl),
                1_000_000_000,
                "seconds"@,
            ),
        ),
    )
}

fn complain_query(name: &str, query: &QueryConfig) -> (r: Option<String>)
    ensures
        crate::error::inner(r) == query_complaint(name@, *query),
{
    let complaint = validate_route(
        name,
        query.namespace_pattern.as_str(),
        query.key_pattern.as_str(),
    );
    if complaint.is_some() {
        return complaint;
    }
    let label = text::joined3("query '", name, "' provider_wait_timeout");
    let complaint = config::complain_millis(label.as_str(), query.provider_wait_timeout);
    if complaint.is_some() {
        return complaint;
    }
    let label = text::joined3("query '", name, "' miss_cache_ttl");
    config::complain_seconds(label.as_str(), query.miss_cache_ttl)
}

/// What is wrong with each query.
pub open spec fn query_complaints(queries: Seq<(String, QueryConfig)>) -> Seq<Option<Seq<char>>> {
    Seq::new(queries.len(), |i: int| query_complaint(queries[i].0@, queries[i].1))
}

fn complain_queries(queries: &Vec<(String, QueryConfig)>) -> (r: Option<String>)
    ensures
        crate::error::inner(r) == checks::first_of(query_complaints(queries@)),
{
    let mut out: Vec<Option<String>> = Vec::new();
    let mut i: usize = 0;
    while i < queries.len()
        invariant
            i <= queries.len(),
            out.len() == i,
            forall|k: int|
                0 <= k < i ==> crate::error::inner(#[trigger] out@[k]) == query_complaint(
                    queries@[k].0@,
                    queries@[k].1,
                ),
        decreases queries.len() - i,
    {
        let complaint = complain_query(queries[i].0.as_str(), &queries[i].1);
        out.push(complaint);
        i += 1;
    }
    assert(checks::texts(out@) =~= query_complaints(queries@));
    checks::first_complaint(out)
}

/// What is wrong with each store.
pub open spec fn store_complaints(stores: Seq<(String, StoreConfig)>) -> Seq<Option<Seq<char>>> {
    Seq::new(
        stores.len(),
        |i: int|
            route_complaint(
                stores[i].0@,
                stores[i].1.namespace_pattern@,
                stores[i].1.key_pattern@,
            ),
    )
}

fn complain_stores(stores: &Vec<(String, StoreConfig)>) -> (r: Option<String>)
    ensures
        crate::error::inner(r) == checks::first_of(store_complaints(stores@)),
{
    let mut out: Vec<Option<String>> = Vec::new();
    let mut i: usize = 0;
    while i < stores.len()
        invariant
            i <= stores.len(),
            out.len() == i,
            forall|k: int|
                0 <= k < i ==> crate::error::inner(#[trigger] out@[k]) == route_complaint(
                    stores@[k].0@,
                    stores@[k].1.namespace_pattern@,
                    stores@[k].1.key_pattern@,
                ),
        decreases stores.len() - i,
    {
        let complaint = validate_route(
            stores[i].0.as_str(),
            stores[i].1.namespace_pattern.as_str(),
            stores[i].1.key_pattern.as_str(),
        );
        out.push(complaint);
        i += 1;
    }
    assert(checks::texts(out@) =~= store_complaints(stores@));
    checks::first_complaint(out)
}

/// What is wrong with a provider, where `failure` says why its schedule cannot be
/// read.
pub open spec fn provider_complaint(
    name: Seq<char>,
    provider: ProviderConfig,
    failure: Option<Seq<char>>,
) -> Option<Seq<char>> {
    if text::without_prefix(provider.namespace@, "/"@) is None || config::blank(
        provider.namespace@,
    ) {
        Some("provider '"@ + name + "' has an invalid namespace"@)
    } else {
        config::schedule_complaint(provider.frequency@, failure)
    }
}

/// What is wrong with each provider.
pub open spec fn provider_complaints(
    providers: Seq<(String, ProviderConfig)>,
    failures: Seq<Option<Seq<char>>>,
) -> Seq<Option<Seq<char>>> {
    Seq::new(
        providers.len(),
        |i: int|
            provider_complaint(providers[i].0@, providers[i].1, config::failure_at(failures, i)),
    )
}

fn complain_providers(
    providers: &Vec<(String, ProviderConfig)>,
    failures: &Vec<Option<String>>,
) -> (r: Option<String>)
    ensures
        crate::error::inner(r) == checks::first_of(
            provider_complaints(providers@, checks::texts(failures@)),
        ),
{
    let mut out: Vec<Option<String>> = Vec::new();
    let mut i: usize = 0;
    while i < providers.len()
        invariant
            i <= providers.len(),
            out.len() == i,
            forall|k: int|
                0 <= k < i ==> crate::error::inner(#[trigger] out@[k]) == provider_complaint(
                    providers@[k].0@,
                    providers@[k].1,
                    config::failure_at(checks::texts(failures@), k),
                ),
        decreases providers.len() - i,
    {
        let namespace = providers[i].1.namespace.as_str();
        let complaint = if !text::starts_with(namespace, "/") || text::is_blank(namespace) {
            Some(text::joined3("provider '", providers[i].0.as_str(), "' has an invalid namespace"))
        } else if i < failures.len() {
            config::complain_schedule(providers[i].1.frequency.as_str(), &failures[i])
        } else {
            None
        };
        out.push(complaint);
        i += 1;
    }
    assert(checks::texts(out@) =~= provider_complaints(providers@, checks::texts(failures@)));
    checks::first_complaint(out)
}

/// What is wrong with the certificate file of the store.
pub open spec fn certificate_complaint(config: OpenBaoConfig) -> Option<Seq<char>> {
    match config.ca_certificate_file {
        Some(file) => if !config.ca_certificate_exists {
            Some("CA certificate file does not exist: "@ + file@)
        } else {
            None
        },
        None => None,
    }
}

fn complain_certificate(config: &OpenBaoConfig) -> (r: Option<String>)
    ensures
        crate::error::inner(r) == certificate_complaint(*config),
{
    match &config.ca_certificate_file {
        Some(file) => if !config.ca_certificate_exists {
            Some(text::joined("CA certificate file does not exist: ", file.as_str()))
        } else {
            None
        },
        None => None,
    }
}

/// What is wrong with a configuration first, where `failures` says why the schedule
/// of each provider cannot be read.
pub open spec fn config_complaint(
    config: AdapterConfig,
    failures: Seq<Option<Seq<char>>>,
) -> Option<Seq<char>> {
    checks::either(
        openbao_complaint(config.openbao),
        checks::either(
            checks::first_of(endpoint_complaints(config.valkyr.endpoints@)),
            checks::either(
                certificate_complaint(config.openbao),
                checks::either(
                    valkyr_complaint(config.valkyr),
                    checks::either(
                        checks::first_of(query_complaints(config.queries@)),
                        checks::either(
                            checks::first_of(store_complaints(config.stores@)),
                            checks::first_of(provider_complaints(config.providers@, failures)),
                        ),
                    ),
                ),
            ),
        ),
    )
}

/// Why the schedule of each provider cannot be read.
pub open spec fn schedule_failures(providers: Seq<(String, ProviderConfig)>) -> Seq<
    Option<Seq<char>>,
> {
    Seq::new(providers.len(), |i: int| config::cron_failure(providers[i].1.frequency@))
}

impl AdapterConfig {
    /// Refuses a configuration that cannot work, where `failures` says why the
    /// schedule of each provider cannot be read.
    pub fn validate_with(&self, failures: &Vec<Option<String>>) -> (r: Result<(), AdapterError>)
        ensures
            crate::openbao::error::bao_outcome(r) == crate::openbao::error::checked(
                config_complaint(*self, checks::texts(failures@)),
            ),
    {
        let complaint = complain_openbao(&self.openbao);
        if complaint.is_some() {
            return reject(complaint);
        }
        let complaint = complain_endpoints(&self.valkyr.endpoints);
        if complaint.is_some() {
            return reject(complaint);
        }
        let complaint = complain_certificate(&self.openbao);
        if complaint.is_some() {
            return reject(complaint);
        }
        let complaint = complain_valkyr(&self.valkyr);
        if complaint.is_some() {
            return reject(complaint);
        }
        let complaint = complain_queries(&self.queries);
        if complaint.is_some() {
            return reject(complaint);
        }
        let complaint = complain_stores(&self.stores);
        if complaint.is_some() {
            return reject(complaint);
        }
        reject(complain_providers(&self.providers, failures))
    }

    /// Refuses a configuration that cannot work.
    pub fn validate(&self) -> (r: Result<(), AdapterError>)
        ensures
            crate::openbao::error::bao_outcome(r) == crate::openbao::error::checked(
                config_complaint(*self, schedule_failures(self.providers@)),
            ),
    {
        let mut failures: Vec<Option<String>> = Vec::new();
        let mut i: usize = 0;
        while i < self.providers.len()
            invariant
                i <= self.providers.len(),
                failures.len() == i,
                forall|k: int|
                    0 <= k < i ==> crate::error::inner(#[trigger] failures@[k])
                        == config::cron_failure(self.providers@[k].1.frequency@),
            decreases self.providers.len() - i,
        {
            let failure = config::check_schedule(self.providers[i].1.frequency.as_str());
            failures.push(failure);
            i += 1;
        }
        assert(checks::texts(failures@) =~= schedule_failures(self.providers@));
        self.validate_with(&failures)
    }

    /// What the requests to the store are made with.
    pub fn openbao_client(&self) -> (r: Result<OpenBaoClient, AdapterError>)
        ensures
            crate::openbao::error::bao_outcome(r) == crate::openbao::client::server(
                self.openbao.address@,
                self.openbao.kv_mount@,
                crate::openbao::client::url_failure(self.openbao.address@),
            ),
    {
        OpenBaoClient::new(self.openbao.address.as_str(), self.openbao.kv_mount.as_str())
    }

    /// What answers the requests of a server: the queries and the stores in the order
    /// of their names.
    pub fn callback_bridge(self) -> (r: Result<CallbackBridge, AdapterError>)
        ensures
            match r {
                Ok(bridge) => {
                    &&& mapping::without_slashes(self.openbao.prefix@).len() > 0
                    &&& bridge.queries@.len() == self.queries@.len()
                    &&& bridge.stores@.len() == self.stores@.len()
                    &&& forall|i: int|
                        0 <= i < bridge.queries@.len() ==> (#[trigger] bridge.queries@[i]).config
                            == self.queries@[i].1 && bridge.queries@[i].mapping@
                            == mapping::without_slashes(self.openbao.prefix@)
                    &&& forall|i: int|
                        0 <= i < bridge.stores@.len() ==> (#[trigger] bridge.stores@[i]).config
                            == self.stores@[i].1 && bridge.stores@[i].mapping@
                            == mapping::without_slashes(self.openbao.prefix@)
                },
                Err(error) => mapping::without_slashes(self.openbao.prefix@).len() == 0 && error@
                    == AdapterErrorView::Configuration("openbao.prefix is required"@),
            },
    {
        let paths = match OpenBaoMapping::new(self.openbao.prefix.as_str()) {
            Ok(paths) => paths,
            Err(error) => {
                return Err(error);
            },
        };
        let ghost all = self.queries@;
        let ghost every = self.stores@;
        let mut queries: Vec<OpenBaoQueryProvider> = Vec::new();
        let mut left = text::reversed(self.queries);
        while left.len() > 0
            invariant
                left.len() + queries.len() == all.len(),
                left@ == all.reverse().take(left.len() as int),
                forall|i: int|
                    0 <= i < queries@.len() ==> (#[trigger] queries@[i]).config == all[i].1
                        && queries@[i].mapping@ == paths@,
            decreases left.len(),
        {
            let ghost n = left.len() - 1;
            if let Some((_, config)) = left.pop() {
                queries.push(OpenBaoQueryProvider::new(paths.clone(), config));
            }
            assert(left@ =~= all.reverse().take(n));
        }
        let mut stores: Vec<OpenBaoStoreWriter> = Vec::new();
        let mut left = text::reversed(self.stores);
        while left.len() > 0
            invariant
                left.len() + stores.len() == every.len(),
                left@ == every.reverse().take(left.len() as int),
                forall|i: int|
                    0 <= i < stores@.len() ==> (#[trigger] stores@[i]).config == every[i].1
                        && stores@[i].mapping@ == paths@,
            decreases left.len(),
        {
            let ghost n = left.len() - 1;
            if let Some((_, config)) = left.pop() {
                stores.push(OpenBaoStoreWriter::new(paths.clone(), config));
            }
            assert(left@ =~= every.reverse().take(n));
        }
        Ok(CallbackBridge::new(queries, stores))
    }
}

} // verus!
