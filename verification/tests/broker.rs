use valkyr::broker::cached_value_response;
use valkyr::duration::Duration;
use valkyr::json::{self, Value};
use valkyr::memory::{self, CacheEntry, Change, Listed};
use valkyr::outcome::{Invalidation, KeyLoad, SetRequest, Step, ValueRequest};
use valkyr::table::Table;
use valkyr::{
    AuthInfo, AuthLookup, AuthManager, AuthRecord, Broker, BrokerOutcome, Command, ConnectionId,
    Dispatch, Error, Key, KeyPattern, NamespaceContext, NamespacePattern, PendingMutation,
    Permission, PermissionOperation, ProvideOptions, RequestContext, Response, Role,
    SecurityKeyRecord, ServerCommand, SetEntry, SimpleAuthenticator, StoredValue, AUTH_NAMESPACE,
    LEASE_NAMESPACE, SECURITY_NAMESPACE,
};

fn namespace(text: &str) -> NamespaceContext {
    NamespaceContext::new(text).unwrap()
}

fn key(text: &str) -> Key {
    Key::new(text).unwrap()
}

fn get(n: &str, k: &str) -> Command {
    Command::Get { namespace: namespace(n), key: key(k) }
}

fn set(n: &str, k: &str, value: Value, ttl_seconds: Option<u64>) -> Command {
    Command::SetValue { namespace: namespace(n), key: key(k), value, ttl_seconds }
}

/// Reads a permission record the way a store would keep it.
fn auth_record(value: &Value) -> Option<AuthRecord> {
    let client_id = value.get("client_id")?.as_str()?.to_owned();
    let name = value.get("name")?.as_str()?.to_owned();
    let mut permissions = Vec::new();
    if let Some(Value::List(groups)) = value.get("permissions") {
        for group in groups {
            let Some(Value::List(operations)) = group.get("operations") else {
                return None;
            };
            permissions.push(Permission {
                namespace: group.get("namespace").and_then(|n| n.as_str()).map(str::to_owned),
                operations: operations
                    .iter()
                    .map(|operation| match operation.as_str() {
                        Some("read") => PermissionOperation::Read,
                        Some("write") => PermissionOperation::Write,
                        Some("read_encrypted") => PermissionOperation::ReadEncrypted,
                        Some("write_encrypted") => PermissionOperation::WriteEncrypted,
                        _ => PermissionOperation::Admin,
                    })
                    .collect(),
            });
        }
    }
    let enabled = !matches!(value.get("enabled"), Some(Value::Bool(false)));
    Some(AuthRecord { client_id, name, roles: Vec::new(), permissions, enabled })
}

fn security_record(value: &Value) -> Option<SecurityKeyRecord> {
    Some(SecurityKeyRecord {
        key: value.get("key")?.as_str()?.to_owned(),
        created: value.get("created")?.as_u64()?,
    })
}

struct Server {
    broker: Broker,
    values: Vec<Listed>,
    markers: Vec<(NamespaceContext, Key, u128)>,
    now: u128,
    fails: bool,
}

impl Server {
    fn new(auth: Option<AuthManager>) -> Self {
        Server {
            broker: Broker::new(auth),
            values: Vec::new(),
            markers: Vec::new(),
            now: 0,
            fails: false,
        }
    }

    fn provide(&mut self, owner: ConnectionId, n: &str, k: &str, options: ProvideOptions) {
        let now = self.now;
        self.broker.registry_mut().register_provider(owner, n, k, options, now);
    }

    fn read(&self, n: &NamespaceContext, k: &Key) -> Result<Option<StoredValue>, Error> {
        if self.fails {
            return Err(Error::Protocol("store read should not occur".into()));
        }
        for listed in &self.values {
            if listed.namespace.as_str() == n.as_str()
                && listed.key.as_str() == k.as_str()
                && listed.entry.expires_at.map_or(true, |at| at > self.now)
            {
                return Ok(Some(memory::stored_value(&listed.entry, self.now)));
            }
        }
        Ok(None)
    }

    fn write(&mut self, n: &str, k: &str, value: Value, ttl: Option<Duration>) {
        let change = memory::set(namespace(n), key(k), value, ttl, self.now, u128::MAX);
        self.apply(vec![change]);
    }

    fn apply(&mut self, changes: Vec<Change>) {
        for change in changes {
            let (n, k, entry) = match change {
                Change::Insert { namespace, key, entry } => (namespace, key, Some(entry)),
                Change::Remove { namespace, key } => (namespace, key, None),
            };
            self.values.retain(|listed| {
                listed.namespace.as_str() != n.as_str() || listed.key.as_str() != k.as_str()
            });
            if let Some(entry) = entry {
                self.values.push(Listed { namespace: n, key: k, entry });
            }
        }
    }

    fn invalidate(&mut self, invalidations: Vec<Invalidation>) {
        for invalidation in invalidations {
            self.markers.retain(|(n, k, _)| !invalidation.concerns(n, k));
        }
    }

    fn commit(&mut self, mutation: PendingMutation) {
        let record = match &mutation {
            PendingMutation::SetValue { namespace, value, .. }
                if namespace.as_str() == AUTH_NAMESPACE =>
            {
                auth_record(value)
            }
            _ => None,
        };
        let now = self.now;
        let invalidations = self.broker.record_commit(&mutation, record, now);
        let changes = match mutation {
            PendingMutation::SetValue { namespace, key, value, ttl } => {
                vec![memory::set(namespace, key, value, ttl, now, u128::MAX)]
            }
            PendingMutation::SetBatch { namespace, entries, ttl } => {
                memory::set_batch(&namespace, &entries, ttl, now, u128::MAX)
            }
            PendingMutation::Delete { namespace, key_pattern } => {
                memory::delete(&self.values, &namespace, key_pattern.as_ref())
            }
            PendingMutation::Move { source, destination } => {
                memory::move_namespace(&self.values, &source, &destination).unwrap()
            }
        };
        self.apply(changes);
        self.invalidate(invalidations);
    }

    fn load_key(&self, scope: &Key) -> KeyLoad {
        match self.read(&namespace(SECURITY_NAMESPACE), scope) {
            Err(error) => KeyLoad::Failed(error),
            Ok(None) => KeyLoad::Missing,
            Ok(Some(stored)) => match security_record(&stored.value) {
                Some(record) => KeyLoad::Found(record),
                None => KeyLoad::Malformed,
            },
        }
    }

    fn run(&mut self, step: Step) -> Result<BrokerOutcome, Error> {
        let mut step = step;
        let now = self.now;
        loop {
            step = match step {
                Step::Finished(result) => return result,
                Step::ReadAuthRecord { key } => {
                    let result = self
                        .read(&namespace(AUTH_NAMESPACE), &key)
                        .map(|found| found.map(|stored| auth_record(&stored.value)));
                    self.broker.auth_record_read(&key, result, now)
                }
                Step::ReadVariable { key, request } => {
                    let result = self.read(&request.namespace, &key);
                    self.broker.variable_read(request, result, now)
                }
                Step::ReadValue(request) => {
                    let result = self.read(&request.namespace, &request.key);
                    self.broker.value_read(request, result)
                }
                Step::CheckMiss(request) => {
                    let marked = self.is_marked(&request.namespace, &request.key);
                    self.broker.miss_checked(request, marked)
                }
                Step::ReadSecurityKey { scope, purpose } => {
                    let load = self.load_key(&scope);
                    self.broker.security_key_read(purpose, load, now)
                }
                Step::CheckAuthRecord(request) => {
                    let result = match auth_record(&request.value) {
                        Some(_) => Ok(()),
                        None => Err("malformed".to_string()),
                    };
                    self.broker.auth_record_checked(request, result)
                }
                Step::CheckSecurityRecord(request) => {
                    let is_record = security_record(&request.value).is_some();
                    self.broker.security_record_checked(request, is_record)
                }
                Step::WriteSecurityRecord(request) => {
                    let change = memory::set(
                        request.namespace,
                        request.key,
                        request.value,
                        request.ttl,
                        now,
                        u128::MAX,
                    );
                    self.apply(vec![change]);
                    self.broker.change_made(Ok(()))
                }
                Step::Commit(mutation) => {
                    self.commit(mutation);
                    self.broker.change_made(Ok(()))
                }
                Step::CountValues => {
                    let count = self.values.len() as u64;
                    self.broker.values_counted(Ok(count))
                }
            };
        }
    }

    fn is_marked(&self, n: &NamespaceContext, k: &Key) -> bool {
        self.markers.iter().any(|(namespace, key, until)| {
            namespace.as_str() == n.as_str() && key.as_str() == k.as_str() && *until > self.now
        })
    }

    fn execute(&mut self, command: Command, context: RequestContext) -> Result<BrokerOutcome, Error> {
        let now = self.now;
        let step = self.broker.execute(command, context, now);
        self.run(step)
    }

    fn confirm(&mut self, n: &str, k: &str, ttl: u64, dispatch: &Dispatch) {
        self.confirm_with(
            n,
            k,
            ttl,
            dispatch.mutation_generation,
            dispatch.provider_refresh_id.unwrap(),
        );
    }

    fn confirm_with(&mut self, n: &str, k: &str, ttl: u64, generation: u64, refresh: u128) {
        let (n, k) = (namespace(n), key(k));
        let current = self.read(&n, &k);
        let marker = self
            .broker
            .confirm_provider_miss(&n, &k, ttl, generation, refresh, &current);
        if let Some(ttl) = marker {
            self.markers.push((n, k, self.now + ttl.as_nanos()));
        }
    }
}

fn anonymous() -> RequestContext {
    RequestContext::anonymous(99)
}

fn with_auth(auth: AuthInfo) -> RequestContext {
    RequestContext {
        owner: 7,
        adapter_instance: None,
        auth: Some(auth),
        variables: Table::new(),
    }
}

fn bootstrapped() -> AuthManager {
    AuthManager::with_bootstrap_admin(
        &SimpleAuthenticator::new(Table::new()),
        Some("bootstrap".into()),
        Duration::from_secs(60),
    )
}

fn sessions() -> AuthManager {
    AuthManager::new(&SimpleAuthenticator::new(Table::new()))
}

fn bootstrap(server: &mut Server) -> AuthInfo {
    let now = server.now;
    server.broker.authenticate_request("bootstrap", now).unwrap()
}

fn auth(api_key: &str) -> Command {
    Command::Auth { api_key: api_key.into(), adapter_instance: None }
}

fn rate(max_rate: Option<u32>) -> ProvideOptions {
    ProvideOptions::from(max_rate)
}

#[test]
fn broker_without_an_auth_manager_rejects_authentication() {
    let mut server = Server::new(None);
    let outcome = server.execute(auth("any-key"), anonymous()).unwrap();
    assert!(matches!(outcome.response, Response::AuthFailure { .. }));
    assert!(outcome.authenticated.is_none());
}

#[test]
fn cached_auth_record_authenticates_without_a_provider_dispatch() {
    let mut server = Server::new(Some(sessions()));
    let record = json::parse("{\"client_id\":\"reader\",\"name\":\"Reader\"}").unwrap();
    server.write(AUTH_NAMESPACE, "reader", record, None);
    let outcome = server.execute(auth("reader"), anonymous()).unwrap();
    assert!(matches!(outcome.response, Response::AuthSuccess { .. }));
    assert!(outcome.authenticated.is_some());
    assert!(outcome.dispatch.is_none());
}

#[test]
fn committed_auth_record_replaces_an_active_session_principal() {
    let mut server = Server::new(Some(bootstrapped()));
    let record = |path: &str| {
        json::parse(&format!(
            "{{\"client_id\":\"consumer\",\"name\":\"Consumer\",\"permissions\":[{{\"namespace\":\"{path}\",\"operations\":[\"read\"]}}]}}"
        ))
        .unwrap()
    };
    server.write(AUTH_NAMESPACE, "consumer", record("/old"), None);
    let consumer = server
        .execute(auth("consumer"), anonymous())
        .unwrap()
        .authenticated
        .unwrap();
    let admin = bootstrap(&mut server);
    server
        .execute(
            set(AUTH_NAMESPACE, "consumer", record("/new"), None),
            with_auth(admin),
        )
        .unwrap();
    assert!(matches!(
        server.execute(get("/old", "entry"), with_auth(consumer.clone())),
        Err(Error::PermissionDenied(_))
    ));
    assert!(matches!(
        server
            .execute(get("/new", "entry"), with_auth(consumer.clone()))
            .unwrap()
            .response,
        Response::Unknown
    ));
    let admin = bootstrap(&mut server);
    let disabled =
        json::parse("{\"client_id\":\"consumer\",\"name\":\"Consumer\",\"enabled\":false}")
            .unwrap();
    server
        .execute(set(AUTH_NAMESPACE, "consumer", disabled, None), with_auth(admin))
        .unwrap();
    assert!(matches!(
        server.execute(get("/new", "entry"), with_auth(consumer)),
        Err(Error::PermissionDenied(_))
    ));
}

#[test]
fn missing_auth_record_remains_pending_with_one_provider_dispatch() {
    let mut server = Server::new(Some(sessions()));
    server.provide(1, AUTH_NAMESPACE, "*", rate(None));
    let outcome = server.execute(auth("reader"), anonymous()).unwrap();
    assert!(matches!(outcome.response, Response::AuthPending { .. }));
    assert!(matches!(outcome.dispatch, Some(Dispatch { authentication: true, .. })));
    let repeated = server.execute(auth("reader"), anonymous()).unwrap();
    assert!(repeated.dispatch.is_none());
}

#[test]
fn bootstrap_can_warm_security_keys_without_store_dispatch() {
    let mut server = Server::new(Some(bootstrapped()));
    server
        .broker
        .registry_mut()
        .register_store(1, Some(2), SECURITY_NAMESPACE, "*", 0);
    let admin = bootstrap(&mut server);
    let value =
        json::parse(&format!("{{\"created\":1,\"key\":\"{}\"}}", "11".repeat(32))).unwrap();
    let outcome = server
        .execute(
            set(SECURITY_NAMESPACE, "/example", value.clone(), Some(60)),
            with_auth(admin),
        )
        .unwrap();
    assert!(matches!(outcome.response, Response::Okay));
    assert!(outcome.dispatch.is_none());
    assert!(outcome.pending_mutation.is_none());
    assert_eq!(
        server
            .read(&namespace(SECURITY_NAMESPACE), &key("/example"))
            .unwrap()
            .map(|stored| stored.value),
        Some(value)
    );
}

#[test]
fn security_key_warmup_requires_a_valid_bootstrap_write() {
    let mut server = Server::new(Some(bootstrapped()));
    let record =
        json::parse(&format!("{{\"created\":1,\"key\":\"{}\"}}", "11".repeat(32))).unwrap();
    let denied = server.execute(
        set(SECURITY_NAMESPACE, "/example", record.clone(), None),
        anonymous(),
    );
    assert!(matches!(denied, Err(Error::PermissionDenied(_))));
    let admin = bootstrap(&mut server);
    let malformed = server.execute(
        set(
            SECURITY_NAMESPACE,
            "/example",
            json::parse(&format!("{{\"key\":\"{}\"}}", "11".repeat(32))).unwrap(),
            None,
        ),
        with_auth(admin.clone()),
    );
    assert!(matches!(malformed, Err(Error::Encryption(_))));
    let encrypted_name = server.execute(
        set(SECURITY_NAMESPACE, "~/example~", record, None),
        with_auth(admin),
    );
    assert!(matches!(encrypted_name, Err(Error::Protocol(_))));
}

#[test]
fn provider_max_rate_defers_excess_cache_misses() {
    let mut server = Server::new(None);
    server.provide(1, "/values", "*", rate(Some(1)));
    let first = server.execute(get("/values", "one"), anonymous()).unwrap();
    let provider_id = first.dispatch.unwrap().provider_id;
    assert_eq!(server.broker.provider_retry_after(provider_id, Some(1), 0), None);
    let second = server.execute(get("/values", "two"), anonymous()).unwrap();
    assert!(second.dispatch.is_some());
    assert!(server
        .broker
        .provider_retry_after(provider_id, Some(1), 0)
        .is_some());
    assert_eq!(
        server
            .broker
            .provider_retry_after(provider_id, Some(1), 1_000_000_000),
        None
    );
}

#[test]
fn confirmed_provider_misses_skip_rate_limits_until_their_ttl_expires() {
    let mut server = Server::new(None);
    server.provide(1, "/values", "*", rate(Some(1)).with_miss_ttl_seconds(1));
    let first = server.execute(get("/values", "missing"), anonymous()).unwrap();
    let dispatch = first.dispatch.unwrap();
    server.confirm("/values", "missing", 1, &dispatch);
    let cached = server.execute(get("/values", "missing"), anonymous()).unwrap();
    assert!(cached.dispatch.is_none());
    assert!(matches!(cached.response, Response::Miss { retry_after_ms: 0 }));
    server.write("/values", "missing", Value::Text("live".into()), None);
    let value = server.execute(get("/values", "missing"), anonymous()).unwrap();
    assert!(matches!(value.response, Response::Value { .. }));
}

#[test]
fn provider_misses_started_before_each_mutation_cannot_become_stale_markers() {
    let mut server = Server::new(None);
    server.provide(1, "/values", "*", rate(None));
    let generation = server.broker.mutation_generation();
    let temporary = || Value::Text("temporary".into());
    let ttl = Some(Duration::from_millis(1));
    server.commit(PendingMutation::SetValue {
        namespace: namespace("/values"),
        key: key("exact"),
        value: temporary(),
        ttl,
    });
    server.commit(PendingMutation::SetBatch {
        namespace: namespace("/values"),
        entries: vec![SetEntry { key: key("batch"), value: temporary() }],
        ttl,
    });
    server.commit(PendingMutation::Delete {
        namespace: namespace("/values"),
        key_pattern: Some(KeyPattern::new("pattern*").unwrap()),
    });
    server.commit(PendingMutation::Move {
        source: namespace("/values::old"),
        destination: namespace("/values::new"),
    });
    server.now += 10_000_000;
    for name in ["exact", "batch", "pattern-key", "moved"] {
        server.confirm_with("/values", name, 60, generation, 0);
        let outcome = server.execute(get("/values", name), anonymous()).unwrap();
        assert!(outcome.dispatch.is_some(), "stale marker was inserted");
    }
}

#[test]
fn mutation_generations_are_scoped_to_affected_routes() {
    for shape in ["exact", "batch", "pattern", "namespace", "move"] {
        let mut server = Server::new(None);
        server.provide(1, "/values", "*", rate(None));
        let n = if shape == "move" { "/values::old" } else { "/values" };
        let k = format!("{shape}-key");
        let dispatch = server
            .execute(get(n, &k), anonymous())
            .unwrap()
            .dispatch
            .unwrap();
        let temporary = Value::Text("temporary".into());
        let ttl = Some(Duration::from_millis(1));
        let delete = |pattern: Option<&str>| PendingMutation::Delete {
            namespace: namespace(n),
            key_pattern: pattern.map(|pattern| KeyPattern::new(pattern).unwrap()),
        };
        match shape {
            "exact" => {
                server.commit(PendingMutation::SetValue {
                    namespace: namespace(n),
                    key: key(&k),
                    value: temporary,
                    ttl,
                });
                server.commit(delete(Some(&k)));
            }
            "batch" => {
                server.commit(PendingMutation::SetBatch {
                    namespace: namespace(n),
                    entries: vec![SetEntry { key: key(&k), value: temporary }],
                    ttl,
                });
                server.commit(delete(Some(&k)));
            }
            "pattern" => server.commit(delete(Some("pattern-*"))),
            "namespace" => server.commit(delete(None)),
            "move" => server.commit(PendingMutation::Move {
                source: namespace(n),
                destination: namespace("/values::new"),
            }),
            _ => unreachable!(),
        }
        server.confirm(n, &k, 60, &dispatch);
        let outcome = server.execute(get(n, &k), anonymous()).unwrap();
        assert!(outcome.dispatch.is_some(), "stale marker survived {shape} mutation");
    }

    let mut server = Server::new(None);
    server.provide(1, "/values", "*", rate(None));
    let dispatch = server
        .execute(get("/values", "target"), anonymous())
        .unwrap()
        .dispatch
        .unwrap();
    server.commit(PendingMutation::SetValue {
        namespace: namespace("/values"),
        key: key("unrelated"),
        value: Value::Text("live".into()),
        ttl: None,
    });
    server.confirm("/values", "target", 60, &dispatch);
    let outcome = server.execute(get("/values", "target"), anonymous()).unwrap();
    assert!(
        outcome.dispatch.is_none(),
        "unrelated mutation suppressed miss caching"
    );
    assert!(matches!(outcome.response, Response::Miss { retry_after_ms: 0 }));
}

#[test]
fn mutation_coordination_is_reclaimed_after_refreshes_and_writes() {
    let mut server = Server::new(None);
    server.provide(1, "/values", "*", rate(None));
    for index in 0..128 {
        let name = format!("missing-{index}");
        let dispatch = server
            .execute(get("/values", &name), anonymous())
            .unwrap()
            .dispatch
            .unwrap();
        server.broker.release_provider_refresh(
            &namespace("/values"),
            &key(&name),
            dispatch.provider_refresh_id.unwrap(),
        );
    }
    assert_eq!(server.broker.active_route_count(), 0);
    for index in 0..128 {
        server.commit(PendingMutation::SetValue {
            namespace: namespace("/values"),
            key: key(&format!("written-{index}")),
            value: Value::Text("value".into()),
            ttl: None,
        });
    }
    assert_eq!(server.broker.active_route_count(), 0);
}

#[test]
fn move_invalidates_active_source_and_destination_routes() {
    let mut server = Server::new(None);
    server.provide(1, "/values", "*", rate(None));
    let routes = [
        ("/values::source", "source-key"),
        ("/values::destination", "destination-key"),
    ];
    let mut dispatches = Vec::new();
    for (n, k) in routes {
        dispatches.push(server.execute(get(n, k), anonymous()).unwrap().dispatch.unwrap());
    }
    server.commit(PendingMutation::Move {
        source: namespace("/values::source"),
        destination: namespace("/values::destination"),
    });
    for ((n, k), dispatch) in routes.iter().zip(&dispatches) {
        server.confirm(n, k, 60, dispatch);
    }
    for (n, k) in routes {
        assert!(server.execute(get(n, k), anonymous()).unwrap().dispatch.is_some());
    }
}

#[test]
fn provider_rejects_a_zero_rate_limit() {
    let mut server = Server::new(None);
    let result = server.execute(
        Command::Provide {
            namespace_pattern: NamespacePattern::new("/values").unwrap(),
            key_pattern: KeyPattern::new("*").unwrap(),
            max_rate: Some(0),
            timeout: None,
            miss_ttl: None,
        },
        RequestContext {
            owner: 1,
            adapter_instance: Some(2),
            auth: None,
            variables: Table::new(),
        },
    );
    assert!(matches!(result, Err(Error::Protocol(_))));
}

#[test]
fn reserved_registry_namespaces_cannot_be_deleted_or_moved() {
    let mut server = Server::new(None);
    let delete = server.execute(
        Command::Delete { namespace: namespace(AUTH_NAMESPACE), key_pattern: None },
        anonymous(),
    );
    assert!(matches!(delete, Err(Error::PermissionDenied(_))));
    let moved = server.execute(
        Command::Move {
            source: namespace(AUTH_NAMESPACE),
            destination: namespace("/archive"),
        },
        anonymous(),
    );
    assert!(matches!(moved, Err(Error::PermissionDenied(_))));
}

#[test]
fn server_local_leases_are_owned_and_released_by_one_adapter() {
    let mut server = Server::new(None);
    let record = AuthRecord {
        client_id: "adapter".into(),
        name: "Adapter".into(),
        roles: Vec::new(),
        permissions: Vec::new(),
        enabled: true,
    };
    let info = record.into_info("adapter-key", 0).unwrap();
    let context = |adapter_instance: u128| RequestContext {
        owner: adapter_instance,
        adapter_instance: Some(adapter_instance),
        auth: Some(info.clone()),
        variables: Table::new(),
    };
    let lease = || get(LEASE_NAMESPACE, "/orders");
    let release = || set(LEASE_NAMESPACE, "/orders", Value::from_u64(0), None);
    assert!(matches!(
        server.execute(lease(), context(1)).unwrap().response,
        Response::Value { value: Value::Bool(true), ttl_seconds: Some(30) }
    ));
    assert!(matches!(
        server.execute(lease(), context(2)).unwrap().response,
        Response::Value { value: Value::Bool(false), ttl_seconds: None }
    ));
    assert!(matches!(
        server.execute(release(), context(2)),
        Err(Error::PermissionDenied(_))
    ));
    assert!(matches!(
        server.execute(release(), context(1)).unwrap().response,
        Response::Okay
    ));
    assert!(matches!(
        server.execute(lease(), context(2)).unwrap().response,
        Response::Value { value: Value::Bool(true), .. }
    ));
}

#[test]
fn denied_get_does_not_resolve_key_variables() {
    let record = AuthRecord {
        client_id: "denied".into(),
        name: "Denied".into(),
        roles: Vec::new(),
        permissions: Vec::new(),
        enabled: true,
    };
    let info = record.into_info("denied", 0).unwrap();
    let mut server = Server::new(Some(sessions()));
    server.fails = true;
    let result = server.execute(get("/profiles", "profile.${selected}"), with_auth(info));
    assert!(matches!(result, Err(Error::PermissionDenied(_))));
}

#[test]
fn role_limited_principal_is_denied_outside_its_namespace() {
    let record = AuthRecord {
        client_id: "limited".into(),
        name: "Limited".into(),
        roles: vec![Role::Read("/allowed".into()), Role::Write("/allowed".into())],
        permissions: Vec::new(),
        enabled: true,
    };
    let info = record.into_info("limited-key", 0).unwrap();
    let mut server = Server::new(Some(sessions()));
    for command in [
        get("/denied", "entry"),
        set("/denied", "entry", Value::Null, None),
        Command::Delete { namespace: namespace("/denied"), key_pattern: None },
        Command::Provide {
            namespace_pattern: NamespacePattern::new("/denied").unwrap(),
            key_pattern: KeyPattern::new("*").unwrap(),
            max_rate: None,
            timeout: None,
            miss_ttl: None,
        },
        Command::Store {
            namespace_pattern: NamespacePattern::new("/denied").unwrap(),
            key_pattern: KeyPattern::new("*").unwrap(),
        },
    ] {
        let context = RequestContext {
            owner: 1,
            adapter_instance: Some(2),
            auth: Some(info.clone()),
            variables: Table::new(),
        };
        assert!(matches!(
            server.execute(command, context),
            Err(Error::PermissionDenied(_))
        ));
    }
}

#[test]
fn key_variables_are_resolved_before_a_read() {
    let mut server = Server::new(None);
    server.write("/profiles", "selected", Value::Text("ada".into()), None);
    server.write("/profiles", "profile.ada", Value::from_u64(1), None);
    let outcome = server
        .execute(get("/profiles", "profile.${selected}"), anonymous())
        .unwrap();
    assert!(matches!(
        outcome.response,
        Response::Value { value, .. } if value == Value::from_u64(1)
    ));
    let mut variables = Table::new();
    variables.insert("selected".to_string(), "grace".to_string());
    server.write("/profiles", "profile.grace", Value::from_u64(2), None);
    let outcome = server
        .execute(
            get("/profiles", "profile.${selected}"),
            RequestContext { owner: 1, adapter_instance: None, auth: None, variables },
        )
        .unwrap();
    assert!(matches!(
        outcome.response,
        Response::Value { value, .. } if value == Value::from_u64(2)
    ));
}

#[test]
fn encrypted_values_are_sealed_in_the_store_and_opened_for_readers() {
    let mut server = Server::new(None);
    let record =
        json::parse(&format!("{{\"created\":1,\"key\":\"{}\"}}", "11".repeat(32))).unwrap();
    let missing = server.execute(
        set("/people::a", "~secret~", Value::from_u64(5), None),
        anonymous(),
    );
    assert!(matches!(missing, Err(Error::Encryption(_))));
    server.write(SECURITY_NAMESPACE, "/people", record, None);
    server
        .execute(set("/people::a", "~secret~", Value::from_u64(5), None), anonymous())
        .unwrap();
    let stored = server
        .read(&namespace("/people::a"), &key("secret"))
        .unwrap()
        .unwrap();
    assert_ne!(stored.value, Value::from_u64(5));
    let outcome = server.execute(get("/people::a", "~secret~"), anonymous()).unwrap();
    assert!(matches!(
        outcome.response,
        Response::Value { value, .. } if value == Value::from_u64(5)
    ));
}

#[test]
fn values_are_read_back_with_their_time_to_live() {
    let mut server = Server::new(None);
    server
        .execute(set("/values", "a", Value::from_u64(1), Some(60)), anonymous())
        .unwrap();
    server.now += 500_000_000;
    let outcome = server.execute(get("/values", "a"), anonymous()).unwrap();
    assert!(matches!(
        outcome.response,
        Response::Value { ttl_seconds: Some(60), .. }
    ));
    let outcome = server.execute(Command::Stats, anonymous()).unwrap();
    match outcome.response {
        Response::Stats(stats) => {
            assert_eq!((stats.requests, stats.hits, stats.misses, stats.values), (3, 1, 0, 1));
        }
        other => panic!("{other:?}"),
    }
    let outcome = server.execute(Command::Ping, anonymous()).unwrap();
    assert!(matches!(outcome.response, Response::Pong));
}

#[test]
fn changes_wait_for_the_store_that_keeps_them() {
    let mut server = Server::new(None);
    server
        .broker
        .registry_mut()
        .register_store(5, Some(6), "/values", "*", 0);
    let outcome = server
        .execute(set("/values", "a", Value::from_u64(1), None), anonymous())
        .unwrap();
    assert!(outcome.dispatch.is_some());
    assert!(outcome.pending_mutation.is_some());
    assert!(server.read(&namespace("/values"), &key("a")).unwrap().is_none());
    server.commit(outcome.pending_mutation.unwrap());
    assert!(server.read(&namespace("/values"), &key("a")).unwrap().is_some());
    server.broker.remove_owner(5);
    let outcome = server
        .execute(set("/values", "b", Value::from_u64(1), None), anonymous())
        .unwrap();
    assert!(outcome.dispatch.is_none());
}

#[test]
fn batches_are_written_together() {
    let mut server = Server::new(None);
    server
        .execute(
            Command::SetBatch {
                namespace: namespace("/values"),
                entries: vec![
                    SetEntry { key: key("a"), value: Value::from_u64(1) },
                    SetEntry { key: key("b"), value: Value::from_u64(2) },
                ],
                ttl_seconds: None,
            },
            anonymous(),
        )
        .unwrap();
    assert!(server.read(&namespace("/values"), &key("a")).unwrap().is_some());
    assert!(server.read(&namespace("/values"), &key("b")).unwrap().is_some());
    server
        .execute(
            Command::Move { source: namespace("/values::x"), destination: namespace("/values::y") },
            anonymous(),
        )
        .unwrap();
    server
        .execute(
            Command::Delete {
                namespace: namespace("/values"),
                key_pattern: Some(KeyPattern::new("a*").unwrap()),
            },
            anonymous(),
        )
        .unwrap();
    assert!(server.read(&namespace("/values"), &key("a")).unwrap().is_none());
}

#[test]
fn sessions_are_found_by_their_key() {
    let mut manager = bootstrapped();
    assert!(matches!(
        manager.authenticate("bootstrap", 0),
        AuthLookup::Authenticated(_)
    ));
    let entry = CacheEntry { value: Value::Null, expires_at: Some(5) };
    assert_eq!(
        memory::stored_value(&entry, 2).remaining_ttl,
        Some(Duration::from_nanos(3))
    );
}

fn reader_record() -> AuthRecord {
    AuthRecord {
        client_id: "reader".to_owned(),
        name: "Reader".to_owned(),
        roles: vec![Role::Read("/values".to_owned())],
        permissions: Vec::new(),
        enabled: true,
    }
}

#[test]
fn provider_loaded_sessions_are_refreshed_and_revoked() {
    let mut server = Server::new(Some(sessions()));
    server.provide(1, AUTH_NAMESPACE, "*", rate(None));
    assert!(!server.broker.schedule_auth_refresh("reader", 0));
    let pending = server.execute(auth("reader"), anonymous()).unwrap();
    assert!(pending.dispatch.is_some());
    assert!(matches!(
        server.broker.authenticate_request("reader", 0),
        Err(Error::AuthenticationFailed)
    ));
    let refresh = server
        .broker
        .complete_auth_provider_load("reader", Some(reader_record()), 0)
        .unwrap();
    let info = server.broker.authenticate_request("reader", 0).unwrap();
    assert_eq!(info.client_id, "reader");
    assert!(server.broker.auth_provider_dispatch("reader", 0).is_none());
    assert!(server.broker.schedule_auth_refresh("reader", refresh.as_nanos()));
    assert!(!server.broker.schedule_auth_refresh("reader", refresh.as_nanos()));
    let dispatch = server.broker.auth_provider_dispatch("reader", refresh.as_nanos()).unwrap();
    assert!(dispatch.authentication);
    assert_eq!(dispatch.owner, 1);
    server.broker.fail_auth_provider_load("reader", refresh.as_nanos());
    assert!(server.broker.authenticate_request("reader", refresh.as_nanos()).is_err());
}

#[test]
fn malformed_provider_records_are_rejected() {
    let mut server = Server::new(Some(sessions()));
    server.provide(1, AUTH_NAMESPACE, "*", rate(None));
    server.execute(auth("reader"), anonymous()).unwrap();
    assert!(server.broker.complete_auth_provider_load("reader", None, 0).is_none());
    let outcome = server.execute(auth("reader"), anonymous()).unwrap();
    assert!(matches!(outcome.response, Response::AuthFailure { message } if message == "invalid API key"));
}

#[test]
fn provider_values_are_encrypted_before_they_are_stored() {
    let mut server = Server::new(None);
    let record =
        json::parse(&format!("{{\"created\":1,\"key\":\"{}\"}}", "11".repeat(32))).unwrap();
    let value = json::parse("{\"name\":\"Ada\"}").unwrap();
    let request = |encrypted: bool| ValueRequest {
        namespace: namespace("/people::eu"),
        key: key("ada"),
        encrypted,
    };
    let offered = || SetRequest {
        namespace: namespace("/people::eu"),
        key: key("ada"),
        value: json::parse("{\"name\":\"Ada\"}").unwrap(),
        ttl: None,
        source: None,
    };
    let step = server.broker.accept_provider_value(offered(), true);
    let missing = server.run(step);
    assert!(matches!(missing, Err(Error::Encryption(message))
        if message == "encryption key for scope '/people' is not loaded"));
    server.write(SECURITY_NAMESPACE, "/people", record, None);
    let step = server.broker.accept_provider_value(offered(), true);
    server.run(step).unwrap();
    let stored = server.read(&namespace("/people::eu"), &key("ada")).unwrap().unwrap();
    assert!(stored.value != value);
    let load = server.load_key(&key("/people"));
    let answer = cached_value_response(
        &request(true),
        server.read(&namespace("/people::eu"), &key("ada")),
        load,
    );
    assert!(matches!(answer, Ok(Some(Response::Value { value: answered, .. })) if answered == value));
    let step = server.broker.accept_provider_value(offered(), false);
    server.run(step).unwrap();
    let plain = cached_value_response(
        &request(false),
        server.read(&namespace("/people::eu"), &key("ada")),
        KeyLoad::Missing,
    );
    assert!(matches!(plain, Ok(Some(Response::Value { value: answered, .. })) if answered == value));
    let absent = cached_value_response(
        &request(false),
        server.read(&namespace("/people"), &key("ada")),
        KeyLoad::Missing,
    );
    assert!(matches!(absent, Ok(None)));
}

#[test]
fn missing_encryption_keys_are_asked_of_their_provider() {
    let mut server = Server::new(None);
    let without = server
        .broker
        .security_key_provider_dispatch(&namespace("/people::eu"), KeyLoad::Missing);
    assert!(matches!(without, Err(Error::Encryption(message))
        if message == "no /__secrets provider is registered for scope '/people'"));
    server.provide(4, SECURITY_NAMESPACE, "*", rate(None));
    let dispatch = server
        .broker
        .security_key_provider_dispatch(&namespace("/people::eu"), KeyLoad::Missing)
        .unwrap()
        .unwrap();
    assert_eq!(dispatch.owner, 4);
    assert!(matches!(dispatch.command, ServerCommand::Query { namespace, key, .. }
        if namespace.as_str() == SECURITY_NAMESPACE && key.as_str() == "/people"));
    let loaded = KeyLoad::Found(SecurityKeyRecord { key: "11".repeat(32), created: 1 });
    assert!(matches!(
        server.broker.security_key_provider_dispatch(&namespace("/people"), loaded),
        Ok(None)
    ));
    assert!(server
        .broker
        .security_key_provider_dispatch(&namespace("/people"), KeyLoad::Malformed)
        .is_err());
}

#[test]
fn encrypted_commands_are_authorized_before_keys_are_loaded() {
    let mut server = Server::new(Some(bootstrapped()));
    let admin = bootstrap(&mut server);
    let now = server.now;
    assert!(server
        .broker
        .authorize_encrypted_command(&get("/people", "ada"), &anonymous(), now)
        .is_ok());
    assert!(matches!(
        server.broker.authorize_encrypted_command(&get("/people", "~ada~"), &anonymous(), now),
        Err(Error::AuthenticationFailed)
    ));
    assert!(server
        .broker
        .authorize_encrypted_command(&get("/people", "~ada~"), &with_auth(admin), now)
        .is_ok());
}

#[test]
fn reported_misses_name_a_refresh_that_is_still_current() {
    let mut server = Server::new(None);
    server.provide(1, "/values", "*", rate(None));
    let dispatch = server
        .execute(get("/values", "one"), anonymous())
        .unwrap()
        .dispatch
        .unwrap();
    let refresh = dispatch.provider_refresh_id.unwrap();
    let generation = dispatch.mutation_generation;
    let (n, k) = (namespace("/values"), key("one"));
    assert!(!server.broker.report_provider_miss(&n, &k, 0, generation, refresh));
    assert!(server.broker.report_provider_miss(&n, &k, 30, generation, refresh));
    assert_eq!(server.broker.active_route_count(), 1);
    assert!(!server.broker.report_provider_miss(&n, &k, 30, generation + 1, refresh));
    assert_eq!(server.broker.active_route_count(), 0);
}

#[test]
fn any_number_of_changes_is_told_apart_by_the_routes_they_touch() {
    let change = |name: &str| PendingMutation::SetValue {
        namespace: namespace("/values"),
        key: key(name),
        value: Value::Text("temporary".into()),
        ttl: Some(Duration::from_millis(1)),
    };
    let mut server = Server::new(None);
    server.provide(1, "/values", "*", rate(None));
    let ask = |server: &mut Server, name: &str| {
        server.execute(get("/values", name), anonymous()).unwrap().dispatch
    };
    let touched = ask(&mut server, "touched").unwrap();
    let untouched = ask(&mut server, "untouched").unwrap();
    for name in ["other", "touched", "another", "touched", "other"] {
        server.commit(change(name));
    }
    server.commit(PendingMutation::Move {
        source: namespace("/values::old"),
        destination: namespace("/values::new"),
    });
    server.now += 10_000_000;
    server.confirm("/values", "touched", 60, &touched);
    server.confirm("/values", "untouched", 60, &untouched);
    let again = ask(&mut server, "touched").unwrap();
    assert!(again.provider_refresh_id != touched.provider_refresh_id);
    let marked = server.execute(get("/values", "untouched"), anonymous()).unwrap();
    assert!(marked.dispatch.is_none());
    assert!(matches!(marked.response, Response::Miss { retry_after_ms: 0 }));
}
