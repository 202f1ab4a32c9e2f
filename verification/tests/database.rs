use valkyr::db::bridge::{namespace_pattern_captures, namespace_pattern_matches, route_captures};
use valkyr::db::callback::{forward_targets, BridgeStep, CallbackBridge, ForwardedMutation};
use valkyr::db::config::{
    loaded_api_key, AdapterConfig, DatabaseConfig, InitConfig, LogFormat, LoggingConfig,
    ProviderConfig, QueryConfig, StoreConfig, ValkyrConfig, ValkyrEndpoint,
};
use valkyr::db::error::AdapterError;
use valkyr::db::plan::{
    any_parameters, AnyParameter, DatabaseQueryProvider, DatabaseStoreWriter, DatabaseValue,
};
use valkyr::db::publisher::{
    by_namespace, delivery_started, first_attempt, lease_step, leases_acquired, leases_released,
    replicated, second_attempt, value_published, Adapter, DeliveryStep, GroupStep, LeaseStep,
    PublishStep,
};
use valkyr::db::rows::{any_json, column_index, provider_value, Column, ProviderRow};
use valkyr::db::service::{after_failure, reconnect_delay, registration, Retry};
use valkyr::client::{ClientError, ScheduleLease};
use valkyr::duration::{self, Duration};
use valkyr::json::{self, Value};
use valkyr::line_protocol::encode_command;
use valkyr::{
    Key, KeyPattern, NamespaceContext, Pattern, ProvideOptions, ServerCommand, ServerResult,
    SetEntry,
};

fn namespace(text: &str) -> NamespaceContext {
    NamespaceContext::new(text).unwrap()
}

fn key(text: &str) -> Key {
    Key::new(text).unwrap()
}

fn endpoint(url: &str) -> ValkyrEndpoint {
    ValkyrEndpoint {
        url: url.into(),
        api_key_file: "api-key".into(),
        api_key_file_exists: true,
        ca_certificate_file: None,
        ca_certificate_exists: false,
        api_key: "test-key".into(),
    }
}

fn valkyr(endpoints: Vec<ValkyrEndpoint>) -> ValkyrConfig {
    ValkyrConfig {
        endpoints,
        provider_wait_timeout: None,
        miss_cache_ttl: None,
        request_timeout: Duration::from_secs(5),
        max_retries: 9,
    }
}

fn config() -> AdapterConfig {
    AdapterConfig {
        database: DatabaseConfig {
            url: "sqlite://./state.db".into(),
            max_connections: 5,
            connection_timeout_seconds: 30,
            query_timeout_seconds: 30,
        },
        valkyr: valkyr(vec![endpoint("tcp://127.0.0.1:8081")]),
        logging: LoggingConfig::default(),
        providers: Vec::new(),
        queries: Vec::new(),
        stores: Vec::new(),
        init: Vec::new(),
    }
}

fn query(namespace_pattern: &str, key_pattern: &str, parameters: &[&str]) -> QueryConfig {
    QueryConfig {
        namespace_pattern: namespace_pattern.into(),
        key_pattern: key_pattern.into(),
        query: "SELECT value FROM values_table WHERE id = ?".into(),
        parameters: parameters.iter().map(|name| name.to_string()).collect(),
        description: None,
        timeout_seconds: None,
        ttl_seconds: None,
        provider_wait_timeout: None,
        miss_cache_ttl: None,
    }
}

fn store(namespace_pattern: &str) -> StoreConfig {
    StoreConfig {
        namespace_pattern: namespace_pattern.into(),
        key_pattern: "*".into(),
        set_query: "INSERT INTO values_table(namespace, state_key) VALUES (?, ?)".into(),
        set_parameters: vec!["namespace".into(), "key".into()],
        delete_query: "DELETE FROM values_table WHERE namespace = ?".into(),
        delete_parameters: vec!["namespace".into()],
        move_ns_query: None,
        move_ns_pattern: None,
        move_ns_parameters: Vec::new(),
        delete_ns_query: None,
        delete_ns_parameters: Vec::new(),
        timeout_seconds: 5,
    }
}

fn complaint(result: Result<(), AdapterError>) -> String {
    match result {
        Err(AdapterError::Configuration(message)) => message,
        other => panic!("{other:?}"),
    }
}

#[test]
fn route_captures_use_cached_context_semantics() {
    for (text, expected_context) in [
        ("/tenant", ""),
        ("/tenant::user", "user"),
        ("::tenant", ""),
        ("/tenant::", ""),
        ("/tenant::user::region", "user::region"),
    ] {
        let namespace = namespace(text);
        let key = key("value");
        let captures = route_captures("*", "{field}", &namespace, &key).unwrap();

        assert_eq!(captures.get("context").unwrap(), expected_context);
        assert_eq!(captures.get("field").unwrap(), "value");
    }
}

#[test]
fn literal_adapter_namespace_pattern_accepts_a_context_suffix() {
    let captures =
        route_captures("/svcx", "{field}", &namespace("/svcx::20818"), &key("voice")).unwrap();
    assert_eq!(captures.get("context").unwrap(), "20818");
    assert_eq!(captures.get("field").unwrap(), "voice");
}

#[test]
fn context_parameter_is_empty_without_a_context_route() {
    let people = namespace("/people");
    let ada = key("ada");
    let captures = route_captures("/people", "{id}", &people, &ada).unwrap();
    assert!(matches!(
        any_parameters(
            &vec!["context".into()],
            &people,
            Some(&ada),
            None,
            None,
            None,
            &captures,
        )
        .unwrap()
        .as_slice(),
        [AnyParameter::Text(context)] if context.is_empty()
    ));
}

#[test]
fn context_parameters_use_cached_route_context_for_query_and_store() {
    for (text, expected_context) in [
        ("/tenant", ""),
        ("/tenant::user", "user"),
        ("::tenant", ""),
        ("/tenant::", ""),
        ("/tenant::user::region", "user::region"),
    ] {
        let namespace = namespace(text);
        let key = key("value");
        let captures = route_captures("*", "{field}", &namespace, &key).unwrap();
        let parameters = any_parameters(
            &vec!["context".into()],
            &namespace,
            Some(&key),
            None,
            None,
            None,
            &captures,
        )
        .unwrap();

        assert!(matches!(
            parameters.as_slice(),
            [AnyParameter::Text(context)] if context == expected_context
        ));
    }
}

#[test]
fn parameters_have_their_built_in_meanings() {
    let people = namespace("/people");
    let ada = key("ada");
    let captures = route_captures("/people", "{id}", &people, &ada).unwrap();
    let value = json::parse("{\"name\":\"Ada\"}").unwrap();
    let names: Vec<String> = ["namespace", "key", "id", "value", "ttl_seconds"]
        .iter()
        .map(|name| name.to_string())
        .collect();
    let parameters = any_parameters(
        &names,
        &people,
        Some(&ada),
        None,
        Some(&value),
        Some(Duration::from_secs(42)),
        &captures,
    )
    .unwrap();
    assert!(matches!(
        parameters.as_slice(),
        [
            AnyParameter::Text(n),
            AnyParameter::Text(k),
            AnyParameter::Text(id),
            AnyParameter::Text(v),
            AnyParameter::Integer(42),
        ] if n == "/people" && k == "ada" && id == "ada" && v == "{\"name\":\"Ada\"}"
    ));
    assert!(any_parameters(
        &vec!["missing".into()],
        &people,
        Some(&ada),
        None,
        None,
        None,
        &captures
    )
    .is_err());
}

#[test]
fn move_uses_destination_pattern_captures() {
    let config = StoreConfig {
        move_ns_query: Some("UPDATE values_table SET namespace = ? WHERE namespace = ?".into()),
        move_ns_pattern: Some("/people/{new}".into()),
        move_ns_parameters: vec!["new".into(), "old".into()],
        ..store("/people/{old}")
    };
    let writer = DatabaseStoreWriter::new(config).unwrap();
    let captures = namespace_pattern_captures("/people/{old}", "/people/ada").unwrap();
    assert_eq!(captures.get("old").unwrap(), "ada");
    let captures = namespace_pattern_captures("/people/{new}", "/people/grace").unwrap();
    assert_eq!(captures.get("new").unwrap(), "grace");
    let plan = writer
        .move_namespace(&namespace("/people/ada"), &namespace("/people/grace"))
        .unwrap();
    assert_eq!(plan.query, "UPDATE values_table SET namespace = ? WHERE namespace = ?");
    assert!(matches!(
        plan.parameters.as_slice(),
        [AnyParameter::Text(new), AnyParameter::Text(old)] if new == "grace" && old == "ada"
    ));
}

#[test]
fn move_binds_cached_source_and_destination_contexts() {
    let config = StoreConfig {
        move_ns_query: Some(
            "INSERT INTO moves(source_context, destination_context) VALUES (?, ?)".into(),
        ),
        move_ns_pattern: Some("*".into()),
        move_ns_parameters: vec!["source_context".into(), "destination_context".into()],
        set_parameters: Vec::new(),
        delete_parameters: Vec::new(),
        ..store("*")
    };
    let writer = DatabaseStoreWriter::new(config).unwrap();
    for (source, destination, expected) in [
        ("/tenant", "/other", "|"),
        ("/tenant::user", "/other::admin", "user|admin"),
        ("::tenant", "/other::", "|"),
        (
            "/tenant::user::region",
            "/other::admin::west",
            "user::region|admin::west",
        ),
    ] {
        let plan = writer
            .move_namespace(&namespace(source), &namespace(destination))
            .unwrap();
        match plan.parameters.as_slice() {
            [AnyParameter::Text(a), AnyParameter::Text(b)] => {
                assert_eq!(format!("{a}|{b}"), expected)
            }
            other => panic!("{other:?}"),
        }
    }
}

#[test]
fn stores_plan_their_statements() {
    let writer = DatabaseStoreWriter::new(store("/people")).unwrap();
    assert!(writer.matches(&namespace("/people::x"), None));
    assert!(!writer.matches(&namespace("/other"), None));
    let value = DatabaseValue {
        namespace: namespace("/people"),
        key: key("ada"),
        value: Value::from_u64(1),
        ttl: None,
    };
    let plan = writer.set(&value).unwrap();
    assert!(matches!(
        plan.parameters.as_slice(),
        [AnyParameter::Text(n), AnyParameter::Text(k)] if n == "/people" && k == "ada"
    ));
    let batch = writer
        .set_batch(
            &namespace("/people"),
            &vec![
                SetEntry { key: key("a"), value: Value::from_u64(1) },
                SetEntry { key: key("b"), value: Value::from_u64(2) },
            ],
            None,
        )
        .unwrap();
    assert_eq!(batch.len(), 2);
    let pattern = KeyPattern::new("a*").unwrap();
    let plan = writer.delete(&namespace("/people"), Some(&pattern)).unwrap();
    assert_eq!(plan.query, "DELETE FROM values_table WHERE namespace = ?");
    assert!(writer.delete(&namespace("/people"), None).is_err());
    assert!(writer
        .move_namespace(&namespace("/people"), &namespace("/people"))
        .is_err());
}

#[test]
fn accepts_valkyr_configuration_and_dollar_brace_captures() {
    let mut config = config();
    config.queries.push((
        "service".into(),
        query("/services/${service}", "{id}", &["service"]),
    ));
    config.validate().unwrap();
}

#[test]
fn accepts_structured_json_logging_configuration() {
    let mut config = config();
    config.logging = LoggingConfig {
        level: "valkyr_db_adapter=debug,valkyr_client=info".into(),
        format: LogFormat::Json,
        target: true,
        thread_names: true,
        ansi: false,
    };
    config.validate().unwrap();
    assert_eq!(config.logging.format, LogFormat::Json);
    assert!(config.logging.target);
    assert!(config.logging.thread_names);
    assert!(!config.logging.ansi);
}

#[test]
fn config_provider_options_inherit_each_field_independently() {
    let mut defaults = valkyr(Vec::new());
    defaults.provider_wait_timeout = Some(duration::parse("11ms").unwrap());
    defaults.miss_cache_ttl = Some(duration::parse("22s").unwrap());
    let with = |provider_wait_timeout, miss_cache_ttl| QueryConfig {
        provider_wait_timeout,
        miss_cache_ttl,
        ..query("/values", "*", &[])
    };
    assert_eq!(
        defaults.provider_options(&with(None, None)).unwrap(),
        ProvideOptions { max_rate: None, timeout_ms: 11, miss_ttl_seconds: 22 }
    );
    assert_eq!(
        defaults
            .provider_options(&with(Some(Duration::from_secs(0)), Some(Duration::from_secs(7))))
            .unwrap(),
        ProvideOptions { max_rate: None, timeout_ms: 0, miss_ttl_seconds: 7 }
    );
    assert_eq!(
        defaults
            .provider_options(&with(Some(Duration::from_millis(5)), None))
            .unwrap(),
        ProvideOptions { max_rate: None, timeout_ms: 5, miss_ttl_seconds: 22 }
    );
    let mut converted = valkyr(Vec::new());
    converted.provider_wait_timeout = Some(duration::parse("1.5s").unwrap());
    converted.miss_cache_ttl = Some(duration::parse("1m").unwrap());
    assert_eq!(
        converted.provider_options(&with(None, None)).unwrap(),
        ProvideOptions { max_rate: None, timeout_ms: 1_500, miss_ttl_seconds: 60 }
    );
}

#[test]
fn config_rejects_lossy_and_overflowing_wire_durations() {
    let lossy = QueryConfig {
        provider_wait_timeout: Some(Duration::from_nanos(1)),
        miss_cache_ttl: Some(Duration::from_millis(1)),
        ..query("/values", "*", &[])
    };
    let defaults = valkyr(Vec::new());
    assert!(defaults.provider_options(&lossy).is_err());

    let mut overflowing = valkyr(Vec::new());
    overflowing.provider_wait_timeout =
        Some(duration::parse("18446744073709551616ms").unwrap());
    assert!(overflowing
        .provider_options(&QueryConfig { provider_wait_timeout: None, ..lossy })
        .is_err());
}

#[test]
fn rejects_undeclared_callback_parameters_during_validation() {
    let mut config = config();
    config.queries.push((
        "service".into(),
        query("/services/{service}", "{id}", &["missing"]),
    ));
    assert!(complaint(config.validate()).contains("missing"));
}

#[test]
fn rejects_missing_credential_file() {
    let mut config = config();
    config.valkyr.endpoints[0].api_key_file_exists = false;
    assert!(complaint(config.validate()).contains("does not exist"));
}

#[test]
fn rejects_empty_credential_file_and_trims_loaded_key() {
    assert!(matches!(
        loaded_api_key(" \n\t", "api-key"),
        Err(AdapterError::Configuration(message)) if message.contains("must not be empty")
    ));
    assert_eq!(loaded_api_key("  trimmed-key  \n", "api-key").unwrap(), "trimmed-key");
    assert!(config().validate().is_ok());
}

#[test]
fn rejects_ca_configuration_on_plain_tcp_endpoint() {
    let mut config = config();
    config.valkyr.endpoints[0].ca_certificate_file = Some("ca.crt".into());
    config.valkyr.endpoints[0].ca_certificate_exists = true;
    assert!(complaint(config.validate()).contains("not TLS"));
}

#[test]
fn complaints_come_in_order() {
    let mut config = config();
    config.database.url = " ".into();
    config.valkyr.endpoints.clear();
    assert_eq!(complaint(config.validate()), "database.url is required");
    config.database.url = "sqlite::memory:".into();
    assert_eq!(
        complaint(config.validate()),
        "at least one Valkyr endpoint is required"
    );
    config.valkyr.endpoints.push(endpoint("http://x"));
    assert_eq!(
        complaint(config.validate()),
        "Valkyr endpoint 0 uses unsupported URL scheme 'http'"
    );
    config.valkyr.endpoints[0].url = "tls://".into();
    assert_eq!(complaint(config.validate()), "Valkyr endpoint 0 URL must not be empty");
    config.valkyr.endpoints[0].url = "tls://host:1".into();
    config.logging.level = "".into();
    assert_eq!(complaint(config.validate()), "logging.level must not be empty");
    config.logging.level = "info".into();
    config.init.push(InitConfig { name: "".into(), sql: "x".into(), timeout_seconds: 1 });
    assert!(config.validate().is_err());
}

#[test]
fn schedules_are_cron_expressions() {
    let provider = |frequency: &str| ProviderConfig {
        namespace_pattern: None,
        key_pattern: None,
        query: "SELECT 1".into(),
        frequency: frequency.into(),
        run_on_startup: false,
        ttl_seconds: None,
        description: None,
    };
    assert!(provider("0 * * * * *").schedule().is_ok());
    assert!(complaint(provider("nonsense").schedule())
        .starts_with("invalid provider cron 'nonsense': "));
    let mut config = config();
    config.providers.push(("p".into(), provider("nonsense")));
    assert!(complaint(config.validate()).starts_with("invalid provider cron"));
}

#[test]
fn caps_delay_between_failed_reconnect_cycles() {
    assert_eq!(reconnect_delay(1), Duration::from_millis(250));
    assert_eq!(reconnect_delay(2), Duration::from_millis(500));
    assert_eq!(reconnect_delay(u32::MAX), Duration::from_secs(30));
}

#[test]
fn failed_connections_are_retried_up_to_a_limit() {
    assert!(matches!(
        after_failure(3, 9, "refused"),
        Retry::Wait(delay) if delay == Duration::from_millis(1000)
    ));
    assert!(matches!(
        after_failure(9, 9, "refused"),
        Retry::Failed(message)
            if message == "callback reconnection failed after 9 attempts: refused"
    ));
    let mut last = Duration::from_nanos(0);
    for attempt in 0..40 {
        let delay = reconnect_delay(attempt);
        assert!(delay.as_nanos() >= last.as_nanos());
        last = delay;
    }
    assert_eq!(last, Duration::from_secs(30));
}

#[test]
fn registrations_carry_inherited_options() {
    let mut config = config();
    config.valkyr.provider_wait_timeout = Some(Duration::from_millis(700));
    config.valkyr.miss_cache_ttl = Some(Duration::from_secs(40));
    config.queries.push((
        "people".into(),
        QueryConfig {
            provider_wait_timeout: Some(Duration::from_secs(0)),
            ..query("/people", "*", &[])
        },
    ));
    config.stores.push(("people".into(), store("/people")));
    let first = registration(&config, 0).unwrap().unwrap();
    assert_eq!(
        encode_command(&first.command).unwrap(),
        "PROVIDE /people * TIMEOUT 0 MISS_TTL 40"
    );
    assert_eq!(first.failure, "could not register query 'people': ");
    let second = registration(&config, 1).unwrap().unwrap();
    assert_eq!(encode_command(&second.command).unwrap(), "STORE /people *");
    assert_eq!(second.failure, "could not register store 'people': ");
    assert!(registration(&config, 2).is_none());
    config.stores[0].1.key_pattern = String::new();
    assert_eq!(
        registration(&config, 1).unwrap().unwrap_err(),
        "invalid store key pattern: key pattern must not be empty"
    );
}

#[test]
fn endpoints_connect_with_their_own_key() {
    let builder = endpoint("tls://valkyr.test:8443").client_builder(
        Some(7u8),
        5,
        Duration::from_secs(1),
    );
    let mut attempts = builder.connect().unwrap();
    let (server, tls) = attempts.next().unwrap();
    assert_eq!(server.address, "valkyr.test:8443");
    assert!(server.use_tls);
    assert_eq!(tls, Some(7));
    assert_eq!(endpoint("tcp://a:1").address(), "a:1");
    assert!(!endpoint("a:1").uses_tls());
}

#[test]
fn provider_uses_configured_namespace_and_row_context() {
    let row = ProviderRow {
        namespace: None,
        ns: None,
        context: Some("20818".into()),
        key: Ok("voice".into()),
        value: any_json(Column::Text(Some("\"hello\"".into()))),
        ttl_seconds: None,
    };
    let value = provider_value(row, &Some("/svcx".into()), Some(60)).unwrap();
    assert_eq!(value.namespace.as_str(), "/svcx::20818");
    assert_eq!(value.key.as_str(), "voice");
    assert_eq!(value.value, Value::Text("hello".into()));
    assert_eq!(value.ttl, Some(Duration::from_secs(60)));
}

#[test]
fn provider_uses_base_namespace_for_an_empty_row_context() {
    let row = ProviderRow {
        namespace: None,
        ns: None,
        context: Some("".into()),
        key: Ok("voice".into()),
        value: any_json(Column::Text(Some("\"hello\"".into()))),
        ttl_seconds: None,
    };
    let value = provider_value(row, &Some("/svcx".into()), None).unwrap();
    assert_eq!(value.namespace.as_str(), "/svcx");
}

#[test]
fn provider_rejects_decorated_namespace_with_a_context_column() {
    let row = ProviderRow {
        namespace: Some("/svcx::existing".into()),
        ns: None,
        context: Some("next".into()),
        key: Ok("voice".into()),
        value: any_json(Column::Text(Some("\"hello\"".into()))),
        ttl_seconds: None,
    };
    assert!(matches!(
        provider_value(row, &None, None),
        Err(AdapterError::Configuration(message)) if message.contains("decorated namespace")
    ));
}

#[test]
fn rows_carry_their_own_namespace_and_time_to_live() {
    let row = ProviderRow {
        namespace: Some("/people".into()),
        ns: None,
        context: None,
        key: Ok("ada".into()),
        value: any_json(Column::Text(Some("{\"name\":\"Ada\"}".into()))),
        ttl_seconds: Some(42),
    };
    let value = provider_value(row, &None, None).unwrap();
    assert_eq!(value.value, json::parse("{\"name\":\"Ada\"}").unwrap());
    assert_eq!(value.ttl, Some(Duration::from_secs(42)));
}

#[test]
fn columns_become_json() {
    assert_eq!(any_json(Column::Integer(Some(-3))).unwrap(), Value::Number("-3".into()));
    assert_eq!(any_json(Column::Integer(None)).unwrap(), Value::Null);
    assert_eq!(any_json(Column::Bool(Some(true))).unwrap(), Value::Bool(true));
    assert_eq!(
        any_json(Column::Text(Some("plain".into()))).unwrap(),
        Value::Text("plain".into())
    );
    assert!(any_json(Column::Unreadable).is_err());
    let names = vec!["id".to_string(), "value".to_string()];
    assert_eq!(column_index(&names, "value").unwrap(), 1);
    assert!(matches!(
        column_index(&names, "key"),
        Err(AdapterError::Configuration(message))
            if message == "database row has no 'key' column"
    ));
}

#[test]
fn requests_go_to_the_first_query_and_the_last_store() {
    let provider = |pattern: &str, timeout| {
        DatabaseQueryProvider::new(QueryConfig {
            timeout_seconds: timeout,
            ..query(pattern, "{id}", &["id"])
        })
        .unwrap()
    };
    let bridge = CallbackBridge::new(
        vec![provider("/people", Some(1)), provider("*", Some(2))],
        vec![
            DatabaseStoreWriter::new(store("*")).unwrap(),
            DatabaseStoreWriter::new(StoreConfig { timeout_seconds: 9, ..store("/people") })
                .unwrap(),
        ],
    );
    match bridge.handle(ServerCommand::Query {
        request_id: 1,
        namespace: namespace("/people"),
        key: key("ada"),
    }) {
        BridgeStep::Query { request_id: 1, query_timeout_seconds, .. } => {
            assert_eq!(query_timeout_seconds, Some(1))
        }
        other => panic!("{other:?}"),
    }
    match bridge.handle(ServerCommand::PersistSet {
        request_id: 2,
        namespace: namespace("/people"),
        key: key("ada"),
        value: Value::from_u64(1),
        ttl_seconds: None,
    }) {
        BridgeStep::Persist { request_id: 2, forward, .. } => {
            assert_eq!(forward.name(), "set");
            assert_eq!(encode_command(&forward.command()).unwrap(), "SET /people ada 1");
        }
        other => panic!("{other:?}"),
    }
    let empty = CallbackBridge::new(Vec::new(), Vec::new());
    assert!(matches!(
        empty.handle(ServerCommand::Query {
            request_id: 3,
            namespace: namespace("/people"),
            key: key("ada"),
        }),
        BridgeStep::Finished(ServerResult::Query { request_id: 3, value: None, error: None, .. })
    ));
    assert!(matches!(
        empty.handle(ServerCommand::PersistDelete {
            request_id: 4,
            namespace: namespace("/people"),
            key_pattern: None,
        }),
        BridgeStep::Finished(ServerResult::Operation { request_id: 4, error: Some(_) })
    ));
    assert_eq!(forward_targets(3, 1), vec![0, 2]);
}

#[test]
fn configured_bridges_hold_their_queries_and_stores() {
    let mut config = config();
    config.queries.push(("a".into(), query("/a", "{id}", &["id"])));
    config.stores.push(("b".into(), store("/b")));
    let bridge = config.database_callback_bridge().unwrap();
    assert_eq!(bridge.queries[0].config.namespace_pattern, "/a");
    assert_eq!(bridge.stores[0].config.namespace_pattern, "/b");
    let mut bad = self::config();
    bad.queries.push(("a".into(), query("/a", "{id}", &["missing"])));
    assert!(bad.database_callback_bridge().is_err());
}

#[test]
fn values_are_grouped_by_namespace_in_order() {
    let value = |n: &str, k: &str| DatabaseValue {
        namespace: namespace(n),
        key: key(k),
        value: Value::Null,
        ttl: None,
    };
    let groups = by_namespace(vec![value("/b", "1"), value("/a", "2"), value("/b", "3")]);
    let shown: Vec<(String, Vec<String>)> = groups
        .iter()
        .map(|group| {
            (
                group.namespace.as_str().to_owned(),
                group.values.iter().map(|v| v.key.as_str().to_owned()).collect(),
            )
        })
        .collect();
    assert_eq!(
        shown,
        vec![
            ("/a".to_string(), vec!["2".to_string()]),
            ("/b".to_string(), vec!["1".to_string(), "3".to_string()]),
        ]
    );
}

#[test]
fn publishing_is_tried_twice_on_a_lost_connection() {
    assert!(matches!(first_attempt(Ok(())), PublishStep::Finished(Ok(()))));
    assert!(matches!(
        first_attempt(Err(ClientError::Closed)),
        PublishStep::Reconnect
    ));
    assert!(matches!(
        first_attempt(Err(ClientError::Server("no".into()))),
        PublishStep::Finished(Err(_))
    ));
    assert!(second_attempt(Err(ClientError::Closed)).is_err());
    assert!(replicated(&Vec::new()).is_ok());
    let failures = vec![
        (0usize, AdapterError::Configuration("x".into())),
        (2usize, AdapterError::Configuration("y".into())),
    ];
    assert!(matches!(
        replicated(&failures),
        Err(AdapterError::Replication(message))
            if message == "0: invalid adapter configuration: x, 2: invalid adapter configuration: y"
    ));
    assert_eq!(lease_step(&Ok(ScheduleLease::Unavailable)), LeaseStep::Skip);
    assert_eq!(lease_step(&Err(ClientError::Closed)), LeaseStep::Forget);
    let adapter = Adapter::new(1u8, 2u8);
    assert_eq!((adapter.source, adapter.publisher), (1, 2));
}

#[test]
fn namespaces_match_literally_or_with_a_context() {
    assert!(namespace_pattern_matches("/a", "/a"));
    assert!(namespace_pattern_matches("/a", "/a::x"));
    assert!(!namespace_pattern_matches("/a", "/ab"));
    assert!(namespace_pattern_matches("/a/*", "/a/b"));
    assert!(Pattern::new("/a").matches("/a::x").is_none());
    let forwarded = ForwardedMutation::Move {
        source: namespace("/a::x"),
        destination: namespace("/a::y"),
    };
    assert_eq!(encode_command(&forwarded.command()).unwrap(), "MOVE /a::x /a::y");
}

/// Runs a delivery of groups, each by the numbers of its values and owners, where one
/// publication may fail. Gives the publications, the groups whose leases were given
/// back, and what came of it.
fn deliver(
    groups: &[(usize, usize)],
    failing: Option<(usize, usize, usize)>,
) -> (Vec<(usize, usize, usize)>, Vec<usize>, Result<usize, AdapterError>) {
    let count = groups.iter().map(|group| group.0).sum();
    let mut published = Vec::new();
    let mut released = Vec::new();
    let mut step = delivery_started(groups.len(), count);
    loop {
        let group = match step {
            GroupStep::Acquire { group } => group,
            GroupStep::Finished(result) => return (published, released, result),
        };
        let (values, owners) = groups[group];
        let mut next = leases_acquired(values, owners);
        let result = loop {
            match next {
                DeliveryStep::Publish { value, owner } => {
                    published.push((group, value, owner));
                    let result = if failing == Some((group, value, owner)) {
                        Err(AdapterError::Publish(ClientError::Closed))
                    } else {
                        Ok(())
                    };
                    next = value_published(values, owners, value, owner, result);
                }
                DeliveryStep::Release(result) => break result,
            }
        };
        released.push(group);
        step = leases_released(groups.len(), count, group, result);
    }
}

#[test]
fn deliveries_go_out_in_order_and_stop_at_the_first_failure() {
    let groups = [(2, 2), (3, 0), (1, 1)];
    let (published, released, result) = deliver(&groups, None);
    assert_eq!(published, vec![(0, 0, 0), (0, 0, 1), (0, 1, 0), (0, 1, 1), (2, 0, 0)]);
    assert_eq!(released, vec![0, 1, 2]);
    assert!(matches!(result, Ok(6)));

    let (published, released, result) = deliver(&groups, Some((0, 0, 1)));
    assert_eq!(published, vec![(0, 0, 0), (0, 0, 1)]);
    assert_eq!(released, vec![0]);
    assert!(matches!(result, Err(AdapterError::Publish(ClientError::Closed))));

    let (published, released, result) = deliver(&[], None);
    assert!(published.is_empty() && released.is_empty());
    assert!(matches!(result, Ok(0)));
}

#[test]
fn one_publisher_gets_every_value_once() {
    let (published, _, result) = deliver(&[(3, 1)], None);
    assert_eq!(published, vec![(0, 0, 0), (0, 1, 0), (0, 2, 0)]);
    assert!(matches!(result, Ok(3)));
    assert!(matches!(leases_acquired(0, 1), DeliveryStep::Release(Ok(0))));
}
