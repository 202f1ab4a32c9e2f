use std::collections::BTreeMap;
use valkyr::duration::{self, Duration};
use valkyr::json::{self, Value};
use valkyr::line_protocol::encode_command;
use valkyr::openbao::bridge::{
    BridgeStep, CallbackBridge, OpenBaoQueryProvider, OpenBaoStoreWriter, OpenBaoValue, QueryStep,
    StoreStep,
};
use valkyr::openbao::client::{self, Answer, AppRole, OpenBaoClient, Versioned};
use valkyr::openbao::config::{
    secret, AdapterConfig, AppRoleConfig, LoggingConfig, OnMissing, OpenBaoConfig, ProviderConfig,
    QueryConfig, StoreConfig, ValkyrConfig, ValkyrEndpoint,
};
use valkyr::openbao::error::AdapterError;
use valkyr::openbao::index::{claim_context, collection_of, move_entry};
use valkyr::openbao::mapping::OpenBaoMapping;
use valkyr::openbao::percent::{decode, encode};
use valkyr::openbao::service::{after_failure, delay, registration};
use valkyr::client::{ClientError, ScheduleLease};
use valkyr::openbao::sync::{self, DeliveryStep, SyncStep};
use valkyr::{
    Key, KeyPattern, NamespaceContext, ProvideOptions, ServerCommand, ServerResult,
};

fn namespace(text: &str) -> NamespaceContext {
    NamespaceContext::new(text).unwrap()
}

fn key(text: &str) -> Key {
    Key::new(text).unwrap()
}

fn value(text: &str) -> Value {
    json::parse(text).unwrap()
}

fn mapping() -> OpenBaoMapping {
    OpenBaoMapping::new("cache").unwrap()
}

fn query_config(namespace_pattern: &str) -> QueryConfig {
    QueryConfig {
        namespace_pattern: namespace_pattern.into(),
        key_pattern: "*".into(),
        on_missing: OnMissing::default(),
        provider_wait_timeout: None,
        miss_cache_ttl: None,
    }
}

fn store_config(namespace_pattern: &str) -> StoreConfig {
    StoreConfig {
        namespace_pattern: namespace_pattern.into(),
        key_pattern: "*".into(),
        allow_context_move: false,
    }
}

/// A key-value store with versions, and how often a write is overtaken.
struct Vault {
    documents: BTreeMap<String, (Value, u64)>,
    conflicts: u32,
    writes: Vec<String>,
}

impl Vault {
    fn new() -> Self {
        Vault { documents: BTreeMap::new(), conflicts: 0, writes: Vec::new() }
    }

    fn read(&self, path: &str) -> Result<Option<Versioned>, AdapterError> {
        Ok(self
            .documents
            .get(path)
            .map(|(value, version)| Versioned { value: value.clone(), version: *version }))
    }

    fn write(&mut self, path: &str, value: Value, cas: Option<u64>) -> Result<bool, AdapterError> {
        let version = self.documents.get(path).map_or(0, |(_, version)| *version);
        if cas.is_some() && self.conflicts > 0 {
            self.conflicts -= 1;
            return Ok(false);
        }
        if cas.is_some_and(|cas| cas != version) {
            return Ok(false);
        }
        self.writes.push(path.to_owned());
        self.documents.insert(path.to_owned(), (value, version + 1));
        Ok(true)
    }

    fn list(&self, path: &str) -> Result<Vec<String>, AdapterError> {
        let start = format!("{path}/");
        let mut names: Vec<String> = Vec::new();
        for stored in self.documents.keys() {
            if let Some(rest) = stored.strip_prefix(&start) {
                let name = match rest.split_once('/') {
                    Some((first, _)) => format!("{first}/"),
                    None => rest.to_owned(),
                };
                if !names.contains(&name) {
                    names.insert(0, name);
                }
            }
        }
        Ok(names)
    }

    fn query(
        &mut self,
        provider: &OpenBaoQueryProvider,
        n: &str,
        k: &str,
    ) -> Result<Option<OpenBaoValue>, AdapterError> {
        let mut step = provider.query(namespace(n), key(k));
        loop {
            step = match step {
                QueryStep::Finished(result) => return result,
                QueryStep::ReadIndex { path, query } => {
                    provider.index_read(query, self.read(&path))
                }
                QueryStep::ReadValue { path, query } => {
                    let result = self.read(&path);
                    provider.value_read(path, query, result)
                }
                QueryStep::Create { path, query } => {
                    let document = provider.new_document(&query, 17);
                    let result = self.write(&path, document, Some(0));
                    provider.record_written(path, query, result)
                }
                QueryStep::ReadAgain { path, query, created } => {
                    provider.record_read(query, created, self.read(&path))
                }
            };
        }
    }

    fn change(&mut self, writer: &OpenBaoStoreWriter, step: StoreStep) -> Result<(), AdapterError> {
        let mut step = step;
        loop {
            step = match step {
                StoreStep::Finished(result) => return result,
                StoreStep::ReadIndex { path, task } => writer.index_read(task, self.read(&path)),
                StoreStep::WriteIndex { path, index, version, change } => {
                    let result = self.write(&path, index, Some(version));
                    writer.index_written(change, result)
                }
                StoreStep::WriteValue { path, document } => {
                    return self.write(&path, document, None).map(|_| ());
                }
                StoreStep::DeleteValue { path } => {
                    self.documents.remove(&path);
                    return Ok(());
                }
            };
        }
    }

    fn fetch(&self, n: &str) -> Result<Vec<OpenBaoValue>, AdapterError> {
        let mapping = mapping();
        let mut step = sync::fetch_provider_values(&mapping, namespace(n));
        loop {
            step = match step {
                SyncStep::Finished(result) => return result,
                SyncStep::ReadIndex { path, namespace } => {
                    sync::index_read(&mapping, namespace, self.read(&path))
                }
                SyncStep::List { path, listing } => {
                    let result = self.list(&path);
                    sync::listed(path, listing, result)
                }
                SyncStep::Read { path, reading } => {
                    sync::value_read(&mapping, reading, self.read(&path))
                }
            };
        }
    }
}

fn stored(n: &str, k: &str, text: &str, ttl: Option<u64>) -> OpenBaoValue {
    OpenBaoValue {
        namespace: namespace(n),
        key: key(k),
        value: value(text),
        ttl: ttl.map(Duration::from_secs),
    }
}

#[test]
fn mapping_is_injective_and_path_safe() {
    assert_eq!(encode("/orders"), "%2Forders");
    assert!(!encode("a/b..%é").contains('/'));
    assert_eq!(encode("."), "%2E");
    assert_eq!(encode(".."), "%2E%2E");
    assert_ne!(encode("/"), encode("//"));
}

#[test]
fn percent_encoding_round_trips_utf8() {
    let value = "/orders/a b%\u{00e9}";
    assert_eq!(decode(&encode(value)).unwrap(), value);
}

#[test]
fn percent_decoding_rejects_invalid_escapes_and_utf8() {
    assert!(decode("a%2").is_err());
    assert!(decode("a%XZ").is_err());
    assert!(decode("%FF").is_err());
}

#[test]
fn maps_roots_and_contexts() {
    let m = OpenBaoMapping::new("cache").unwrap();
    let key = key("a/b");
    assert_eq!(
        m.locate(&namespace("/orders"), &key, None).unwrap().path(),
        "cache/values/%2Forders/root/a%2Fb"
    );
    assert_eq!(
        m.locate(&namespace("/orders::draft"), &key, Some("id"))
            .unwrap()
            .path(),
        "cache/values/%2Forders/contexts/id/a%2Fb"
    );
    assert!(m.locate(&namespace("/orders::draft"), &key, None).is_err());
    assert_eq!(m.index_path("/orders"), "cache/indexes/%2Forders");
    assert!(OpenBaoMapping::new("//").is_err());
}

#[test]
fn auth_paths_use_four_fixed_sha256_segments() {
    let mapping = mapping();
    assert_eq!(
        mapping.auth_key_parts(&key("abc")),
        vec![
            "ba7816bf8f01cfea".to_owned(),
            "414140de5dae2223".to_owned(),
            "b00361a396177a9c".to_owned(),
            "b410ff61f20015ad".to_owned(),
        ]
    );
    let key = key("api/key\u{00e9}");
    let parts = mapping.auth_key_parts(&key);
    assert_eq!(parts.iter().map(String::len).collect::<Vec<_>>(), vec![16; 4]);
    assert!(parts.iter().all(|part| {
        part.bytes()
            .all(|byte| byte.is_ascii_digit() || matches!(byte, b'a'..=b'f'))
    }));
    assert_eq!(
        mapping.auth_path(&key),
        format!("cache/values/%2F__auth/root/{}", parts.join("/"))
    );
    assert!(!mapping.auth_path(&key).contains(key.as_str()));
}

#[test]
fn auth_documents_round_trip_and_reject_malformed_fields() {
    let key = key("a/b\u{00e9}");
    let document = OpenBaoMapping::encode_auth_document(
        &key,
        value("{\"role\":\"reader\"}"),
        Some(Duration::from_secs(30)),
    );
    let decoded = OpenBaoMapping::decode_auth_document(&document).unwrap();
    assert_eq!(decoded.key, key.as_str());
    assert_eq!(decoded.value, value("{\"role\":\"reader\"}"));
    assert_eq!(decoded.ttl, Some(Duration::from_secs(30)));
    for malformed in [
        "{\"value\":{}}",
        "{\"key\":\"\",\"value\":{}}",
        "{\"key\":\"key\",\"ttl_seconds\":\"soon\",\"value\":{}}",
    ] {
        assert!(OpenBaoMapping::decode_auth_document(&value(malformed)).is_err());
    }
}

#[test]
fn endpoint_preserves_percent_encoded_storage_segments() {
    let client = OpenBaoClient::new("https://openbao.example", "secret").unwrap();
    assert_eq!(
        client
            .endpoint("secret/data/cache/values/%2Forders/root/a%2Fb")
            .unwrap(),
        "https://openbao.example/v1/secret/data/cache/values/%252Forders/root/a%252Fb"
    );
    assert_eq!(client.data_path("a/b"), "secret/data/a/b");
    assert_eq!(client.metadata_path("a/b"), "secret/metadata/a/b");
    assert!(OpenBaoClient::new("not a url", "secret").is_err());
}

#[test]
fn answers_of_the_store_are_read() {
    let answer = |status: u16, text: &str| Answer {
        status,
        status_text: status.to_string(),
        body: Ok(value(text)),
    };
    let found = client::read(answer(
        200,
        "{\"data\":{\"data\":{\"value\":1},\"metadata\":{\"version\":3}}}",
    ))
    .unwrap()
    .unwrap();
    assert_eq!(found.version, 3);
    assert_eq!(found.value, value("{\"value\":1}"));
    assert!(client::read(answer(404, "{}")).unwrap().is_none());
    assert!(matches!(
        client::read(answer(500, "{}")),
        Err(AdapterError::OpenBao { status }) if status == "500"
    ));
    assert_eq!(
        client::list(answer(200, "{\"data\":{\"keys\":[\"b\",\"a\"]}}")).unwrap(),
        vec!["b".to_string(), "a".to_string()]
    );
    assert!(client::list(answer(200, "{\"data\":{\"keys\":[1]}}")).is_err());
    assert!(client::list(answer(404, "{}")).unwrap().is_empty());
    assert_eq!(
        client::login_token(answer(200, "{\"auth\":{\"client_token\":\"t\"}}")).unwrap(),
        "t"
    );
    assert!(client::login_token(answer(200, "{}")).is_err());
    let role = AppRole { role_id: "r".into(), secret_id: "s".into() };
    assert_eq!(
        json::render(&client::login_body(&role)),
        "{\"role_id\":\"r\",\"secret_id\":\"s\"}"
    );
    assert_eq!(
        json::render(&client::write_payload(value("{\"a\":1}"), Some(2))),
        "{\"data\":{\"a\":1},\"options\":{\"cas\":2}}"
    );
    assert_eq!(
        json::render(&client::write_payload(value("{\"a\":1}"), None)),
        "{\"data\":{\"a\":1}}"
    );
    assert!(client::written(200, "200".into(), None).unwrap());
    assert!(!client::written(400, "400".into(), Some(1)).unwrap());
    assert!(client::written(400, "400".into(), None).is_err());
    assert!(client::deleted(204, "204".into()).is_ok());
}

#[test]
fn auth_exact_operations_capture_digest_paths_and_strict_documents() {
    let mapping = mapping();
    let mut vault = Vault::new();
    let raw = "raw/api-key?with/slashes";
    let document = OpenBaoMapping::encode_auth_document(
        &key(raw),
        value("{\"role\":\"reader\"}"),
        Some(Duration::from_secs(31)),
    );
    vault.write(&mapping.auth_path(&key(raw)), document.clone(), None).unwrap();
    vault
        .write(
            &mapping.auth_path(&key("malformed")),
            value("{\"value\":{\"role\":\"reader\"}}"),
            None,
        )
        .unwrap();
    vault
        .write(&mapping.auth_path(&key("mismatch")), document, None)
        .unwrap();
    let ordinary = mapping
        .locate(&namespace("/orders"), &key("a/b"), None)
        .unwrap()
        .path()
        .to_owned();
    vault
        .write(
            &ordinary,
            value("{\"value\":{\"role\":\"reader\"},\"ttl_seconds\":7}"),
            None,
        )
        .unwrap();
    let provider = OpenBaoQueryProvider::new(mapping.clone(), query_config("/__auth"));
    let result = vault.query(&provider, "/__auth", raw).unwrap().unwrap();
    assert_eq!(result.value, value("{\"role\":\"reader\"}"));
    assert_eq!(result.ttl, Some(Duration::from_secs(31)));
    assert!(vault.query(&provider, "/__auth", "missing").unwrap().is_none());
    assert!(vault.query(&provider, "/__auth", "malformed").is_err());
    assert!(vault.query(&provider, "/__auth", "mismatch").is_err());

    let writer = OpenBaoStoreWriter::new(mapping.clone(), store_config("/__auth"));
    let step = writer.set(stored("/__auth", raw, "{\"role\":\"writer\"}", Some(19)));
    vault.change(&writer, step).unwrap();
    assert_eq!(
        json::render(&vault.documents[&mapping.auth_path(&key(raw))].0),
        "{\"key\":\"raw/api-key?with/slashes\",\"ttl_seconds\":19,\"value\":{\"role\":\"writer\"}}"
    );
    let step = writer.delete(namespace("/__auth"), Some(KeyPattern::new(raw).unwrap()));
    vault.change(&writer, step).unwrap();
    assert!(vault.query(&provider, "/__auth", raw).unwrap().is_none());
    assert!(vault.writes.iter().all(|path| !path.contains(raw)));

    let ordinary_provider = OpenBaoQueryProvider::new(mapping.clone(), query_config("/orders"));
    assert_eq!(
        vault
            .query(&ordinary_provider, "/orders", "a/b")
            .unwrap()
            .unwrap()
            .value,
        value("{\"role\":\"reader\"}")
    );
    let ordinary_writer = OpenBaoStoreWriter::new(mapping, store_config("/orders"));
    let step = ordinary_writer.set(stored("/orders", "a/b", "{\"role\":\"writer\"}", Some(7)));
    vault.change(&ordinary_writer, step).unwrap();
    assert_eq!(
        json::render(&vault.documents[&ordinary].0),
        "{\"ttl_seconds\":7,\"value\":{\"role\":\"writer\"}}"
    );
}

#[test]
fn auth_provider_recursively_lists_valid_records_in_key_order() {
    let mapping = mapping();
    let mut vault = Vault::new();
    for name in ["z-key", "a-key", "m-key"] {
        let document = OpenBaoMapping::encode_auth_document(&key(name), value("1"), None);
        vault.write(&mapping.auth_path(&key(name)), document, None).unwrap();
    }
    let values = vault.fetch("/__auth").unwrap();
    assert_eq!(
        values.iter().map(|value| value.key.as_str()).collect::<Vec<_>>(),
        vec!["a-key", "m-key", "z-key"]
    );
}

#[test]
fn auth_provider_rejects_malformed_paths_documents_and_digest_mismatches() {
    let mapping = mapping();
    let collection = mapping.auth_collection_path();
    for (path, message) in [
        ("invalid/x", "OpenBao auth provider path had an invalid digest segment"),
        (
            "aaaaaaaaaaaaaaaa",
            "OpenBao auth provider path ended before four digest segments",
        ),
        (
            "aaaaaaaaaaaaaaaa/bbbbbbbbbbbbbbbb/cccccccccccccccc/dddddddddddddddd/eeee",
            "OpenBao auth provider path had more than four digest segments",
        ),
    ] {
        let mut vault = Vault::new();
        vault.write(&format!("{collection}/{path}"), Value::Null, None).unwrap();
        assert!(matches!(
            vault.fetch("/__auth"),
            Err(AdapterError::Configuration(found)) if found == message
        ));
    }
    let mut vault = Vault::new();
    let path = mapping.auth_path(&key("valid-key"));
    vault
        .write(&path, value("{\"value\":{\"role\":\"reader\"}}"), None)
        .unwrap();
    assert!(vault.fetch("/__auth").is_err());
    let other = OpenBaoMapping::encode_auth_document(&key("other-key"), value("1"), None);
    vault.write(&path, other, None).unwrap();
    assert!(matches!(
        vault.fetch("/__auth"),
        Err(AdapterError::Configuration(found))
            if found == "OpenBao auth path digest did not match document key"
    ));
}

#[test]
fn auth_provider_skips_deleted_records_and_ordinary_listing_stays_reversible() {
    let mapping = mapping();
    let mut step = sync::fetch_provider_values(&mapping, namespace("/__auth"));
    let parts = mapping.auth_key_parts(&key("gone"));
    let mut depth = 0;
    let values = loop {
        step = match step {
            SyncStep::Finished(result) => break result.unwrap(),
            SyncStep::ReadIndex { .. } => panic!("no index is needed"),
            SyncStep::List { path, listing } => {
                let name = if depth < 3 {
                    format!("{}/", parts[depth])
                } else {
                    parts[depth].clone()
                };
                depth += 1;
                sync::listed(path, listing, Ok(vec![name]))
            }
            SyncStep::Read { path, reading } => {
                assert_eq!(path, mapping.auth_path(&key("gone")));
                sync::value_read(&mapping, reading, Ok(None))
            }
        };
    };
    assert!(values.is_empty());

    let mut vault = Vault::new();
    let collection = mapping.root_collection_path(&namespace("/orders"));
    let path = format!("{collection}/{}", encode("a/b"));
    vault
        .write(
            &path,
            value("{\"value\":{\"role\":\"reader\"},\"ttl_seconds\":7}"),
            None,
        )
        .unwrap();
    let values = vault.fetch("/orders").unwrap();
    assert_eq!(values[0].key.as_str(), "a/b");
    assert_eq!(values[0].namespace.as_str(), "/orders");
    assert_eq!(values[0].ttl, Some(Duration::from_secs(7)));
}

#[test]
fn contexts_get_a_collection_of_their_own() {
    let mapping = mapping();
    let mut vault = Vault::new();
    let writer = OpenBaoStoreWriter::new(
        mapping.clone(),
        StoreConfig { allow_context_move: true, ..store_config("*") },
    );
    let provider = OpenBaoQueryProvider::new(mapping.clone(), query_config("*"));
    assert!(matches!(
        vault.query(&provider, "/orders::draft", "a"),
        Err(AdapterError::Configuration(message)) if message == "missing context collection"
    ));
    assert!(vault.fetch("/orders::draft").unwrap().is_empty());
    vault.conflicts = 3;
    let step = writer.set(stored("/orders::draft", "a", "1", Some(9)));
    vault.change(&writer, step).unwrap();
    let found = vault.query(&provider, "/orders::draft", "a").unwrap().unwrap();
    assert_eq!(found.value, value("1"));
    assert_eq!(found.ttl, Some(Duration::from_secs(9)));
    assert_eq!(vault.fetch("/orders::draft").unwrap().len(), 1);

    let step = writer.move_namespace(namespace("/orders::draft"), namespace("/orders::final"));
    vault.change(&writer, step).unwrap();
    assert!(vault.query(&provider, "/orders::draft", "a").is_err());
    assert!(vault.query(&provider, "/orders::final", "a").unwrap().is_some());
    let step = writer.move_namespace(namespace("/orders::none"), namespace("/orders::other"));
    vault.change(&writer, step).unwrap();

    let step = writer.set(stored("/orders::draft", "b", "2", None));
    vault.change(&writer, step).unwrap();
    let step = writer.move_namespace(namespace("/orders::draft"), namespace("/orders::final"));
    assert!(matches!(vault.change(&writer, step), Err(AdapterError::NamespaceExists)));

    vault.conflicts = 8;
    let step = writer.set(stored("/orders::new", "a", "1", None));
    assert!(matches!(
        vault.change(&writer, step),
        Err(AdapterError::Configuration(message))
            if message == "OpenBao context index update conflicted repeatedly"
    ));
    vault.conflicts = 8;
    let step = writer.move_namespace(namespace("/orders::draft"), namespace("/orders::x"));
    assert!(matches!(
        vault.change(&writer, step),
        Err(AdapterError::Configuration(message))
            if message == "OpenBao index update conflicted repeatedly"
    ));
    let step = writer.delete(
        namespace("/orders::final"),
        Some(KeyPattern::new("a").unwrap()),
    );
    vault.change(&writer, step).unwrap();
    assert!(vault.query(&provider, "/orders::final", "a").unwrap().is_none());
}

#[test]
fn unsupported_changes_are_refused() {
    let writer = OpenBaoStoreWriter::new(mapping(), store_config("*"));
    assert!(matches!(
        writer.delete(namespace("/a"), None),
        StoreStep::Finished(Err(AdapterError::Unsupported("namespace delete")))
    ));
    assert!(matches!(
        writer.delete(namespace("/a"), Some(KeyPattern::new("x*").unwrap())),
        StoreStep::Finished(Err(AdapterError::Unsupported("wildcard delete")))
    ));
    assert!(matches!(
        writer.move_namespace(namespace("/a::x"), namespace("/a::y")),
        StoreStep::Finished(Err(AdapterError::Unsupported("context move")))
    ));
    let mover = OpenBaoStoreWriter::new(
        mapping(),
        StoreConfig { allow_context_move: true, ..store_config("*") },
    );
    assert!(matches!(
        mover.move_namespace(namespace("/a"), namespace("/a::y")),
        StoreStep::Finished(Err(AdapterError::Route(_)))
    ));
}

#[test]
fn missing_keys_can_be_made() {
    let mut vault = Vault::new();
    let provider = OpenBaoQueryProvider::new(
        mapping(),
        QueryConfig {
            on_missing: OnMissing {
                generate_xchacha20poly1305_key: true,
                record_created_unix_seconds: true,
            },
            ..query_config("/__secrets")
        },
    );
    let made = vault.query(&provider, "/__secrets", "/people").unwrap().unwrap();
    assert_eq!(made.value.get("created").unwrap().as_u64(), Some(17));
    let text = made.value.get("key").unwrap().as_str().unwrap().to_owned();
    assert_eq!(text.len(), 64);
    assert!(text.bytes().all(|byte| byte.is_ascii_hexdigit()));
    let again = vault.query(&provider, "/__secrets", "/people").unwrap().unwrap();
    assert_eq!(again.value.get("key").unwrap().as_str().unwrap(), text);
}

#[test]
fn requests_are_routed_to_queries_and_stores() {
    let bridge = CallbackBridge::new(
        vec![OpenBaoQueryProvider::new(mapping(), query_config("/orders"))],
        vec![
            OpenBaoStoreWriter::new(mapping(), store_config("*")),
            OpenBaoStoreWriter::new(mapping(), store_config("/orders")),
        ],
    );
    assert!(matches!(
        bridge.handle(ServerCommand::Query {
            request_id: 1,
            namespace: namespace("/orders"),
            key: key("a"),
        }),
        BridgeStep::Query { request_id: 1, position: 0, .. }
    ));
    assert!(matches!(
        bridge.handle(ServerCommand::Query {
            request_id: 1,
            namespace: namespace("/other"),
            key: key("a"),
        }),
        BridgeStep::Finished(ServerResult::Query { value: None, error: None, .. })
    ));
    match bridge.handle(ServerCommand::PersistSet {
        request_id: 2,
        namespace: namespace("/orders"),
        key: key("a"),
        value: value("1"),
        ttl_seconds: Some(5),
    }) {
        BridgeStep::Persist { request_id: 2, position: 1, forward, .. } => {
            assert_eq!(forward.name(), "set");
            assert_eq!(encode_command(&forward.command()).unwrap(), "SET /orders a 1 EX 5");
        }
        other => panic!("{other:?}"),
    }
    assert!(matches!(
        bridge.handle(ServerCommand::PersistSetBatch {
            request_id: 3,
            namespace: namespace("/orders"),
            entries: Vec::new(),
            ttl_seconds: None,
        }),
        BridgeStep::Finished(ServerResult::Operation { request_id: 3, error: Some(message) })
            if message == "operation is not supported: batch persistence"
    ));
    let empty = CallbackBridge::new(Vec::new(), Vec::new());
    assert!(matches!(
        empty.handle(ServerCommand::PersistMove {
            request_id: 4,
            source: namespace("/a::x"),
            destination: namespace("/a::y"),
        }),
        BridgeStep::Finished(ServerResult::Operation { error: Some(message), .. })
            if message == "operation is not supported: no matching store"
    ));
}

#[test]
fn indexes_carry_their_contexts() {
    let claim = claim_context(None, "draft", "id-1").unwrap();
    assert_eq!(claim.version, 0);
    assert_eq!(claim.collection, "id-1");
    assert_eq!(collection_of(&claim.index, "draft").unwrap(), "id-1");
    let again = claim_context(
        Some(Versioned { value: claim.index.clone(), version: 4 }),
        "draft",
        "id-2",
    )
    .unwrap();
    assert_eq!((again.version, again.collection.as_str()), (4, "id-1"));
    let moved = move_entry(&claim.index, "draft", "final").unwrap().unwrap();
    assert_eq!(collection_of(&moved, "final").unwrap(), "id-1");
    assert!(collection_of(&moved, "draft").is_none());
    assert!(move_entry(&moved, "draft", "x").unwrap().is_none());
    assert!(move_entry(&value("{}"), "draft", "x").is_err());
}

fn config() -> AdapterConfig {
    AdapterConfig {
        openbao: OpenBaoConfig {
            address: "https://openbao.test:8200".into(),
            kv_mount: "kv".into(),
            prefix: "cache".into(),
            request_timeout_seconds: 5,
            ca_certificate_file: None,
            ca_certificate_exists: false,
            auth: AppRoleConfig {
                kind: "approle".into(),
                role_id: "role".into(),
                secret_id_file: "secret-id".into(),
                secret_id_file_exists: true,
                renew_before_seconds: 60,
            },
        },
        valkyr: valkyr(vec![ValkyrEndpoint {
            url: "tls://valkyr.test:8443".into(),
            api_key_file: "api-key".into(),
            api_key_file_exists: true,
            ca_certificate_file: None,
            ca_certificate_exists: false,
            api_key: "key".into(),
        }]),
        logging: LoggingConfig::default(),
        queries: Vec::new(),
        stores: Vec::new(),
        providers: Vec::new(),
    }
}

fn valkyr(endpoints: Vec<ValkyrEndpoint>) -> ValkyrConfig {
    ValkyrConfig {
        endpoints,
        provider_wait_timeout: None,
        miss_cache_ttl: None,
        request_timeout: Duration::from_secs(5),
        max_retries: 9,
    }
}

fn complaint(result: Result<(), AdapterError>) -> String {
    match result {
        Err(AdapterError::Configuration(message)) => message,
        other => panic!("{other:?}"),
    }
}

#[test]
fn provider_options_inherit_each_field_independently() {
    let mut defaults = valkyr(Vec::new());
    defaults.provider_wait_timeout = Some(duration::parse("11ms").unwrap());
    defaults.miss_cache_ttl = Some(duration::parse("22s").unwrap());
    let query = |provider_wait_timeout, miss_cache_ttl| QueryConfig {
        provider_wait_timeout,
        miss_cache_ttl,
        ..query_config("/values")
    };
    assert_eq!(
        defaults.provider_options(&query(None, None)).unwrap(),
        ProvideOptions { max_rate: None, timeout_ms: 11, miss_ttl_seconds: 22 }
    );
    assert_eq!(
        defaults
            .provider_options(&query(Some(Duration::from_secs(0)), Some(Duration::from_secs(7))))
            .unwrap(),
        ProvideOptions { max_rate: None, timeout_ms: 0, miss_ttl_seconds: 7 }
    );
    let mut converted = valkyr(Vec::new());
    converted.provider_wait_timeout = Some(duration::parse("1.5s").unwrap());
    converted.miss_cache_ttl = Some(duration::parse("1m").unwrap());
    assert_eq!(
        converted.provider_options(&query(None, None)).unwrap(),
        ProvideOptions { max_rate: None, timeout_ms: 1_500, miss_ttl_seconds: 60 }
    );
}

#[test]
fn rejects_lossy_and_overflowing_wire_durations() {
    let lossy = QueryConfig {
        provider_wait_timeout: Some(Duration::from_nanos(1)),
        miss_cache_ttl: Some(Duration::from_millis(1)),
        ..query_config("/values")
    };
    assert!(matches!(
        valkyr(Vec::new()).provider_options(&lossy),
        Err(AdapterError::Configuration(message)) if message.starts_with("provider_wait_timeout: ")
    ));
    let mut overflowing = valkyr(Vec::new());
    overflowing.provider_wait_timeout =
        Some(duration::parse("18446744073709551616ms").unwrap());
    assert!(overflowing
        .provider_options(&QueryConfig { provider_wait_timeout: None, ..lossy })
        .is_err());
}

#[test]
fn configurations_are_checked_in_order() {
    assert!(config().validate().is_ok());
    let mut bad = config();
    bad.openbao.address = "ftp://x".into();
    assert_eq!(complaint(bad.validate()), "openbao.address must be an HTTP(S) URL");
    let mut bad = config();
    bad.openbao.kv_mount = " ".into();
    assert_eq!(
        complaint(bad.validate()),
        "openbao.kv_mount and request_timeout_seconds are required"
    );
    let mut bad = config();
    bad.openbao.prefix = "//".into();
    assert_eq!(complaint(bad.validate()), "openbao.prefix is required");
    let mut bad = config();
    bad.openbao.auth.kind = "token".into();
    assert!(complaint(bad.validate()).starts_with("only AppRole auth"));
    let mut bad = config();
    bad.openbao.auth.secret_id_file_exists = false;
    assert_eq!(complaint(bad.validate()), "credential file does not exist: secret-id");
    let mut bad = config();
    bad.valkyr.endpoints[0].ca_certificate_file = Some("ca.crt".into());
    assert_eq!(
        complaint(bad.validate()),
        "Valkyr CA certificate file does not exist: ca.crt"
    );
    let mut bad = config();
    bad.openbao.ca_certificate_file = Some("ca.crt".into());
    assert_eq!(complaint(bad.validate()), "CA certificate file does not exist: ca.crt");
    let mut bad = config();
    bad.valkyr.max_retries = 0;
    assert_eq!(
        complaint(bad.validate()),
        "Valkyr endpoints, request_timeout, and max_retries must be set"
    );
    let mut bad = config();
    bad.queries.push(("q".into(), query_config("orders")));
    assert_eq!(complaint(bad.validate()), "route 'q' has malformed patterns");
    let mut bad = config();
    bad.providers.push((
        "p".into(),
        ProviderConfig {
            namespace: "orders".into(),
            frequency: "0 * * * * *".into(),
            run_on_startup: false,
        },
    ));
    assert_eq!(complaint(bad.validate()), "provider 'p' has an invalid namespace");
    bad.providers[0].1.namespace = "/orders".into();
    assert!(bad.validate().is_ok());
    bad.providers[0].1.frequency = "soon".into();
    assert!(complaint(bad.validate()).starts_with("invalid provider cron 'soon': "));
    assert!(bad.providers[0].1.schedule().is_err());
    assert_eq!(secret(" key \n", "file").unwrap(), "key");
    assert!(matches!(
        secret("\n", "file"),
        Err(AdapterError::Configuration(message)) if message == "credential file is empty: file"
    ));
}

#[test]
fn configured_bridges_hold_their_parts() {
    let mut config = config();
    config.queries.push(("a".into(), query_config("/a")));
    config.queries.push(("b".into(), query_config("/b")));
    config.stores.push(("c".into(), store_config("/c")));
    config.valkyr.miss_cache_ttl = Some(Duration::from_secs(40));
    assert_eq!(
        encode_command(&registration(&config, 0).unwrap().unwrap()).unwrap(),
        "PROVIDE /a * TIMEOUT 0 MISS_TTL 40"
    );
    assert_eq!(
        encode_command(&registration(&config, 2).unwrap().unwrap()).unwrap(),
        "STORE /c *"
    );
    assert!(registration(&config, 3).is_none());
    assert!(config.openbao_client().is_ok());
    let bridge = config.callback_bridge().unwrap();
    assert_eq!(bridge.queries[1].config.namespace_pattern, "/b");
    assert_eq!(bridge.stores[0].config.namespace_pattern, "/c");
}

#[test]
fn caps_reconnect_delay() {
    assert_eq!(delay(1), Duration::from_millis(250));
    assert_eq!(delay(2), Duration::from_millis(500));
    assert_eq!(delay(u32::MAX), Duration::from_secs(30));
}

#[test]
fn another_round_of_attempts_follows() {
    assert_eq!(after_failure(1, 3), (Duration::from_millis(250), 2));
    assert_eq!(after_failure(3, 3), (Duration::from_millis(1000), 1));
}

#[test]
fn deliveries_go_to_every_owner_and_end_at_a_failure() {
    assert!(sync::owner_step(&Ok(ScheduleLease::Acquired { ttl_seconds: 30 })));
    assert!(!sync::owner_step(&Ok(ScheduleLease::Unavailable)));
    assert!(!sync::owner_step(&Err(ClientError::Closed)));
    assert!(matches!(sync::owners_found(0), DeliveryStep::Finished(Ok(0))));
    assert!(matches!(sync::owners_found(2), DeliveryStep::Fetch));
    assert!(matches!(sync::values_fetched(&Ok(Vec::new())), DeliveryStep::Finished(Ok(0))));
    assert!(matches!(
        sync::values_fetched(&Err(AdapterError::NamespaceExists)),
        DeliveryStep::Finished(Err(_))
    ));
    let item = OpenBaoValue {
        namespace: namespace("/orders"),
        key: key("one"),
        value: value("1"),
        ttl: None,
    };
    let mut step = sync::values_fetched(&Ok(vec![item.clone(), item]));
    let mut sent = Vec::new();
    let count = loop {
        match step {
            DeliveryStep::Send { value, owner } => {
                sent.push((value, owner));
                step = sync::value_sent(2, 2, value, owner, &Ok(()));
            }
            DeliveryStep::Finished(result) => break result,
            DeliveryStep::Fetch => unreachable!(),
        }
    };
    assert_eq!(sent, vec![(0, 0), (0, 1), (1, 0), (1, 1)]);
    assert_eq!(count, Ok(2));
    assert!(matches!(
        sync::value_sent(2, 2, 0, 1, &Err(ClientError::Closed)),
        DeliveryStep::Finished(Err(message)) if message == "server closed the connection"
    ));
}
