use valkyr::json::{self, Value};
use valkyr::outcome::KeyLoad;
use valkyr::security::namespace_permission_matches;
use valkyr::table::Table;
use valkyr::{
    broker, crypto, AuthLookup, AuthManager, AuthRecord, AuthSource, Error, Key, KeyPattern,
    NamespaceContext, Operation, Permission, PermissionOperation, ProvideOptions, Registry, Role,
    SecurityKeyRecord, SimpleAuthenticator, StoreAuthenticator, ValueCipher,
};
use valkyr::duration::Duration;
use valkyr::security::ApiKeyAuthenticator;
use valkyr::BatchStoreMatch;

fn namespace(text: &str) -> NamespaceContext {
    NamespaceContext::new(text).unwrap()
}

fn key(text: &str) -> Key {
    Key::new(text).unwrap()
}

fn value(text: &str) -> Value {
    json::parse(text).unwrap()
}

fn permission(namespace: Option<&str>, operations: &[PermissionOperation]) -> Permission {
    Permission {
        namespace: namespace.map(str::to_owned),
        operations: operations.to_vec(),
    }
}

fn record(client_id: &str, permissions: Vec<Permission>) -> AuthRecord {
    AuthRecord {
        client_id: client_id.into(),
        name: "Reader".into(),
        roles: Vec::new(),
        permissions,
        enabled: true,
    }
}

fn reader(client_id: &str) -> AuthRecord {
    record(client_id, Vec::new())
}

fn manager() -> AuthManager {
    AuthManager::new(&SimpleAuthenticator::new(Table::new()))
}

#[test]
fn permissions_respect_namespace_boundaries() {
    assert!(namespace_permission_matches("/users", "/users::42"));
    assert!(namespace_permission_matches("/users", "/users/42"));
    assert!(!namespace_permission_matches("/users", "/users2"));
    assert!(namespace_permission_matches("/users/*", "/users/42"));
    assert!(!namespace_permission_matches("/users/*", "/users"));
    assert!(!namespace_permission_matches("/users/*", "/users::42"));
}

#[test]
fn grouped_permissions_become_roles() {
    let record = record(
        "reader",
        vec![permission(
            Some("/people"),
            &[
                PermissionOperation::Read,
                PermissionOperation::Write,
                PermissionOperation::ReadEncrypted,
                PermissionOperation::WriteEncrypted,
            ],
        )],
    );
    let auth = record.into_info("api-key", 0).unwrap();
    assert_eq!(
        auth.roles,
        vec![
            Role::Read("/people".into()),
            Role::Write("/people".into()),
            Role::ReadEncrypted("/people".into()),
            Role::WriteEncrypted("/people".into()),
        ]
    );
    assert_eq!(auth.api_key, "api-key");
    assert_eq!(auth.client_id, "reader");
}

#[test]
fn permission_records_reject_legacy_and_invalid_groups() {
    let invalid = [
        permission(Some("/people"), &[]),
        permission(
            Some("/people"),
            &[PermissionOperation::Read, PermissionOperation::Read],
        ),
        permission(None, &[PermissionOperation::Read]),
        permission(Some("/people"), &[PermissionOperation::Admin]),
        permission(None, &[PermissionOperation::Admin, PermissionOperation::Read]),
    ];
    for group in invalid {
        let shown = format!("{group:?}");
        assert!(record("reader", vec![group]).into_info("api-key", 0).is_err(), "{shown}");
    }
}

#[test]
fn admin_permission_and_expanded_limit_are_validated() {
    let admin = record("admin", vec![permission(None, &[PermissionOperation::Admin])]);
    assert_eq!(admin.into_info("api-key", 0).unwrap().roles, vec![Role::Admin]);

    let permissions = (0..257)
        .map(|_| permission(Some("/people"), &[PermissionOperation::Read]))
        .collect::<Vec<_>>();
    assert!(record("reader", permissions).into_info("api-key", 0).is_err());
}

#[test]
fn permission_entry_limit_rejects_empty_groups() {
    let permissions = (0..257)
        .map(|_| permission(Some("/people"), &[]))
        .collect::<Vec<_>>();
    assert!(matches!(
        record("reader", permissions).into_info("api-key", 0),
        Err(Error::InvalidAuthorization(message)) if message == "too many permissions"
    ));
}

#[test]
fn cipher_binds_a_value_to_its_route() {
    let namespace = namespace("/users");
    let encrypted = ValueCipher::encrypt(
        &"11".repeat(32),
        &namespace,
        &key("42"),
        &value("{\"name\":\"Ada\"}"),
    )
    .unwrap();
    assert_eq!(
        ValueCipher::decrypt(&"11".repeat(32), &namespace, &key("42"), &encrypted).unwrap(),
        value("{\"name\":\"Ada\"}")
    );
    assert!(
        ValueCipher::decrypt(&"11".repeat(32), &namespace, &key("43"), &encrypted).is_err()
    );
}

#[test]
fn cipher_allows_context_moves_within_a_namespace() {
    let draft = namespace("/users::draft");
    let published = namespace("/users::published");
    let encrypted = ValueCipher::encrypt(
        &"11".repeat(32),
        &draft,
        &key("42"),
        &value("{\"name\":\"Ada\"}"),
    )
    .unwrap();
    assert_eq!(
        ValueCipher::decrypt(&"11".repeat(32), &published, &key("42"), &encrypted).unwrap(),
        value("{\"name\":\"Ada\"}")
    );
}

#[test]
fn cipher_rejects_bad_keys_and_envelopes() {
    let users = namespace("/users");
    let envelope =
        ValueCipher::encrypt(&"11".repeat(32), &users, &key("42"), &Value::from_u64(1)).unwrap();
    for bad in ["", "11", "zz", &"1g".repeat(32), &"11".repeat(31)] {
        assert!(matches!(
            ValueCipher::encrypt(bad, &users, &key("42"), &Value::Null),
            Err(Error::Encryption(_))
        ));
        assert!(ValueCipher::decrypt(bad, &users, &key("42"), &envelope).is_err());
    }
    assert!(ValueCipher::decrypt(&"22".repeat(32), &users, &key("42"), &envelope).is_err());
    for text in ["null", "{}", "{\"nonce\":\"\"}", "[]"] {
        assert!(ValueCipher::decrypt(&"11".repeat(32), &users, &key("42"), &value(text)).is_err());
    }
    let again =
        ValueCipher::encrypt(&"11".repeat(32), &users, &key("42"), &Value::from_u64(1)).unwrap();
    assert_ne!(envelope, again);
}

#[test]
fn auth_cache_deduplicates_loads_and_serves_completed_entries() {
    let mut manager = manager();
    assert!(matches!(manager.authenticate("reader", 0), AuthLookup::Pending));
    assert!(manager.take_scheduled_load("reader"));
    assert!(matches!(manager.authenticate("reader", 0), AuthLookup::Pending));
    assert!(!manager.take_scheduled_load("reader"));

    let refresh_delay = manager.complete_provider_load("reader", Some(reader("reader")), 0);
    assert_eq!(refresh_delay, Some(Duration::from_secs(1800)));
    assert!(matches!(
        manager.authenticate("reader", 0),
        AuthLookup::Authenticated(info) if info.client_id == "reader"
    ));
}

#[test]
fn store_loads_create_sessions_and_reject_invalid_records() {
    let mut manager = manager();
    assert!(matches!(manager.authenticate("reader", 0), AuthLookup::Pending));
    assert!(manager.take_store_load("reader"));
    assert!(matches!(
        manager.complete_store_load("reader", Some(reader("reader")), 0),
        AuthLookup::Authenticated(info) if info.client_id == "reader"
    ));

    assert!(matches!(manager.authenticate("disabled", 0), AuthLookup::Pending));
    assert!(manager.take_store_load("disabled"));
    let disabled = AuthRecord { enabled: false, ..reader("disabled") };
    assert!(matches!(
        manager.complete_store_load("disabled", Some(disabled), 0),
        AuthLookup::Rejected
    ));
}

#[test]
fn auth_sessions_refresh_after_half_their_ttl_and_fail_closed_when_revoked() {
    let millis = |n: u128| n * 1_000_000;
    let mut manager = AuthManager::with_bootstrap_admin(
        &SimpleAuthenticator::new(Table::new()),
        None,
        Duration::from_millis(20),
    );
    let values = record(
        "reader",
        vec![permission(Some("/values"), &[PermissionOperation::Read])],
    );
    assert!(matches!(manager.authenticate("reader", 0), AuthLookup::Pending));
    assert_eq!(
        manager.complete_provider_load("reader", Some(values), 0),
        Some(Duration::from_millis(10))
    );
    assert!(matches!(manager.authenticate("reader", 0), AuthLookup::Authenticated(_)));
    assert!(!manager.take_scheduled_load("reader"));

    assert!(matches!(
        manager.authenticate("reader", millis(12)),
        AuthLookup::Authenticated(_)
    ));
    assert!(manager.take_scheduled_load("reader"));

    let mut revoked = AuthManager::new(&SimpleAuthenticator::new(Table::new()));
    assert!(matches!(revoked.authenticate("revoked", 0), AuthLookup::Pending));
    assert_eq!(revoked.complete_provider_load("revoked", None, 0), None);
    assert!(matches!(revoked.authenticate("revoked", 0), AuthLookup::Rejected));
}

#[test]
fn the_bootstrap_key_is_an_administrator() {
    let mut manager = AuthManager::with_bootstrap_admin(
        &SimpleAuthenticator::new(Table::new()),
        Some("bootstrap".into()),
        Duration::from_secs(60),
    );
    match manager.authenticate("bootstrap", 5) {
        AuthLookup::Authenticated(info) => {
            assert!(info.is_bootstrap_admin());
            assert_eq!(info.source, AuthSource::BootstrapAdmin);
            assert_eq!(info.roles, vec![Role::Admin]);
            assert!(manager
                .authorize(&info, &namespace("/any"), Operation::Write, 5)
                .is_ok());
        }
        other => panic!("{other:?}"),
    }
    assert!(matches!(manager.authenticate("bootstrap ", 5), AuthLookup::Pending));
    assert_eq!(manager.session_timeout(), Duration::from_secs(60));
}

#[test]
fn no_record_makes_a_key_the_configured_administrator() {
    let mut manager = AuthManager::with_bootstrap_admin(
        &SimpleAuthenticator::new(Table::new()),
        Some("bootstrap".into()),
        Duration::from_secs(60),
    );
    let mut admin = reader("bootstrap-admin");
    admin.roles = vec![Role::Admin];
    assert!(matches!(manager.authenticate("other", 0), AuthLookup::Pending));
    assert!(manager.take_store_load("other"));
    match manager.complete_store_load("other", Some(admin), 0) {
        AuthLookup::Authenticated(info) => {
            assert!(!info.is_bootstrap_admin());
            assert_eq!(info.source, AuthSource::Registry);
            assert_eq!((info.api_key.as_str(), info.client_id.as_str()), ("other", "bootstrap-admin"));
        }
        other => panic!("{other:?}"),
    }
    manager.replace_auth_record("bootstrap", Some(reader("reader")), 1);
    manager.fail_provider_load("bootstrap", 2);
    manager.disconnect("bootstrap");
    match manager.authenticate("bootstrap", 3) {
        AuthLookup::Authenticated(info) => {
            assert!(info.is_bootstrap_admin());
            assert_eq!(info.roles, vec![Role::Admin]);
            assert_eq!(info.client_id, "bootstrap-admin");
            assert_eq!(info.api_key, "bootstrap");
        }
        other => panic!("{other:?}"),
    }
}

#[test]
fn authenticators_answer_from_their_records() {
    let mut records = Table::new();
    records.insert("key".to_string(), reader("client"));
    let simple = SimpleAuthenticator::new(records);
    assert_eq!(simple.authenticate("key", 0).unwrap().client_id, "client");
    assert!(matches!(
        simple.authenticate("other", 0),
        Err(Error::AuthenticationFailed)
    ));
    let stored = StoreAuthenticator::new(7u8);
    assert_eq!(*stored.store(), 7);
    assert_eq!(
        stored.decide(Some(&reader("client")), "key", 0).unwrap().client_id,
        "client"
    );
    assert!(stored.decide(None, "key", 0).is_err());
}

#[test]
fn security_key_records_require_a_created_timestamp() {
    let found = KeyLoad::Found(SecurityKeyRecord { key: "11".repeat(32), created: 1 });
    assert!(broker::parse_security_key(found, "/people").is_ok());
    assert!(broker::parse_security_key(KeyLoad::Malformed, "/people").is_err());
    assert!(matches!(
        broker::parse_security_key(KeyLoad::Missing, "/people"),
        Err(Error::Encryption(message))
            if message == "encryption key for scope '/people' is not loaded"
    ));
}

#[test]
fn encrypted_key_routes_allow_plain_and_contextual_namespaces() {
    assert_eq!(
        broker::security_route(&namespace("/people")).unwrap().1.as_str(),
        "/people"
    );
    assert_eq!(
        broker::security_route(&namespace("/people::42")).unwrap().1.as_str(),
        "/people"
    );
}

#[test]
fn hexadecimal_texts_stand_for_their_bytes() {
    assert_eq!(crypto::hex_decode("00ff7A"), Some(vec![0, 255, 122]));
    assert_eq!(crypto::hex_encode(&vec![0, 255, 122]), "00ff7a");
    assert_eq!(crypto::hex_decode("0"), None);
    assert_eq!(crypto::hex_decode("0g"), None);
    assert_eq!(crypto::hex_digit_value('f'), Some(15));
}

#[test]
fn registrations_are_matched_and_cleaned_up_by_owner() {
    let mut registry = Registry::new();
    let owner = 1;
    registry.register_provider(owner, "/users/*", "profile.{id}", ProvideOptions::from(None), 0);
    assert!(registry
        .provider_for(&namespace("/users/42"), &key("profile.42"))
        .is_some());
    registry.remove_owner(owner);
    assert_eq!(registry.provider_count(), 0);
}

#[test]
fn matching_providers_are_selected_in_rotation() {
    let mut registry = Registry::new();
    let first =
        registry.register_provider(1, "/values", "entry", ProvideOptions::from(None), 0);
    let second =
        registry.register_provider(2, "/values", "entry", ProvideOptions::from(None), 0);
    assert_ne!(first.id, second.id);
    let values = namespace("/values");
    let entry = key("entry");
    assert_eq!(registry.provider_for(&values, &entry).unwrap().id, first.id);
    assert_eq!(registry.provider_for(&values, &entry).unwrap().id, second.id);
    assert_eq!(registry.provider_for(&values, &entry).unwrap().id, first.id);
}

#[test]
fn provider_selection_preserves_unit_safe_options() {
    let mut registry = Registry::new();
    let options = ProvideOptions::new()
        .with_timeout_ms(250)
        .with_miss_ttl_seconds(30);
    registry.register_provider(1, "/values", "entry", options, 0);
    assert_eq!(
        registry
            .provider_for(&namespace("/values"), &key("entry"))
            .unwrap()
            .options,
        options
    );
}

#[test]
fn batch_selection_rejects_split_store_routes() {
    let mut registry = Registry::new();
    registry.register_store(1, None, "/values", "a*", 0);
    registry.register_store(2, None, "/values", "b*", 0);
    let outcome = registry.store_for_batch(
        &namespace("/values"),
        &vec![
            KeyPattern::new("alpha").unwrap(),
            KeyPattern::new("beta").unwrap(),
        ],
        None,
    );
    assert!(matches!(outcome, BatchStoreMatch::Mixed));
    let one = registry.store_for_batch(
        &namespace("/values"),
        &vec![KeyPattern::new("alpha").unwrap()],
        None,
    );
    assert!(matches!(one, BatchStoreMatch::Store(store) if store.owner == 1));
    let none = registry.store_for_batch(
        &namespace("/other"),
        &vec![KeyPattern::new("alpha").unwrap()],
        None,
    );
    assert!(matches!(none, BatchStoreMatch::NoStore));
}

#[test]
fn newest_matching_store_wins_and_source_adapter_is_excluded() {
    let mut registry = Registry::new();
    let values = namespace("/values");
    let pattern = KeyPattern::new("entry").unwrap();
    let first = registry.register_store(1, Some(10), "/values", "entry", 0);
    let newest = registry.register_store(2, Some(20), "/values", "entry", 0);
    assert_eq!(registry.store_for(&values, &pattern, None).unwrap().id, newest.id);
    assert_eq!(
        registry
            .store_for(&values, &pattern, Some(newest.adapter_instance.unwrap()))
            .unwrap()
            .id,
        first.id
    );
}

#[test]
fn line_feeds_do_not_blur_the_route_of_an_envelope() {
    let secret = "11".repeat(32);
    let plain = value("{\"name\":\"Ada\"}");
    let sealed =
        ValueCipher::encrypt(&secret, &namespace("/a\nb"), &key("c"), &plain).unwrap();
    assert_eq!(
        ValueCipher::decrypt(&secret, &namespace("/a\nb"), &key("c"), &sealed).unwrap(),
        plain
    );
    assert_eq!(
        ValueCipher::decrypt(&secret, &namespace("/a\nb::eu"), &key("c"), &sealed).unwrap(),
        plain
    );
    assert!(matches!(
        ValueCipher::decrypt(&secret, &namespace("/a"), &key("b\nc"), &sealed),
        Err(Error::Encryption(message)) if message == "decryption failed"
    ));
    let sealed = ValueCipher::encrypt(&secret, &namespace("/a"), &key("b\nc"), &plain).unwrap();
    assert!(ValueCipher::decrypt(&secret, &namespace("/a\nb"), &key("c"), &sealed).is_err());
    assert_eq!(
        ValueCipher::decrypt(&secret, &namespace("/a::us"), &key("b\nc"), &sealed).unwrap(),
        plain
    );
}

#[test]
fn values_are_read_back_unless_their_first_key_is_kept_by_the_reader() {
    for text in [
        "{\"!\":1,\"$serde_json::private::RawValue\":\"1\"}",
        "[{\"a\":{\"$serde_json\":\"1\"}},-7,\"x\"]",
    ] {
        assert_eq!(json::render(&value(text)), text);
    }
}
