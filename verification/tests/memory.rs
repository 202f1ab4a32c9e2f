use valkyr::duration::Duration;
use valkyr::json::Value;
use valkyr::memory::{
    self, expires_at, stored_value, CacheEntry, Change, EntryExpiry, Listed, MemoryStoreConfig,
};
use valkyr::miss_cache::{marker, MarkerExpiry};
use valkyr::outcome::Invalidation;
use valkyr::router::{Router, RouterStep};
use valkyr::store::{duration_to_seconds, CompositeStore, Progress, StoredValue};
use valkyr::{Command, Error, Key, KeyPattern, NamespaceContext, Response, SetEntry};

fn namespace(text: &str) -> NamespaceContext {
    NamespaceContext::new(text).unwrap()
}

fn key(text: &str) -> Key {
    Key::new(text).unwrap()
}

fn seconds(n: u128) -> u128 {
    n * 1_000_000_000
}

fn listed(n: &str, k: &str, expires_at: Option<u128>) -> Listed {
    Listed {
        namespace: namespace(n),
        key: key(k),
        entry: CacheEntry { value: Value::Text(k.into()), expires_at },
    }
}

fn removed(changes: &[Change]) -> Vec<String> {
    changes
        .iter()
        .map(|change| match change {
            Change::Remove { namespace, key } => {
                format!("{} {}", namespace.as_str(), key.as_str())
            }
            Change::Insert { .. } => panic!("nothing is inserted"),
        })
        .collect()
}

#[test]
fn expiry_policy_covers_ttl_transitions_and_reads() {
    let policy = EntryExpiry;
    let created_at = seconds(100);
    let entry = |expires_at| CacheEntry { value: Value::Null, expires_at };
    let no_ttl = entry(None);
    assert_eq!(policy.expire_after_create(&no_ttl, created_at), None);
    let zero_ttl = entry(Some(created_at));
    assert_eq!(
        policy.expire_after_create(&zero_ttl, created_at),
        Some(Duration::from_secs(0))
    );
    let finite_ttl = entry(Some(created_at + seconds(30)));
    assert_eq!(
        policy.expire_after_create(&finite_ttl, created_at),
        Some(Duration::from_secs(30))
    );
    assert_eq!(
        policy.expire_after_update(&finite_ttl, created_at + seconds(5)),
        Some(Duration::from_secs(25))
    );
    let reset_ttl = entry(Some(created_at + seconds(90)));
    assert_eq!(
        policy.expire_after_update(&reset_ttl, created_at),
        Some(Duration::from_secs(90))
    );
    assert_eq!(policy.expire_after_update(&no_ttl, created_at), None);
    assert_eq!(
        policy.expire_after_read(&finite_ttl, Some(Duration::from_secs(20))),
        Some(Duration::from_secs(20))
    );
    assert_eq!(policy.expire_after_read(&no_ttl, None), None);
}

#[test]
fn writes_expire_when_their_time_is_over() {
    assert_eq!(
        expires_at(Some(Duration::from_secs(5)), seconds(1), u128::MAX),
        Some(seconds(6))
    );
    assert_eq!(expires_at(Some(Duration::from_secs(5)), seconds(1), seconds(5)), None);
    assert_eq!(expires_at(None, seconds(1), u128::MAX), None);
    match memory::set(
        namespace("/values"),
        key("k"),
        Value::from_u64(1),
        Some(Duration::from_secs(30)),
        seconds(10),
        u128::MAX,
    ) {
        Change::Insert { entry, .. } => {
            assert_eq!(entry.expires_at, Some(seconds(40)));
            assert_eq!(
                stored_value(&entry, seconds(15)).remaining_ttl,
                Some(Duration::from_secs(25))
            );
        }
        other => panic!("{other:?}"),
    }
}

#[test]
fn batch_write_is_visible_as_one_store_operation() {
    let changes = memory::set_batch(
        &namespace("/values"),
        &vec![
            SetEntry { key: key("first"), value: Value::from_u64(1) },
            SetEntry { key: key("second"), value: Value::from_u64(2) },
        ],
        None,
        0,
        u128::MAX,
    );
    assert_eq!(changes.len(), 2);
    assert!(matches!(
        &changes[1],
        Change::Insert { key, entry, .. }
            if key.as_str() == "second" && entry.value == Value::from_u64(2)
    ));
}

#[test]
fn the_last_value_of_a_batch_under_a_key_is_read_back() {
    let changes = memory::set_batch(
        &namespace("/values"),
        &vec![
            SetEntry { key: key("one"), value: Value::from_u64(1) },
            SetEntry { key: key("two"), value: Value::from_u64(2) },
            SetEntry { key: key("one"), value: Value::from_u64(3) },
        ],
        Some(Duration::from_secs(10)),
        seconds(5),
        u128::MAX,
    );
    let last = changes.iter().rev().find_map(|change| match change {
        Change::Insert { key, entry, .. } if key.as_str() == "one" => Some(entry),
        _ => None,
    });
    let read = stored_value(last.unwrap(), seconds(8));
    assert_eq!(read.value, Value::from_u64(3));
    assert_eq!(read.remaining_ttl, Some(Duration::from_secs(7)));
}

#[test]
fn values_without_a_time_to_live_stay() {
    for (ttl, latest) in [(None, u128::MAX), (Some(Duration::from_secs(10)), seconds(9))] {
        match memory::set(namespace("/values"), key("one"), Value::from_u64(1), ttl, 0, latest) {
            Change::Insert { entry, .. } => {
                assert_eq!(stored_value(&entry, seconds(100)).remaining_ttl, None);
            }
            other => panic!("{other:?}"),
        }
    }
}

#[test]
fn delete_by_pattern_returns_count() {
    let list = vec![
        listed("/values", "user-1", None),
        listed("/values", "user-2", None),
        listed("/values", "group-1", None),
        listed("/other", "user-1", None),
    ];
    let pattern = KeyPattern::new("user-*").unwrap();
    let changes = memory::delete(&list, &namespace("/values"), Some(&pattern));
    assert_eq!(removed(&changes), vec!["/values user-1", "/values user-2"]);
}

#[test]
fn delete_namespace_reclaims_entries() {
    let list = vec![
        listed("/values", "a", None),
        listed("/values", "b", None),
        listed("/other", "a", None),
    ];
    assert_eq!(memory::delete(&list, &namespace("/values"), None).len(), 2);
}

#[test]
fn scans_read_what_matches() {
    let list = vec![
        listed("/values", "user-1", Some(seconds(10))),
        listed("/values", "group-1", None),
    ];
    let found = memory::scan(
        &list,
        &namespace("/values"),
        &KeyPattern::new("user-*").unwrap(),
        seconds(4),
    );
    assert_eq!(found.len(), 1);
    assert_eq!(found[0].0.as_str(), "user-1");
    assert_eq!(found[0].1.remaining_ttl, Some(Duration::from_secs(6)));
}

#[test]
fn move_namespace_errors_when_destination_exists() {
    let list = vec![listed("/a::x", "k", None), listed("/a::y", "k", None)];
    assert!(matches!(
        memory::move_namespace(&list, &namespace("/a::x"), &namespace("/a::y")),
        Err(Error::NamespaceExists(name)) if name == "/a::y"
    ));
}

#[test]
fn move_namespace_is_ok_when_source_missing() {
    assert!(
        memory::move_namespace(&Vec::new(), &namespace("/a::x"), &namespace("/a::y"))
            .unwrap()
            .is_empty()
    );
}

#[test]
fn move_namespace_is_ok_when_same_namespace() {
    let list = vec![listed("/a::x", "k", None)];
    assert!(
        memory::move_namespace(&list, &namespace("/a::x"), &namespace("/a::x"))
            .unwrap()
            .is_empty()
    );
}

#[test]
fn move_namespace_moves_all_keys_and_preserves_ttl() {
    let list = vec![
        listed("/a::x", "k", Some(seconds(60))),
        listed("/a::x", "l", None),
        listed("/b", "k", None),
    ];
    let changes =
        memory::move_namespace(&list, &namespace("/a::x"), &namespace("/a::y")).unwrap();
    let inserted: Vec<(&str, &str, Option<u128>)> = changes
        .iter()
        .filter_map(|change| match change {
            Change::Insert { namespace, key, entry } => {
                Some((namespace.as_str(), key.as_str(), entry.expires_at))
            }
            Change::Remove { .. } => None,
        })
        .collect();
    assert_eq!(
        inserted,
        vec![("/a::y", "k", Some(seconds(60))), ("/a::y", "l", None)]
    );
    assert_eq!(changes.len(), 4);
}

#[test]
fn configurations_are_built_from_their_parts() {
    let config = MemoryStoreConfig::new()
        .with_max_capacity(10)
        .with_time_to_idle(Duration::from_secs(5));
    assert_eq!(config.max_capacity, Some(10));
    assert_eq!(config.time_to_idle, Some(Duration::from_secs(5)));
    assert_eq!(MemoryStoreConfig::default().max_capacity, None);
}

#[test]
fn maximum_protocol_ttl_does_not_overflow() {
    let longest = marker(Duration::from_secs(u64::MAX)).unwrap();
    let policy = MarkerExpiry;
    assert_eq!(
        policy.expire_after_create(&longest),
        Some(Duration::from_secs(u64::MAX))
    );
    assert_eq!(policy.expire_after_update(&longest), Some(longest.ttl));
    assert_eq!(policy.expire_after_read(&longest, None), None);
    assert!(marker(Duration::from_secs(0)).is_none());
}

#[test]
fn pattern_invalidation_removes_only_matching_keys() {
    let matching = Invalidation::Matching {
        namespace: namespace("/values"),
        pattern: KeyPattern::new("o*").unwrap(),
    };
    assert!(matching.concerns(&namespace("/values"), &key("one")));
    assert!(!matching.concerns(&namespace("/values"), &key("two")));
    assert!(!matching.concerns(&namespace("/other"), &key("one")));
    let whole = Invalidation::Whole { namespace: namespace("/second") };
    assert!(whole.concerns(&namespace("/second"), &key("missing")));
    assert!(!whole.concerns(&namespace("/first"), &key("missing")));
    let exact = Invalidation::Exact { namespace: namespace("/values"), key: key("one") };
    assert!(exact.concerns(&namespace("/values"), &key("one")));
    assert!(!exact.concerns(&namespace("/values"), &key("two")));
}

#[test]
fn composite_store_fans_out_mutations_and_reads_first_hit() {
    let composite = CompositeStore::new(2);
    assert!(matches!(composite.begin(()), Progress::Ask(0)));
    assert!(matches!(composite.set(0, Ok(())), Progress::Ask(1)));
    assert!(matches!(composite.set(1, Ok(())), Progress::Finished(Ok(()))));
    assert!(matches!(
        composite.set(0, Err(Error::AuthenticationFailed)),
        Progress::Finished(Err(_))
    ));
    let hit = || StoredValue { value: Value::from_u64(1), remaining_ttl: None };
    assert!(matches!(composite.get(0, Ok(None)), Progress::Ask(1)));
    assert!(matches!(composite.get(0, Ok(Some(hit()))), Progress::Finished(Ok(Some(_)))));
    assert!(matches!(composite.get(1, Ok(None)), Progress::Finished(Ok(None))));
}

#[test]
fn remaining_times_are_rounded_up_to_seconds() {
    assert_eq!(duration_to_seconds(&Duration::from_millis(1)), 1);
    assert_eq!(duration_to_seconds(&Duration::from_secs(2)), 2);
    assert_eq!(duration_to_seconds(&Duration::from_millis(2001)), 3);
    assert_eq!(duration_to_seconds(&Duration::longest()), u64::MAX);
}

#[test]
fn routes_a_value_and_reports_stats() {
    let mut router = Router::new(5u8);
    assert_eq!(*router.store(), 5);
    match router.execute(Command::SetValue {
        namespace: namespace("/users"),
        key: key("42"),
        value: Value::from_u64(1),
        ttl_seconds: None,
    }) {
        RouterStep::Finished(_) => panic!("the value is to be written"),
        _ => {}
    }
    assert!(matches!(router.change_made(Ok(())), Ok(Response::Okay)));
    match router.execute(Command::Get { namespace: namespace("/users"), key: key("42") }) {
        RouterStep::GetValue { namespace, key } => {
            let found = StoredValue { value: Value::from_u64(1), remaining_ttl: None };
            assert!(matches!(
                router.value_read(namespace, key, Ok(Some(found))),
                Ok(Response::Value { ttl_seconds: None, .. })
            ));
        }
        other => panic!("{other:?}"),
    }
    let stats = router.stats(1);
    assert_eq!((stats.requests, stats.hits, stats.misses, stats.values), (2, 1, 0, 1));
}

#[test]
fn moves_only_contexts_in_one_namespace() {
    let mut router = Router::new(());
    assert!(matches!(
        router.execute(Command::Move {
            source: namespace("/a::x"),
            destination: namespace("/b::x"),
        }),
        RouterStep::Finished(Err(_))
    ));
    assert!(!matches!(
        router.execute(Command::Move {
            source: namespace("/a::x"),
            destination: namespace("/a::y"),
        }),
        RouterStep::Finished(_)
    ));
}
