use valkyr::duration::{self, parse, to_millis, to_seconds, Duration};
use valkyr::route::{
    key_text_matches, validate_context_move, Key, KeyPattern, NamespaceContext, NamespacePattern,
    Route,
};
use valkyr::{Error, Pattern};

#[test]
fn context_accessors_preserve_the_first_delimiter_and_text() {
    let qualified = NamespaceContext::new("/people::user::region").unwrap();
    assert_eq!(qualified.as_str(), "/people::user::region");
    assert_eq!(qualified.ns(), "/people");
    assert_eq!(qualified.ctx(), Some("user::region"));
    assert_eq!(NamespaceContext::new("/people").unwrap().ctx(), None);
    let malformed = NamespaceContext::new("/people::").unwrap();
    assert_eq!(malformed.as_str(), "/people::");
    assert_eq!(malformed.ns(), "/people::");
    assert_eq!(malformed.ctx(), None);
}

#[test]
fn empty_namespaces_are_rejected() {
    assert!(NamespaceContext::new("").is_err());
}

#[test]
fn context_moves_require_one_shared_base_namespace() {
    let source = NamespaceContext::new("/people::draft").unwrap();
    let destination = NamespaceContext::new("/people::published").unwrap();
    assert!(validate_context_move(&source, &destination).is_ok());
    assert!(validate_context_move(
        &source,
        &NamespaceContext::new("/archive::published").unwrap()
    )
    .is_err());
    assert!(validate_context_move(&source, &NamespaceContext::new("/archive").unwrap()).is_err());
}

#[test]
fn context_decomposition_holds_for_texts_around_the_delimiter() {
    for (text, base, context) in [
        ("/people::a", "/people", Some("a")),
        ("::a", "::a", None),
        ("/p:::x", "/p", Some(":x")),
        ("/p::a::b", "/p", Some("a::b")),
        ("/é::ü", "/é", Some("ü")),
        ("/p:q", "/p:q", None),
    ] {
        let namespace = NamespaceContext::new(text).unwrap();
        assert_eq!(namespace.ns(), base, "{text}");
        assert_eq!(namespace.ctx(), context, "{text}");
        if let Some(context) = namespace.ctx() {
            assert_eq!(format!("{}::{}", namespace.ns(), context), text);
        }
    }
}

#[test]
fn empty_identifiers_name_their_field() {
    assert!(matches!(
        NamespaceContext::new(""),
        Err(Error::EmptyIdentifier { field: "namespace" })
    ));
    assert!(matches!(Key::new(""), Err(Error::EmptyIdentifier { field: "key" })));
    assert!(matches!(
        KeyPattern::new(""),
        Err(Error::EmptyIdentifier { field: "key pattern" })
    ));
    assert!(matches!(
        NamespacePattern::new(""),
        Err(Error::EmptyIdentifier { field: "namespace pattern" })
    ));
    assert_eq!(Key::new("").unwrap_err().message(), "key must not be empty");
}

#[test]
fn context_move_errors_say_what_is_wrong() {
    let base = NamespaceContext::new("/people").unwrap();
    let draft = NamespaceContext::new("/people::draft").unwrap();
    let other = NamespaceContext::new("/archive::draft").unwrap();
    let text = |result: Result<(), Error>| match result {
        Err(Error::Protocol(message)) => message,
        other => panic!("{other:?}"),
    };
    assert_eq!(
        text(validate_context_move(&base, &draft)),
        "MOVE source must be a namespace::context route"
    );
    assert_eq!(
        text(validate_context_move(&draft, &base)),
        "MOVE destination must be a namespace::context route"
    );
    assert_eq!(
        text(validate_context_move(&draft, &other)),
        "MOVE source and destination must share a base namespace"
    );
}

#[test]
fn key_patterns_match_exactly_or_by_their_prefix() {
    let pattern = KeyPattern::new("user-*").unwrap();
    assert!(pattern.matches(&Key::new("user-1").unwrap()));
    assert!(pattern.matches(&Key::new("user-").unwrap()));
    assert!(!pattern.matches(&Key::new("group-1").unwrap()));
    assert!(key_text_matches("*", "anything"));
    assert!(key_text_matches("one", "one"));
    assert!(!key_text_matches("one", "two"));
}

#[test]
fn routes_show_their_namespace_and_key() {
    let route = Route::new(
        NamespaceContext::new("/people::x").unwrap(),
        Key::new("42").unwrap(),
    );
    assert_eq!(route.to_text(), "/people::x/42");
}

#[test]
fn captures_and_wildcards_match() {
    let captures = Pattern::new("/users/{id}/*")
        .matches("/users/42/profile")
        .unwrap();
    assert_eq!(captures.get("id").unwrap(), "42");
    assert!(Pattern::new("/users/*").matches("/groups/42").is_none());
}

#[test]
fn supports_dollar_brace_captures() {
    let captures = Pattern::new("/services/${service}/config")
        .matches("/services/api/config")
        .unwrap();
    assert_eq!(captures.get("service").unwrap(), "api");
}

#[test]
fn reports_declared_capture_names() {
    assert_eq!(
        Pattern::new("/services/${service}/{id}").capture_names(),
        Vec::from(["id".to_string(), "service".to_string()])
    );
}

#[test]
fn patterns_know_whether_they_are_literal() {
    assert!(!Pattern::new("/users").has_wildcard_or_capture());
    assert!(Pattern::new("/users/*").has_wildcard_or_capture());
    assert!(Pattern::new("/users/{id}").has_wildcard_or_capture());
    assert_eq!(Pattern::new("/users/{id}").source(), "/users/{id}");
}

#[test]
fn a_match_cuts_the_text_into_the_parts_of_the_pattern() {
    let captures = Pattern::new("a{x}b{y}").matches("a1b2").unwrap();
    assert_eq!(captures.get("x").unwrap(), "1");
    assert_eq!(captures.get("y").unwrap(), "2");
    let captures = Pattern::new("{x}-{y}").matches("a-b-c").unwrap();
    let x = captures.get("x").unwrap();
    let y = captures.get("y").unwrap();
    assert_eq!(format!("{x}-{y}"), "a-b-c");
}

#[test]
fn parses_explicit_units_and_fractional_values() {
    assert_eq!(parse("15ms").unwrap(), Duration::from_millis(15));
    assert_eq!(parse("5s").unwrap(), Duration::from_secs(5));
    assert_eq!(parse("1m").unwrap(), Duration::from_secs(60));
    assert_eq!(parse("1.5s").unwrap(), Duration::from_millis(1_500));
}

#[test]
fn rejects_ambiguous_negative_and_unrepresentable_values() {
    for value in ["15", "-1s", "1.5ns", "1x"] {
        assert!(parse(value).is_err(), "{value} should be rejected");
    }
}

#[test]
fn rejects_overflow_and_lossy_wire_conversions() {
    assert!(parse("18446744073709551616s").is_err());
    assert!(to_millis(Duration::from_secs(u64::MAX)).is_err());
    assert!(to_millis(Duration::from_nanos(1)).is_err());
    assert!(to_seconds(Duration::from_millis(1)).is_err());
    assert_eq!(to_millis(Duration::from_millis(1_500)).unwrap(), 1_500);
    assert_eq!(to_seconds(Duration::from_secs(90)).unwrap(), 90);
    assert_eq!(to_millis(Duration::from_millis(15)).unwrap(), 15);
    assert_eq!(to_seconds(Duration::from_secs(5)).unwrap(), 5);
}

#[test]
fn serializes_with_an_explicit_unit() {
    assert_eq!(duration::format(&Duration::from_millis(15)), "15ms");
    assert_eq!(duration::format(&Duration::from_secs(0)), "0s");
}

#[test]
fn durations_are_written_as_they_are_read() {
    for text in ["1ns", "999ms", "1s", "90s", "18446744073709551615s", "1500us"] {
        let value = parse(text).unwrap();
        assert_eq!(parse(&duration::format(&value)).unwrap(), value, "{text}");
    }
    assert_eq!(parse("0.001s").unwrap(), Duration::from_millis(1));
    assert!(parse("").is_err());
    assert!(parse("s").is_err());
}

#[test]
fn whitespace_is_what_the_standard_library_calls_it() {
    for code in 0..=0x10FFFFu32 {
        if let Some(c) = char::from_u32(code) {
            assert_eq!(valkyr::text::is_whitespace(c), c.is_whitespace(), "{code:x}");
        }
    }
    for text in ["", " a ", "\u{3000}x\u{2003}", "\t\n"] {
        assert_eq!(valkyr::text::trimmed(text), text.trim());
    }
}

#[test]
fn lists_are_ordered_by_their_names() {
    let names: Vec<String> = ["b", "a", "é", "ab", "", "z", "a"]
        .iter()
        .map(|name| name.to_string())
        .collect();
    let mut expected = names.clone();
    expected.sort();
    assert_eq!(valkyr::order::arrange(names), expected);
}

#[test]
fn braces_without_a_name_are_literal_text() {
    for text in ["{}{id}", "${}{id}", "{}${id}", "{}{}{id}"] {
        assert_eq!(Pattern::new(text).capture_names(), Vec::from(["id".to_string()]));
    }
    let pattern = Pattern::new("{}{id}*");
    let captures = pattern.matches("{}seven").unwrap();
    assert_eq!(captures.get("id").map(String::as_str), Some("s"));
    assert!(pattern.matches("seven").is_none());
    assert!(Pattern::new("{}").capture_names().is_empty());
    assert!(Pattern::new("{}").matches("{}").is_some());
}
