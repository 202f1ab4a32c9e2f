use valkyr::client;
use valkyr::json::{self, Value};
use valkyr::line_callback::{
    callback_request_id, decode_server_command, decode_server_result, encode_server_command,
    encode_server_result,
};
use valkyr::line_protocol::{decode_command, decode_response, encode_command, encode_response};
use valkyr::{
    Command, Error, Key, KeyPattern, NamespaceContext, NamespacePattern, ProvideOptions, Response,
    ServerCommand, ServerResult, SetEntry, Stats,
};

fn namespace(text: &str) -> NamespaceContext {
    NamespaceContext::new(text).unwrap()
}

fn key(text: &str) -> Key {
    Key::new(text).unwrap()
}

fn value(text: &str) -> Value {
    json::parse(text).unwrap()
}

#[test]
fn provider_options_encode_for_both_client_surfaces() {
    let command = Command::Provide {
        namespace_pattern: NamespacePattern::new("/values").unwrap(),
        key_pattern: KeyPattern::new("*").unwrap(),
        max_rate: Some(2),
        timeout: Some(250),
        miss_ttl: Some(30),
    };
    assert_eq!(
        encode_command(&command).unwrap(),
        "PROVIDE /values * MAX_RATE 2 TIMEOUT 250 MISS_TTL 30"
    );
    let options = ProvideOptions::from(Some(2))
        .with_timeout_ms(250)
        .with_miss_ttl_seconds(30);
    let built = client::provide_with_options(
        NamespacePattern::new("/values").unwrap(),
        KeyPattern::new("*").unwrap(),
        options,
    );
    assert_eq!(encode_command(&built).unwrap(), encode_command(&command).unwrap());
}

#[test]
fn command_round_trips() {
    let c = Command::SetValue {
        namespace: namespace("/users"),
        key: key("name"),
        value: value("{\"name\":\"Ada\"}"),
        ttl_seconds: Some(60),
    };
    let decoded = decode_command(&encode_command(&c).unwrap()).unwrap();
    assert_eq!(
        encode_command(&decoded).unwrap(),
        encode_command(&c).unwrap()
    );
}

#[test]
fn answers_use_context() {
    let c = Command::Get { namespace: namespace("/users"), key: key("name") };
    let r = Response::Value { value: Value::Text("Ada".into()), ttl_seconds: None };
    let line = encode_response(&c, &r).unwrap();
    assert_eq!(line, "SET /users name \"Ada\"");
    assert!(decode_response(&c, &line).is_ok());
}

#[test]
fn malformed_frames_are_rejected() {
    for line in [
        "",
        "GET /x",
        "SET /x k 1 EXTRA",
        "AUTH key ADAPTER nope",
        "SET /x k {",
    ] {
        assert!(decode_command(line).is_err(), "{line}");
    }
}

#[test]
fn canonical_lines_round_trip_exactly() {
    for line in [
        "AUTH app-key",
        "AUTH app-key ADAPTER 00000000-0000-0000-0000-000000000001",
        "GET /users 42",
        "SET /users 42 {\"name\":\"Ada\"}",
        "SET /users 42 {\"name\":\"Ada\"} EX 300",
        "SET_BATCH /users a 1 b \"two\" EX 5",
        "DELETE /users",
        "DELETE /users a*",
        "MOVE /users::a /users::b",
        "PROVIDE /users *",
        "PROVIDE /users * MAX_RATE 2 TIMEOUT 250 MISS_TTL 30",
        "STORE /users *",
        "PING",
        "STATS",
    ] {
        let command = decode_command(line).unwrap();
        assert_eq!(encode_command(&command).unwrap(), line);
    }
    let auth = Command::Auth { api_key: "app-key".into(), adapter_instance: None };
    let get = Command::Get { namespace: namespace("/users"), key: key("42") };
    let set = Command::SetValue {
        namespace: namespace("/users"),
        key: key("42"),
        value: value("{}"),
        ttl_seconds: None,
    };
    for (command, line) in [
        (&auth, "OK client-1 TTL 3600"),
        (&auth, "MISS 10"),
        (&auth, "KO \"invalid API key\""),
        (&Command::Ping, "PONG"),
        (&Command::Stats, "STATS REQUESTS 1 HITS 2 MISSES 3 VALUES 4"),
        (&set, "OK"),
        (&set, "KO \"provider unavailable\""),
        (&get, "SET /users 42 {\"name\":\"Ada\"} EX 300"),
        (&get, "MISS 10"),
        (&get, "UNKNOWN"),
    ] {
        let response = decode_response(command, line).unwrap();
        assert_eq!(encode_response(command, &response).unwrap(), line);
    }
    for line in [
        "QUERY 00000000-0000-0000-0000-000000000001 /users 42",
        "PERSIST_SET 00000000-0000-0000-0000-000000000002 /users 42 {\"name\":\"Ada\"} EX 300",
        "PERSIST_DELETE 00000000-0000-0000-0000-000000000003 /users a*",
        "PERSIST_MOVE 00000000-0000-0000-0000-000000000004 /users::a /users::b",
    ] {
        let command = decode_server_command(line).unwrap();
        assert_eq!(encode_server_command(&command).unwrap(), line);
    }
    let query = decode_server_command("QUERY 00000000-0000-0000-0000-000000000001 /users 42").unwrap();
    for line in [
        "QUERY_RESULT 00000000-0000-0000-0000-000000000001 SET /users 42 {\"name\":\"Ada\"} EX 300",
        "QUERY_RESULT 00000000-0000-0000-0000-000000000001 MISS",
        "QUERY_RESULT 00000000-0000-0000-0000-000000000001 KO \"database failed\"",
    ] {
        let result = decode_server_result(&query, line).unwrap();
        assert_eq!(encode_server_result(&query, &result).unwrap(), line);
    }
    let persist = decode_server_command(
        "PERSIST_SET 00000000-0000-0000-0000-000000000002 /users 42 {\"name\":\"Ada\"} EX 300",
    )
    .unwrap();
    for line in [
        "OPERATION 00000000-0000-0000-0000-000000000002 OK",
        "OPERATION 00000000-0000-0000-0000-000000000002 KO \"write failed\"",
    ] {
        let result = decode_server_result(&persist, line).unwrap();
        assert_eq!(encode_server_result(&persist, &result).unwrap(), line);
    }
}

#[test]
fn shared_invalid_text_cases_are_rejected() {
    for line in [
        "SET /x k 1 BAD 2",
        "PROVIDE /x * MISS_TTL 2 TIMEOUT 1",
        "AUTH key ADAPTER 00000000000000000000000000000001",
        "SET /x k 1 EX 18446744073709551616",
    ] {
        assert!(decode_command(line).is_err(), "{line}");
    }
    let ping = Command::Ping;
    assert!(decode_response(&ping, "MISS 1").is_err());
    assert!(decode_server_command(
        "PERSIST_SET 00000000-0000-0000-0000-000000000001 /x k 1 BAD 2"
    )
    .is_err());
    let query = decode_server_command("QUERY 00000000-0000-0000-0000-000000000001 /x k").unwrap();
    assert!(decode_server_result(&query, "QUERY_RESULT nope SET /x k 1").is_err());
}

#[test]
fn answer_matrix_rejects_mismatched_families() {
    let get = Command::Get { namespace: namespace("/x"), key: key("k") };
    let set = Command::SetValue {
        namespace: namespace("/x"),
        key: key("k"),
        value: value("1"),
        ttl_seconds: None,
    };
    let ping = Command::Ping;
    let stats = Command::Stats;
    for (command, frame) in [
        (&get, "OK"),
        (&set, "PONG"),
        (&ping, "UNKNOWN"),
        (&stats, "OK"),
    ] {
        assert!(decode_response(command, frame).is_err(), "accepted {frame}");
    }
    assert!(encode_response(&get, &Response::Okay).is_err());
    assert!(encode_response(&ping, &Response::Unknown).is_err());
}

#[test]
fn strict_values_and_quoted_ex_batch_keys() {
    for line in ["SET /x k bare", "SET /x k NaN", "SET /x k Infinity"] {
        assert!(decode_command(line).is_err(), "accepted {line}");
    }
    let command = Command::SetBatch {
        namespace: namespace("/x"),
        entries: vec![SetEntry { key: key("EX"), value: value("1") }],
        ttl_seconds: Some(5),
    };
    let line = encode_command(&command).unwrap();
    assert_eq!(line, "SET_BATCH /x \"EX\" 1 EX 5");
    assert_eq!(
        encode_command(&decode_command(&line).unwrap()).unwrap(),
        line
    );
    assert!(decode_command("SET_BATCH /x EX 5").is_err());

    let callback = ServerCommand::PersistSetBatch {
        request_id: uuid::Uuid::parse_str("00000000-0000-0000-0000-000000000003")
            .unwrap()
            .as_u128(),
        namespace: namespace("/x"),
        entries: vec![SetEntry { key: key("EX"), value: value("1") }],
        ttl_seconds: None,
    };
    let callback_line = encode_server_command(&callback).unwrap();
    assert_eq!(
        callback_line,
        "PERSIST_SET_BATCH 00000000-0000-0000-0000-000000000003 /x \"EX\" 1"
    );
    assert_eq!(
        encode_server_command(&decode_server_command(&callback_line).unwrap()).unwrap(),
        callback_line
    );
    assert!(decode_server_command(
        "PERSIST_SET_BATCH 00000000-0000-0000-0000-000000000003 /x EX 5"
    )
    .is_err());
}

#[test]
fn reserved_keywords_must_be_unquoted() {
    let command_cases = [
        "AUTH key \"ADAPTER\" 00000000-0000-0000-0000-000000000001",
        "SET /x k 1 \"EX\" 5",
        "PROVIDE /x * \"MAX_RATE\" 1",
        "PROVIDE /x * TIMEOUT 1 \"MISS_TTL\" 2",
    ];
    for line in command_cases {
        assert!(decode_command(line).is_err(), "accepted {line}");
    }

    let auth = Command::Auth { api_key: "key".into(), adapter_instance: None };
    let get = Command::Get { namespace: namespace("/x"), key: key("k") };
    let stats = Command::Stats;
    for (command, line) in [
        (&auth, "OK client \"TTL\" 1"),
        (&get, "SET /x k 1 \"EX\" 5"),
        (&stats, "STATS \"REQUESTS\" 1 HITS 0 MISSES 0 VALUES 0"),
    ] {
        assert!(decode_response(command, line).is_err(), "accepted {line}");
    }

    assert!(decode_server_command(
        "PERSIST_SET 00000000-0000-0000-0000-000000000001 /x k 1 \"EX\" 5"
    )
    .is_err());
    let query = decode_server_command("QUERY 00000000-0000-0000-0000-000000000001 /x k").unwrap();
    assert!(decode_server_result(
        &query,
        "QUERY_RESULT 00000000-0000-0000-0000-000000000001 \"SET\" /x k 1"
    )
    .is_err());
    let persist =
        decode_server_command("PERSIST_SET 00000000-0000-0000-0000-000000000002 /x k 1").unwrap();
    assert!(decode_server_result(
        &persist,
        "OPERATION 00000000-0000-0000-0000-000000000002 \"OK\""
    )
    .is_err());
}

#[test]
fn unusual_texts_survive_the_wire() {
    for text in ["a b", "\"", "\\", "é☃", "line\nbreak", "tab\t", "x\"y", "", "SET", "\r"] {
        let command = Command::SetValue {
            namespace: namespace("/a b::\"c\""),
            key: key("k\"\\"),
            value: Value::Text(text.to_string()),
            ttl_seconds: None,
        };
        let line = encode_command(&command).unwrap();
        assert!(!line.contains('\n'));
        match decode_command(&line).unwrap() {
            Command::SetValue { namespace: n, key: k, value: v, ttl_seconds: None } => {
                assert_eq!(n.as_str(), "/a b::\"c\"");
                assert_eq!(k.as_str(), "k\"\\");
                assert_eq!(v, Value::Text(text.to_string()));
            }
            other => panic!("{other:?}"),
        }
    }
}

#[test]
fn frames_have_a_limit() {
    let command = Command::SetValue {
        namespace: namespace("/x"),
        key: key("k"),
        value: Value::Text("a".repeat(1024 * 1024)),
        ttl_seconds: None,
    };
    let long = encode_command(&command).unwrap();
    assert!(decode_command(&long).is_err());
    let line = format!("SET /x k \"{}\"", "a".repeat(1024 * 1024));
    assert!(decode_command(&line).is_err());
}

#[test]
fn statistics_and_identifiers_are_carried() {
    let stats = Stats { requests: 1, hits: 2, misses: 3, values: 4 };
    let line = encode_response(&Command::Stats, &Response::Stats(stats)).unwrap();
    assert_eq!(line, "STATS REQUESTS 1 HITS 2 MISSES 3 VALUES 4");
    let id = uuid::Uuid::from_u128(0x0123_4567_89ab_cdef_0123_4567_89ab_cdef);
    let callback = ServerCommand::Query {
        request_id: id.as_u128(),
        namespace: namespace("/x"),
        key: key("k"),
    };
    let line = encode_server_command(&callback).unwrap();
    assert_eq!(line, format!("QUERY {id} /x k"));
    let answer = encode_server_result(
        &callback,
        &ServerResult::Query {
            request_id: id.as_u128(),
            value: None,
            ttl_seconds: None,
            error: None,
        },
    )
    .unwrap();
    assert_eq!(callback_request_id(&answer).unwrap(), id.as_u128());
    assert!(callback_request_id(&line).is_err());
    assert_eq!(callback_request_id(&format!("OPERATION {id} OK")).unwrap(), id.as_u128());
    assert_eq!(callback_request_id(&format!("QUERY_RESULT \"{id}\"")).unwrap(), id.as_u128());
    assert!(callback_request_id(&format!("OPERATION {} OK", id.simple())).is_err());
    assert!(callback_request_id(&format!("\"OPERATION\" {id} OK")).is_err());
    assert_eq!(callback.request_id(), id.as_u128());
    assert_eq!(valkyr::words::write_simple(id.as_u128()), id.simple().to_string());
    let result = ServerResult::Operation { request_id: 7, error: None };
    assert!(encode_server_result(&callback, &result).is_err());
}

#[test]
fn json_is_read_and_written_as_serde_json_does() {
    for text in [
        "null",
        "true",
        "false",
        "0",
        "-1",
        "18446744073709551615",
        "\"text\"",
        "\"\\u0001\\n\\t\\\"\\\\/\"",
        "[]",
        "{}",
        "[1,[2,[3]],{\"a\":null}]",
        "{\"a\":1,\"b\":[true,\"x\"],\"c\":{\"d\":\"é☃\"}}",
    ] {
        let expected: serde_json::Value = serde_json::from_str(text).unwrap();
        let read = json::parse(text).unwrap();
        assert_eq!(json::render(&read), expected.to_string(), "{text}");
    }
    for text in ["", "{", "[1,]", "nope", "01", "\"\u{1}\"", "{\"a\" 1}", "1 2"] {
        assert!(serde_json::from_str::<serde_json::Value>(text).is_err());
        assert!(json::parse(text).is_none(), "{text}");
    }
    assert_eq!(json::parse("{\"b\":1,\"a\":2}").map(|v| json::render(&v)), {
        let v: serde_json::Value = serde_json::from_str("{\"b\":1,\"a\":2}").unwrap();
        Some(v.to_string())
    });
    assert!(json::parse(&"[".repeat(200)).is_none());
    assert!(json::parse_bytes(vec![0xff]).is_none());
    assert_eq!(json::parse_bytes(b"7".to_vec()), Some(Value::from_u64(7)));
}

#[test]
fn errors_become_failures_on_the_wire() {
    let get = Command::Get { namespace: namespace("/x"), key: key("k") };
    let response = Response::error(&Error::AuthenticationFailed);
    let line = encode_response(&get, &response).unwrap();
    assert!(line.starts_with("KO "));
    match decode_response(&get, &line).unwrap() {
        Response::Error { message, .. } => {
            assert_eq!(message, Error::AuthenticationFailed.message());
        }
        other => panic!("{other:?}"),
    }
}

#[test]
fn frames_with_line_breaks_in_their_texts_are_one_line() {
    let namespace = NamespaceContext::new("/a\nb").unwrap();
    let command = Command::SetValue {
        namespace: namespace.clone(),
        key: Key::new("k\r\u{1}").unwrap(),
        value: json::parse("{\"text\":\"one\\ntwo\"}").unwrap(),
        ttl_seconds: Some(5),
    };
    let frame = encode_command(&command).unwrap();
    assert_eq!(
        frame,
        "SET \"/a\\nb\" \"k\\r\\u0001\" {\"text\":\"one\\ntwo\"} EX 5"
    );
    assert!(!frame.contains('\n') && !frame.contains('\r'));
    let response = Response::Error { message: "first\nsecond".into() };
    let answer = encode_response(&Command::Ping, &response).unwrap();
    assert_eq!(answer, "KO \"first\\nsecond\"");
}
