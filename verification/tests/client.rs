use valkyr::capi::{
    changed, classify, delete_request, fetched, get_request, move_request, set_request,
    PatternArgument, VALKYR_ERROR_CONNECTION, VALKYR_ERROR_INVALID_ARGUMENT, VALKYR_ERROR_JSON,
    VALKYR_ERROR_SERVER,
};
use valkyr::client::{
    acquire_schedule_lease, expect_authentication, expect_lease, expect_ok, expect_pong,
    expect_stats, expect_value, provide, release_schedule_lease, set_batch, ClientBuilder,
    ClientError, Exchange, Incoming, ScheduleLease, ServerEndpoint, Session, StreamingSession,
};
use valkyr::duration::Duration;
use valkyr::json::{self, Value};
use valkyr::line_protocol::encode_command;
use valkyr::tls::{tls_host, tls_server_name, verified_tls_config};
use valkyr::{
    Command, Key, KeyPattern, NamespaceContext, NamespacePattern, Response, SetEntry, Stats,
};

fn namespace(text: &str) -> NamespaceContext {
    NamespaceContext::new(text).unwrap()
}

fn key(text: &str) -> Key {
    Key::new(text).unwrap()
}

#[test]
fn pending_authentication_is_retryable() {
    assert!(ClientError::AuthenticationPending { retry_after_ms: 10 }.is_retryable());
}

#[test]
fn verified_tls_config_rejects_malformed_pem() {
    assert!(matches!(
        verified_tls_config(Some(b"not a certificate")),
        Err(ClientError::Configuration(message)) if message.contains("CA certificate")
    ));
}

#[test]
fn verified_tls_config_accepts_no_certificate_and_rejects_bad_ones() {
    assert!(verified_tls_config(None).unwrap().is_empty());
    let pem = b"-----BEGIN CERTIFICATE-----\nAAAA\n-----END CERTIFICATE-----\n";
    assert!(matches!(
        verified_tls_config(Some(pem)),
        Err(ClientError::Configuration(_))
    ));
}

#[test]
fn server_names_come_from_addresses() {
    assert_eq!(tls_host("valkyr.test:8443"), "valkyr.test");
    assert_eq!(tls_host("[::1]:8443"), "::1");
    assert_eq!(tls_server_name("valkyr.test:8443").unwrap(), "valkyr.test");
    assert!(tls_server_name("not a name:1").is_err());
}

#[test]
fn client_timeout_poisoning_is_propagated_by_builder() {
    let mut session = Session::new();
    let ping = Command::Ping;
    assert_eq!(session.request(&ping).unwrap(), "PING");
    assert!(matches!(
        session.answer(&ping, Exchange::TimedOut),
        Err(ClientError::RequestTimeout)
    ));
    assert!(matches!(session.request(&ping), Err(ClientError::Closed)));
}

#[test]
fn invalid_ordered_answer_poisons_ordinary_client() {
    let mut session = Session::new();
    let ping = Command::Ping;
    assert!(matches!(
        session.answer(&ping, Exchange::Line("PING".into())),
        Err(ClientError::Protocol(_))
    ));
    assert!(session.poisoned);
    assert!(matches!(session.request(&ping), Err(ClientError::Closed)));
}

#[test]
fn refusals_leave_the_connection_usable() {
    let mut session = Session::new();
    let get = Command::Get { namespace: namespace("/x"), key: key("k") };
    assert!(matches!(
        session.answer(&get, Exchange::Line("KO \"denied\"".into())),
        Err(ClientError::Server(_))
    ));
    assert!(!session.poisoned);
    let response = session
        .answer(&get, Exchange::Line("SET /x k 1".into()))
        .unwrap();
    assert_eq!(expect_value(response).unwrap(), Value::from_u64(1));
    let failed = session.answer(&get, Exchange::Failed(ClientError::Closed));
    assert!(matches!(failed, Err(ClientError::Closed)));
    assert!(session.poisoned);
}

#[test]
fn public_registration_calls_emit_options_on_ordinary_and_streaming_clients() {
    let pattern = || NamespacePattern::new("/values").unwrap();
    let legacy = provide(pattern(), KeyPattern::new("legacy").unwrap(), None);
    assert_eq!(encode_command(&legacy).unwrap(), "PROVIDE /values legacy");
    let limited = provide(pattern(), KeyPattern::new("legacy").unwrap(), Some(2));
    assert_eq!(encode_command(&limited).unwrap(), "PROVIDE /values legacy MAX_RATE 2");
    let zero = valkyr::client::provide_with_options(
        pattern(),
        KeyPattern::new("zero").unwrap(),
        valkyr::ProvideOptions::new(),
    );
    assert_eq!(
        encode_command(&zero).unwrap(),
        "PROVIDE /values zero TIMEOUT 0 MISS_TTL 0"
    );
}

#[test]
fn streaming_client_timeout_closes_connection() {
    let mut session = StreamingSession::new();
    let ping = Command::Ping;
    assert_eq!(session.request(&ping).unwrap(), "PING");
    session.expect(Command::Ping);
    assert!(matches!(session.time_out(), ClientError::RequestTimeout));
    assert!(session.is_poisoned());
    assert!(matches!(session.request(&ping), Err(ClientError::Closed)));
}

#[test]
fn callbacks_come_between_answers() {
    let mut session = StreamingSession::new();
    session.expect(Command::Ping);
    session.expect(Command::Stats);
    assert!(matches!(
        session.receive("QUERY 00000000-0000-0000-0000-000000000001 /x k"),
        Incoming::Callback(command) if command.request_id() == 1
    ));
    assert!(matches!(session.receive("PONG"), Incoming::Answer(Response::Pong)));
    assert!(matches!(
        session.receive("STATS REQUESTS 1 HITS 2 MISSES 3 VALUES 4"),
        Incoming::Answer(Response::Stats(Stats { requests: 1, hits: 2, misses: 3, values: 4 }))
    ));
    assert!(matches!(session.receive("PONG"), Incoming::Unexpected));
}

#[test]
fn builders_try_their_endpoints_in_order() {
    let builder: ClientBuilder<u8> = ClientBuilder::new()
        .server("a:1")
        .tls_server("b:2")
        .tls_server_with_config("c:3", 7)
        .api_key("key")
        .adapter_instance(9)
        .connection_timeout(Duration::from_secs(1))
        .request_timeout(Duration::from_secs(2));
    let mut attempts = builder.connect().unwrap();
    let (first, _) = attempts.next().unwrap();
    assert_eq!((first.address.as_str(), first.use_tls), ("a:1", false));
    let (second, config) = attempts.next().unwrap();
    assert_eq!((second.address.as_str(), second.use_tls), ("b:2", true));
    assert_eq!(config, None);
    let (_, config) = attempts.next().unwrap();
    assert_eq!(config, Some(7));
    assert!(matches!(attempts.next(), Err(ClientError::NoHealthyEndpoints)));
    let none: ClientBuilder<u8> = ClientBuilder::new();
    assert!(matches!(none.connect(), Err(ClientError::Configuration(_))));
    let listed: ClientBuilder<u8> =
        ClientBuilder::new().endpoints(vec![ServerEndpoint::tcp("x:1"), ServerEndpoint::tls("y:2")]);
    let mut attempts = listed.api_key("k").connect().unwrap();
    assert_eq!(attempts.next().unwrap().0.address, "x:1");
}

#[test]
fn requests_are_built_from_their_parts() {
    let line = |command: &Command| encode_command(command).unwrap();
    assert_eq!(
        line(&valkyr::client::set(namespace("/x"), key("k"), Value::from_u64(1), Some(Duration::from_millis(2500)))),
        "SET /x k 1 EX 2"
    );
    assert_eq!(
        line(&set_batch(
            namespace("/x"),
            vec![SetEntry { key: key("k"), value: Value::Null }],
            None
        )),
        "SET_BATCH /x k null"
    );
    assert_eq!(line(&acquire_schedule_lease(&namespace("/orders"))), "GET /__lease /orders");
    assert_eq!(line(&release_schedule_lease(&namespace("/orders"))), "SET /__lease /orders 0");
}

#[test]
fn answers_are_expected_by_kind() {
    assert!(expect_ok(Response::Okay).is_ok());
    assert!(matches!(
        expect_ok(Response::Pong),
        Err(ClientError::UnexpectedResponse(_))
    ));
    assert!(expect_pong(Response::Pong).is_ok());
    assert!(expect_pong(Response::Okay).is_err());
    assert!(expect_value(Response::Okay).is_err());
    assert!(expect_stats(Response::Okay).is_err());
    assert!(matches!(
        expect_authentication(Response::AuthPending { retry_after_ms: 5 }),
        Err(ClientError::AuthenticationPending { retry_after_ms: 5 })
    ));
    let lease = |value: Value, ttl_seconds| {
        expect_lease(Response::Value { value, ttl_seconds })
    };
    assert_eq!(
        lease(Value::Bool(true), Some(30)).unwrap(),
        ScheduleLease::Acquired { ttl_seconds: 30 }
    );
    assert_eq!(lease(Value::Bool(false), None).unwrap(), ScheduleLease::Unavailable);
    assert!(lease(Value::Bool(true), None).is_err());
    assert!(lease(Value::from_u64(1), Some(30)).is_err());
}

#[test]
fn foreign_calls_name_what_is_wrong() {
    let text = |text: &str| Some(text.to_string());
    let failure = get_request(None, text("k")).unwrap_err();
    assert_eq!(failure.code, VALKYR_ERROR_INVALID_ARGUMENT);
    assert_eq!(
        encode_command(&get_request(text("/x"), text("k")).unwrap()).unwrap(),
        "GET /x k"
    );
    assert_eq!(
        encode_command(&set_request(text("/x"), text("k"), text("{\"a\":1}"), 5).unwrap()).unwrap(),
        "SET /x k {\"a\":1} EX 5"
    );
    assert_eq!(
        set_request(text("/x"), text("k"), text("{"), 0).unwrap_err().code,
        VALKYR_ERROR_JSON
    );
    assert_eq!(
        encode_command(
            &delete_request(text("/x"), PatternArgument::Text("a*".into())).unwrap()
        )
        .unwrap(),
        "DELETE /x a*"
    );
    assert!(delete_request(text("/x"), PatternArgument::Unreadable).is_err());
    assert_eq!(
        encode_command(&move_request(text("/x::a"), text("/x::b")).unwrap()).unwrap(),
        "MOVE /x::a /x::b"
    );
    assert!(move_request(None, None).is_err());
    assert_eq!(classify(&ClientError::Closed), VALKYR_ERROR_CONNECTION);
    assert_eq!(
        changed(Err(ClientError::Server("no".into()))).unwrap_err().code,
        VALKYR_ERROR_SERVER
    );
    assert_eq!(
        fetched(Ok(json::parse("[1]").unwrap())).unwrap(),
        "[1]"
    );
}

#[test]
fn errors_show_their_messages() {
    assert!(!ClientError::Server("no".into()).is_retryable());
    assert!(ClientError::Closed.is_connection_failure());
    assert!(!ClientError::Server("no".into()).is_connection_failure());
    assert!(ClientError::Server("no".into()).message().contains("no"));
}
