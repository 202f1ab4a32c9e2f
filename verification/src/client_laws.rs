//! What the clients, the local router and the C interface make of requests and answers,
//! and how times are written.

use crate::broker::BrokerState;
use crate::capi::{self, PatternArgument};
use crate::client::{
    self, ClientErrorView, Exchange, IncomingView, ScheduleLease, StreamingView,
};
use crate::duration;
use crate::error::ErrorView;
use crate::json::JsonView;
use crate::line_callback;
use crate::line_protocol;
use crate::outcome::{ContextView, StepView};
use crate::protocol::{CommandView, ResponseView, ServerCommandView};
use crate::route::{self, RouteView};
use crate::router::{self, RouterStepView, RouterView};
use crate::store::{self, StoredView};
use crate::text;
use crate::tls;
use vstd::arithmetic::{div_mod, power};
use vstd::prelude::*;

verus! {

/// The local router asks its store for exactly what a command names, and answers by itself
/// what needs no store. What only a broker can do it refuses.
pub proof fn local_commands_reach_the_store(
    namespace: Seq<char>,
    key: Seq<char>,
    value: JsonView,
    ttl_seconds: Option<u64>,
    entries: Seq<(Seq<char>, JsonView)>,
    key_pattern: Option<Seq<char>>,
    destination: Seq<char>,
    command: CommandView,
)
    ensures
        ({
            let ttl = match ttl_seconds {
                Some(n) => Some((n * 1_000_000_000) as nat),
                None => None,
            };
            &&& router::needed(CommandView::Get { namespace, key }) == (RouterStepView::GetValue {
                namespace,
                key,
            })
            &&& router::needed(CommandView::SetValue { namespace, key, value, ttl_seconds }) == (
            RouterStepView::SetValue { namespace, key, value, ttl })
            &&& router::needed(CommandView::SetBatch { namespace, entries, ttl_seconds }) == (
            RouterStepView::SetBatch { namespace, entries, ttl })
            &&& router::needed(CommandView::Delete { namespace, key_pattern }) == (
            RouterStepView::Delete { namespace, key_pattern })
            &&& router::needed(CommandView::Move { source: namespace, destination }) == (
            match route::context_move(namespace, destination) {
                Ok(_) => RouterStepView::Move { source: namespace, destination },
                Err(error) => RouterStepView::Finished(Err(error)),
            })
            &&& router::needed(CommandView::Ping) == RouterStepView::Finished(
                Ok(ResponseView::Pong),
            )
            &&& router::needed(CommandView::Stats) == RouterStepView::CountValues
            &&& command is Auth || command is Provide || command is Store ==> (router::needed(
                command,
            ) matches RouterStepView::Finished(Err(_)))
        }),
{
}

/// A move stays in its base namespace, from one context to another.
pub proof fn moves_stay_in_their_base(source: Seq<char>, destination: Seq<char>)
    ensures
        route::context_move(source, destination) is Ok <==> route::context_of(source) is Some
            && route::context_of(destination) is Some && route::base_of(source) == route::base_of(
            destination,
        ),
        route::context_move(source, destination) matches Err(error) ==> error is Protocol,
{
}

/// The seconds that cover a time are the fewest whole ones that are not shorter, as far as
/// they can be counted.
pub proof fn seconds_cover_their_time(nanos: nat)
    requires
        nanos <= u64::MAX * 1_000_000_000,
    ensures
        ({
            let seconds = store::covering_seconds(nanos);
            &&& nanos <= seconds * 1_000_000_000
            &&& seconds * 1_000_000_000 < nanos + 1_000_000_000
        }),
        store::optional_seconds(Some(nanos)) == Some(store::covering_seconds(nanos)),
        store::optional_seconds(None) is None,
{
}

/// The broker's errors become those of the client, with their message; any other answer is
/// handed on as it is.
pub proof fn answers_are_handed_on(response: ResponseView, message: Seq<char>)
    ensures
        client::meaning(ResponseView::Error { message }) == Err::<ResponseView, ClientErrorView>(
            ClientErrorView::Server(message),
        ),
        client::meaning(ResponseView::AuthFailure { message }) == Err::<
            ResponseView,
            ClientErrorView,
        >(ClientErrorView::Authentication(message)),
        !(response is Error || response is AuthFailure) ==> client::meaning(response) == Ok::<
            ResponseView,
            ClientErrorView,
        >(response),
{
}

/// A request is sent as the frame of its command. A line that answers it is its answer,
/// and the connection can be used further; without a line, or with one that does not
/// answer it, it cannot.
pub proof fn requests_get_their_answer(
    command: CommandView,
    line: String,
    response: ResponseView,
    error: crate::client::ClientError,
)
    ensures
        line_protocol::encoded_command(command) matches Ok(frame) ==> client::request_line(
            false,
            command,
        ) == Ok::<Seq<char>, ClientErrorView>(frame),
        line_protocol::encoded_command(command) is Err ==> client::request_line(false, command)
            is Err,
        line_protocol::decoded_response(command, line@) == Ok::<ResponseView, ErrorView>(response)
            ==> client::exchanged(command, Exchange::Line(line)) == (
            false,
            client::meaning(response),
        ),
        line_protocol::decoded_response(command, line@) is Err ==> client::exchanged(
            command,
            Exchange::Line(line),
        ).0 && client::exchanged(command, Exchange::Line(line)).1 is Err,
        client::exchanged(command, Exchange::TimedOut) == (
            true,
            Err::<ResponseView, ClientErrorView>(ClientErrorView::RequestTimeout),
        ),
        client::exchanged(command, Exchange::Failed(error)) == (
            true,
            Err::<ResponseView, ClientErrorView>(error@),
        ),
{
}

/// On a streaming connection a line that is a request of the server is one; any other
/// answers the first request that waits, by its own command. Without one it is unexpected.
pub proof fn lines_answer_the_first_request(
    session: StreamingView,
    line: Seq<char>,
    command: ServerCommandView,
    response: ResponseView,
)
    ensures
        line_callback::decoded_server_command(line) == Ok::<ServerCommandView, ErrorView>(command)
            ==> session.received(line) == (session, IncomingView::Callback(command)),
        line_callback::decoded_server_command(line) is Err && session.pending.len() == 0
            ==> session.received(line) == (session, IncomingView::Unexpected),
        line_callback::decoded_server_command(line) is Err && session.pending.len() > 0
            && line_protocol::decoded_response(session.pending[0], line) == Ok::<
            ResponseView,
            ErrorView,
        >(response) ==> session.received(line).1 == IncomingView::Answer(response) && session.received(
            line,
        ).0.pending =~= session.pending.subrange(1, session.pending.len() as int)
            && session.received(line).0.poisoned == session.poisoned,
        line_callback::decoded_server_command(line) is Err && session.pending.len() > 0
            && line_protocol::decoded_response(session.pending[0], line) is Err
            ==> session.received(line).1 == IncomingView::Unexpected,
{
}

/// Failures of the connection are those after which it makes sense to connect anew.
pub proof fn connection_failures_are_told_apart(text: Seq<char>, retry_after_ms: u64)
    ensures
        ClientErrorView::Connection(text).is_connection_failure(),
        ClientErrorView::Frame(text).is_connection_failure(),
        ClientErrorView::Closed.is_connection_failure(),
        ClientErrorView::RequestTimeout.is_connection_failure(),
        !ClientErrorView::Tls(text).is_connection_failure(),
        !ClientErrorView::Protocol(text).is_connection_failure(),
        !ClientErrorView::Server(text).is_connection_failure(),
        !ClientErrorView::UnexpectedResponse(text).is_connection_failure(),
        !ClientErrorView::Configuration(text).is_connection_failure(),
        !ClientErrorView::NoHealthyEndpoints.is_connection_failure(),
        !ClientErrorView::Authentication(text).is_connection_failure(),
        !(ClientErrorView::AuthenticationPending { retry_after_ms }).is_connection_failure(),
{
}

/// The codes of the C interface.
pub proof fn errors_have_their_code(text: Seq<char>, retry_after_ms: u64)
    ensures
        capi::VALKYR_OK == 0,
        capi::code_of(ClientErrorView::Connection(text)) == -2,
        capi::code_of(ClientErrorView::Closed) == -2,
        capi::code_of(ClientErrorView::RequestTimeout) == -2,
        capi::code_of(ClientErrorView::Authentication(text)) == -3,
        capi::code_of(ClientErrorView::Server(text)) == -4,
        capi::code_of(ClientErrorView::Protocol(text)) == -5,
        capi::code_of(ClientErrorView::Tls(text)) == -6,
        capi::code_of(ClientErrorView::Frame(text)) == -6,
        capi::code_of(ClientErrorView::UnexpectedResponse(text)) == -6,
        capi::code_of(ClientErrorView::Configuration(text)) == -6,
        capi::code_of(ClientErrorView::NoHealthyEndpoints) == -6,
        capi::code_of(ClientErrorView::AuthenticationPending { retry_after_ms }) == -6,
{
}

/// A call of the C interface makes the command that it names with the arguments as they
/// are; no time to live is written as zero. Arguments that are missing or empty are
/// refused.
pub proof fn calls_make_their_command(
    namespace: Seq<char>,
    key: Seq<char>,
    value: JsonView,
    ttl_seconds: u64,
    pattern: String,
)
    requires
        namespace.len() > 0,
        key.len() > 0,
        pattern@.len() > 0,
    ensures
        capi::get_call(Some(namespace), Some(key)) == Ok::<CommandView, (i32, Seq<char>)>(
            CommandView::Get { namespace, key },
        ),
        capi::set_call(namespace, key, Some(value), ttl_seconds) == Ok::<
            CommandView,
            (i32, Seq<char>),
        >(
            CommandView::SetValue {
                namespace,
                key,
                value,
                ttl_seconds: if ttl_seconds > 0 {
                    Some(ttl_seconds)
                } else {
                    None
                },
            },
        ),
        capi::delete_call(Some(namespace), PatternArgument::Absent) == Ok::<
            CommandView,
            (i32, Seq<char>),
        >(CommandView::Delete { namespace, key_pattern: None }),
        capi::delete_call(Some(namespace), PatternArgument::Text(pattern)) == Ok::<
            CommandView,
            (i32, Seq<char>),
        >(CommandView::Delete { namespace, key_pattern: Some(pattern@) }),
        capi::move_call(Some(namespace), Some(key)) == Ok::<CommandView, (i32, Seq<char>)>(
            CommandView::Move { source: namespace, destination: key },
        ),
        capi::get_call(None, Some(key)) matches Err((code, _)) && code == -1,
        capi::get_call(Some(namespace), None) matches Err((code, _)) && code == -1,
        capi::get_call(Some(Seq::empty()), Some(key)) matches Err((code, _)) && code == -1,
        capi::get_call(Some(namespace), Some(Seq::empty())) matches Err((code, _)) && code == -1,
        capi::set_call(namespace, key, None, ttl_seconds) matches Err((code, _)) && code == -5,
        capi::set_call(Seq::empty(), key, Some(value), ttl_seconds) matches Err((code, _)) && code
            == -5,
        capi::set_call(namespace, Seq::empty(), Some(value), ttl_seconds) matches Err((code, _))
            && code == -5,
        capi::delete_call(None, PatternArgument::Absent) matches Err((code, _)) && code == -1,
        capi::delete_call(Some(Seq::empty()), PatternArgument::Absent) matches Err((code, _))
            && code == -1,
        capi::delete_call(Some(namespace), PatternArgument::Unreadable) matches Err((code, _))
            && code == -1,
        capi::move_call(None, Some(key)) matches Err((code, _)) && code == -1,
        capi::move_call(Some(namespace), None) matches Err((code, _)) && code == -1,
        capi::move_call(Some(Seq::empty()), Some(key)) matches Err((code, _)) && code == -1,
        capi::move_call(Some(namespace), Some(Seq::empty())) matches Err((code, _)) && code == -1,
{
}

proof fn lemma_last_position(s: Seq<char>, c: char, at: int)
    requires
        0 <= at < s.len(),
        s[at] == c,
        forall|i: int| at < i < s.len() ==> s[i] != c,
    ensures
        tls::last_position(s, c) == Some(at),
    decreases s.len(),
{
    if at + 1 < s.len() {
        lemma_last_position(s.drop_last(), c, at);
    }
}

proof fn lemma_first_position(s: Seq<char>, c: char, from: int, at: int)
    requires
        0 <= from <= at < s.len(),
        s[at] == c,
        forall|i: int| from <= i < at ==> s[i] != c,
    ensures
        tls::first_position(s, c, from) == Some(at),
    decreases at - from,
{
    if from < at {
        lemma_first_position(s, c, from + 1, at);
    }
}

proof fn lemma_no_position(s: Seq<char>, c: char)
    requires
        !s.contains(c),
    ensures
        tls::last_position(s, c) is None,
    decreases s.len(),
{
    if s.len() > 0 {
        assert(s[s.len() - 1] == s.last());
        assert forall|i: int| 0 <= i < s.drop_last().len() implies s.drop_last()[i] != c by {
            assert(s[i] != c);
        }
        lemma_no_position(s.drop_last(), c);
    }
}

/// The host of an address is what stands before its port, without the brackets of a
/// numeric one.
pub proof fn hosts_stand_before_their_port(host: Seq<char>, port: Seq<char>)
    requires
        !port.contains(':'),
        !host.contains(']'),
    ensures
        host.len() == 0 || host[0] != '[' ==> tls::host_of(host + seq![':'] + port) == host,
        tls::host_of(seq!['['] + host + seq![']', ':'] + port) == host,
        !host.contains(':') && (host.len() == 0 || host[0] != '[') ==> tls::host_of(host) == host,
{
    let plain = host + seq![':'] + port;
    let at = host.len() as int;
    assert(plain[at] == ':');
    assert forall|i: int| at < i < plain.len() implies plain[i] != ':' by {
        assert(plain[i] == port[i - at - 1]);
    }
    lemma_last_position(plain, ':', at);
    assert(plain.take(at) =~= host);
    if host.len() > 0 {
        assert(plain[0] == host[0]);
    } else {
        assert(plain[0] == ':');
    }
    let bracketed = seq!['['] + host + seq![']', ':'] + port;
    assert(bracketed[0] == '[');
    assert(bracketed[at + 1] == ']');
    assert forall|i: int| 1 <= i < at + 1 implies bracketed[i] != ']' by {
        assert(bracketed[i] == host[i - 1]);
    }
    lemma_first_position(bracketed, ']', 1, at + 1);
    assert(bracketed.subrange(1, at + 1) =~= host);
    if !host.contains(':') {
        lemma_no_position(host, ':');
    }
}

/// The nanoseconds of a unit.
pub open spec fn is_unit(unit: Seq<char>, nanos: nat) -> bool {
    ||| unit == "ns"@ && nanos == 1
    ||| unit == "us"@ && nanos == 1_000
    ||| unit == "µs"@ && nanos == 1_000
    ||| unit == "ms"@ && nanos == 1_000_000
    ||| unit == "s"@ && nanos == 1_000_000_000
    ||| unit == "m"@ && nanos == 60 * 1_000_000_000
    ||| unit == "h"@ && nanos == 60 * 60 * 1_000_000_000
}

proof fn lemma_unit(unit: Seq<char>, nanos: nat)
    requires
        is_unit(unit, nanos),
    ensures
        duration::unit_nanos(unit) == Some(nanos),
        unit.len() > 0,
        duration::unit_char(unit[0]),
        !text::whitespace(unit.last()),
{
    reveal_strlit("h");
    reveal_strlit("m");
    reveal_strlit("s");
    reveal_strlit("ms");
    reveal_strlit("us");
    reveal_strlit("ns");
    reveal_strlit("µs");
    assert("h"@.len() == 1 && "h"@[0] == 'h');
    assert("m"@.len() == 1 && "m"@[0] == 'm');
    assert("s"@.len() == 1 && "s"@[0] == 's');
    assert("ms"@.len() == 2 && "ms"@[0] == 'm' && "ms"@[1] == 's');
    assert("us"@.len() == 2 && "us"@[0] == 'u' && "us"@[1] == 's');
    assert("ns"@.len() == 2 && "ns"@[0] == 'n' && "ns"@[1] == 's');
    assert("µs"@.len() == 2 && "µs"@[0] == 'µ' && "µs"@[1] == 's');
}

proof fn lemma_unit_start(s: Seq<char>, from: int, at: int)
    requires
        0 <= from <= at < s.len(),
        duration::unit_char(s[at]),
        forall|i: int| from <= i < at ==> !duration::unit_char(#[trigger] s[i]),
    ensures
        duration::unit_start(s, from) == Some(at),
    decreases at - from,
{
    if from < at {
        lemma_unit_start(s, from + 1, at);
    }
}

/// A number with a unit is that many of it: nanoseconds, microseconds, milliseconds,
/// seconds, minutes or hours. A time that would be too long is refused, and so is a
/// number without a unit.
pub proof fn times_are_numbers_of_units(n: nat, unit: Seq<char>, nanos: nat)
    requires
        is_unit(unit, nanos),
    ensures
        n * nanos <= duration::max_nanos() ==> duration::parsed(text::decimal(n) + unit) == Ok::<
            nat,
            Seq<char>,
        >(n * nanos),
        n * nanos > duration::max_nanos() ==> duration::parsed(text::decimal(n) + unit) is Err,
        duration::parsed(text::decimal(n)) is Err,
{
    let digits = text::decimal(n);
    let whole = digits + unit;
    let k = digits.len() as int;
    lemma_unit(unit, nanos);
    text::lemma_decimal(n);
    assert(text::is_digit(digits[0]));
    assert(whole[0] == digits[0]);
    assert(whole.last() == unit.last());
    assert(text::trim_start(whole) == whole);
    assert(text::trim_end(whole) == whole);
    assert(text::is_digit(digits[k - 1]));
    assert(text::trim_start(digits) == digits);
    assert(text::trim_end(digits) == digits);
    assert forall|i: int| 0 <= i < k implies !duration::unit_char(#[trigger] whole[i]) by {
        assert(text::is_digit(digits[i]));
    }
    assert(whole[k] == unit[0]);
    lemma_unit_start(whole, 0, k);
    lemma_no_unit(digits, 0);
    assert(whole.take(k) =~= digits);
    assert(whole.skip(k) =~= unit);
    text::lemma_find_from(digits, seq!['.'], 0);
    if let Some(at) = text::find(digits, seq!['.']) {
        assert(digits.subrange(at, at + 1)[0] == '.');
        assert(text::is_digit(digits[at]));
    }
    assert(n <= n * nanos) by (nonlinear_arith)
        requires
            nanos >= 1,
    ;
}

proof fn lemma_no_unit(digits: Seq<char>, from: int)
    requires
        0 <= from,
        forall|i: int| 0 <= i < digits.len() ==> text::is_digit(#[trigger] digits[i]),
    ensures
        duration::unit_start(digits, from) is None,
    decreases digits.len() - from,
{
    if from < digits.len() {
        assert(text::is_digit(digits[from]));
        lemma_no_unit(digits, from + 1);
    }
}

/// A time is a whole number of wire units or refused.
pub proof fn wire_units_are_whole(n: nat, per_unit: nat, nanos: nat, unit: Seq<char>)
    requires
        per_unit > 0,
    ensures
        n <= u64::MAX ==> duration::wire_units(n * per_unit, per_unit, unit) == Ok::<
            nat,
            Seq<char>,
        >(n),
        n > u64::MAX ==> duration::wire_units(n * per_unit, per_unit, unit) is Err,
        duration::wire_units(nanos, per_unit, unit) matches Ok(count) ==> count * per_unit
            == nanos,
{
    vstd::arithmetic::div_mod::lemma_div_multiples_vanish(n as int, per_unit as int);
    vstd::arithmetic::div_mod::lemma_mod_multiples_basic(n as int, per_unit as int);
    assert(n * per_unit == per_unit * n) by (nonlinear_arith);
    vstd::arithmetic::div_mod::lemma_fundamental_div_mod(nanos as int, per_unit as int);
    assert((nanos / per_unit) * per_unit == per_unit * (nanos / per_unit)) by (nonlinear_arith);
}

/// A number with a fraction is that many of its unit, where it comes to whole
/// nanoseconds; where it does not it is refused.
pub proof fn fractions_are_parts_of_their_unit(
    whole: Seq<char>,
    fraction: Seq<char>,
    unit: Seq<char>,
    nanos: nat,
    more: nat,
)
    requires
        is_unit(unit, nanos),
        text::is_number(whole),
        text::is_number(fraction),
        fraction.len() <= 38,
        power::pow(10, fraction.len()) <= u128::MAX,
        text::number_value(fraction) <= u128::MAX,
        text::number_value(fraction) * nanos <= u128::MAX,
        text::number_value(whole) <= u128::MAX,
        text::number_value(whole) * nanos <= u128::MAX,
    ensures
        ({
            let written = whole + seq!['.'] + fraction + unit;
            let tenths = power::pow(10, fraction.len());
            let total = text::number_value(whole) * nanos + more;
            &&& more * tenths == text::number_value(fraction) * nanos && total
                <= duration::max_nanos() ==> duration::parsed(written) == Ok::<nat, Seq<char>>(
                total as nat,
            )
            &&& more * tenths < text::number_value(fraction) * nanos < (more + 1) * tenths
                ==> duration::parsed(written) is Err
        }),
{
    let number = whole + seq!['.'] + fraction;
    let written = number + unit;
    let k = number.len() as int;
    let at = whole.len() as int;
    let tenths = power::pow(10, fraction.len());
    let numerator = text::number_value(fraction) * nanos;
    lemma_unit(unit, nanos);
    power::lemma_pow_positive(10, fraction.len());
    assert(text::is_digit(whole[0]));
    assert(written[0] == whole[0]);
    assert(written.last() == unit.last());
    assert(text::trim_start(written) == written);
    assert(text::trim_end(written) == written);
    assert forall|i: int| 0 <= i < k implies !duration::unit_char(#[trigger] written[i]) by {
        if i < at {
            assert(written[i] == whole[i]);
            assert(text::is_digit(whole[i]));
        } else if i > at {
            assert(written[i] == fraction[i - at - 1]);
            assert(text::is_digit(fraction[i - at - 1]));
        }
    }
    assert(written[k] == unit[0]);
    lemma_unit_start(written, 0, k);
    assert(written.take(k) =~= number);
    assert(written.skip(k) =~= unit);
    assert(number.subrange(at, at + 1) =~= seq!['.']);
    assert forall|j: int| 0 <= j < at implies !#[trigger] text::occurs_at(number, seq!['.'], j) by {
        assert(number.subrange(j, j + 1)[0] == whole[j]);
        assert(text::is_digit(whole[j]));
    }
    text::lemma_find_from_is(number, seq!['.'], 0, at);
    assert(number.take(at) =~= whole);
    assert(number.skip(at + 1) =~= fraction);
    assert(duration::number_valid(number));
    if more * tenths == numerator {
        div_mod::lemma_mod_multiples_basic(more as int, tenths);
        div_mod::lemma_div_multiples_vanish(more as int, tenths);
        assert(tenths * more == more * tenths) by (nonlinear_arith);
    }
    if more * tenths < numerator < (more + 1) * tenths {
        div_mod::lemma_fundamental_div_mod(numerator as int, tenths);
        let q = numerator as int / tenths;
        if numerator as int % tenths == 0 {
            assert(false) by (nonlinear_arith)
                requires
                    more * tenths < tenths * q,
                    tenths * q < (more + 1) * tenths,
                    tenths > 0,
            ;
        }
    }
}

/// A name that certificates can be for is taken as it is, any other is refused; the roots
/// that a file adds are all that it holds, where there is one at least and each can be
/// trusted.
pub proof fn roots_and_names_are_taken_as_they_are(
    host: Seq<char>,
    failure: Seq<char>,
    certificates: Seq<Seq<u8>>,
    failures: Seq<Option<Seq<char>>>,
)
    ensures
        tls::named_host(host, None) == Ok::<Seq<char>, ClientErrorView>(host),
        tls::named_host(host, Some(failure)) matches Err(error) && error is Configuration,
        tls::trusted_roots(None) == Ok::<Seq<Seq<u8>>, ClientErrorView>(Seq::empty()),
        (tls::trusted(certificates, failures) is Ok) <==> certificates.len() > 0 && forall|i: int|
            0 <= i < failures.len() ==> (#[trigger] failures[i]) is None,
        tls::trusted(certificates, failures) matches Ok(roots) ==> roots == certificates,
{
    crate::db::config_laws::no_complaint_is_none(failures);
}

/// A client takes from an answer what it asked for: the value itself, the success of its
/// authentication or the time to wait for it, the lease of a schedule with its time. Any
/// other answer is an error.
pub proof fn answers_give_what_was_asked_for(
    response: ResponseView,
    value: JsonView,
    ttl_seconds: Option<u64>,
    n: u64,
)
    ensures
        client::value_of(ResponseView::Value { value, ttl_seconds }) == Ok::<
            JsonView,
            ClientErrorView,
        >(value),
        !(response is Value) ==> (client::value_of(response) matches Err(error)
            && error is UnexpectedResponse),
        client::authentication_of(response) is Ok <==> response is AuthSuccess,
        client::authentication_of(ResponseView::AuthPending { retry_after_ms: n }) == Err::<
            (),
            ClientErrorView,
        >(ClientErrorView::AuthenticationPending { retry_after_ms: n }),
        !(response is AuthSuccess) && !(response is AuthPending) ==> (client::authentication_of(
            response,
        ) matches Err(error) && error is UnexpectedResponse),
        !(response is Value) ==> client::lease_of(response) is Err,
        n > 0 ==> client::lease_of(
            ResponseView::Value { value: JsonView::Bool(true), ttl_seconds: Some(n) },
        ) == Ok::<ScheduleLease, ClientErrorView>(ScheduleLease::Acquired { ttl_seconds: n }),
        client::lease_of(ResponseView::Value { value: JsonView::Bool(false), ttl_seconds }) == Ok::<
            ScheduleLease,
            ClientErrorView,
        >(ScheduleLease::Unavailable),
        client::lease_of(
            ResponseView::Value { value: JsonView::Bool(true), ttl_seconds: None },
        ) is Err,
{
}

/// What the broker answers to a request for a lease, its client understands: the adapter
/// has the lease exactly where the broker now holds it for that adapter.
pub proof fn leases_are_understood(
    state: BrokerState,
    key: Seq<char>,
    context: ContextView,
    now: nat,
)
    requires
        state.in_time(now),
    ensures
        ({
            let (next, step) = state.lease_acquired(key, context, now);
            step matches StepView::Finished(Ok(outcome)) ==> {
                &&& client::lease_of(outcome.response) matches Ok(lease)
                &&& lease is Acquired <==> next.leases.dom().contains(key)
                    && context.adapter_instance == Some(next.leases[key].owner)
                &&& lease is Acquired ==> next.leases[key].expires_at == now
                    + lease->ttl_seconds * 1_000_000_000
            }
        }),
{
}

/// The local router answers with the value that it read and the seconds that it has left,
/// and counts it as a hit; where there is none it says for which route, and counts a
/// miss. A failure is handed on and not counted.
pub proof fn local_reads_are_answered(
    state: RouterView,
    route: RouteView,
    stored: StoredView,
    error: ErrorView,
)
    ensures
        ({
            let (found, answer) = router::answered(
                state,
                route,
                Ok::<Option<StoredView>, ErrorView>(Some(stored)),
            );
            let (missed, refusal) = router::answered(
                state,
                route,
                Ok::<Option<StoredView>, ErrorView>(None),
            );
            &&& answer matches Ok(ResponseView::Value { value, ttl_seconds })
            &&& value == stored.value
            &&& ttl_seconds is Some <==> stored.remaining_ttl is Some
            &&& stored.remaining_ttl is Some && stored.remaining_ttl->0 <= duration::max_nanos()
                && stored.remaining_ttl->0 % 1_000_000_000 == 0 ==> ttl_seconds->0 * 1_000_000_000
                == stored.remaining_ttl->0
            &&& refusal == Err::<ResponseView, ErrorView>(ErrorView::NotFound(route))
            &&& state.hits < u64::MAX ==> found.hits == state.hits + 1
            &&& state.misses < u64::MAX ==> missed.misses == state.misses + 1
            &&& found == (RouterView { hits: found.hits, ..state })
            &&& missed == (RouterView { misses: missed.misses, ..state })
            &&& router::answered(state, route, Err::<Option<StoredView>, ErrorView>(error)) == (
                state,
                Err::<ResponseView, ErrorView>(error),
            )
        }),
{
}

} // verus!
