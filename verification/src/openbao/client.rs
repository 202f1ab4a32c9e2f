//! What is said to an OpenBao server, and what its answers mean. The connections
//! are around it.

use crate::json::{self, JsonView, Value};
use crate::openbao::error::{configuration, AdapterError, AdapterErrorView};
use crate::openbao::mapping;
use crate::text;
use vstd::prelude::*;

verus! {

/// The credentials of the adapter.
#[derive(Debug)]
pub struct AppRole {
    pub role_id: String,
    pub secret_id: String,
}

/// A document with its version.
#[derive(Debug)]
pub struct Versioned {
    pub value: Value,
    pub version: u64,
}

/// A [`Versioned`] as a mathematical value.
#[verifier::ext_equal]
pub struct VersionedView {
    pub value: JsonView,
    pub version: u64,
}

impl View for Versioned {
    type V = VersionedView;

    open spec fn view(&self) -> VersionedView {
        VersionedView { value: self.value@, version: self.version }
    }
}

/// What a server answered: the code of the status, its text, and the body, or why
/// it cannot be read.
#[derive(Debug)]
pub struct Answer {
    pub status: u16,
    pub status_text: String,
    pub body: Result<Value, AdapterError>,
}

/// Why an address is no URL, as `reqwest::Url::parse` finds it.
pub uninterp spec fn url_failure(address: Seq<char>) -> Option<Seq<char>>;

/// The URL that a reference leads to from an address, as `reqwest::Url::join` finds
/// it, or why it leads to none.
pub uninterp spec fn joined_url(address: Seq<char>, reference: Seq<char>) -> Result<
    Seq<char>,
    Seq<char>,
>;

/// Calls `reqwest::Url::parse`: the result is the message of its error, or nothing
/// where the address is a URL. The contract claims that it depends on the address
/// alone.
#[verifier::external_body]
fn check_url(address: &str) -> (r: Option<String>)
    ensures
        match r {
            Some(message) => url_failure(address@) == Some(message@),
            None => url_failure(address@) is None,
        },
{
    reqwest::Url::parse(address).err().map(|error| error.to_string())
}

/// Calls `reqwest::Url::join` on a URL that was parsed: the result is the text of
/// the URL, or the message of the error. The contract claims that it depends on the
/// address and the reference alone.
#[verifier::external_body]
fn join_url(address: &str, reference: &str) -> (r: Result<String, String>)
    ensures
        match r {
            Ok(url) => joined_url(address@, reference@) == Ok::<Seq<char>, Seq<char>>(url@),
            Err(message) => joined_url(address@, reference@) == Err::<Seq<char>, Seq<char>>(
                message@,
            ),
        },
{
    reqwest::Url::parse(address)
        .and_then(|url| url.join(reference))
        .map(|url| url.to_string())
        .map_err(|error| error.to_string())
}

/// A text with every percent sign written as an escape.
pub open spec fn escaped_percents(s: Seq<char>) -> Seq<char>
    decreases s.len(),
{
    if s.len() == 0 {
        Seq::empty()
    } else {
        escaped_percents(s.drop_last()) + (if s.last() == '%' {
            seq!['%', '2', '5']
        } else {
            seq![s.last()]
        })
    }
}

/// What is asked for below the address of a server.
pub fn reference(suffix: &str) -> (r: String)
    ensures
        r@ == "v1/"@ + escaped_percents(suffix@),
{
    let chars = text::chars_of(suffix);
    let mut out = String::new();
    let mut i: usize = 0;
    assert(chars@.take(0) =~= Seq::empty());
    while i < chars.len()
        invariant
            i <= chars.len(),
            out@ == escaped_percents(chars@.take(i as int)),
        decreases chars.len() - i,
    {
        let ghost before = out@;
        proof {
            assert(chars@.take(i + 1).drop_last() =~= chars@.take(i as int));
            assert(chars@.take(i + 1).last() == chars@[i as int]);
        }
        if chars[i] == '%' {
            out.push('%');
            out.push('2');
            out.push('5');
            assert(out@ =~= before + seq!['%', '2', '5']);
        } else {
            out.push(chars[i]);
            assert(out@ =~= before + seq![chars@[i as int]]);
        }
        i += 1;
    }
    assert(chars@.take(chars.len() as int) =~= chars@);
    text::joined("v1/", out.as_str())
}

/// A server, and where the adapter's values are mounted there.
#[derive(Debug)]
pub struct OpenBaoClient {
    address: String,
    mount: String,
}

/// An [`OpenBaoClient`] as a mathematical value.
#[verifier::ext_equal]
pub struct ServerView {
    pub address: Seq<char>,
    pub mount: Seq<char>,
}

impl View for OpenBaoClient {
    type V = ServerView;

    closed spec fn view(&self) -> ServerView {
        ServerView { address: self.address@, mount: self.mount@ }
    }
}

/// A server at an address, where `failure` says why it is no URL.
pub open spec fn server(address: Seq<char>, mount: Seq<char>, failure: Option<Seq<char>>) -> Result<
    ServerView,
    AdapterErrorView,
> {
    match failure {
        Some(message) => Err(
            AdapterErrorView::Configuration("invalid openbao.address: "@ + message),
        ),
        None => Ok(ServerView { address, mount: mapping::without_slashes(mount) }),
    }
}

/// What a reference leads to, where `joined` is what joining it to the address gave.
pub open spec fn endpoint_of(joined: Result<Seq<char>, Seq<char>>) -> Result<
    Seq<char>,
    AdapterErrorView,
> {
    match joined {
        Ok(url) => Ok(url),
        Err(message) => Err(AdapterErrorView::Configuration(message)),
    }
}

/// Accepts the URL of a request, unless there is none.
pub fn accept_endpoint(joined: Result<String, String>) -> (r: Result<String, AdapterError>)
    ensures
        crate::openbao::error::bao_outcome(r) == endpoint_of(
            match joined {
                Ok(url) => Ok(url@),
                Err(message) => Err(message@),
            },
        ),
{
    match joined {
        Ok(url) => Ok(url),
        Err(message) => Err(AdapterError::Configuration(message)),
    }
}

impl OpenBaoClient {
    /// A server at an address, where `failure` says why it is no URL.
    pub fn accept_address(address: &str, mount: &str, failure: Option<String>) -> (r: Result<
        Self,
        AdapterError,
    >)
        ensures
            crate::openbao::error::bao_outcome(r) == server(
                address@,
                mount@,
                crate::error::inner(failure),
            ),
    {
        match failure {
            Some(message) => Err(
                AdapterError::Configuration(
                    text::joined("invalid openbao.address: ", message.as_str()),
                ),
            ),
            None => Ok(
                OpenBaoClient { address: address.to_owned(), mount: mapping::trim_slashes(mount) },
            ),
        }
    }

    /// A server at an address.
    pub fn new(address: &str, mount: &str) -> (r: Result<Self, AdapterError>)
        ensures
            crate::openbao::error::bao_outcome(r) == server(
                address@,
                mount@,
                url_failure(address@),
            ),
    {
        let failure = check_url(address);
        OpenBaoClient::accept_address(address, mount, failure)
    }

    /// The URL of a request: the escapes of a path are kept as they are.
    pub fn endpoint(&self, suffix: &str) -> (r: Result<String, AdapterError>)
        ensures
            crate::openbao::error::bao_outcome(r) == endpoint_of(
                joined_url(self@.address, "v1/"@ + escaped_percents(suffix@)),
            ),
    {
        let reference = reference(suffix);
        accept_endpoint(join_url(self.address.as_str(), reference.as_str()))
    }

    /// What is asked for to read, write or delete a document.
    pub fn data_path(&self, path: &str) -> (r: String)
        ensures
            r@ == self@.mount + "/data/"@ + path@,
    {
        text::joined3(self.mount.as_str(), "/data/", path)
    }

    /// What is asked for to list the documents below a path.
    pub fn metadata_path(&self, path: &str) -> (r: String)
        ensures
            r@ == self@.mount + "/metadata/"@ + path@,
    {
        text::joined3(self.mount.as_str(), "/metadata/", path)
    }
}

/// A status that says that a request was carried out.
pub open spec fn is_success(status: u16) -> bool {
    200 <= status < 300
}

/// A status that says that a request was carried out.
pub fn succeeded(status: u16) -> (r: bool)
    ensures
        r == is_success(status),
{
    200 <= status && status < 300
}

/// The member of a member.
pub open spec fn nested(value: JsonView, outer: Seq<char>, inner: Seq<char>) -> Option<JsonView> {
    match json::member(value, outer) {
        Some(value) => json::member(value, inner),
        None => None,
    }
}

fn nested_in<'a>(value: &'a Value, outer: &str, inner: &str) -> (r: Option<&'a Value>)
    ensures
        match r {
            Some(found) => nested(value@, outer@, inner@) == Some(found@),
            None => nested(value@, outer@, inner@) is None,
        },
{
    match value.get(outer) {
        Some(value) => value.get(inner),
        None => None,
    }
}

/// The body of an answer, if the request was carried out.
pub open spec fn successful_body(answer: Answer) -> Result<JsonView, AdapterErrorView> {
    if !is_success(answer.status) {
        Err(AdapterErrorView::OpenBao { status: answer.status_text@ })
    } else {
        crate::openbao::error::bao_outcome(answer.body)
    }
}

fn body_of(answer: Answer) -> (r: Result<Value, AdapterError>)
    ensures
        crate::openbao::error::bao_outcome(r) == successful_body(answer),
{
    if !succeeded(answer.status) {
        return Err(AdapterError::OpenBao { status: answer.status_text });
    }
    answer.body
}

/// What is said to log in.
pub fn login_body(role: &AppRole) -> (r: Value)
    ensures
        r@ == JsonView::Object(
            seq![
                ("role_id"@, JsonView::Text(role.role_id@)),
                ("secret_id"@, JsonView::Text(role.secret_id@)),
            ],
        ),
{
    let ghost expected = seq![
        ("role_id"@, JsonView::Text(role.role_id@)),
        ("secret_id"@, JsonView::Text(role.secret_id@)),
    ];
    let mut members: Vec<(String, Value)> = Vec::new();
    members.push(("role_id".to_owned(), Value::Text(role.role_id.clone())));
    members.push(("secret_id".to_owned(), Value::Text(role.secret_id.clone())));
    proof {
        json::lemma_object_view(members);
        assert(json::members_view(members@) =~= expected);
    }
    Value::Object(members)
}

/// The token that an answer to a login gives.
pub open spec fn login_token_of(answer: Answer) -> Result<Seq<char>, AdapterErrorView> {
    match successful_body(answer) {
        Err(error) => Err(error),
        Ok(body) => match nested(body, "auth"@, "client_token"@) {
            Some(JsonView::Text(token)) => Ok(token),
            _ => Err(
                AdapterErrorView::Configuration("OpenBao login response had no client token"@),
            ),
        },
    }
}

/// The token that an answer to a login gives.
pub fn login_token(answer: Answer) -> (r: Result<String, AdapterError>)
    ensures
        crate::openbao::error::bao_outcome(r) == login_token_of(answer),
{
    let body = match body_of(answer) {
        Ok(body) => body,
        Err(error) => {
            return Err(error);
        },
    };
    match nested_in(&body, "auth", "client_token") {
        Some(token) => match token.as_str() {
            Some(token) => Ok(token.to_owned()),
            None => Err(configuration("OpenBao login response had no client token")),
        },
        None => Err(configuration("OpenBao login response had no client token")),
    }
}

/// The version of a document, or zero.
pub open spec fn version_of(body: JsonView) -> u64 {
    match json::member(body, "data"@) {
        Some(data) => match nested(data, "metadata"@, "version"@) {
            Some(version) => match json::unsigned(version) {
                Some(n) => n,
                None => 0,
            },
            None => 0,
        },
        None => 0,
    }
}

/// The document that an answer gives.
pub open spec fn document_of(answer: Answer) -> Result<Option<VersionedView>, AdapterErrorView> {
    if answer.status == 404 {
        Ok(None)
    } else {
        match successful_body(answer) {
            Err(error) => Err(error),
            Ok(body) => match nested(body, "data"@, "data"@) {
                Some(value) => Ok(Some(VersionedView { value, version: version_of(body) })),
                None => Err(
                    AdapterErrorView::Configuration("OpenBao KV response had no data"@),
                ),
            },
        }
    }
}

fn read_version(body: &Value) -> (r: u64)
    ensures
        r == version_of(body@),
{
    match body.get("data") {
        Some(data) => match nested_in(data, "metadata", "version") {
            Some(version) => match version.as_u64() {
                Some(n) => n,
                None => 0,
            },
            None => 0,
        },
        None => 0,
    }
}

/// The view of a document that may be missing, or of an error.
pub open spec fn document_view(result: Result<Option<Versioned>, AdapterError>) -> Result<
    Option<VersionedView>,
    AdapterErrorView,
> {
    match result {
        Ok(document) => Ok(crate::error::inner(document)),
        Err(error) => Err(error@),
    }
}

/// The document that an answer gives.
pub fn read(answer: Answer) -> (r: Result<Option<Versioned>, AdapterError>)
    ensures
        document_view(r) == document_of(answer),
{
    if answer.status == 404 {
        return Ok(None);
    }
    let body = match body_of(answer) {
        Ok(body) => body,
        Err(error) => {
            return Err(error);
        },
    };
    match nested_in(&body, "data", "data") {
        Some(value) => Ok(Some(Versioned { value: value.clone(), version: read_version(&body) })),
        None => Err(configuration("OpenBao KV response had no data")),
    }
}

/// The texts of a list, if it holds nothing else.
pub open spec fn texts_of(items: Seq<JsonView>) -> Option<Seq<Seq<char>>>
    decreases items.len(),
{
    if items.len() == 0 {
        Some(Seq::empty())
    } else {
        match (texts_of(items.drop_last()), items.last()) {
            (Some(list), JsonView::Text(text)) => Some(list.push(text)),
            _ => None,
        }
    }
}

/// The names that an answer lists.
pub open spec fn names_of(answer: Answer) -> Result<Seq<Seq<char>>, AdapterErrorView> {
    if answer.status == 404 {
        Ok(Seq::empty())
    } else {
        match successful_body(answer) {
            Err(error) => Err(error),
            Ok(body) => match nested(body, "data"@, "keys"@) {
                Some(JsonView::List(items)) => match texts_of(items) {
                    Some(names) => Ok(names),
                    None => Err(
                        AdapterErrorView::Configuration(
                            "OpenBao list response had a non-string key"@,
                        ),
                    ),
                },
                _ => Err(
                    AdapterErrorView::Configuration("OpenBao list response had no keys"@),
                ),
            },
        }
    }
}

proof fn lemma_texts_fail(items: Seq<JsonView>, n: int)
    requires
        0 <= n <= items.len(),
        texts_of(items.take(n)) is None,
    ensures
        texts_of(items) is None,
    decreases items.len() - n,
{
    if n < items.len() {
        assert(items.take(n + 1).drop_last() =~= items.take(n));
        lemma_texts_fail(items, n + 1);
    } else {
        assert(items.take(n) =~= items);
    }
}

fn read_texts(items: &Vec<Value>) -> (r: Option<Vec<String>>)
    ensures
        match r {
            Some(list) => texts_of(json::list_view(items@)) == Some(
                list@.map_values(|text: String| text@),
            ),
            None => texts_of(json::list_view(items@)) is None,
        },
{
    let ghost all = json::list_view(items@);
    let mut out: Vec<String> = Vec::new();
    let mut i: usize = 0;
    assert(all.take(0) =~= Seq::empty());
    assert(out@.map_values(|text: String| text@) =~= Seq::<Seq<char>>::empty());
    while i < items.len()
        invariant
            i <= items.len(),
            all == json::list_view(items@),
            texts_of(all.take(i as int)) == Some(out@.map_values(|text: String| text@)),
        decreases items.len() - i,
    {
        let ghost before = out@.map_values(|text: String| text@);
        proof {
            assert(all.take(i + 1).drop_last() =~= all.take(i as int));
            assert(all.take(i + 1).last() == items@[i as int]@);
        }
        match items[i].as_str() {
            Some(text) => {
                out.push(text.to_owned());
                assert(out@.map_values(|text: String| text@) =~= before.push(text@));
            },
            None => {
                proof {
                    lemma_texts_fail(all, i + 1);
                }
                return None;
            },
        }
        i += 1;
    }
    assert(all.take(items.len() as int) =~= all);
    Some(out)
}

/// The view of names, or of an error.
pub open spec fn names_view(result: Result<Vec<String>, AdapterError>) -> Result<
    Seq<Seq<char>>,
    AdapterErrorView,
> {
    match result {
        Ok(names) => Ok(names@.map_values(|text: String| text@)),
        Err(error) => Err(error@),
    }
}

/// The names that an answer lists.
pub fn list(answer: Answer) -> (r: Result<Vec<String>, AdapterError>)
    ensures
        names_view(r) == names_of(answer),
{
    if answer.status == 404 {
        let none: Vec<String> = Vec::new();
        assert(none@.map_values(|text: String| text@) =~= Seq::<Seq<char>>::empty());
        return Ok(none);
    }
    let body = match body_of(answer) {
        Ok(body) => body,
        Err(error) => {
            return Err(error);
        },
    };
    match nested_in(&body, "data", "keys") {
        Some(Value::List(items)) => {
            proof {
                json::lemma_list_view(*items);
            }
            match read_texts(items) {
                Some(names) => Ok(names),
                None => Err(configuration("OpenBao list response had a non-string key")),
            }
        },
        _ => Err(configuration("OpenBao list response had no keys")),
    }
}

/// What is said to write a document: with a version, only over that version.
pub open spec fn payload(data: JsonView, cas: Option<u64>) -> JsonView {
    match cas {
        None => JsonView::Object(seq![("data"@, data)]),
        Some(version) => JsonView::Object(
            seq![
                ("data"@, data),
                (
                    "options"@,
                    JsonView::Object(
                        seq![("cas"@, JsonView::Number(text::decimal(version as nat)))],
                    ),
                ),
            ],
        ),
    }
}

/// What is said to write a document.
pub fn write_payload(data: Value, cas: Option<u64>) -> (r: Value)
    ensures
        r@ == payload(data@, cas),
{
    let ghost document = data@;
    let mut members: Vec<(String, Value)> = Vec::new();
    members.push(("data".to_owned(), data));
    if let Some(version) = cas {
        let number = Value::from_u64(version);
        let ghost n = number@;
        let mut options: Vec<(String, Value)> = Vec::new();
        options.push(("cas".to_owned(), number));
        proof {
            json::lemma_object_view(options);
            assert(json::members_view(options@) =~= seq![("cas"@, n)]);
        }
        let options = Value::Object(options);
        let ghost inner = options@;
        members.push(("options".to_owned(), options));
        proof {
            json::lemma_object_view(members);
            assert(json::members_view(members@) =~= seq![
                ("data"@, document),
                ("options"@, inner),
            ]);
        }
    } else {
        proof {
            json::lemma_object_view(members);
            assert(json::members_view(members@) =~= seq![("data"@, document)]);
        }
    }
    Value::Object(members)
}

/// Whether a document was written: one that was to be written over another version
/// is not.
pub open spec fn written_of(status: u16, status_text: Seq<char>, cas: Option<u64>) -> Result<
    bool,
    AdapterErrorView,
> {
    if status == 400 && cas is Some {
        Ok(false)
    } else if is_success(status) {
        Ok(true)
    } else {
        Err(AdapterErrorView::OpenBao { status: status_text })
    }
}

/// Whether a document was written.
pub fn written(status: u16, status_text: String, cas: Option<u64>) -> (r: Result<bool, AdapterError>)
    ensures
        match r {
            Ok(done) => written_of(status, status_text@, cas) == Ok::<bool, AdapterErrorView>(done),
            Err(error) => written_of(status, status_text@, cas) == Err::<bool, AdapterErrorView>(
                error@,
            ),
        },
{
    if status == 400 && cas.is_some() {
        Ok(false)
    } else if succeeded(status) {
        Ok(true)
    } else {
        Err(AdapterError::OpenBao { status: status_text })
    }
}

/// What a deletion comes to: a document that is not there is deleted.
pub fn deleted(status: u16, status_text: String) -> (r: Result<(), AdapterError>)
    ensures
        crate::openbao::error::bao_outcome(r) == (if is_success(status) || status == 404 {
            Ok(())
        } else {
            Err(AdapterErrorView::OpenBao { status: status_text@ })
        }),
{
    if succeeded(status) || status == 404 {
        Ok(())
    } else {
        Err(AdapterError::OpenBao { status: status_text })
    }
}

} // verus!
