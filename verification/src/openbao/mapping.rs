//! Where values are kept, and in which form.

use crate::broker::AUTH_NAMESPACE;
use crate::crypto;
use crate::duration::Duration;
use crate::json::{self, JsonView, Value};
use crate::openbao::error::{configuration, AdapterError, AdapterErrorView};
use crate::openbao::percent;
use crate::route::{self, Key, NamespaceContext};
use crate::text;
use vstd::prelude::*;

pub use crate::openbao::percent::{decode, encode};

verus! {

/// A text without the slashes at its start.
pub open spec fn trim_start_slashes(s: Seq<char>) -> Seq<char>
    decreases s.len(),
{
    if s.len() > 0 && s[0] == '/' {
        trim_start_slashes(s.skip(1))
    } else {
        s
    }
}

/// A text without the slashes at its end.
pub open spec fn trim_end_slashes(s: Seq<char>) -> Seq<char>
    decreases s.len(),
{
    if s.len() > 0 && s.last() == '/' {
        trim_end_slashes(s.drop_last())
    } else {
        s
    }
}

/// A text without the slashes at its ends.
pub open spec fn without_slashes(s: Seq<char>) -> Seq<char> {
    trim_end_slashes(trim_start_slashes(s))
}

/// A text without the slashes at its ends.
pub fn trim_slashes(s: &str) -> (r: String)
    ensures
        r@ == without_slashes(s@),
{
    let v = text::chars_of(s);
    let mut i: usize = 0;
    assert(v@.skip(0) =~= v@);
    while i < v.len() && v[i] == '/'
        invariant
            i <= v.len(),
            trim_start_slashes(v@.skip(i as int)) == trim_start_slashes(v@),
        decreases v.len() - i,
    {
        assert(v@.skip(i as int).skip(1) =~= v@.skip(i + 1));
        i += 1;
    }
    let ghost rest = v@.skip(i as int);
    assert(trim_start_slashes(v@) == rest);
    let mut n: usize = v.len();
    assert(v@.subrange(i as int, n as int) =~= rest);
    while n > i && v[n - 1] == '/'
        invariant
            i <= n <= v.len(),
            trim_end_slashes(v@.subrange(i as int, n as int)) == trim_end_slashes(rest),
        decreases n,
    {
        assert(v@.subrange(i as int, n as int).drop_last() =~= v@.subrange(i as int, n - 1));
        n -= 1;
    }
    text::slice(&v, i, n)
}

/// The paths of a store below a prefix.
#[derive(Debug)]
pub struct OpenBaoMapping {
    prefix: String,
}

impl View for OpenBaoMapping {
    type V = Seq<char>;

    closed spec fn view(&self) -> Seq<char> {
        self.prefix@
    }
}

impl Clone for OpenBaoMapping {
    fn clone(&self) -> (r: Self)
        ensures
            r@ == self@,
    {
        OpenBaoMapping { prefix: self.prefix.clone() }
    }
}

/// Where a value is kept.
#[derive(Debug)]
pub enum SecretLocation {
    Root { base: String, path: String },
    Context { base: String, context: String, path: String },
}

/// A [`SecretLocation`] as a mathematical value.
#[verifier::ext_equal]
pub enum LocationView {
    Root { base: Seq<char>, path: Seq<char> },
    Context { base: Seq<char>, context: Seq<char>, path: Seq<char> },
}

impl View for SecretLocation {
    type V = LocationView;

    open spec fn view(&self) -> LocationView {
        match self {
            SecretLocation::Root { base, path } => LocationView::Root { base: base@, path: path@ },
            SecretLocation::Context { base, context, path } => LocationView::Context {
                base: base@,
                context: context@,
                path: path@,
            },
        }
    }
}

impl LocationView {
    pub open spec fn path(self) -> Seq<char> {
        match self {
            LocationView::Root { path, .. } => path,
            LocationView::Context { path, .. } => path,
        }
    }
}

impl SecretLocation {
    pub fn path(&self) -> (r: &str)
        ensures
            r@ == self@.path(),
    {
        match self {
            SecretLocation::Root { path, .. } => path.as_str(),
            SecretLocation::Context { path, .. } => path.as_str(),
        }
    }
}

/// A permission record as it is kept: paths do not tell its key.
#[derive(Debug)]
pub struct AuthDocument {
    pub key: String,
    pub value: Value,
    pub ttl: Option<Duration>,
}

/// An [`AuthDocument`] as a mathematical value.
#[verifier::ext_equal]
pub struct AuthDocumentView {
    pub key: Seq<char>,
    pub value: JsonView,
    pub ttl: Option<nat>,
}

impl View for AuthDocument {
    type V = AuthDocumentView;

    open spec fn view(&self) -> AuthDocumentView {
        AuthDocumentView {
            key: self.key@,
            value: self.value@,
            ttl: crate::error::inner(self.ttl),
        }
    }
}

/// The path of the index of a base namespace: it tells where its contexts are.
pub open spec fn index_path_of(prefix: Seq<char>, base: Seq<char>) -> Seq<char> {
    prefix + "/indexes/"@ + percent::segment(base)
}

/// The path of the values of a namespace without a context.
pub open spec fn root_path_of(prefix: Seq<char>, namespace: Seq<char>) -> Seq<char> {
    prefix + "/values/"@ + percent::segment(namespace) + "/root"@
}

/// The path of the values of a context.
pub open spec fn context_path_of(
    prefix: Seq<char>,
    base: Seq<char>,
    collection: Seq<char>,
) -> Seq<char> {
    prefix + "/values/"@ + percent::segment(base) + "/contexts/"@ + collection
}

/// The digest of a key, in hexadecimal.
pub open spec fn key_digest(key: Seq<char>) -> Seq<char> {
    crypto::hex_text(crypto::sha256(vstd::utf8::encode_utf8(key)))
}

/// The parts of a digest that a path is made of.
pub open spec fn digest_parts(digest: Seq<char>) -> Seq<Seq<char>> {
    seq![
        digest.subrange(0, 16),
        digest.subrange(16, 32),
        digest.subrange(32, 48),
        digest.subrange(48, 64),
    ]
}

/// The path of a permission record whose key has the given digest.
pub open spec fn digest_path(prefix: Seq<char>, digest: Seq<char>) -> Seq<char> {
    root_path_of(prefix, AUTH_NAMESPACE@) + "/"@ + digest.subrange(0, 16) + "/"@
        + digest.subrange(16, 32) + "/"@ + digest.subrange(32, 48) + "/"@ + digest.subrange(48, 64)
}

/// The path of a permission record.
pub open spec fn auth_path_of(prefix: Seq<char>, key: Seq<char>) -> Seq<char> {
    digest_path(prefix, key_digest(key))
}

/// The namespace of permission records.
pub open spec fn is_auth(namespace: Seq<char>) -> bool {
    namespace == AUTH_NAMESPACE@ && route::context_of(namespace) is None
}

/// Where a value is kept. `collection` is where its context is.
pub open spec fn location(
    prefix: Seq<char>,
    namespace: Seq<char>,
    key: Seq<char>,
    collection: Option<Seq<char>>,
) -> Result<LocationView, AdapterErrorView> {
    match route::context_of(namespace) {
        None => Ok(
            LocationView::Root {
                base: namespace,
                path: if is_auth(namespace) {
                    auth_path_of(prefix, key)
                } else {
                    root_path_of(prefix, namespace) + "/"@ + percent::segment(key)
                },
            },
        ),
        Some(context) => match collection {
            None => Err(AdapterErrorView::Configuration("context collection is required"@)),
            Some(collection) => Ok(
                LocationView::Context {
                    base: route::base_of(namespace),
                    context,
                    path: context_path_of(prefix, route::base_of(namespace), collection) + "/"@
                        + percent::segment(key),
                },
            ),
        },
    }
}

/// A number that may be missing, as JSON.
pub open spec fn optional_number(n: Option<u64>) -> JsonView {
    match n {
        Some(n) => JsonView::Number(text::decimal(n as nat)),
        None => JsonView::Null,
    }
}

/// A permission record in the form in which it is kept.
pub open spec fn auth_document(key: Seq<char>, value: JsonView, ttl: Option<nat>) -> JsonView {
    JsonView::Object(
        seq![
            ("key"@, JsonView::Text(key)),
            ("ttl_seconds"@, optional_number(crate::broker::whole_seconds(ttl))),
            ("value"@, value),
        ],
    )
}

/// Any other value in the form in which it is kept.
pub open spec fn value_document(value: JsonView, ttl: Option<nat>) -> JsonView {
    JsonView::Object(
        seq![
            ("ttl_seconds"@, optional_number(crate::broker::whole_seconds(ttl))),
            ("value"@, value),
        ],
    )
}

/// The permission record of a document.
pub open spec fn read_auth_document(document: JsonView) -> Result<
    AuthDocumentView,
    AdapterErrorView,
> {
    let key = match json::member(document, "key"@) {
        Some(JsonView::Text(key)) => if key.len() > 0 {
            Some(key)
        } else {
            None
        },
        _ => None,
    };
    match key {
        None => Err(
            AdapterErrorView::Configuration("OpenBao auth document had no valid key"@),
        ),
        Some(key) => match json::member(document, "value"@) {
            None => Err(AdapterErrorView::Configuration("OpenBao auth document had no value"@)),
            Some(value) => match json::member(document, "ttl_seconds"@) {
                None => Ok(AuthDocumentView { key, value, ttl: None }),
                Some(JsonView::Null) => Ok(AuthDocumentView { key, value, ttl: None }),
                Some(ttl) => match json::unsigned(ttl) {
                    Some(n) => Ok(
                        AuthDocumentView {
                            key,
                            value,
                            ttl: Some((n * 1_000_000_000) as nat),
                        },
                    ),
                    None => Err(
                        AdapterErrorView::Configuration(
                            "OpenBao auth document had an invalid ttl_seconds"@,
                        ),
                    ),
                },
            },
        },
    }
}

fn object_of(members: Vec<(String, Value)>) -> (r: Value)
    ensures
        r@ == JsonView::Object(json::members_view(members@)),
{
    proof {
        json::lemma_object_view(members);
    }
    Value::Object(members)
}

fn number_or_null(n: Option<u64>) -> (r: Value)
    ensures
        r@ == optional_number(n),
{
    match n {
        Some(n) => Value::from_u64(n),
        None => Value::Null,
    }
}

fn whole_seconds(ttl: Option<Duration>) -> (r: Option<u64>)
    ensures
        r == crate::broker::whole_seconds(crate::error::inner(ttl)),
{
    match ttl {
        Some(ttl) => Some(ttl.as_secs()),
        None => None,
    }
}

/// A value in the form in which it is kept.
pub fn encode_value_document(value: Value, ttl: Option<Duration>) -> (r: Value)
    ensures
        r@ == value_document(value@, crate::error::inner(ttl)),
{
    let ttl_seconds = number_or_null(whole_seconds(ttl));
    let ghost expected = seq![("ttl_seconds"@, ttl_seconds@), ("value"@, value@)];
    let mut members: Vec<(String, Value)> = Vec::new();
    members.push(("ttl_seconds".to_owned(), ttl_seconds));
    members.push(("value".to_owned(), value));
    assert(json::members_view(members@) =~= expected);
    object_of(members)
}

fn slices(digest: &str) -> (r: Vec<String>)
    requires
        digest@.len() == 64,
    ensures
        r@.map_values(|part: String| part@) == digest_parts(digest@),
{
    let chars = text::chars_of(digest);
    let mut parts: Vec<String> = Vec::new();
    parts.push(text::slice(&chars, 0, 16));
    parts.push(text::slice(&chars, 16, 32));
    parts.push(text::slice(&chars, 32, 48));
    parts.push(text::slice(&chars, 48, 64));
    assert(parts@.map_values(|part: String| part@) =~= digest_parts(digest@));
    parts
}

impl OpenBaoMapping {
    /// The paths below a prefix.
    pub fn new(prefix: &str) -> (r: Result<Self, AdapterError>)
        ensures
            crate::openbao::error::bao_outcome(r) == (if without_slashes(prefix@).len() == 0 {
                Err(AdapterErrorView::Configuration("openbao.prefix is required"@))
            } else {
                Ok(without_slashes(prefix@))
            }),
    {
        let prefix = trim_slashes(prefix);
        if text::chars_of(prefix.as_str()).len() == 0 {
            return Err(configuration("openbao.prefix is required"));
        }
        Ok(OpenBaoMapping { prefix })
    }

    /// The path of the index of a base namespace.
    pub fn index_path(&self, base: &str) -> (r: String)
        ensures
            r@ == index_path_of(self@, base@),
    {
        let segment = encode(base);
        text::joined3(self.prefix.as_str(), "/indexes/", segment.as_str())
    }

    fn root_path(&self, namespace: &str) -> (r: String)
        ensures
            r@ == root_path_of(self@, namespace@),
    {
        let segment = encode(namespace);
        let start = text::joined3(self.prefix.as_str(), "/values/", segment.as_str());
        text::joined(start.as_str(), "/root")
    }

    /// The path of the values of a namespace without a context.
    pub fn root_collection_path(&self, namespace: &NamespaceContext) -> (r: String)
        ensures
            r@ == root_path_of(self@, namespace@),
    {
        self.root_path(namespace.as_str())
    }

    /// The parts of the digest of a key.
    pub fn auth_key_parts(&self, key: &Key) -> (r: Vec<String>)
        ensures
            r@.map_values(|part: String| part@) == digest_parts(key_digest(key@)),
    {
        let digest = crypto::digest(&text::bytes_of(key.as_str()));
        let hex = crypto::hex_encode(&digest);
        slices(hex.as_str())
    }

    /// The path of a permission record.
    pub fn auth_path(&self, key: &Key) -> (r: String)
        ensures
            r@ == auth_path_of(self@, key@),
    {
        let digest = crypto::digest(&text::bytes_of(key.as_str()));
        let hex = crypto::hex_encode(&digest);
        self.path_of_digest(hex.as_str())
    }

    /// The path of a permission record whose key has the digest.
    pub fn path_of_digest(&self, digest: &str) -> (r: String)
        requires
            digest@.len() == 64,
        ensures
            r@ == digest_path(self@, digest@),
    {
        let chars = text::chars_of(digest);
        let first = text::slice(&chars, 0, 16);
        let second = text::slice(&chars, 16, 32);
        let third = text::slice(&chars, 32, 48);
        let fourth = text::slice(&chars, 48, 64);
        let collection = self.auth_collection_path();
        let path = text::joined3(collection.as_str(), "/", first.as_str());
        let path = text::joined3(path.as_str(), "/", second.as_str());
        let path = text::joined3(path.as_str(), "/", third.as_str());
        text::joined3(path.as_str(), "/", fourth.as_str())
    }

    /// The path of the permission records.
    pub fn auth_collection_path(&self) -> (r: String)
        ensures
            r@ == root_path_of(self@, AUTH_NAMESPACE@),
    {
        self.root_path(AUTH_NAMESPACE)
    }

    /// Whether a namespace is that of permission records.
    pub fn is_auth_namespace(namespace: &NamespaceContext) -> (r: bool)
        ensures
            r == is_auth(namespace@),
    {
        text::same(namespace.as_str(), AUTH_NAMESPACE) && namespace.ctx().is_none()
    }

    /// A permission record in the form in which it is kept.
    pub fn encode_auth_document(key: &Key, value: Value, ttl: Option<Duration>) -> (r: Value)
        ensures
            r@ == auth_document(key@, value@, crate::error::inner(ttl)),
    {
        let ttl_seconds = number_or_null(whole_seconds(ttl));
        let name = Value::Text(key.as_str().to_owned());
        let ghost expected = seq![
            ("key"@, JsonView::Text(key@)),
            ("ttl_seconds"@, ttl_seconds@),
            ("value"@, value@),
        ];
        let mut members: Vec<(String, Value)> = Vec::new();
        members.push(("key".to_owned(), name));
        members.push(("ttl_seconds".to_owned(), ttl_seconds));
        members.push(("value".to_owned(), value));
        assert(json::members_view(members@) =~= expected);
        object_of(members)
    }

    /// The permission record of a document.
    pub fn decode_auth_document(document: &Value) -> (r: Result<AuthDocument, AdapterError>)
        ensures
            crate::openbao::error::bao_outcome(r) == read_auth_document(document@),
    {
        let key = match document.get("key") {
            Some(value) => match value.as_str() {
                Some(key) => if text::chars_of(key).len() > 0 {
                    Some(key.to_owned())
                } else {
                    None
                },
                None => None,
            },
            None => None,
        };
        let key = match key {
            Some(key) => key,
            None => {
                return Err(configuration("OpenBao auth document had no valid key"));
            },
        };
        let value = match document.get("value") {
            Some(value) => value.clone(),
            None => {
                return Err(configuration("OpenBao auth document had no value"));
            },
        };
        let ttl = match document.get("ttl_seconds") {
            None => None,
            Some(Value::Null) => None,
            Some(ttl) => match ttl.as_u64() {
                Some(n) => Some(Duration::from_secs(n)),
                None => {
                    return Err(
                        configuration("OpenBao auth document had an invalid ttl_seconds"),
                    );
                },
            },
        };
        Ok(AuthDocument { key, value, ttl })
    }

    /// The path of the values of a context.
    pub fn context_collection_path(&self, base: &str, collection: &str) -> (r: String)
        ensures
            r@ == context_path_of(self@, base@, collection@),
    {
        let segment = encode(base);
        let start = text::joined3(self.prefix.as_str(), "/values/", segment.as_str());
        text::joined3(start.as_str(), "/contexts/", collection)
    }

    /// Where a value is kept. `collection` is where its context is.
    pub fn locate(&self, namespace: &NamespaceContext, key: &Key, collection: Option<&str>) -> (r:
        Result<SecretLocation, AdapterError>)
        ensures
            crate::openbao::error::bao_outcome(r) == location(
                self@,
                namespace@,
                key@,
                match collection {
                    Some(collection) => Some(collection@),
                    None => None,
                },
            ),
    {
        match namespace.ctx() {
            None => {
                let path = if OpenBaoMapping::is_auth_namespace(namespace) {
                    self.auth_path(key)
                } else {
                    let root = self.root_collection_path(namespace);
                    let segment = encode(key.as_str());
                    text::joined3(root.as_str(), "/", segment.as_str())
                };
                Ok(SecretLocation::Root { base: namespace.as_str().to_owned(), path })
            },
            Some(context) => match collection {
                None => Err(configuration("context collection is required")),
                Some(collection) => {
                    let root = self.context_collection_path(namespace.ns(), collection);
                    let segment = encode(key.as_str());
                    Ok(
                        SecretLocation::Context {
                            base: namespace.ns().to_owned(),
                            context: context.to_owned(),
                            path: text::joined3(root.as_str(), "/", segment.as_str()),
                        },
                    )
                },
            },
        }
    }
}

/// A permission record is read back from its document; of its time to live the
/// whole seconds are.
pub proof fn auth_documents_are_read_back(key: Seq<char>, value: JsonView, ttl: Option<nat>)
    requires
        key.len() > 0,
        ttl matches Some(nanos) ==> nanos <= crate::duration::max_nanos(),
    ensures
        read_auth_document(auth_document(key, value, ttl)) == Ok::<
            AuthDocumentView,
            AdapterErrorView,
        >(
            AuthDocumentView {
                key,
                value,
                ttl: match ttl {
                    Some(nanos) => Some((nanos / 1_000_000_000) * 1_000_000_000),
                    None => None,
                },
            },
        ),
{
    reveal_strlit("key");
    reveal_strlit("ttl_seconds");
    reveal_strlit("value");
    assert("key"@.len() == 3 && "ttl_seconds"@.len() == 11 && "value"@.len() == 5);
    let document = auth_document(key, value, ttl);
    let members = document->Object_0;
    reveal_with_fuel(json::member_from, 4);
    assert(members[0].0 == "key"@ && members[1].0 == "ttl_seconds"@ && members[2].0 == "value"@);
    assert(json::member_from(members, "key"@, 0) == Some(0int));
    assert(json::member_from(members, "ttl_seconds"@, 0) == Some(1int));
    assert(json::member_from(members, "value"@, 0) == Some(2int));
    if let Some(nanos) = ttl {
        text::lemma_decimal(nanos / 1_000_000_000);
    }
}

proof fn lemma_cut(a: Seq<char>, b: Seq<char>, c: Seq<char>, d: Seq<char>)
    requires
        forall|i: int| 0 <= i < a.len() ==> #[trigger] a[i] != '/',
        forall|i: int| 0 <= i < c.len() ==> #[trigger] c[i] != '/',
        a + seq!['/'] + b == c + seq!['/'] + d,
    ensures
        a == c,
        b == d,
{
    let x = a + seq!['/'] + b;
    let y = c + seq!['/'] + d;
    assert(x[a.len() as int] == '/');
    assert(y[c.len() as int] == '/');
    if a.len() < c.len() {
        assert(y[a.len() as int] == c[a.len() as int]);
    }
    if c.len() < a.len() {
        assert(x[c.len() as int] == a[c.len() as int]);
    }
    assert(a =~= x.take(a.len() as int));
    assert(c =~= y.take(c.len() as int));
    assert(b =~= x.skip(a.len() as int + 1));
    assert(d =~= y.skip(c.len() as int + 1));
}

/// The part of a path behind the segment of its base namespace.
proof fn lemma_behind_base(
    prefix: Seq<char>,
    first: Seq<char>,
    first_rest: Seq<char>,
    second: Seq<char>,
    second_rest: Seq<char>,
)
    requires
        prefix + "/values/"@ + percent::segment(first) + seq!['/'] + first_rest == prefix
            + "/values/"@ + percent::segment(second) + seq!['/'] + second_rest,
    ensures
        first == second,
        first_rest == second_rest,
{
    let start = prefix + "/values/"@;
    let a = percent::segment(first);
    let c = percent::segment(second);
    let x = start + a + seq!['/'] + first_rest;
    let y = start + c + seq!['/'] + second_rest;
    assert(a + seq!['/'] + first_rest =~= x.skip(start.len() as int));
    assert(c + seq!['/'] + second_rest =~= y.skip(start.len() as int));
    assert forall|i: int| 0 <= i < a.len() implies #[trigger] a[i] != '/' by {
        percent::segments_are_safe(first, i);
    }
    assert forall|i: int| 0 <= i < c.len() implies #[trigger] c[i] != '/' by {
        percent::segments_are_safe(second, i);
    }
    lemma_cut(a, first_rest, c, second_rest);
    percent::encoding_is_injective(first, second);
}

/// Values of different routes without a context are kept in different places,
/// permission records aside.
pub proof fn root_paths_are_distinct(
    prefix: Seq<char>,
    first: Seq<char>,
    first_key: Seq<char>,
    second: Seq<char>,
    second_key: Seq<char>,
)
    requires
        root_path_of(prefix, first) + "/"@ + percent::segment(first_key) == root_path_of(
            prefix,
            second,
        ) + "/"@ + percent::segment(second_key),
    ensures
        first == second,
        first_key == second_key,
{
    reveal_strlit("/root");
    reveal_strlit("/");
    let root = seq!['r', 'o', 'o', 't', '/'];
    let b = root + percent::segment(first_key);
    let d = root + percent::segment(second_key);
    let start = prefix + "/values/"@;
    assert(root_path_of(prefix, first) + "/"@ + percent::segment(first_key) =~= start
        + percent::segment(first) + seq!['/'] + b);
    assert(root_path_of(prefix, second) + "/"@ + percent::segment(second_key) =~= start
        + percent::segment(second) + seq!['/'] + d);
    lemma_behind_base(prefix, first, b, second, d);
    assert(percent::segment(first_key) =~= b.skip(5));
    assert(percent::segment(second_key) =~= d.skip(5));
    percent::encoding_is_injective(first_key, second_key);
}

/// Values of different collections, and of different keys in one, are kept in
/// different places. Collections are named by identifiers, which hold no slash.
pub proof fn context_paths_are_distinct(
    prefix: Seq<char>,
    first: Seq<char>,
    first_collection: Seq<char>,
    first_key: Seq<char>,
    second: Seq<char>,
    second_collection: Seq<char>,
    second_key: Seq<char>,
)
    requires
        !first_collection.contains('/'),
        !second_collection.contains('/'),
        context_path_of(prefix, first, first_collection) + "/"@ + percent::segment(first_key)
            == context_path_of(prefix, second, second_collection) + "/"@ + percent::segment(
            second_key,
        ),
    ensures
        first == second,
        first_collection == second_collection,
        first_key == second_key,
{
    reveal_strlit("/contexts/");
    reveal_strlit("/");
    let word = seq!['c', 'o', 'n', 't', 'e', 'x', 't', 's', '/'];
    let b = first_collection + seq!['/'] + percent::segment(first_key);
    let d = second_collection + seq!['/'] + percent::segment(second_key);
    let start = prefix + "/values/"@;
    assert("/contexts/"@ =~= seq!['/'] + word);
    assert("/"@ =~= seq!['/']);
    assert(context_path_of(prefix, first, first_collection) + "/"@ + percent::segment(first_key)
        =~= start + percent::segment(first) + seq!['/'] + (word + b));
    assert(context_path_of(prefix, second, second_collection) + "/"@ + percent::segment(second_key)
        =~= start + percent::segment(second) + seq!['/'] + (word + d));
    lemma_behind_base(prefix, first, word + b, second, word + d);
    assert(b =~= (word + b).skip(word.len() as int));
    assert(d =~= (word + d).skip(word.len() as int));
    assert forall|i: int| 0 <= i < first_collection.len() implies #[trigger] first_collection[i]
        != '/' by {
        assert(first_collection.contains(first_collection[i]));
    }
    assert forall|i: int| 0 <= i < second_collection.len() implies #[trigger] second_collection[i]
        != '/' by {
        assert(second_collection.contains(second_collection[i]));
    }
    lemma_cut(
        first_collection,
        percent::segment(first_key),
        second_collection,
        percent::segment(second_key),
    );
    percent::encoding_is_injective(first_key, second_key);
}

/// A value of a context is never kept where one without a context is.
pub proof fn contexts_are_apart_from_the_root(
    prefix: Seq<char>,
    first: Seq<char>,
    collection: Seq<char>,
    first_key: Seq<char>,
    second: Seq<char>,
    second_key: Seq<char>,
)
    ensures
        context_path_of(prefix, first, collection) + "/"@ + percent::segment(first_key)
            != root_path_of(prefix, second) + "/"@ + percent::segment(second_key),
{
    reveal_strlit("/contexts/");
    reveal_strlit("/root");
    let x = context_path_of(prefix, first, collection) + "/"@ + percent::segment(first_key);
    let y = root_path_of(prefix, second) + "/"@ + percent::segment(second_key);
    let b = seq!['c', 'o', 'n', 't', 'e', 'x', 't', 's', '/'] + collection + "/"@
        + percent::segment(first_key);
    let d = seq!['r', 'o', 'o', 't'] + "/"@ + percent::segment(second_key);
    let start = prefix + "/values/"@;
    assert(x =~= start + percent::segment(first) + seq!['/'] + b);
    assert(y =~= start + percent::segment(second) + seq!['/'] + d);
    if x == y {
        lemma_behind_base(prefix, first, b, second, d);
        assert(b[0] == 'c' && d[0] == 'r');
    }
}

} // verus!
