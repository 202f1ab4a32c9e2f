//! Where a value is stored: namespaces with their contexts, keys and patterns.

use crate::error::{protocol, Error, ErrorView};
use crate::text;
use vstd::prelude::*;

verus! {

/// The delimiter between a base namespace and a context.
pub open spec fn delimiter() -> Seq<char> {
    seq![':', ':']
}

/// The position of the delimiter that parts a namespace from its context: the
/// first one, if there is text on both sides of it.
pub open spec fn context_split(s: Seq<char>) -> Option<int> {
    match text::find(s, delimiter()) {
        Some(at) => if at > 0 && at + 2 < s.len() {
            Some(at)
        } else {
            None
        },
        None => None,
    }
}

/// The base namespace of a namespace's text.
pub open spec fn base_of(s: Seq<char>) -> Seq<char> {
    match context_split(s) {
        Some(at) => s.take(at),
        None => s,
    }
}

/// A text that is not empty has a base namespace that is not.
pub proof fn lemma_base(s: Seq<char>)
    requires
        s.len() > 0,
    ensures
        0 < base_of(s).len() <= s.len(),
{
}

/// The context of a namespace's text.
pub open spec fn context_of(s: Seq<char>) -> Option<Seq<char>> {
    match context_split(s) {
        Some(at) => Some(s.skip(at + 2)),
        None => None,
    }
}

/// An owned logical value collection with optional context decomposition.
///
/// The complete wire value is stored once. `ctx_start` is the character
/// offset immediately after the first valid `::` delimiter, when one exists.
#[derive(Debug)]
pub struct NamespaceContext {
    value: String,
    ctx_start: Option<usize>,
}

impl View for NamespaceContext {
    type V = Seq<char>;

    closed spec fn view(&self) -> Seq<char> {
        self.value@
    }
}

impl NamespaceContext {
    #[verifier::type_invariant]
    spec fn well_formed(self) -> bool {
        &&& self.value@.len() > 0
        &&& match self.ctx_start {
            Some(start) => start >= 2 && context_split(self.value@) == Some(start - 2),
            None => context_split(self.value@) is None,
        }
    }

    /// A namespace of the given text, which must not be empty.
    pub fn new(value: &str) -> (r: Result<Self, Error>)
        ensures
            match r {
                Ok(namespace) => value@.len() > 0 && namespace@ == value@,
                Err(error) => value@.len() == 0 && error@ == ErrorView::EmptyIdentifier(
                    "namespace"@,
                ),
            },
    {
        let chars = text::chars_of(value);
        if chars.len() == 0 {
            return Err(Error::EmptyIdentifier { field: "namespace" });
        }
        let mut colons: Vec<char> = Vec::new();
        colons.push(':');
        colons.push(':');
        assert(colons@ =~= delimiter());
        let ctx_start = match text::position(&chars, &colons, 0) {
            Some(at) => if at > 0 && at + 2 < chars.len() {
                Some(at + 2)
            } else {
                None
            },
            None => None,
        };
        Ok(NamespaceContext { value: value.to_owned(), ctx_start })
    }

    /// The complete text.
    pub fn as_str(&self) -> (r: &str)
        ensures
            r@ == self@,
            r@.len() > 0,
    {
        proof {
            use_type_invariant(self);
        }
        self.value.as_str()
    }

    /// The base namespace.
    pub fn ns(&self) -> (r: &str)
        ensures
            r@ == base_of(self@),
    {
        proof {
            use_type_invariant(self);
            text::lemma_find_from(self.value@, delimiter(), 0);
        }
        match self.ctx_start {
            Some(start) => {
                let r = self.value.as_str().substring_char(0, start - 2);
                assert(r@ =~= base_of(self@));
                r
            },
            None => self.value.as_str(),
        }
    }

    /// The context, if the namespace has one.
    pub fn ctx(&self) -> (r: Option<&str>)
        ensures
            crate::error::inner(r) == context_of(self@),
    {
        proof {
            use_type_invariant(self);
        }
        match self.ctx_start {
            Some(start) => {
                let length = self.value.as_str().unicode_len();
                let r = self.value.as_str().substring_char(start, length);
                assert(r@ =~= self@.skip(start as int));
                Some(r)
            },
            None => None,
        }
    }
}

impl Clone for NamespaceContext {
    fn clone(&self) -> (r: Self)
        ensures
            r == *self,
    {
        proof {
            use_type_invariant(self);
        }
        NamespaceContext { value: self.value.clone(), ctx_start: self.ctx_start }
    }
}

impl PartialEq for NamespaceContext {
    fn eq(&self, other: &Self) -> (r: bool) {
        text::same(self.value.as_str(), other.value.as_str())
    }
}

impl vstd::std_specs::cmp::PartialEqSpecImpl for NamespaceContext {
    open spec fn obeys_eq_spec() -> bool {
        true
    }

    open spec fn eq_spec(&self, other: &Self) -> bool {
        self@ == other@
    }
}

impl Eq for NamespaceContext {

}

/// What [`validate_context_move`] answers.
pub open spec fn context_move(source: Seq<char>, destination: Seq<char>) -> Result<(), ErrorView> {
    if context_of(source) is None {
        Err(ErrorView::Protocol("MOVE source must be a namespace::context route"@))
    } else if context_of(destination) is None {
        Err(ErrorView::Protocol("MOVE destination must be a namespace::context route"@))
    } else if base_of(source) != base_of(destination) {
        Err(ErrorView::Protocol("MOVE source and destination must share a base namespace"@))
    } else {
        Ok(())
    }
}

/// Rejects moves that would change a base namespace.
pub fn validate_context_move(source: &NamespaceContext, destination: &NamespaceContext) -> (r:
    Result<(), Error>)
    ensures
        crate::error::outcome(r) == context_move(source@, destination@),
{
    if source.ctx().is_none() {
        return Err(protocol("MOVE source must be a namespace::context route"));
    }
    if destination.ctx().is_none() {
        return Err(protocol("MOVE destination must be a namespace::context route"));
    }
    if !text::same(source.ns(), destination.ns()) {
        return Err(protocol("MOVE source and destination must share a base namespace"));
    }
    Ok(())
}

/// A namespace with a context is its base, the delimiter and its context; the
/// base holds no delimiter, and neither part is empty.
pub proof fn context_decomposition(s: Seq<char>)
    ensures
        match context_of(s) {
            Some(context) => {
                &&& s == base_of(s) + delimiter() + context
                &&& base_of(s).len() > 0
                &&& context.len() > 0
                &&& !text::contains(base_of(s), delimiter())
            },
            None => base_of(s) == s,
        },
{
    text::lemma_find_from(s, delimiter(), 0);
    if let Some(at) = context_split(s) {
        let base = s.take(at);
        assert(s.subrange(at, at + 2) == delimiter());
        assert(s =~= base + delimiter() + s.skip(at + 2)) by {
            assert forall|i: int| at <= i < at + 2 implies s[i] == delimiter()[i - at] by {
                assert(s[i] == s.subrange(at, at + 2)[i - at]);
            }
        }
        text::lemma_find_from(base, delimiter(), 0);
        if let Some(j) = text::find(base, delimiter()) {
            assert(base.subrange(j, j + 2) =~= s.subrange(j, j + 2));
            assert(text::occurs_at(s, delimiter(), j));
        }
    }
}

/// A base without a delimiter that does not end in a colon, the delimiter and a
/// context are read back as that base and that context.
pub proof fn context_composition(base: Seq<char>, context: Seq<char>)
    requires
        base.len() > 0,
        context.len() > 0,
        !text::contains(base, delimiter()),
        base.last() != ':',
    ensures
        base_of(base + delimiter() + context) == base,
        context_of(base + delimiter() + context) == Some(context),
{
    let s = base + delimiter() + context;
    let at = base.len() as int;
    assert(s.subrange(at, at + 2) =~= delimiter());
    text::lemma_find_from(base, delimiter(), 0);
    assert forall|j: int| 0 <= j < at implies !#[trigger] text::occurs_at(s, delimiter(), j) by {
        if text::occurs_at(s, delimiter(), j) {
            assert(s.subrange(j, j + 2)[0] == ':');
            if j + 2 <= at {
                assert(s.subrange(j, j + 2) =~= base.subrange(j, j + 2));
                assert(text::occurs_at(base, delimiter(), j));
            } else {
                assert(s[j] == base.last());
            }
        }
    }
    text::lemma_find_from_is(s, delimiter(), 0, at);
    assert(s.take(at) =~= base);
    assert(s.skip(at + 2) =~= context);
}

/// A value identifier inside a [`NamespaceContext`].
#[derive(Debug)]
pub struct Key(String);

impl View for Key {
    type V = Seq<char>;

    closed spec fn view(&self) -> Seq<char> {
        self.0@
    }
}

impl Key {
    #[verifier::type_invariant]
    spec fn well_formed(self) -> bool {
        self.0@.len() > 0
    }

    /// A key of the given text, which must not be empty.
    pub fn new(value: &str) -> (r: Result<Self, Error>)
        ensures
            match r {
                Ok(key) => value@.len() > 0 && key@ == value@,
                Err(error) => value@.len() == 0 && error@ == ErrorView::EmptyIdentifier("key"@),
            },
    {
        if value.is_empty() {
            return Err(Error::EmptyIdentifier { field: "key" });
        }
        Ok(Key(value.to_owned()))
    }

    /// The text of the key.
    pub fn as_str(&self) -> (r: &str)
        ensures
            r@ == self@,
            r@.len() > 0,
    {
        proof {
            use_type_invariant(self);
        }
        self.0.as_str()
    }
}

impl Clone for Key {
    fn clone(&self) -> (r: Self)
        ensures
            r == *self,
    {
        proof {
            use_type_invariant(self);
        }
        Key(self.0.clone())
    }
}

impl PartialEq for Key {
    fn eq(&self, other: &Self) -> (r: bool) {
        text::same(self.0.as_str(), other.0.as_str())
    }
}

impl vstd::std_specs::cmp::PartialEqSpecImpl for Key {
    open spec fn obeys_eq_spec() -> bool {
        true
    }

    open spec fn eq_spec(&self, other: &Self) -> bool {
        self@ == other@
    }
}

impl Eq for Key {

}

/// A deletion pattern matches a key: a trailing `*` means a key prefix, all
/// other patterns are exact.
pub open spec fn key_matches(pattern: Seq<char>, key: Seq<char>) -> bool {
    if pattern.len() > 0 && pattern.last() == '*' {
        pattern.drop_last().is_prefix_of(key)
    } else {
        pattern == key
    }
}

/// Whether a deletion pattern's text matches a key's text.
pub fn key_text_matches(pattern: &str, key: &str) -> (r: bool)
    ensures
        r == key_matches(pattern@, key@),
{
    let chars = text::chars_of(pattern);
    let n: usize = chars.len();
    if n > 0 && chars[n - 1] == '*' {
        let prefix = text::slice(&chars, 0, n - 1);
        assert(prefix@ =~= pattern@.drop_last());
        text::starts_with(key, prefix.as_str())
    } else {
        text::same(pattern, key)
    }
}

/// A deletion pattern. A trailing `*` means a textual key prefix; all other
/// patterns are exact key matches.
#[derive(Debug)]
pub struct KeyPattern(String);

impl View for KeyPattern {
    type V = Seq<char>;

    closed spec fn view(&self) -> Seq<char> {
        self.0@
    }
}

impl KeyPattern {
    #[verifier::type_invariant]
    spec fn well_formed(self) -> bool {
        self.0@.len() > 0
    }

    /// A pattern of the given text, which must not be empty.
    pub fn new(value: &str) -> (r: Result<Self, Error>)
        ensures
            match r {
                Ok(pattern) => value@.len() > 0 && pattern@ == value@,
                Err(error) => value@.len() == 0 && error@ == ErrorView::EmptyIdentifier(
                    "key pattern"@,
                ),
            },
    {
        if value.is_empty() {
            return Err(Error::EmptyIdentifier { field: "key pattern" });
        }
        Ok(KeyPattern(value.to_owned()))
    }

    /// Whether the pattern matches the key.
    pub fn matches(&self, key: &Key) -> (r: bool)
        ensures
            r == key_matches(self@, key@),
    {
        key_text_matches(self.0.as_str(), key.as_str())
    }

    /// The text of the pattern.
    pub fn as_str(&self) -> (r: &str)
        ensures
            r@ == self@,
            r@.len() > 0,
    {
        proof {
            use_type_invariant(self);
        }
        self.0.as_str()
    }
}

impl Clone for KeyPattern {
    fn clone(&self) -> (r: Self)
        ensures
            r == *self,
    {
        proof {
            use_type_invariant(self);
        }
        KeyPattern(self.0.clone())
    }
}

/// A namespace routing expression. It is intentionally distinct from a
/// concrete namespace so registrations cannot be passed to store operations.
#[derive(Debug)]
pub struct NamespacePattern(String);

impl View for NamespacePattern {
    type V = Seq<char>;

    closed spec fn view(&self) -> Seq<char> {
        self.0@
    }
}

impl NamespacePattern {
    #[verifier::type_invariant]
    spec fn well_formed(self) -> bool {
        self.0@.len() > 0
    }

    /// A pattern of the given text, which must not be empty.
    pub fn new(value: &str) -> (r: Result<Self, Error>)
        ensures
            match r {
                Ok(pattern) => value@.len() > 0 && pattern@ == value@,
                Err(error) => value@.len() == 0 && error@ == ErrorView::EmptyIdentifier(
                    "namespace pattern"@,
                ),
            },
    {
        if value.is_empty() {
            return Err(Error::EmptyIdentifier { field: "namespace pattern" });
        }
        Ok(NamespacePattern(value.to_owned()))
    }

    /// The text of the pattern.
    pub fn as_str(&self) -> (r: &str)
        ensures
            r@ == self@,
            r@.len() > 0,
    {
        proof {
            use_type_invariant(self);
        }
        self.0.as_str()
    }
}

impl Clone for NamespacePattern {
    fn clone(&self) -> (r: Self)
        ensures
            r == *self,
    {
        proof {
            use_type_invariant(self);
        }
        NamespacePattern(self.0.clone())
    }
}

/// The fully-qualified address of a stored JSON value.
#[derive(Debug)]
pub struct Route {
    pub namespace: NamespaceContext,
    pub key: Key,
}

/// A [`Route`] with its texts as character sequences.
#[verifier::ext_equal]
pub struct RouteView {
    pub namespace: Seq<char>,
    pub key: Seq<char>,
}

impl RouteView {
    /// The text of a route: the namespace, a slash and the key.
    pub open spec fn text(self) -> Seq<char> {
        self.namespace + "/"@ + self.key
    }
}

impl View for Route {
    type V = RouteView;

    open spec fn view(&self) -> RouteView {
        RouteView { namespace: self.namespace@, key: self.key@ }
    }
}

impl Route {
    /// The route of a key in a namespace.
    pub fn new(namespace: NamespaceContext, key: Key) -> (r: Self)
        ensures
            r == (Route { namespace, key }),
    {
        Route { namespace, key }
    }

    /// The text of the route: the namespace, a slash and the key.
    pub fn to_text(&self) -> (r: String)
        ensures
            r@ == self@.text(),
    {
        text::joined3(self.namespace.as_str(), "/", self.key.as_str())
    }
}

impl Clone for Route {
    fn clone(&self) -> (r: Self)
        ensures
            r == *self,
    {
        Route { namespace: self.namespace.clone(), key: self.key.clone() }
    }
}

impl PartialEq for Route {
    fn eq(&self, other: &Self) -> (r: bool) {
        self.namespace == other.namespace && self.key == other.key
    }
}

impl vstd::std_specs::cmp::PartialEqSpecImpl for Route {
    open spec fn obeys_eq_spec() -> bool {
        true
    }

    open spec fn eq_spec(&self, other: &Self) -> bool {
        self@ == other@
    }
}

impl Eq for Route {

}

} // verus!
