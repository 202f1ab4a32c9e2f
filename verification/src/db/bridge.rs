//! How the requests of a server are answered by configured queries and stores.

use crate::pattern::{self, Capture, Pattern};
use crate::route::{self, Key, NamespaceContext};
use crate::table::Table;
use crate::text;
use vstd::prelude::*;

verus! {

/// What a namespace pattern captures of a namespace. A pattern without wildcards
/// and captures also stands for its namespace with any context.
pub open spec fn namespace_captures(pattern: Seq<char>, namespace: Seq<char>) -> Option<
    Map<Seq<char>, Seq<char>>,
> {
    match pattern::pattern_match(pattern, namespace) {
        Some(captures) => Some(captures),
        None => if !text::contains(pattern, seq!['*']) && !text::contains(pattern, seq!['{']) && (
        pattern + seq![':', ':']).is_prefix_of(namespace) {
            Some(Map::empty())
        } else {
            None
        },
    }
}

/// What the patterns of a route capture, with the route itself.
pub open spec fn captured_route(
    namespace_pattern: Seq<char>,
    key_pattern: Seq<char>,
    namespace: Seq<char>,
    key: Seq<char>,
) -> Option<Map<Seq<char>, Seq<char>>> {
    match namespace_captures(namespace_pattern, namespace) {
        None => None,
        Some(outer) => match pattern::pattern_match(key_pattern, key) {
            None => None,
            Some(inner) => Some(
                outer.union_prefer_right(inner).insert("namespace"@, namespace).insert(
                    "key"@,
                    key,
                ).insert(
                    "context"@,
                    match route::context_of(namespace) {
                        Some(context) => context,
                        None => Seq::empty(),
                    },
                ),
            ),
        },
    }
}

/// What a namespace pattern captures of a namespace.
pub fn namespace_pattern_captures(pattern: &str, namespace: &str) -> (r: Option<Capture>)
    ensures
        match r {
            Some(captures) => namespace_captures(pattern@, namespace@) == Some(
                pattern::captured(captures),
            ),
            None => namespace_captures(pattern@, namespace@) is None,
        },
{
    if let Some(captures) = Pattern::new(pattern).matches(namespace) {
        return Some(captures);
    }
    proof {
        reveal_strlit("*");
        reveal_strlit("{");
        reveal_strlit("::");
        assert("*"@ =~= seq!['*']);
        assert("{"@ =~= seq!['{']);
        assert("::"@ =~= seq![':', ':']);
    }
    if text::holds(pattern, "*") || text::holds(pattern, "{") {
        return None;
    }
    let decorated = text::joined(pattern, "::");
    if text::starts_with(namespace, decorated.as_str()) {
        let none: Capture = Table::new();
        assert(pattern::captured(none) =~= Map::<Seq<char>, Seq<char>>::empty());
        Some(none)
    } else {
        None
    }
}

/// Whether a namespace pattern stands for a namespace.
pub fn namespace_pattern_matches(pattern: &str, namespace: &str) -> (r: bool)
    ensures
        r == (namespace_captures(pattern@, namespace@) is Some),
{
    namespace_pattern_captures(pattern, namespace).is_some()
}

proof fn lemma_union(left: Map<Seq<char>, String>, right: Map<Seq<char>, String>)
    ensures
        left.union_prefer_right(right).map_values(|value: String| value@) == left.map_values(
            |value: String| value@,
        ).union_prefer_right(right.map_values(|value: String| value@)),
{
    assert(left.union_prefer_right(right).map_values(|value: String| value@) =~= left.map_values(
        |value: String| value@,
    ).union_prefer_right(right.map_values(|value: String| value@)));
}

proof fn lemma_insert(map: Map<Seq<char>, String>, key: Seq<char>, value: String)
    ensures
        map.insert(key, value).map_values(|value: String| value@) == map.map_values(
            |value: String| value@,
        ).insert(key, value@),
{
    assert(map.insert(key, value).map_values(|value: String| value@) =~= map.map_values(
        |value: String| value@,
    ).insert(key, value@));
}

/// Joins the captures of two patterns.
pub fn joined_captures(left: Capture, right: Capture) -> (r: Capture)
    ensures
        pattern::captured(r) == pattern::captured(left).union_prefer_right(
            pattern::captured(right),
        ),
{
    proof {
        lemma_union(left@, right@);
    }
    let mut all = left;
    all.extend(right);
    all
}

/// Adds a value to the captures.
pub fn with_capture(captures: Capture, name: &str, value: &str) -> (r: Capture)
    ensures
        pattern::captured(r) == pattern::captured(captures).insert(name@, value@),
{
    let value = value.to_owned();
    proof {
        lemma_insert(captures@, name@, value);
    }
    let mut all = captures;
    all.insert(name.to_owned(), value);
    all
}

/// The context of a namespace, or nothing.
pub open spec fn context_text(namespace: Seq<char>) -> Seq<char> {
    match route::context_of(namespace) {
        Some(context) => context,
        None => Seq::empty(),
    }
}

/// The context of a namespace, or nothing.
pub fn context_or_empty(namespace: &NamespaceContext) -> (r: String)
    ensures
        r@ == context_text(namespace@),
{
    match namespace.ctx() {
        Some(context) => context.to_owned(),
        None => {
            let empty = String::new();
            assert(empty@ =~= Seq::<char>::empty());
            empty
        },
    }
}

/// What the patterns of a route capture, with the route itself.
pub fn route_captures(
    namespace_pattern: &str,
    key_pattern: &str,
    namespace: &NamespaceContext,
    key: &Key,
) -> (r: Option<Capture>)
    ensures
        match r {
            Some(captures) => captured_route(
                namespace_pattern@,
                key_pattern@,
                namespace@,
                key@,
            ) == Some(pattern::captured(captures)),
            None => captured_route(namespace_pattern@, key_pattern@, namespace@, key@) is None,
        },
{
    let outer = match namespace_pattern_captures(namespace_pattern, namespace.as_str()) {
        Some(outer) => outer,
        None => {
            return None;
        },
    };
    let inner = match Pattern::new(key_pattern).matches(key.as_str()) {
        Some(inner) => inner,
        None => {
            return None;
        },
    };
    let all = joined_captures(outer, inner);
    let all = with_capture(all, "namespace", namespace.as_str());
    let all = with_capture(all, "key", key.as_str());
    let context = context_or_empty(namespace);
    let all = with_capture(all, "context", context.as_str());
    Some(all)
}

} // verus!
