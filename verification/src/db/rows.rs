//! What the rows of a database mean.

use crate::db::error::{configuration, AdapterError, AdapterErrorView};
use crate::db::plan::{DatabaseValue, DatabaseValueView};
use crate::duration::Duration;
use crate::error::ErrorView;
use crate::json::{self, JsonView, Value};
use crate::route::{Key, NamespaceContext};
use crate::text;
use vstd::prelude::*;

verus! {

/// A column as far as the database driver can read it. A number that is not whole
/// comes as its JSON text, where it has one.
#[derive(Debug)]
pub enum Column {
    Text(Option<String>),
    Integer(Option<i64>),
    Number(Option<String>),
    Bool(Option<bool>),
    Unreadable,
}

/// The JSON value of a column: a text that is JSON is that JSON, any other text is
/// itself.
pub open spec fn column_value(column: Column) -> Result<JsonView, AdapterErrorView> {
    match column {
        Column::Text(None) => Ok(JsonView::Null),
        Column::Text(Some(text)) => Ok(
            match json::read(text@) {
                Some(value) => value,
                None => JsonView::Text(text@),
            },
        ),
        Column::Integer(None) => Ok(JsonView::Null),
        Column::Integer(Some(n)) => Ok(JsonView::Number(text::signed_decimal(n as int))),
        Column::Number(None) => Err(
            AdapterErrorView::Configuration("database returned a non-finite number"@),
        ),
        Column::Number(Some(text)) => Ok(JsonView::Number(text@)),
        Column::Bool(None) => Ok(JsonView::Null),
        Column::Bool(Some(b)) => Ok(JsonView::Bool(b)),
        Column::Unreadable => Err(
            AdapterErrorView::Configuration("database value cannot be represented as JSON"@),
        ),
    }
}

/// The JSON value of a text, where `value` is what it was read as.
pub fn text_value(text: String, value: Option<Value>) -> (r: Value)
    ensures
        r@ == (match value {
            Some(value) => value@,
            None => JsonView::Text(text@),
        }),
{
    match value {
        Some(value) => value,
        None => Value::Text(text),
    }
}

/// The JSON value of a column.
pub fn any_json(column: Column) -> (r: Result<Value, AdapterError>)
    ensures
        crate::db::error::adapter_outcome(r) == column_value(column),
{
    match column {
        Column::Text(None) => Ok(Value::Null),
        Column::Text(Some(text)) => {
            let value = json::parse(text.as_str());
            Ok(text_value(text, value))
        },
        Column::Integer(None) => Ok(Value::Null),
        Column::Integer(Some(n)) => Ok(Value::Number(text::signed_number(n))),
        Column::Number(None) => Err(configuration("database returned a non-finite number")),
        Column::Number(Some(text)) => Ok(Value::Number(text)),
        Column::Bool(None) => Ok(Value::Null),
        Column::Bool(Some(b)) => Ok(Value::Bool(b)),
        Column::Unreadable => Err(configuration("database value cannot be represented as JSON")),
    }
}

/// A letter without its case, where it is an ASCII letter.
pub open spec fn lower(c: char) -> char {
    if 'A' <= c && c <= 'Z' {
        (c as int + 32) as char
    } else {
        c
    }
}

/// Two texts are the same but for the case of ASCII letters.
pub open spec fn same_name(a: Seq<char>, b: Seq<char>) -> bool {
    a.len() == b.len() && forall|i: int| 0 <= i < a.len() ==> lower(#[trigger] a[i]) == lower(b[i])
}

fn lowered(c: char) -> (r: char)
    ensures
        r == lower(c),
{
    if 'A' <= c && c <= 'Z' {
        (c as u8 + 32) as char
    } else {
        c
    }
}

fn is_same_name(a: &str, b: &str) -> (r: bool)
    ensures
        r == same_name(a@, b@),
{
    let v = text::chars_of(a);
    let w = text::chars_of(b);
    if v.len() != w.len() {
        return false;
    }
    let mut i: usize = 0;
    while i < v.len()
        invariant
            i <= v.len(),
            v.len() == w.len(),
            v@ == a@,
            w@ == b@,
            forall|k: int| 0 <= k < i ==> lower(#[trigger] a@[k]) == lower(b@[k]),
        decreases v.len() - i,
    {
        if lowered(v[i]) != lowered(w[i]) {
            assert(lower(a@[i as int]) != lower(b@[i as int]));
            return false;
        }
        i += 1;
    }
    true
}

/// The first column of a name, whatever its case.
pub fn column_index(names: &Vec<String>, name: &str) -> (r: Result<usize, AdapterError>)
    ensures
        match r {
            Ok(i) => i < names.len() && same_name(names@[i as int]@, name@) && forall|k: int|
                0 <= k < i ==> !same_name((#[trigger] names@[k])@, name@),
            Err(error) => error@ == AdapterErrorView::Configuration(
                "database row has no '"@ + name@ + "' column"@,
            ) && forall|k: int|
                0 <= k < names.len() ==> !same_name((#[trigger] names@[k])@, name@),
        },
{
    let mut i: usize = 0;
    while i < names.len()
        invariant
            i <= names.len(),
            forall|k: int| 0 <= k < i ==> !same_name((#[trigger] names@[k])@, name@),
        decreases names.len() - i,
    {
        if is_same_name(names[i].as_str(), name) {
            return Ok(i);
        }
        i += 1;
    }
    Err(AdapterError::Configuration(text::joined3("database row has no '", name, "' column")))
}

/// A row of a provider: its columns, or why they cannot be read.
#[derive(Debug)]
pub struct ProviderRow {
    pub namespace: Option<String>,
    pub ns: Option<String>,
    pub context: Option<String>,
    pub key: Result<String, AdapterError>,
    pub value: Result<Value, AdapterError>,
    pub ttl_seconds: Option<i64>,
}

/// The namespace of a row: that of its columns, or that of the provider, with the
/// context of the row.
pub open spec fn row_namespace(row: ProviderRow, base: Option<Seq<char>>) -> Result<
    Seq<char>,
    AdapterErrorView,
> {
    let namespace = match row.namespace {
        Some(namespace) => Some(namespace@),
        None => match row.ns {
            Some(namespace) => Some(namespace@),
            None => base,
        },
    };
    match namespace {
        None => Err(
            AdapterErrorView::Configuration(
                "provider row needs namespace/ns or provider.namespace_pattern"@,
            ),
        ),
        Some(namespace) => match row.context {
            Some(context) => if context@.len() == 0 {
                Ok(namespace)
            } else if text::contains(namespace, "::"@) {
                Err(
                    AdapterErrorView::Configuration(
                        "provider row cannot combine a decorated namespace with context"@,
                    ),
                )
            } else {
                Ok(namespace + "::"@ + context@)
            },
            None => Ok(namespace),
        },
    }
}

/// The time to live of a row: its own, which is never negative, or that of the
/// provider.
pub open spec fn row_ttl(own: Option<i64>, common: Option<u64>) -> Option<nat> {
    match own {
        Some(n) => Some(
            if n < 0 {
                0
            } else {
                (n * 1_000_000_000) as nat
            },
        ),
        None => match common {
            Some(n) => Some((n * 1_000_000_000) as nat),
            None => None,
        },
    }
}

/// The value that a row of a provider stands for.
pub open spec fn row_value(row: ProviderRow, base: Option<Seq<char>>, ttl_seconds: Option<u64>) -> Result<
    DatabaseValueView,
    AdapterErrorView,
> {
    match row_namespace(row, base) {
        Err(error) => Err(error),
        Ok(namespace) => match row.key {
            Err(error) => Err(error@),
            Ok(key) => match row.value {
                Err(error) => Err(error@),
                Ok(value) => if namespace.len() == 0 {
                    Err(AdapterErrorView::Route(ErrorView::EmptyIdentifier("namespace"@)))
                } else if key@.len() == 0 {
                    Err(AdapterErrorView::Route(ErrorView::EmptyIdentifier("key"@)))
                } else {
                    Ok(
                        DatabaseValueView {
                            namespace,
                            key: key@,
                            value: value@,
                            ttl: row_ttl(row.ttl_seconds, ttl_seconds),
                        },
                    )
                },
            },
        },
    }
}

fn namespace_of(
    namespace: Option<String>,
    ns: Option<String>,
    context: Option<String>,
    base: &Option<String>,
    Ghost(row): Ghost<ProviderRow>,
) -> (r: Result<String, AdapterError>)
    requires
        row.namespace == namespace,
        row.ns == ns,
        row.context == context,
    ensures
        crate::db::error::adapter_outcome(r) == row_namespace(row, crate::error::inner(*base)),
{
    let namespace = match namespace {
        Some(namespace) => namespace,
        None => match ns {
            Some(namespace) => namespace,
            None => match base {
                Some(namespace) => namespace.clone(),
                None => {
                    return Err(
                        configuration(
                            "provider row needs namespace/ns or provider.namespace_pattern",
                        ),
                    );
                },
            },
        },
    };
    match context {
        Some(context) => {
            if text::chars_of(context.as_str()).len() == 0 {
                Ok(namespace)
            } else if text::holds(namespace.as_str(), "::") {
                Err(
                    configuration("provider row cannot combine a decorated namespace with context"),
                )
            } else {
                Ok(text::joined3(namespace.as_str(), "::", context.as_str()))
            }
        },
        None => Ok(namespace),
    }
}

fn ttl_of(own: Option<i64>, common: Option<u64>) -> (r: Option<Duration>)
    ensures
        crate::error::inner(r) == row_ttl(own, common),
{
    match own {
        Some(n) => if n < 0 {
            Some(Duration::from_secs(0))
        } else {
            Some(Duration::from_secs(n as u64))
        },
        None => match common {
            Some(n) => Some(Duration::from_secs(n)),
            None => None,
        },
    }
}

/// The value that a row of a provider stands for. `base` is the namespace of the
/// provider, and `ttl_seconds` its time to live.
pub fn provider_value(row: ProviderRow, base: &Option<String>, ttl_seconds: Option<u64>) -> (r: Result<
    DatabaseValue,
    AdapterError,
>)
    ensures
        crate::db::error::adapter_outcome(r) == row_value(
            row,
            crate::error::inner(*base),
            ttl_seconds,
        ),
{
    let ghost whole = row;
    let namespace = match namespace_of(row.namespace, row.ns, row.context, base, Ghost(whole)) {
        Ok(namespace) => namespace,
        Err(error) => {
            return Err(error);
        },
    };
    let key = match row.key {
        Ok(key) => key,
        Err(error) => {
            return Err(error);
        },
    };
    let value = match row.value {
        Ok(value) => value,
        Err(error) => {
            return Err(error);
        },
    };
    let ttl = ttl_of(row.ttl_seconds, ttl_seconds);
    let namespace = match NamespaceContext::new(namespace.as_str()) {
        Ok(namespace) => namespace,
        Err(error) => {
            return Err(AdapterError::Route(error));
        },
    };
    match Key::new(key.as_str()) {
        Ok(key) => Ok(DatabaseValue { namespace, key, value, ttl }),
        Err(error) => Err(AdapterError::Route(error)),
    }
}

} // verus!
