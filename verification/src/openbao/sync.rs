//! Reading all values of a namespace for a scheduled synchronisation, and sending
//! them to the servers that leave it to this adapter.
//!
//! Each function makes one move and says what has to be listed, read or sent before
//! the next.

use crate::client::{ClientError, ScheduleLease};
use crate::error::ErrorView;
use crate::openbao::bridge::{self, BaoQuery, BaoValueView, OpenBaoValue};
use crate::openbao::client::{Versioned, VersionedView};
use crate::openbao::error::{configuration, AdapterError, AdapterErrorView};
use crate::openbao::index;
use crate::openbao::mapping::{self, OpenBaoMapping};
use crate::openbao::percent;
use crate::order::{self, Named};
use crate::route::{self, Key, NamespaceContext};
use crate::text;
use vstd::prelude::*;

verus! {

/// The parts that the digest in the path of a permission record is made of.
pub const DIGEST_PARTS: usize = 4;

impl Named for OpenBaoValue {
    open spec fn named(item: BaoValueView) -> Seq<char> {
        item.key
    }

    fn name(&self) -> (r: &str) {
        self.key.as_str()
    }
}

/// A path with the parts of a digest that lead to it.
#[derive(Debug)]
pub struct DigestPath {
    pub path: String,
    pub parts: Vec<String>,
}

impl View for DigestPath {
    type V = (Seq<char>, Seq<Seq<char>>);

    open spec fn view(&self) -> (Seq<char>, Seq<Seq<char>>) {
        (self.path@, crate::error::views(self.parts@))
    }
}

/// What is done with the names that are found.
#[derive(Debug)]
pub enum Listing {
    /// They are keys.
    Keys { namespace: NamespaceContext },
    /// They are parts of digests, behind the given ones; other paths are left, and
    /// records were found.
    Digests {
        namespace: NamespaceContext,
        parts: Vec<String>,
        pending: Vec<DigestPath>,
        found: Vec<DigestPath>,
    },
}

/// A [`Listing`] as a mathematical value.
#[verifier::ext_equal]
pub enum ListingView {
    Keys { namespace: Seq<char> },
    Digests {
        namespace: Seq<char>,
        parts: Seq<Seq<char>>,
        pending: Seq<(Seq<char>, Seq<Seq<char>>)>,
        found: Seq<(Seq<char>, Seq<Seq<char>>)>,
    },
}

impl View for Listing {
    type V = ListingView;

    open spec fn view(&self) -> ListingView {
        match self {
            Listing::Keys { namespace } => ListingView::Keys { namespace: namespace@ },
            Listing::Digests { namespace, parts, pending, found } => ListingView::Digests {
                namespace: namespace@,
                parts: crate::error::views(parts@),
                pending: crate::error::views(pending@),
                found: crate::error::views(found@),
            },
        }
    }
}

/// What is done with the document that is found; `values` were read before.
#[derive(Debug)]
pub enum Reading {
    /// It is the value of a key; the names of other keys are left.
    Key {
        namespace: NamespaceContext,
        collection: String,
        key: Key,
        names: Vec<String>,
        values: Vec<OpenBaoValue>,
    },
    /// It is a permission record whose key has the given digest; others are left.
    Record {
        namespace: NamespaceContext,
        parts: Vec<String>,
        left: Vec<DigestPath>,
        values: Vec<OpenBaoValue>,
    },
}

/// A [`Reading`] as a mathematical value.
#[verifier::ext_equal]
pub enum ReadingView {
    Key {
        namespace: Seq<char>,
        collection: Seq<char>,
        key: Seq<char>,
        names: Seq<Seq<char>>,
        values: Seq<BaoValueView>,
    },
    Record {
        namespace: Seq<char>,
        parts: Seq<Seq<char>>,
        left: Seq<(Seq<char>, Seq<Seq<char>>)>,
        values: Seq<BaoValueView>,
    },
}

impl View for Reading {
    type V = ReadingView;

    open spec fn view(&self) -> ReadingView {
        match self {
            Reading::Key { namespace, collection, key, names, values } => ReadingView::Key {
                namespace: namespace@,
                collection: collection@,
                key: key@,
                names: crate::error::views(names@),
                values: crate::error::views(values@),
            },
            Reading::Record { namespace, parts, left, values } => ReadingView::Record {
                namespace: namespace@,
                parts: crate::error::views(parts@),
                left: crate::error::views(left@),
                values: crate::error::views(values@),
            },
        }
    }
}

/// What reading the values of a namespace needs.
#[derive(Debug)]
pub enum SyncStep {
    Finished(Result<Vec<OpenBaoValue>, AdapterError>),
    /// Read the index of the base namespace.
    ReadIndex { path: String, namespace: NamespaceContext },
    /// List the names below a path.
    List { path: String, listing: Listing },
    /// Read a document.
    Read { path: String, reading: Reading },
}

/// A [`SyncStep`] as a mathematical value.
#[verifier::ext_equal]
pub enum SyncStepView {
    Finished(Result<Seq<BaoValueView>, AdapterErrorView>),
    ReadIndex { path: Seq<char>, namespace: Seq<char> },
    List { path: Seq<char>, listing: ListingView },
    Read { path: Seq<char>, reading: ReadingView },
}

/// The views of values, or of an error.
pub open spec fn values_view(result: Result<Vec<OpenBaoValue>, AdapterError>) -> Result<
    Seq<BaoValueView>,
    AdapterErrorView,
> {
    match result {
        Ok(values) => Ok(crate::error::views(values@)),
        Err(error) => Err(error@),
    }
}

impl View for SyncStep {
    type V = SyncStepView;

    open spec fn view(&self) -> SyncStepView {
        match self {
            SyncStep::Finished(result) => SyncStepView::Finished(values_view(*result)),
            SyncStep::ReadIndex { path, namespace } => SyncStepView::ReadIndex {
                path: path@,
                namespace: namespace@,
            },
            SyncStep::List { path, listing } => SyncStepView::List {
                path: path@,
                listing: listing@,
            },
            SyncStep::Read { path, reading } => SyncStepView::Read {
                path: path@,
                reading: reading@,
            },
        }
    }
}

/// The end with an error.
pub open spec fn failed(message: Seq<char>) -> SyncStepView {
    SyncStepView::Finished(Err(AdapterErrorView::Configuration(message)))
}

fn fail(error: AdapterError) -> (r: SyncStep)
    ensures
        r@ == SyncStepView::Finished(Err(error@)),
{
    SyncStep::Finished(Err(error))
}

/// Listing the values of a namespace below a path.
pub open spec fn listing_of(namespace: Seq<char>, collection: Seq<char>) -> SyncStepView {
    SyncStepView::List {
        path: collection,
        listing: if mapping::is_auth(namespace) {
            ListingView::Digests {
                namespace,
                parts: Seq::empty(),
                pending: Seq::empty(),
                found: Seq::empty(),
            }
        } else {
            ListingView::Keys { namespace }
        },
    }
}

fn list(namespace: NamespaceContext, collection: String) -> (r: SyncStep)
    ensures
        r@ == listing_of(namespace@, collection@),
{
    if !OpenBaoMapping::is_auth_namespace(&namespace) {
        return SyncStep::List { path: collection, listing: Listing::Keys { namespace } };
    }
    let parts: Vec<String> = Vec::new();
    let pending: Vec<DigestPath> = Vec::new();
    let found: Vec<DigestPath> = Vec::new();
    assert(crate::error::views(parts@) =~= Seq::empty());
    assert(crate::error::views(pending@) =~= Seq::empty());
    assert(crate::error::views(found@) =~= Seq::empty());
    SyncStep::List {
        path: collection,
        listing: Listing::Digests { namespace, parts, pending, found },
    }
}

/// Begins to read all values of a namespace.
pub fn fetch_provider_values(mapping: &OpenBaoMapping, namespace: NamespaceContext) -> (r: SyncStep)
    ensures
        r@ == (if route::context_of(namespace@) is None {
            listing_of(namespace@, mapping::root_path_of(mapping@, namespace@))
        } else {
            SyncStepView::ReadIndex {
                path: bridge::index_path(mapping@, namespace@),
                namespace: namespace@,
            }
        }),
{
    if namespace.ctx().is_none() {
        let collection = mapping.root_collection_path(&namespace);
        list(namespace, collection)
    } else {
        let path = mapping.index_path(namespace.ns());
        SyncStep::ReadIndex { path, namespace }
    }
}

/// The path of the values of a context whose index was read.
pub open spec fn collection_path(
    prefix: Seq<char>,
    namespace: Seq<char>,
    found: Option<VersionedView>,
) -> Option<Seq<char>> {
    match (found, route::context_of(namespace)) {
        (Some(document), Some(context)) => match index::collection_in(document.value, context) {
            Some(collection) => Some(
                mapping::context_path_of(prefix, route::base_of(namespace), collection),
            ),
            None => None,
        },
        _ => None,
    }
}

/// Goes on after the index was read. A context that it does not know has no values.
pub fn index_read(
    mapping: &OpenBaoMapping,
    namespace: NamespaceContext,
    result: Result<Option<Versioned>, AdapterError>,
) -> (r: SyncStep)
    ensures
        r@ == (match result {
            Err(error) => SyncStepView::Finished(Err(error@)),
            Ok(found) => match collection_path(
                mapping@,
                namespace@,
                crate::error::inner(found),
            ) {
                Some(collection) => listing_of(namespace@, collection),
                None => SyncStepView::Finished(Ok(Seq::empty())),
            },
        }),
{
    let found = match result {
        Ok(found) => found,
        Err(error) => {
            return fail(error);
        },
    };
    let path = match (&found, namespace.ctx()) {
        (Some(document), Some(context)) => match index::collection_of(&document.value, context) {
            Some(collection) => Some(
                mapping.context_collection_path(namespace.ns(), collection.as_str()),
            ),
            None => None,
        },
        _ => None,
    };
    match path {
        Some(collection) => list(namespace, collection),
        None => {
            let none: Vec<OpenBaoValue> = Vec::new();
            assert(crate::error::views(none@) =~= Seq::empty());
            SyncStep::Finished(Ok(none))
        },
    }
}

/// What follows when values were read and names of keys are left.
pub open spec fn next_key(
    namespace: Seq<char>,
    collection: Seq<char>,
    names: Seq<Seq<char>>,
    values: Seq<BaoValueView>,
) -> SyncStepView {
    if names.len() == 0 {
        SyncStepView::Finished(Ok(values))
    } else if names[0].len() > 0 && names[0].last() == '/' {
        failed("OpenBao provider path must contain only keys"@)
    } else {
        match percent::segment_value(names[0]) {
            Err(error) => SyncStepView::Finished(Err(error)),
            Ok(key) => if key.len() == 0 {
                SyncStepView::Finished(
                    Err(AdapterErrorView::Route(ErrorView::EmptyIdentifier("key"@))),
                )
            } else {
                SyncStepView::Read {
                    path: collection + "/"@ + names[0],
                    reading: ReadingView::Key {
                        namespace,
                        collection,
                        key,
                        names: names.skip(1),
                        values,
                    },
                }
            },
        }
    }
}

/// Whether a name is that of a collection.
fn is_collection(name: &str) -> (r: bool)
    ensures
        r == (name@.len() > 0 && name@.last() == '/'),
{
    let chars = text::chars_of(name);
    chars.len() > 0 && chars[chars.len() - 1] == '/'
}

fn advance_key(
    namespace: NamespaceContext,
    collection: String,
    names: Vec<String>,
    values: Vec<OpenBaoValue>,
) -> (r: SyncStep)
    ensures
        r@ == next_key(
            namespace@,
            collection@,
            crate::error::views(names@),
            crate::error::views(values@),
        ),
{
    if names.len() == 0 {
        return SyncStep::Finished(Ok(values));
    }
    let ghost all = crate::error::views(names@);
    let mut names = names;
    let name = names.remove(0);
    assert(name@ == all[0]);
    assert(crate::error::views(names@) =~= all.skip(1));
    if is_collection(name.as_str()) {
        return fail(configuration("OpenBao provider path must contain only keys"));
    }
    let decoded = match percent::decode(name.as_str()) {
        Ok(decoded) => decoded,
        Err(error) => {
            return fail(error);
        },
    };
    match Key::new(decoded.as_str()) {
        Err(error) => fail(AdapterError::Route(error)),
        Ok(key) => {
            let path = text::joined3(collection.as_str(), "/", name.as_str());
            SyncStep::Read {
                path,
                reading: Reading::Key { namespace, collection, key, names, values },
            }
        },
    }
}

/// What follows when permission records were read and others are left. The values
/// come out in the order of their keys.
pub open spec fn next_record(
    namespace: Seq<char>,
    left: Seq<(Seq<char>, Seq<Seq<char>>)>,
    values: Seq<BaoValueView>,
) -> SyncStepView {
    if left.len() == 0 {
        SyncStepView::Finished(Ok(order::arranged::<OpenBaoValue>(values)))
    } else {
        SyncStepView::Read {
            path: left[0].0,
            reading: ReadingView::Record {
                namespace,
                parts: left[0].1,
                left: left.skip(1),
                values,
            },
        }
    }
}

fn advance_record(
    namespace: NamespaceContext,
    left: Vec<DigestPath>,
    values: Vec<OpenBaoValue>,
) -> (r: SyncStep)
    ensures
        r@ == next_record(namespace@, crate::error::views(left@), crate::error::views(values@)),
{
    if left.len() == 0 {
        return SyncStep::Finished(Ok(order::arrange(values)));
    }
    let ghost all = crate::error::views(left@);
    let mut left = left;
    let next = left.remove(0);
    assert(next@ == all[0]);
    assert(crate::error::views(left@) =~= all.skip(1));
    SyncStep::Read {
        path: next.path,
        reading: Reading::Record { namespace, parts: next.parts, left, values },
    }
}

/// What follows when paths are left to be listed, or only records to be read. The
/// path that came last goes first.
pub open spec fn next_path(
    namespace: Seq<char>,
    pending: Seq<(Seq<char>, Seq<Seq<char>>)>,
    found: Seq<(Seq<char>, Seq<Seq<char>>)>,
) -> SyncStepView {
    if pending.len() == 0 {
        next_record(namespace, found, Seq::empty())
    } else {
        SyncStepView::List {
            path: pending.last().0,
            listing: ListingView::Digests {
                namespace,
                parts: pending.last().1,
                pending: pending.drop_last(),
                found,
            },
        }
    }
}

fn advance_path(
    namespace: NamespaceContext,
    pending: Vec<DigestPath>,
    found: Vec<DigestPath>,
) -> (r: SyncStep)
    ensures
        r@ == next_path(namespace@, crate::error::views(pending@), crate::error::views(found@)),
{
    let ghost all = crate::error::views(pending@);
    let mut pending = pending;
    match pending.pop() {
        None => {
            let none: Vec<OpenBaoValue> = Vec::new();
            assert(crate::error::views(none@) =~= Seq::empty());
            advance_record(namespace, found, none)
        },
        Some(next) => {
            assert(next@ == all.last());
            assert(crate::error::views(pending@) =~= all.drop_last());
            SyncStep::List {
                path: next.path,
                listing: Listing::Digests { namespace, parts: next.parts, pending, found },
            }
        },
    }
}

/// A digit of a digest.
pub open spec fn is_digest_digit(c: char) -> bool {
    '0' <= c <= '9' || 'a' <= c <= 'f'
}

/// A part of a digest.
pub open spec fn is_digest_part(part: Seq<char>) -> bool {
    part.len() == 16 && forall|i: int| 0 <= i < part.len() ==> is_digest_digit(#[trigger] part[i])
}

fn digest_part(part: &str) -> (r: bool)
    ensures
        r == is_digest_part(part@),
{
    let chars = text::chars_of(part);
    if chars.len() != 16 {
        return false;
    }
    let mut i: usize = 0;
    while i < chars.len()
        invariant
            i <= chars.len(),
            chars@ == part@,
            forall|k: int| 0 <= k < i ==> is_digest_digit(#[trigger] part@[k]),
        decreases chars.len() - i,
    {
        let c = chars[i];
        if !(('0' <= c && c <= '9') || ('a' <= c && c <= 'f')) {
            assert(!is_digest_digit(part@[i as int]));
            return false;
        }
        i += 1;
    }
    true
}

/// A name without the separator that marks a collection.
pub open spec fn bare(name: Seq<char>) -> Seq<char> {
    if name.len() > 0 && name.last() == '/' {
        name.drop_last()
    } else {
        name
    }
}

/// The paths that are left and those of records, once the first `n` names below a
/// path were looked at, the last one first.
pub open spec fn walked(
    path: Seq<char>,
    parts: Seq<Seq<char>>,
    names: Seq<Seq<char>>,
    n: int,
    pending: Seq<(Seq<char>, Seq<Seq<char>>)>,
    found: Seq<(Seq<char>, Seq<Seq<char>>)>,
) -> Result<
    (Seq<(Seq<char>, Seq<Seq<char>>)>, Seq<(Seq<char>, Seq<Seq<char>>)>),
    AdapterErrorView,
>
    decreases n,
{
    if n <= 0 || n > names.len() {
        Ok((pending, found))
    } else {
        let name = names[n - 1];
        let collection = name.len() > 0 && name.last() == '/';
        let part = bare(name);
        let next = (path + "/"@ + part, parts.push(part));
        if !is_digest_part(part) {
            Err(
                AdapterErrorView::Configuration(
                    "OpenBao auth provider path had an invalid digest segment"@,
                ),
            )
        } else if parts.len() < DIGEST_PARTS - 1 {
            if !collection {
                Err(
                    AdapterErrorView::Configuration(
                        "OpenBao auth provider path ended before four digest segments"@,
                    ),
                )
            } else {
                walked(path, parts, names, n - 1, pending.push(next), found)
            }
        } else if parts.len() == DIGEST_PARTS - 1 {
            if collection {
                Err(
                    AdapterErrorView::Configuration(
                        "OpenBao auth provider path had more than four digest segments"@,
                    ),
                )
            } else {
                walked(path, parts, names, n - 1, pending, found.push(next))
            }
        } else {
            walked(path, parts, names, n - 1, pending, found)
        }
    }
}

fn copy_texts(texts: &Vec<String>) -> (r: Vec<String>)
    ensures
        crate::error::views(r@) == crate::error::views(texts@),
{
    let mut out: Vec<String> = Vec::new();
    let mut i: usize = 0;
    assert(crate::error::views(out@) =~= crate::error::views(texts@).take(0));
    while i < texts.len()
        invariant
            i <= texts.len(),
            crate::error::views(out@) == crate::error::views(texts@).take(i as int),
        decreases texts.len() - i,
    {
        let ghost done = out@;
        out.push(texts[i].clone());
        assert(crate::error::views(out@) =~= crate::error::views(done).push(texts@[i as int]@));
        assert(crate::error::views(texts@).take(i + 1) =~= crate::error::views(texts@).take(i as int).push(
            texts@[i as int]@,
        ));
        i += 1;
    }
    assert(crate::error::views(texts@).take(i as int) =~= crate::error::views(texts@));
    out
}

fn below(path: &str, parts: &Vec<String>, part: &str) -> (r: DigestPath)
    ensures
        r@ == (path@ + "/"@ + part@, crate::error::views(parts@).push(part@)),
{
    let mut all = copy_texts(parts);
    let ghost done = all@;
    all.push(part.to_owned());
    assert(crate::error::views(all@) =~= crate::error::views(done).push(part@));
    DigestPath { path: text::joined3(path, "/", part), parts: all }
}

/// The views of paths that are left and of records, or of an error.
pub open spec fn walk_view(
    result: Result<(Vec<DigestPath>, Vec<DigestPath>), AdapterError>,
) -> Result<
    (Seq<(Seq<char>, Seq<Seq<char>>)>, Seq<(Seq<char>, Seq<Seq<char>>)>),
    AdapterErrorView,
> {
    match result {
        Ok((pending, found)) => Ok((crate::error::views(pending@), crate::error::views(found@))),
        Err(error) => Err(error@),
    }
}

fn walk(
    path: &str,
    parts: &Vec<String>,
    names: &Vec<String>,
    pending: Vec<DigestPath>,
    found: Vec<DigestPath>,
) -> (r: Result<(Vec<DigestPath>, Vec<DigestPath>), AdapterError>)
    ensures
        walk_view(r) == walked(
            path@,
            crate::error::views(parts@),
            crate::error::views(names@),
            names@.len() as int,
            crate::error::views(pending@),
            crate::error::views(found@),
        ),
{
    let ghost whole = walked(
        path@,
        crate::error::views(parts@),
        crate::error::views(names@),
        names@.len() as int,
        crate::error::views(pending@),
        crate::error::views(found@),
    );
    let mut rest = pending;
    let mut records = found;
    let mut n: usize = names.len();
    while n > 0
        invariant
            n <= names.len(),
            whole == walked(
                path@,
                crate::error::views(parts@),
                crate::error::views(names@),
                names@.len() as int,
                crate::error::views(pending@),
                crate::error::views(found@),
            ),
            whole == walked(
                path@,
                crate::error::views(parts@),
                crate::error::views(names@),
                n as int,
                crate::error::views(rest@),
                crate::error::views(records@),
            ),
        decreases n,
    {
        let name = &names[n - 1];
        assert(crate::error::views(names@)[n - 1] == name@);
        let collection = is_collection(name.as_str());
        let part = if collection {
            let chars = text::chars_of(name.as_str());
            let cut = text::slice(&chars, 0, chars.len() - 1);
            assert(cut@ =~= name@.drop_last());
            cut
        } else {
            name.clone()
        };
        assert(part@ == bare(name@));
        if !digest_part(part.as_str()) {
            return Err(configuration("OpenBao auth provider path had an invalid digest segment"));
        }
        if parts.len() < DIGEST_PARTS - 1 {
            if !collection {
                return Err(
                    configuration("OpenBao auth provider path ended before four digest segments"),
                );
            }
            let next = below(path, parts, part.as_str());
            let ghost done = rest@;
            rest.push(next);
            assert(crate::error::views(rest@) =~= crate::error::views(done).push(next@));
        } else if parts.len() == DIGEST_PARTS - 1 {
            if collection {
                return Err(
                    configuration("OpenBao auth provider path had more than four digest segments"),
                );
            }
            let next = below(path, parts, part.as_str());
            let ghost done = records@;
            records.push(next);
            assert(crate::error::views(records@) =~= crate::error::views(done).push(next@));
        }
        n -= 1;
    }
    Ok((rest, records))
}

/// What follows on names below a path.
pub open spec fn listing_step(
    path: Seq<char>,
    listing: ListingView,
    names: Seq<Seq<char>>,
) -> SyncStepView {
    let sorted = order::arranged::<String>(names);
    match listing {
        ListingView::Keys { namespace } => next_key(namespace, path, sorted, Seq::empty()),
        ListingView::Digests { namespace, parts, pending, found } => match walked(
            path,
            parts,
            sorted,
            sorted.len() as int,
            pending,
            found,
        ) {
            Err(error) => SyncStepView::Finished(Err(error)),
            Ok((pending, found)) => next_path(namespace, pending, found),
        },
    }
}

/// Goes on after names were listed.
pub fn listed(path: String, listing: Listing, result: Result<Vec<String>, AdapterError>) -> (r:
    SyncStep)
    ensures
        r@ == (match result {
            Err(error) => SyncStepView::Finished(Err(error@)),
            Ok(names) => listing_step(path@, listing@, crate::error::views(names@)),
        }),
{
    let names = match result {
        Ok(names) => names,
        Err(error) => {
            return fail(error);
        },
    };
    let sorted = order::arrange(names);
    match listing {
        Listing::Keys { namespace } => {
            let none: Vec<OpenBaoValue> = Vec::new();
            assert(crate::error::views(none@) =~= Seq::empty());
            advance_key(namespace, path, sorted, none)
        },
        Listing::Digests { namespace, parts, pending, found } => match walk(
            path.as_str(),
            &parts,
            &sorted,
            pending,
            found,
        ) {
            Err(error) => fail(error),
            Ok((pending, found)) => advance_path(namespace, pending, found),
        },
    }
}

/// What follows on a document, or on finding none.
pub open spec fn reading_step(reading: ReadingView, found: Option<VersionedView>) -> SyncStepView {
    match reading {
        ReadingView::Key { namespace, collection, key, names, values } => match found {
            None => next_key(namespace, collection, names, values),
            Some(document) => match bridge::plain_value_in((namespace, key), document.value) {
                Err(error) => SyncStepView::Finished(Err(error)),
                Ok(value) => next_key(namespace, collection, names, values.push(value)),
            },
        },
        ReadingView::Record { namespace, parts, left, values } => match found {
            None => next_record(namespace, left, values),
            Some(document) => match mapping::read_auth_document(document.value) {
                Err(error) => SyncStepView::Finished(Err(error)),
                Ok(record) => if mapping::digest_parts(mapping::key_digest(record.key)) != parts {
                    failed("OpenBao auth path digest did not match document key"@)
                } else {
                    next_record(
                        namespace,
                        left,
                        values.push(
                            BaoValueView {
                                namespace,
                                key: record.key,
                                value: record.value,
                                ttl: record.ttl,
                            },
                        ),
                    )
                },
            },
        },
    }
}

fn same_texts(a: &Vec<String>, b: &Vec<String>) -> (r: bool)
    ensures
        r == (crate::error::views(a@) == crate::error::views(b@)),
{
    if a.len() != b.len() {
        assert(crate::error::views(a@).len() != crate::error::views(b@).len());
        return false;
    }
    let mut i: usize = 0;
    while i < a.len()
        invariant
            i <= a.len(),
            a.len() == b.len(),
            forall|k: int| 0 <= k < i ==> #[trigger] a@[k]@ == b@[k]@,
        decreases a.len() - i,
    {
        if !text::same(a[i].as_str(), b[i].as_str()) {
            assert(crate::error::views(a@)[i as int] != crate::error::views(b@)[i as int]);
            return false;
        }
        i += 1;
    }
    assert(crate::error::views(a@) =~= crate::error::views(b@));
    true
}

/// Goes on after a document was read.
pub fn value_read(
    mapping: &OpenBaoMapping,
    reading: Reading,
    result: Result<Option<Versioned>, AdapterError>,
) -> (r: SyncStep)
    ensures
        r@ == (match result {
            Err(error) => SyncStepView::Finished(Err(error@)),
            Ok(found) => reading_step(reading@, crate::error::inner(found)),
        }),
{
    let found = match result {
        Ok(found) => found,
        Err(error) => {
            return fail(error);
        },
    };
    match reading {
        Reading::Key { namespace, collection, key, names, values } => {
            let mut values = values;
            if let Some(document) = found {
                let query = BaoQuery { namespace: namespace.clone(), key };
                match bridge::plain_value(query, &document.value) {
                    Err(error) => {
                        return fail(error);
                    },
                    Ok(value) => {
                        let ghost done = values@;
                        let ghost shown = value@;
                        values.push(value);
                        assert(crate::error::views(values@) =~= crate::error::views(done).push(shown));
                    },
                }
            }
            advance_key(namespace, collection, names, values)
        },
        Reading::Record { namespace, parts, left, values } => {
            let mut values = values;
            if let Some(document) = found {
                let record = match OpenBaoMapping::decode_auth_document(&document.value) {
                    Ok(record) => record,
                    Err(error) => {
                        return fail(error);
                    },
                };
                let key = match Key::new(record.key.as_str()) {
                    Ok(key) => key,
                    Err(error) => {
                        assert(false);
                        return fail(AdapterError::Route(error));
                    },
                };
                let digest = mapping.auth_key_parts(&key);
                if !same_texts(&digest, &parts) {
                    return fail(
                        configuration("OpenBao auth path digest did not match document key"),
                    );
                }
                let value = OpenBaoValue {
                    namespace: namespace.clone(),
                    key,
                    value: record.value,
                    ttl: record.ttl,
                };
                let ghost done = values@;
                let ghost shown = value@;
                values.push(value);
                assert(crate::error::views(values@) =~= crate::error::views(done).push(shown));
            }
            advance_record(namespace, left, values)
        },
    }
}

/// A value with the whole seconds of its time to live.
pub open spec fn in_seconds(value: BaoValueView) -> BaoValueView {
    BaoValueView {
        ttl: match value.ttl {
            Some(nanos) => Some((nanos / 1_000_000_000) * 1_000_000_000),
            None => None,
        },
        ..value
    }
}

/// The path below which the values of a namespace are listed; a context has a
/// collection.
pub open spec fn listed_path(
    prefix: Seq<char>,
    namespace: Seq<char>,
    collection: Option<Seq<char>>,
) -> Seq<char> {
    match collection {
        Some(collection) => mapping::context_path_of(
            prefix,
            route::base_of(namespace),
            collection,
        ),
        None => mapping::root_path_of(prefix, namespace),
    }
}

/// A value that was written for a key is read from where it was written when the
/// name of the key is listed, and is one of the values that are read; of its time
/// to live the whole seconds are.
pub proof fn written_values_are_synchronised(
    prefix: Seq<char>,
    value: BaoValueView,
    collection: Option<Seq<char>>,
    version: u64,
    names: Seq<Seq<char>>,
    values: Seq<BaoValueView>,
)
    requires
        collection is Some <==> route::context_of(value.namespace) is Some,
        !mapping::is_auth(value.namespace),
        value.key.len() > 0,
        value.ttl matches Some(nanos) ==> nanos <= crate::duration::max_nanos(),
        names.len() > 0,
        names[0] == percent::segment(value.key),
    ensures
        ({
            let below = listed_path(prefix, value.namespace, collection);
            let document = VersionedView { value: bridge::document_for(value), version };
            next_key(value.namespace, below, names, values) matches SyncStepView::Read {
                path,
                reading,
            } && path == bridge::path_of(prefix, value.namespace, value.key, collection)
                && reading_step(reading, Some(document)) == next_key(
                value.namespace,
                below,
                names.skip(1),
                values.push(in_seconds(value)),
            )
        }),
{
    percent::decode_after_encode(value.key);
    percent::segments_are_safe(value.key, names[0].len() - 1);
    bridge::documents_are_read_back(value);
}

/// A permission record that is found where its key belongs is one of the values that
/// are read; of its time to live the whole seconds are.
pub proof fn written_records_are_synchronised(
    value: BaoValueView,
    version: u64,
    left: Seq<(Seq<char>, Seq<Seq<char>>)>,
    values: Seq<BaoValueView>,
)
    requires
        mapping::is_auth(value.namespace),
        value.key.len() > 0,
        value.ttl matches Some(nanos) ==> nanos <= crate::duration::max_nanos(),
    ensures
        reading_step(
            ReadingView::Record {
                namespace: value.namespace,
                parts: mapping::digest_parts(mapping::key_digest(value.key)),
                left,
                values,
            },
            Some(VersionedView { value: bridge::document_for(value), version }),
        ) == next_record(value.namespace, left, values.push(in_seconds(value))),
{
    mapping::auth_documents_are_read_back(value.key, value.value, value.ttl);
}

/// Whether an answer to a request for a lease leaves the synchronisation to this
/// adapter.
pub fn owner_step(result: &Result<ScheduleLease, ClientError>) -> (r: bool)
    ensures
        r == (*result matches Ok(ScheduleLease::Acquired { .. })),
{
    match result {
        Ok(ScheduleLease::Acquired { .. }) => true,
        _ => false,
    }
}

/// What a delivery needs next, or how many values it delivered.
#[derive(Debug)]
pub enum DeliveryStep {
    Finished(Result<usize, String>),
    /// Read the values.
    Fetch,
    /// Send a value to an owner of the lease, both by their positions.
    Send { value: usize, owner: usize },
}

/// A [`DeliveryStep`] as a mathematical value.
#[verifier::ext_equal]
pub enum DeliveryView {
    Finished(Result<nat, Seq<char>>),
    Fetch,
    Send { value: nat, owner: nat },
}

impl View for DeliveryStep {
    type V = DeliveryView;

    open spec fn view(&self) -> DeliveryView {
        match self {
            DeliveryStep::Finished(Ok(count)) => DeliveryView::Finished(Ok(*count as nat)),
            DeliveryStep::Finished(Err(message)) => DeliveryView::Finished(Err(message@)),
            DeliveryStep::Fetch => DeliveryView::Fetch,
            DeliveryStep::Send { value, owner } => DeliveryView::Send {
                value: *value as nat,
                owner: *owner as nat,
            },
        }
    }
}

/// Begins a delivery: where no server leaves it to this adapter, nothing is read and
/// nothing delivered.
pub fn owners_found(owners: usize) -> (r: DeliveryStep)
    ensures
        r@ == (if owners == 0 {
            DeliveryView::Finished(Ok(0))
        } else {
            DeliveryView::Fetch
        }),
{
    if owners == 0 {
        DeliveryStep::Finished(Ok(0))
    } else {
        DeliveryStep::Fetch
    }
}

/// Goes on after the values were read.
pub fn values_fetched(result: &Result<Vec<OpenBaoValue>, AdapterError>) -> (r: DeliveryStep)
    ensures
        r@ == (match *result {
            Err(error) => DeliveryView::Finished(Err(error@.message())),
            Ok(values) => if values.len() == 0 {
                DeliveryView::Finished(Ok(0))
            } else {
                DeliveryView::Send { value: 0, owner: 0 }
            },
        }),
{
    match result {
        Err(error) => DeliveryStep::Finished(Err(error.message())),
        Ok(values) => if values.len() == 0 {
            DeliveryStep::Finished(Ok(0))
        } else {
            DeliveryStep::Send { value: 0, owner: 0 }
        },
    }
}

/// What follows on sending a value to an owner: the next owner gets it, then the
/// first one gets the next value. The first failure ends the delivery.
pub open spec fn next_delivery(
    values: nat,
    owners: nat,
    value: nat,
    owner: nat,
    failure: Option<Seq<char>>,
) -> DeliveryView {
    match failure {
        Some(message) => DeliveryView::Finished(Err(message)),
        None => if owner + 1 < owners {
            DeliveryView::Send { value, owner: owner + 1 }
        } else if value + 1 < values {
            DeliveryView::Send { value: value + 1, owner: 0 }
        } else {
            DeliveryView::Finished(Ok(values))
        },
    }
}

/// Goes on after a value was sent to an owner.
pub fn value_sent(
    values: usize,
    owners: usize,
    value: usize,
    owner: usize,
    result: &Result<(), ClientError>,
) -> (r: DeliveryStep)
    ensures
        r@ == next_delivery(
            values as nat,
            owners as nat,
            value as nat,
            owner as nat,
            match *result {
                Ok(_) => None,
                Err(error) => Some(error@.message()),
            },
        ),
{
    match result {
        Err(error) => DeliveryStep::Finished(Err(error.message())),
        Ok(_) => if owner < owners && owners - owner > 1 {
            DeliveryStep::Send { value, owner: owner + 1 }
        } else if value < values && values - value > 1 {
            DeliveryStep::Send { value: value + 1, owner: 0 }
        } else {
            DeliveryStep::Finished(Ok(values))
        },
    }
}

/// Without a failure every value is sent to every owner once, value by value: each
/// step is the next one of all of them, and the delivery ends with the last.
pub proof fn deliveries_reach_every_owner(values: nat, owners: nat, value: nat, owner: nat)
    requires
        value < values,
        owner < owners,
    ensures
        match next_delivery(values, owners, value, owner, None) {
            DeliveryView::Send { value: v, owner: o } => v < values && o < owners && v * owners + o
                == value * owners + owner + 1,
            DeliveryView::Finished(result) => result == Ok::<nat, Seq<char>>(values) && value
                * owners + owner + 1 == values * owners,
            DeliveryView::Fetch => false,
        },
{
    assert((value + 1) * owners == value * owners + owners) by (nonlinear_arith);
}

} // verus!
