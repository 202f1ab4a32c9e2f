//! Who may do what: permission records, authenticated sessions and encrypted
//! values.

use crate::crypto;
use crate::duration::Duration;
use crate::error::{Error, ErrorView};
use crate::json::{self, JsonView, Value};
use crate::route::{self, Key, NamespaceContext};
use crate::table::Table;
use crate::text;
use vstd::prelude::*;

verus! {

pub const MAX_AUTH_PERMISSIONS: usize = 256;

/// One thing that a principal may do.
#[derive(Debug, PartialEq, Eq)]
pub enum Role {
    Read(String),
    Write(String),
    ReadEncrypted(String),
    WriteEncrypted(String),
    Admin,
}

/// A [`Role`] with its pattern as a character sequence.
#[verifier::ext_equal]
pub enum RoleView {
    Read(Seq<char>),
    Write(Seq<char>),
    ReadEncrypted(Seq<char>),
    WriteEncrypted(Seq<char>),
    Admin,
}

impl View for Role {
    type V = RoleView;

    open spec fn view(&self) -> RoleView {
        match self {
            Role::Read(pattern) => RoleView::Read(pattern@),
            Role::Write(pattern) => RoleView::Write(pattern@),
            Role::ReadEncrypted(pattern) => RoleView::ReadEncrypted(pattern@),
            Role::WriteEncrypted(pattern) => RoleView::WriteEncrypted(pattern@),
            Role::Admin => RoleView::Admin,
        }
    }
}

impl Clone for Role {
    fn clone(&self) -> (r: Self)
        ensures
            r == *self,
    {
        match self {
            Role::Read(pattern) => Role::Read(pattern.clone()),
            Role::Write(pattern) => Role::Write(pattern.clone()),
            Role::ReadEncrypted(pattern) => Role::ReadEncrypted(pattern.clone()),
            Role::WriteEncrypted(pattern) => Role::WriteEncrypted(pattern.clone()),
            Role::Admin => Role::Admin,
        }
    }
}

/// The operations that a permission record can list.
#[derive(Clone, Copy, Debug, PartialEq, Eq, Structural)]
pub enum PermissionOperation {
    Read,
    Write,
    ReadEncrypted,
    WriteEncrypted,
    Admin,
}

/// A concise, data-oriented permission record for `/__auth` registry values.
#[derive(Debug, PartialEq, Eq)]
pub struct Permission {
    pub namespace: Option<String>,
    pub operations: Vec<PermissionOperation>,
}

/// A [`Permission`] as a mathematical value.
#[verifier::ext_equal]
pub struct PermissionView {
    pub namespace: Option<Seq<char>>,
    pub operations: Seq<PermissionOperation>,
}

impl View for Permission {
    type V = PermissionView;

    open spec fn view(&self) -> PermissionView {
        PermissionView {
            namespace: crate::error::inner(self.namespace),
            operations: self.operations@,
        }
    }
}

/// The operations that a request can need.
#[derive(Clone, Copy, Debug, PartialEq, Eq, Structural)]
pub enum Operation {
    Read,
    Write,
    Delete,
    Provide,
    Store,
    ReadEncrypted,
    WriteEncrypted,
}

/// Where a principal comes from.
#[derive(Clone, Copy, Debug, PartialEq, Eq, Structural)]
pub enum AuthSource {
    Registry,
    BootstrapAdmin,
}

/// An authenticated principal. Instants are nanoseconds of a monotonic clock.
#[derive(Debug)]
pub struct AuthInfo {
    pub api_key: String,
    pub client_id: String,
    pub roles: Vec<Role>,
    pub source: AuthSource,
    pub authenticated_at: u128,
}

/// An [`AuthInfo`] as a mathematical value.
#[verifier::ext_equal]
pub struct AuthInfoView {
    pub api_key: Seq<char>,
    pub client_id: Seq<char>,
    pub roles: Seq<RoleView>,
    pub source: AuthSource,
    pub authenticated_at: nat,
}

impl View for AuthInfo {
    type V = AuthInfoView;

    open spec fn view(&self) -> AuthInfoView {
        AuthInfoView {
            api_key: self.api_key@,
            client_id: self.client_id@,
            roles: crate::error::views(self.roles@),
            source: self.source,
            authenticated_at: self.authenticated_at as nat,
        }
    }
}

/// A copy of a list of roles.
fn clone_roles(roles: &Vec<Role>) -> (r: Vec<Role>)
    ensures
        r@ == roles@,
{
    let mut out: Vec<Role> = Vec::new();
    let mut i: usize = 0;
    while i < roles.len()
        invariant
            i <= roles.len(),
            out@ == roles@.take(i as int),
        decreases roles.len() - i,
    {
        out.push(roles[i].clone());
        assert(roles@.take(i + 1) =~= roles@.take(i as int).push(roles@[i as int]));
        i += 1;
    }
    assert(roles@.take(roles.len() as int) =~= roles@);
    out
}

impl Clone for AuthInfo {
    fn clone(&self) -> (r: Self)
        ensures
            r@ == self@,
    {
        AuthInfo {
            api_key: self.api_key.clone(),
            client_id: self.client_id.clone(),
            roles: clone_roles(&self.roles),
            source: self.source,
            authenticated_at: self.authenticated_at,
        }
    }
}

impl AuthInfo {
    /// Whether the principal is the administrator of the configuration.
    pub fn is_bootstrap_admin(&self) -> (r: bool)
        ensures
            r == (self@.source == AuthSource::BootstrapAdmin),
    {
        self.source == AuthSource::BootstrapAdmin
    }
}

/// A principal as the `/__auth` registry records it.
#[derive(Debug)]
pub struct AuthRecord {
    pub client_id: String,
    pub name: String,
    pub roles: Vec<Role>,
    pub permissions: Vec<Permission>,
    pub enabled: bool,
}

/// An [`AuthRecord`] as a mathematical value.
#[verifier::ext_equal]
pub struct AuthRecordView {
    pub client_id: Seq<char>,
    pub name: Seq<char>,
    pub roles: Seq<RoleView>,
    pub permissions: Seq<PermissionView>,
    pub enabled: bool,
}

impl View for AuthRecord {
    type V = AuthRecordView;

    open spec fn view(&self) -> AuthRecordView {
        AuthRecordView {
            client_id: self.client_id@,
            name: self.name@,
            roles: crate::error::views(self.roles@),
            permissions: crate::error::views(self.permissions@),
            enabled: self.enabled,
        }
    }
}

/// A refused permission record.
pub open spec fn invalid<T>(message: Seq<char>) -> Result<T, ErrorView> {
    Err(ErrorView::InvalidAuthorization(message))
}

/// The role of an operation on a namespace.
pub open spec fn operation_role(operation: PermissionOperation, namespace: Seq<char>) -> RoleView {
    match operation {
        PermissionOperation::Read => RoleView::Read(namespace),
        PermissionOperation::Write => RoleView::Write(namespace),
        PermissionOperation::ReadEncrypted => RoleView::ReadEncrypted(namespace),
        PermissionOperation::WriteEncrypted => RoleView::WriteEncrypted(namespace),
        PermissionOperation::Admin => RoleView::Admin,
    }
}

/// The roles that a permission record grants, or why it is refused.
pub open spec fn permission_roles(permission: PermissionView) -> Result<Seq<RoleView>, ErrorView> {
    let operations = permission.operations;
    if operations.len() == 0 {
        invalid("permission requires at least one operation"@)
    } else if !operations.no_duplicates() {
        invalid("permission operations must not contain duplicates"@)
    } else if operations.contains(PermissionOperation::Admin) {
        if operations.len() != 1 {
            invalid("admin permission must not be combined with other operations"@)
        } else if permission.namespace is Some {
            invalid("admin permission must not include a namespace"@)
        } else {
            Ok(seq![RoleView::Admin])
        }
    } else {
        match permission.namespace {
            Some(namespace) => if text::trim(namespace).len() == 0 {
                invalid("permission operations require a namespace"@)
            } else {
                Ok(
                    operations.map_values(
                        |operation: PermissionOperation| operation_role(operation, namespace),
                    ),
                )
            },
            None => invalid("permission operations require a namespace"@),
        }
    }
}

/// The operations that permission records list, counted.
pub open spec fn operation_count(permissions: Seq<PermissionView>) -> nat
    decreases permissions.len(),
{
    if permissions.len() == 0 {
        0
    } else {
        operation_count(permissions.drop_last()) + permissions.last().operations.len()
    }
}

/// The roles that permission records grant from `i` on, or why the first one
/// that is not in order is refused.
pub open spec fn granted_roles(permissions: Seq<PermissionView>, i: int) -> Result<
    Seq<RoleView>,
    ErrorView,
>
    decreases permissions.len() - i,
{
    if i < 0 || i >= permissions.len() {
        Ok(Seq::empty())
    } else {
        match permission_roles(permissions[i]) {
            Err(error) => Err(error),
            Ok(first) => match granted_roles(permissions, i + 1) {
                Err(error) => Err(error),
                Ok(rest) => Ok(first + rest),
            },
        }
    }
}

/// The principal that a record describes, or why the record is refused.
pub open spec fn record_info(record: AuthRecordView, api_key: Seq<char>, now: nat) -> Result<
    AuthInfoView,
    ErrorView,
> {
    if text::trim(record.client_id).len() == 0 {
        invalid("client_id is required"@)
    } else if text::trim(record.name).len() == 0 {
        invalid("name is required"@)
    } else if !record.enabled {
        Err(ErrorView::AuthenticationFailed)
    } else if record.permissions.len() > MAX_AUTH_PERMISSIONS || record.roles.len()
        + operation_count(record.permissions) > MAX_AUTH_PERMISSIONS {
        invalid("too many permissions"@)
    } else {
        match granted_roles(record.permissions, 0) {
            Err(error) => Err(error),
            Ok(roles) => Ok(
                AuthInfoView {
                    api_key,
                    client_id: record.client_id,
                    roles: record.roles + roles,
                    source: AuthSource::Registry,
                    authenticated_at: now,
                },
            ),
        }
    }
}

fn refuse(message: &str) -> (r: Error)
    ensures
        r@ == ErrorView::InvalidAuthorization(message@),
{
    Error::InvalidAuthorization(message.to_owned())
}

impl Permission {
    /// The roles that the record grants.
    pub fn into_roles(&self) -> (r: Result<Vec<Role>, Error>)
        ensures
            match r {
                Ok(roles) => permission_roles(self@) == Ok::<Seq<RoleView>, ErrorView>(
                    crate::error::views(roles@),
                ),
                Err(error) => permission_roles(self@) == Err::<Seq<RoleView>, ErrorView>(error@),
            },
    {
        let n: usize = self.operations.len();
        if n == 0 {
            return Err(refuse("permission requires at least one operation"));
        }
        let mut admin = false;
        let mut i: usize = 0;
        while i < n
            invariant
                i <= n,
                n == self.operations.len(),
                n > 0,
                admin == self.operations@.take(i as int).contains(PermissionOperation::Admin),
                self.operations@.take(i as int).no_duplicates(),
            decreases n - i,
        {
            let mut j: usize = 0;
            while j < i
                invariant
                    j <= i < n,
                    n == self.operations.len(),
                    forall|k: int| 0 <= k < j ==> self.operations@[k] != self.operations@[i as int],
                    n > 0,
                decreases i - j,
            {
                if self.operations[j] == self.operations[i] {
                    assert(!self.operations@.no_duplicates());
                    return Err(refuse("permission operations must not contain duplicates"));
                }
                j += 1;
            }
            proof {
                let before = self.operations@.take(i as int);
                let after = self.operations@.take(i + 1);
                let last = self.operations@[i as int];
                assert(after =~= before.push(last));
                assert(after.no_duplicates());
                if last == PermissionOperation::Admin {
                    assert(after[i as int] == PermissionOperation::Admin);
                }
                if before.contains(PermissionOperation::Admin) {
                    let k = choose|k: int|
                        0 <= k < before.len() && before[k] == PermissionOperation::Admin;
                    assert(after[k] == PermissionOperation::Admin);
                }
                if after.contains(PermissionOperation::Admin) && last
                    != PermissionOperation::Admin {
                    let k = choose|k: int|
                        0 <= k < after.len() && after[k] == PermissionOperation::Admin;
                    assert(before[k] == PermissionOperation::Admin);
                }
            }
            if self.operations[i] == PermissionOperation::Admin {
                admin = true;
            }
            i += 1;
        }
        assert(self.operations@.take(n as int) =~= self.operations@);
        if admin {
            if n != 1 {
                return Err(
                    refuse("admin permission must not be combined with other operations"),
                );
            }
            if self.namespace.is_some() {
                return Err(refuse("admin permission must not include a namespace"));
            }
            let roles: Vec<Role> = vec![Role::Admin];
            assert(crate::error::views(roles@) =~= seq![RoleView::Admin]);
            return Ok(roles);
        }
        let namespace = match &self.namespace {
            Some(namespace) => namespace,
            None => {
                return Err(refuse("permission operations require a namespace"));
            },
        };
        if text::is_blank(namespace.as_str()) {
            return Err(refuse("permission operations require a namespace"));
        }
        let ghost target = self.operations@.map_values(
            |operation: PermissionOperation| operation_role(operation, namespace@),
        );
        let mut roles: Vec<Role> = Vec::new();
        let mut k: usize = 0;
        while k < n
            invariant
                k <= n,
                n == self.operations.len(),
                target == self.operations@.map_values(
                    |operation: PermissionOperation| operation_role(operation, namespace@),
                ),
                crate::error::views(roles@) == target.take(k as int),
            decreases n - k,
        {
            let ghost before = crate::error::views(roles@);
            let role = match self.operations[k] {
                PermissionOperation::Read => Role::Read(namespace.clone()),
                PermissionOperation::Write => Role::Write(namespace.clone()),
                PermissionOperation::ReadEncrypted => Role::ReadEncrypted(namespace.clone()),
                PermissionOperation::WriteEncrypted => Role::WriteEncrypted(namespace.clone()),
                PermissionOperation::Admin => Role::Admin,
            };
            roles.push(role);
            assert(crate::error::views(roles@) =~= before.push(role@));
            assert(target.take(k + 1) =~= before.push(target[k as int]));
            k += 1;
        }
        assert(target.take(n as int) =~= target);
        Ok(roles)
    }
}

proof fn lemma_operation_count(permissions: Seq<PermissionView>, i: int)
    requires
        0 <= i <= permissions.len(),
    ensures
        operation_count(permissions.take(i)) <= operation_count(permissions),
    decreases permissions.len(),
{
    if i < permissions.len() {
        lemma_operation_count(permissions.drop_last(), i);
        assert(permissions.drop_last().take(i) =~= permissions.take(i));
    } else {
        assert(permissions.take(i) =~= permissions);
    }
}

impl AuthRecord {
    /// Whether the record lists more than a principal may have.
    fn too_many(&self) -> (r: bool)
        ensures
            r == (self@.permissions.len() > MAX_AUTH_PERMISSIONS || self@.roles.len()
                + operation_count(self@.permissions) > MAX_AUTH_PERMISSIONS),
    {
        let ghost all = self@.permissions;
        if self.permissions.len() > MAX_AUTH_PERMISSIONS || self.roles.len()
            > MAX_AUTH_PERMISSIONS {
            return true;
        }
        let mut count: usize = self.roles.len();
        let mut i: usize = 0;
        assert(all.take(0) =~= Seq::<PermissionView>::empty());
        while i < self.permissions.len()
            invariant
                i <= self.permissions.len(),
                all == self@.permissions,
                count == self.roles.len() + operation_count(all.take(i as int)),
                count <= MAX_AUTH_PERMISSIONS,
            decreases self.permissions.len() - i,
        {
            let more: usize = self.permissions[i].operations.len();
            proof {
                let upto = all.take(i + 1);
                assert(upto.drop_last() =~= all.take(i as int));
                assert(upto.last() == self.permissions@[i as int]@);
                lemma_operation_count(all, i + 1);
            }
            if more > MAX_AUTH_PERMISSIONS - count {
                return true;
            }
            count += more;
            i += 1;
        }
        assert(all.take(all.len() as int) =~= all);
        false
    }

    /// The principal that the record describes, authenticated at `now`.
    pub fn into_info(&self, api_key: &str, now: u128) -> (r: Result<AuthInfo, Error>)
        ensures
            crate::error::outcome(r) == record_info(self@, api_key@, now as nat),
    {
        if text::is_blank(self.client_id.as_str()) {
            return Err(refuse("client_id is required"));
        }
        if text::is_blank(self.name.as_str()) {
            return Err(refuse("name is required"));
        }
        if !self.enabled {
            return Err(Error::AuthenticationFailed);
        }
        if self.too_many() {
            return Err(refuse("too many permissions"));
        }
        let ghost all = self@.permissions;
        let mut roles = clone_roles(&self.roles);
        let mut i: usize = 0;
        let ghost own = crate::error::views(self.roles@);
        assert(granted_roles(all, 0) matches Ok(rest) ==> own + rest =~= crate::error::views(roles@)
            + rest);
        while i < self.permissions.len()
            invariant
                i <= self.permissions.len(),
                all == self@.permissions,
                own == self@.roles,
                text::trim(self@.client_id).len() != 0,
                text::trim(self@.name).len() != 0,
                self@.enabled,
                !(all.len() > MAX_AUTH_PERMISSIONS || own.len() + operation_count(all)
                    > MAX_AUTH_PERMISSIONS),
                match granted_roles(all, i as int) {
                    Ok(rest) => granted_roles(all, 0) is Ok && own + granted_roles(all, 0)->Ok_0
                        == crate::error::views(roles@) + rest,
                    Err(error) => granted_roles(all, 0) == Err::<Seq<RoleView>, ErrorView>(error),
                },
            decreases self.permissions.len() - i,
        {
            let ghost before = crate::error::views(roles@);
            assert(all[i as int] == self.permissions@[i as int]@);
            match self.permissions[i].into_roles() {
                Err(error) => {
                    return Err(error);
                },
                Ok(more) => {
                    let ghost first = crate::error::views(more@);
                    let mut more = more;
                    roles.append(&mut more);
                    assert(crate::error::views(roles@) =~= before + first);
                    proof {
                        if let Ok(rest) = granted_roles(all, i + 1) {
                            assert(before + (first + rest) =~= (before + first) + rest);
                        }
                    }
                },
            }
            i += 1;
        }
        assert(crate::error::views(roles@) + Seq::<RoleView>::empty() =~= crate::error::views(
            roles@,
        ));
        Ok(
            AuthInfo {
                api_key: api_key.to_owned(),
                client_id: self.client_id.clone(),
                roles,
                source: AuthSource::Registry,
                authenticated_at: now,
            },
        )
    }
}

/// A namespace pattern of a role covers a namespace: a trailing `*` means a
/// prefix, else the namespace itself and what is below it by `/` or `::`.
pub open spec fn permission_covers(pattern: Seq<char>, namespace: Seq<char>) -> bool {
    if pattern.len() > 0 && pattern.last() == '*' {
        pattern.drop_last().is_prefix_of(namespace)
    } else {
        &&& pattern.is_prefix_of(namespace)
        &&& {
            let rest = namespace.skip(pattern.len() as int);
            rest.len() == 0 || rest[0] == '/' || (rest.len() >= 2 && rest[0] == ':' && rest[1]
                == ':')
        }
    }
}

/// Whether a role's pattern covers a namespace.
pub fn namespace_permission_matches(pattern: &str, namespace: &str) -> (r: bool)
    ensures
        r == permission_covers(pattern@, namespace@),
{
    let p = text::chars_of(pattern);
    let n = text::chars_of(namespace);
    if p.len() > 0 && p[p.len() - 1] == '*' {
        let prefix = text::slice(&p, 0, p.len() - 1);
        assert(prefix@ =~= pattern@.drop_last());
        return text::starts_with(namespace, prefix.as_str());
    }
    if !text::stands_at(&n, &p, 0) {
        return false;
    }
    let k: usize = p.len();
    k == n.len() || n[k] == '/' || (n.len() - k >= 2 && n[k] == ':' && n[k + 1] == ':')
}

/// A role allows an operation on a namespace.
pub open spec fn role_grants(role: RoleView, namespace: Seq<char>, operation: Operation) -> bool {
    match role {
        RoleView::Admin => true,
        RoleView::Read(pattern) => operation == Operation::Read && permission_covers(
            pattern,
            namespace,
        ),
        RoleView::Write(pattern) => (operation == Operation::Write || operation
            == Operation::Delete || operation == Operation::Provide || operation
            == Operation::Store) && permission_covers(pattern, namespace),
        RoleView::ReadEncrypted(pattern) => operation == Operation::ReadEncrypted
            && permission_covers(pattern, namespace),
        RoleView::WriteEncrypted(pattern) => operation == Operation::WriteEncrypted
            && permission_covers(pattern, namespace),
    }
}

fn role_allows(role: &Role, namespace: &str, operation: Operation) -> (r: bool)
    ensures
        r == role_grants(role@, namespace@, operation),
{
    match role {
        Role::Admin => true,
        Role::Read(pattern) => operation == Operation::Read && namespace_permission_matches(
            pattern.as_str(),
            namespace,
        ),
        Role::Write(pattern) => (operation == Operation::Write || operation == Operation::Delete
            || operation == Operation::Provide || operation == Operation::Store)
            && namespace_permission_matches(pattern.as_str(), namespace),
        Role::ReadEncrypted(pattern) => operation == Operation::ReadEncrypted
            && namespace_permission_matches(pattern.as_str(), namespace),
        Role::WriteEncrypted(pattern) => operation == Operation::WriteEncrypted
            && namespace_permission_matches(pattern.as_str(), namespace),
    }
}

/// Tells the principal of an API key.
pub trait ApiKeyAuthenticator {
    fn authenticate(&self, api_key: &str, now: u128) -> Result<AuthInfo, Error>;
}

/// What authentication answers on the record that was found.
pub open spec fn authenticated_record(
    record: Option<AuthRecordView>,
    api_key: Seq<char>,
    now: nat,
) -> Result<AuthInfoView, ErrorView> {
    match record {
        Some(record) => record_info(record, api_key, now),
        None => Err(ErrorView::AuthenticationFailed),
    }
}

/// Authenticates against the records of a store. The caller reads the record of
/// the key from `/__auth` and hands it over.
pub struct StoreAuthenticator<S> {
    store: S,
}

impl<S> StoreAuthenticator<S> {
    /// The store.
    pub closed spec fn spec_store(&self) -> S {
        self.store
    }

    /// An authenticator on a store.
    pub fn new(store: S) -> (r: Self)
        ensures
            r.spec_store() == store,
    {
        StoreAuthenticator { store }
    }

    /// The store.
    pub fn store(&self) -> (r: &S)
        ensures
            *r == self.spec_store(),
    {
        &self.store
    }

    /// The principal of the record that the store holds for the key.
    pub fn decide(&self, record: Option<&AuthRecord>, api_key: &str, now: u128) -> (r: Result<
        AuthInfo,
        Error,
    >)
        ensures
            crate::error::outcome(r) == authenticated_record(
                match record {
                    Some(record) => Some(record@),
                    None => None,
                },
                api_key@,
                now as nat,
            ),
    {
        match record {
            Some(record) => record.into_info(api_key, now),
            None => Err(Error::AuthenticationFailed),
        }
    }
}

/// Authenticates against a fixed set of records.
pub struct SimpleAuthenticator {
    records: Table<AuthRecord>,
}

impl View for SimpleAuthenticator {
    type V = Map<Seq<char>, AuthRecordView>;

    closed spec fn view(&self) -> Map<Seq<char>, AuthRecordView> {
        self.records@.map_values(|record: AuthRecord| record@)
    }
}

impl SimpleAuthenticator {
    /// An authenticator on the records.
    pub fn new(records: Table<AuthRecord>) -> (r: Self)
        ensures
            r@ == records@.map_values(|record: AuthRecord| record@),
    {
        SimpleAuthenticator { records }
    }
}

impl ApiKeyAuthenticator for SimpleAuthenticator {
    fn authenticate(&self, api_key: &str, now: u128) -> (r: Result<AuthInfo, Error>)
        ensures
            crate::error::outcome(r) == authenticated_record(
                if self@.dom().contains(api_key@) {
                    Some(self@[api_key@])
                } else {
                    None
                },
                api_key@,
                now as nat,
            ),
    {
        match self.records.get(api_key) {
            Some(record) => record.into_info(api_key, now),
            None => Err(Error::AuthenticationFailed),
        }
    }
}

/// What is known of an API key.
#[derive(Debug)]
pub enum AuthLookup {
    Authenticated(AuthInfo),
    Pending,
    Rejected,
}

/// An [`AuthLookup`] as a mathematical value.
#[verifier::ext_equal]
pub enum AuthLookupView {
    Authenticated(AuthInfoView),
    Pending,
    Rejected,
}

impl View for AuthLookup {
    type V = AuthLookupView;

    open spec fn view(&self) -> AuthLookupView {
        match self {
            AuthLookup::Authenticated(info) => AuthLookupView::Authenticated(info@),
            AuthLookup::Pending => AuthLookupView::Pending,
            AuthLookup::Rejected => AuthLookupView::Rejected,
        }
    }
}

/// What the session cache holds of an API key.
#[derive(Debug)]
enum AuthCacheEntry {
    Loading { store_loading: bool, dispatched: bool },
    Ready { info: AuthInfo, expires_at: u128, scheduled: bool, loading: bool },
    Rejected { expires_at: u128 },
}

/// What the session cache holds of an API key, as a mathematical value.
#[verifier::ext_equal]
pub enum AuthEntryView {
    Loading { store_loading: bool, dispatched: bool },
    Ready { info: AuthInfoView, expires_at: nat, scheduled: bool, loading: bool },
    Rejected { expires_at: nat },
}

impl View for AuthCacheEntry {
    type V = AuthEntryView;

    closed spec fn view(&self) -> AuthEntryView {
        match self {
            AuthCacheEntry::Loading { store_loading, dispatched } => AuthEntryView::Loading {
                store_loading: *store_loading,
                dispatched: *dispatched,
            },
            AuthCacheEntry::Ready { info, expires_at, scheduled, loading } => AuthEntryView::Ready {
                info: info@,
                expires_at: *expires_at as nat,
                scheduled: *scheduled,
                loading: *loading,
            },
            AuthCacheEntry::Rejected { expires_at } => AuthEntryView::Rejected {
                expires_at: *expires_at as nat,
            },
        }
    }
}

/// The sessions of API keys and the key of the configured administrator.
pub struct AuthManager {
    bootstrap_key: Option<String>,
    timeout: Duration,
    cache: Table<AuthCacheEntry>,
}

/// An [`AuthManager`] as a mathematical value.
#[verifier::ext_equal]
pub struct AuthState {
    pub bootstrap_key: Option<Seq<char>>,
    pub timeout: nat,
    pub cache: Map<Seq<char>, AuthEntryView>,
}

impl View for AuthManager {
    type V = AuthState;

    closed spec fn view(&self) -> AuthState {
        AuthState {
            bootstrap_key: crate::error::inner(self.bootstrap_key),
            timeout: self.timeout@,
            cache: self.cache@.map_values(|entry: AuthCacheEntry| entry@),
        }
    }
}

/// The time from `then` to `now`, none if `then` is later.
pub open spec fn elapsed(then: nat, now: nat) -> nat {
    if then <= now {
        (now - then) as nat
    } else {
        0
    }
}

impl AuthState {
    /// The principal of the configured administrator.
    pub open spec fn bootstrap_info(self, api_key: Seq<char>, now: nat) -> AuthInfoView {
        AuthInfoView {
            api_key,
            client_id: "bootstrap-admin"@,
            roles: seq![RoleView::Admin],
            source: AuthSource::BootstrapAdmin,
            authenticated_at: now,
        }
    }

    /// What the cache holds of a key.
    pub open spec fn entry(self, api_key: Seq<char>) -> Option<AuthEntryView> {
        if self.cache.dom().contains(api_key) {
            Some(self.cache[api_key])
        } else {
            None
        }
    }

    /// The state with another entry for a key.
    pub open spec fn with_entry(self, api_key: Seq<char>, entry: AuthEntryView) -> AuthState {
        AuthState { cache: self.cache.insert(api_key, entry), ..self }
    }

    /// The state without an entry for a key.
    pub open spec fn without_entry(self, api_key: Seq<char>) -> AuthState {
        AuthState { cache: self.cache.remove(api_key), ..self }
    }

    /// What authenticating a key answers.
    pub open spec fn lookup(self, api_key: Seq<char>, now: nat) -> AuthLookupView {
        if self.bootstrap_key == Some(api_key) {
            AuthLookupView::Authenticated(self.bootstrap_info(api_key, now))
        } else {
            match self.entry(api_key) {
                Some(AuthEntryView::Ready { info, expires_at, .. }) => if expires_at > now {
                    AuthLookupView::Authenticated(info)
                } else {
                    AuthLookupView::Pending
                },
                Some(AuthEntryView::Rejected { expires_at }) => if expires_at > now {
                    AuthLookupView::Rejected
                } else {
                    AuthLookupView::Pending
                },
                _ => AuthLookupView::Pending,
            }
        }
    }

    /// The state after authenticating a key: a session that has passed half its
    /// time is scheduled for a refresh, and a key without a live entry is being
    /// loaded.
    pub open spec fn after_lookup(self, api_key: Seq<char>, now: nat) -> AuthState {
        let fresh = AuthEntryView::Loading { store_loading: false, dispatched: false };
        if self.bootstrap_key == Some(api_key) {
            self
        } else {
            match self.entry(api_key) {
                Some(AuthEntryView::Ready { info, expires_at, scheduled, loading }) => if expires_at
                    > now {
                    if !loading && elapsed(info.authenticated_at, now) >= self.timeout / 2 {
                        self.with_entry(
                            api_key,
                            AuthEntryView::Ready { info, expires_at, scheduled: true, loading },
                        )
                    } else {
                        self
                    }
                } else {
                    self.with_entry(api_key, fresh)
                },
                Some(AuthEntryView::Loading { .. }) => self,
                Some(AuthEntryView::Rejected { expires_at }) => if expires_at > now {
                    self
                } else {
                    self.with_entry(api_key, fresh)
                },
                None => self.with_entry(api_key, fresh),
            }
        }
    }

    /// The entry that claims the load from the store, if it is not claimed.
    pub open spec fn store_claim(self, api_key: Seq<char>) -> Option<AuthEntryView> {
        match self.entry(api_key) {
            Some(AuthEntryView::Loading { store_loading: false, dispatched }) => Some(
                AuthEntryView::Loading { store_loading: true, dispatched },
            ),
            _ => None,
        }
    }

    /// The entry that claims the load from a provider, if one is due.
    pub open spec fn provider_claim(self, api_key: Seq<char>) -> Option<AuthEntryView> {
        match self.entry(api_key) {
            Some(AuthEntryView::Loading { store_loading, dispatched: false }) => Some(
                AuthEntryView::Loading { store_loading, dispatched: true },
            ),
            Some(AuthEntryView::Ready { info, expires_at, scheduled: true, loading: false }) => Some(
                AuthEntryView::Ready { info, expires_at, scheduled: false, loading: true },
            ),
            _ => None,
        }
    }

    /// The entry that schedules a refresh, if the session is live and none is
    /// scheduled or running.
    pub open spec fn refresh_claim(self, api_key: Seq<char>, now: nat) -> Option<AuthEntryView> {
        match self.entry(api_key) {
            Some(AuthEntryView::Ready { info, expires_at, scheduled: false, loading: false }) =>
            if expires_at > now {
                Some(AuthEntryView::Ready { info, expires_at, scheduled: true, loading: false })
            } else {
                None
            },
            _ => None,
        }
    }

    /// The state with a claim taken, if there is one.
    pub open spec fn claiming(self, api_key: Seq<char>, claim: Option<AuthEntryView>) -> AuthState {
        match claim {
            Some(entry) => self.with_entry(api_key, entry),
            None => self,
        }
    }

    /// The state after a load failed: a session ends, any other key is rejected
    /// for the session time.
    pub open spec fn after_failure(self, api_key: Seq<char>, now: nat) -> AuthState {
        if self.entry(api_key) is Some && self.entry(api_key)->0 is Ready {
            self.without_entry(api_key)
        } else {
            self.with_entry(
                api_key,
                AuthEntryView::Rejected { expires_at: now + self.timeout },
            )
        }
    }

    /// The state after a load brought a record: a new session where the record
    /// is in order.
    pub open spec fn after_load(
        self,
        api_key: Seq<char>,
        record: Option<AuthRecordView>,
        now: nat,
    ) -> AuthState {
        match authenticated_record(record, api_key, now) {
            Ok(info) => self.with_entry(
                api_key,
                AuthEntryView::Ready {
                    info,
                    expires_at: now + self.timeout,
                    scheduled: false,
                    loading: false,
                },
            ),
            Err(_) => self.after_failure(api_key, now),
        }
    }

    /// The time until a session that a record begins is refreshed, where it begins one.
    pub open spec fn refresh_delay(
        self,
        api_key: Seq<char>,
        record: Option<AuthRecordView>,
        now: nat,
    ) -> Option<nat> {
        if authenticated_record(record, api_key, now) is Ok {
            Some(self.timeout / 2)
        } else {
            None
        }
    }

    /// A principal may perform an operation on a namespace.
    pub open spec fn allows(
        self,
        auth: AuthInfoView,
        namespace: Seq<char>,
        operation: Operation,
        now: nat,
    ) -> bool {
        ||| auth.source == AuthSource::BootstrapAdmin
        ||| match self.entry(auth.api_key) {
            Some(AuthEntryView::Ready { info, expires_at, .. }) => expires_at > now && exists|
                i: int,
            |
                0 <= i < info.roles.len() && role_grants(
                    #[trigger] info.roles[i],
                    namespace,
                    operation,
                ),
            _ => false,
        }
    }
}

/// The records of an option as mathematical values.
pub open spec fn record_view(record: Option<AuthRecord>) -> Option<AuthRecordView> {
    match record {
        Some(record) => Some(record@),
        None => None,
    }
}

impl AuthManager {
    /// Sessions of an hour and no configured administrator.
    pub fn new<A: ApiKeyAuthenticator>(authenticator: &A) -> (r: Self)
        ensures
            r@ == (AuthState {
                bootstrap_key: None,
                timeout: 3_600_000_000_000,
                cache: Map::empty(),
            }),
    {
        AuthManager::with_bootstrap_admin(authenticator, None, Duration::from_secs(3600))
    }

    /// Sessions of the given time, and the key of the administrator if one is
    /// configured.
    pub fn with_bootstrap_admin<A: ApiKeyAuthenticator>(
        _authenticator: &A,
        bootstrap_key: Option<String>,
        timeout: Duration,
    ) -> (r: Self)
        ensures
            r@ == (AuthState {
                bootstrap_key: crate::error::inner(bootstrap_key),
                timeout: timeout@,
                cache: Map::empty(),
            }),
    {
        let r = AuthManager { bootstrap_key, timeout, cache: Table::new() };
        assert(r@.cache =~= Map::<Seq<char>, AuthEntryView>::empty());
        r
    }

    fn put(&mut self, api_key: &str, entry: AuthCacheEntry)
        ensures
            final(self)@ == old(self)@.with_entry(api_key@, entry@),
    {
        let ghost before = self.cache@;
        self.cache.insert(api_key.to_owned(), entry);
        assert(self@.cache =~= before.map_values(|entry: AuthCacheEntry| entry@).insert(
            api_key@,
            entry@,
        ));
    }

    fn take(&mut self, api_key: &str)
        ensures
            final(self)@ == old(self)@.without_entry(api_key@),
    {
        let ghost before = self.cache@;
        let _ = self.cache.remove(api_key);
        assert(self@.cache =~= before.map_values(|entry: AuthCacheEntry| entry@).remove(api_key@));
    }

    fn is_bootstrap(&self, api_key: &str) -> (r: bool)
        ensures
            r == (self@.bootstrap_key == Some(api_key@)),
    {
        match &self.bootstrap_key {
            Some(key) => crypto::same_secret(api_key, key.as_str()),
            None => false,
        }
    }

    /// What is known of an API key. A key of which nothing is known is marked as
    /// being loaded.
    pub fn authenticate(&mut self, api_key: &str, now: u128) -> (r: AuthLookup)
        ensures
            r@ == old(self)@.lookup(api_key@, now as nat),
            final(self)@ == old(self)@.after_lookup(api_key@, now as nat),
    {
        if self.is_bootstrap(api_key) {
            let roles: Vec<Role> = vec![Role::Admin];
            assert(crate::error::views(roles@) =~= seq![RoleView::Admin]);
            return AuthLookup::Authenticated(
                AuthInfo {
                    api_key: api_key.to_owned(),
                    client_id: "bootstrap-admin".to_owned(),
                    roles,
                    source: AuthSource::BootstrapAdmin,
                    authenticated_at: now,
                },
            );
        }
        let half: u128 = self.timeout.as_nanos() / 2;
        let (lookup, next) = match self.cache.get(api_key) {
            Some(AuthCacheEntry::Ready { info, expires_at, scheduled, loading }) => {
                if *expires_at > now {
                    let age: u128 = if info.authenticated_at <= now {
                        now - info.authenticated_at
                    } else {
                        0
                    };
                    let next = if !*loading && age >= half {
                        Some(
                            AuthCacheEntry::Ready {
                                info: info.clone(),
                                expires_at: *expires_at,
                                scheduled: true,
                                loading: *loading,
                            },
                        )
                    } else {
                        None
                    };
                    (AuthLookup::Authenticated(info.clone()), next)
                } else {
                    (
                        AuthLookup::Pending,
                        Some(AuthCacheEntry::Loading { store_loading: false, dispatched: false }),
                    )
                }
            },
            Some(AuthCacheEntry::Loading { .. }) => (AuthLookup::Pending, None),
            Some(AuthCacheEntry::Rejected { expires_at }) => {
                if *expires_at > now {
                    (AuthLookup::Rejected, None)
                } else {
                    (
                        AuthLookup::Pending,
                        Some(AuthCacheEntry::Loading { store_loading: false, dispatched: false }),
                    )
                }
            },
            None => (
                AuthLookup::Pending,
                Some(AuthCacheEntry::Loading { store_loading: false, dispatched: false }),
            ),
        };
        if let Some(entry) = next {
            self.put(api_key, entry);
        }
        lookup
    }

    /// Claims the load of a key from the store; only one caller gets it.
    pub fn take_store_load(&mut self, api_key: &str) -> (r: bool)
        ensures
            r == (old(self)@.store_claim(api_key@) is Some),
            final(self)@ == old(self)@.claiming(api_key@, old(self)@.store_claim(api_key@)),
    {
        let next = match self.cache.get(api_key) {
            Some(AuthCacheEntry::Loading { store_loading, dispatched }) => if *store_loading {
                None
            } else {
                Some(AuthCacheEntry::Loading { store_loading: true, dispatched: *dispatched })
            },
            _ => None,
        };
        match next {
            Some(entry) => {
                self.put(api_key, entry);
                true
            },
            None => false,
        }
    }

    /// Claims the load of a key from a provider; only one caller gets it.
    pub fn take_scheduled_load(&mut self, api_key: &str) -> (r: bool)
        ensures
            r == (old(self)@.provider_claim(api_key@) is Some),
            final(self)@ == old(self)@.claiming(api_key@, old(self)@.provider_claim(api_key@)),
    {
        let next = match self.cache.get(api_key) {
            Some(AuthCacheEntry::Loading { store_loading, dispatched }) => if *dispatched {
                None
            } else {
                Some(AuthCacheEntry::Loading { store_loading: *store_loading, dispatched: true })
            },
            Some(AuthCacheEntry::Ready { info, expires_at, scheduled, loading }) => if *scheduled
                && !*loading {
                Some(
                    AuthCacheEntry::Ready {
                        info: info.clone(),
                        expires_at: *expires_at,
                        scheduled: false,
                        loading: true,
                    },
                )
            } else {
                None
            },
            _ => None,
        };
        match next {
            Some(entry) => {
                self.put(api_key, entry);
                true
            },
            None => false,
        }
    }

    /// Schedules the refresh of a live session; only one caller does.
    pub fn schedule_refresh(&mut self, api_key: &str, now: u128) -> (r: bool)
        ensures
            r == (old(self)@.refresh_claim(api_key@, now as nat) is Some),
            final(self)@ == old(self)@.claiming(
                api_key@,
                old(self)@.refresh_claim(api_key@, now as nat),
            ),
    {
        let next = match self.cache.get(api_key) {
            Some(AuthCacheEntry::Ready { info, expires_at, scheduled, loading }) => if *expires_at
                <= now || *loading || *scheduled {
                None
            } else {
                Some(
                    AuthCacheEntry::Ready {
                        info: info.clone(),
                        expires_at: *expires_at,
                        scheduled: true,
                        loading: false,
                    },
                )
            },
            _ => None,
        };
        match next {
            Some(entry) => {
                self.put(api_key, entry);
                true
            },
            None => false,
        }
    }

    /// Ends a load that a provider answered. Where a session came of it, the
    /// result is the time after which it should be refreshed.
    pub fn complete_provider_load(
        &mut self,
        api_key: &str,
        record: Option<AuthRecord>,
        now: u128,
    ) -> (r: Option<Duration>)
        requires
            now + old(self)@.timeout <= u128::MAX,
        ensures
            crate::error::inner(r) == old(self)@.refresh_delay(
                api_key@,
                record_view(record),
                now as nat,
            ),
            final(self)@ == old(self)@.after_load(api_key@, record_view(record), now as nat),
    {
        let half = self.timeout.half();
        if self.complete_load(api_key, record, now) {
            Some(half)
        } else {
            None
        }
    }

    /// Ends a load that the store answered.
    pub fn complete_store_load(&mut self, api_key: &str, record: Option<AuthRecord>, now: u128) -> (r:
        AuthLookup)
        requires
            now + old(self)@.timeout <= u128::MAX,
        ensures
            ({
                let loaded = old(self)@.after_load(api_key@, record_view(record), now as nat);
                &&& r@ == loaded.lookup(api_key@, now as nat)
                &&& final(self)@ == loaded.after_lookup(api_key@, now as nat)
            }),
    {
        let _ = self.complete_load(api_key, record, now);
        self.authenticate(api_key, now)
    }

    /// Replaces the cached principal after its `/__auth` record has committed.
    pub fn replace_auth_record(&mut self, api_key: &str, record: Option<AuthRecord>, now: u128)
        requires
            now + old(self)@.timeout <= u128::MAX,
        ensures
            final(self)@ == old(self)@.after_load(api_key@, record_view(record), now as nat),
    {
        let _ = self.complete_load(api_key, record, now);
    }

    fn complete_load(&mut self, api_key: &str, record: Option<AuthRecord>, now: u128) -> (r: bool)
        requires
            now + old(self)@.timeout <= u128::MAX,
        ensures
            r == (authenticated_record(record_view(record), api_key@, now as nat) is Ok),
            final(self)@ == old(self)@.after_load(api_key@, record_view(record), now as nat),
    {
        let info = match record {
            Some(record) => record.into_info(api_key, now),
            None => Err(Error::AuthenticationFailed),
        };
        match info {
            Ok(info) => {
                let expires_at: u128 = now + self.timeout.as_nanos();
                self.put(
                    api_key,
                    AuthCacheEntry::Ready { info, expires_at, scheduled: false, loading: false },
                );
                true
            },
            Err(_) => {
                self.fail_provider_load(api_key, now);
                false
            },
        }
    }

    /// Ends a load that failed: a session ends, any other key is rejected for
    /// the session time.
    pub fn fail_provider_load(&mut self, api_key: &str, now: u128)
        requires
            now + old(self)@.timeout <= u128::MAX,
        ensures
            final(self)@ == old(self)@.after_failure(api_key@, now as nat),
    {
        let ready = match self.cache.get(api_key) {
            Some(AuthCacheEntry::Ready { .. }) => true,
            _ => false,
        };
        if ready {
            self.take(api_key);
        } else {
            let expires_at: u128 = now + self.timeout.as_nanos();
            self.put(api_key, AuthCacheEntry::Rejected { expires_at });
        }
    }

    /// Whether a principal may perform an operation on a namespace.
    pub fn authorize(
        &self,
        auth: &AuthInfo,
        namespace: &NamespaceContext,
        operation: Operation,
        now: u128,
    ) -> (r: Result<(), Error>)
        ensures
            crate::error::outcome(r) == (if self@.allows(
                auth@,
                namespace@,
                operation,
                now as nat,
            ) {
                Ok::<(), ErrorView>(())
            } else {
                Err(ErrorView::PermissionDenied(namespace@))
            }),
    {
        if auth.is_bootstrap_admin() {
            return Ok(());
        }
        let denied = Error::PermissionDenied(namespace.as_str().to_owned());
        match self.cache.get(auth.api_key.as_str()) {
            Some(AuthCacheEntry::Ready { info, expires_at, .. }) => {
                if *expires_at <= now {
                    return Err(denied);
                }
                let ghost roles = info@.roles;
                let mut i: usize = 0;
                while i < info.roles.len()
                    invariant
                        i <= info.roles.len(),
                        roles == info@.roles,
                        expires_at > now,
                        self@.entry(auth@.api_key) matches Some(
                            AuthEntryView::Ready { info: known, expires_at: until, .. },
                        ) && known == info@ && until == expires_at,
                        auth@.source != AuthSource::BootstrapAdmin,
                        forall|j: int|
                            0 <= j < i ==> !role_grants(#[trigger] roles[j], namespace@, operation),
                        denied@ == ErrorView::PermissionDenied(namespace@),
                    decreases info.roles.len() - i,
                {
                    assert(roles[i as int] == info.roles@[i as int]@);
                    if role_allows(&info.roles[i], namespace.as_str(), operation) {
                        return Ok(());
                    }
                    i += 1;
                }
                Err(denied)
            },
            _ => Err(denied),
        }
    }

    /// Forgets the session of a key.
    pub fn disconnect(&mut self, api_key: &str)
        ensures
            final(self)@ == old(self)@.without_entry(api_key@),
    {
        self.take(api_key);
    }

    /// The time that a session lasts.
    pub fn session_timeout(&self) -> (r: Duration)
        ensures
            r@ == self@.timeout,
    {
        self.timeout
    }
}

/// Of the callers that ask to load a key from the store, one gets the load: once
/// claimed, no second claim succeeds until the entry changes.
pub proof fn store_load_is_claimed_once(state: AuthState, api_key: Seq<char>)
    requires
        state.store_claim(api_key) is Some,
    ensures
        state.claiming(api_key, state.store_claim(api_key)).store_claim(api_key) is None,
{
}

/// Of the callers that ask to load a key from a provider, one gets the load.
pub proof fn provider_load_is_claimed_once(state: AuthState, api_key: Seq<char>)
    requires
        state.provider_claim(api_key) is Some,
    ensures
        state.claiming(api_key, state.provider_claim(api_key)).provider_claim(api_key) is None,
{
}

/// A key that is being loaded stays pending, and authenticating it again starts
/// no second load.
pub proof fn pending_keys_stay_pending(state: AuthState, api_key: Seq<char>, now: nat)
    requires
        state.bootstrap_key != Some(api_key),
        state.entry(api_key) is Some,
        state.entry(api_key)->0 is Loading,
    ensures
        state.lookup(api_key, now) == AuthLookupView::Pending,
        state.after_lookup(api_key, now) == state,
{
}

/// A session whose refresh fails ends: its principal is no longer allowed
/// anything, and its key is pending again.
pub proof fn failed_refresh_revokes(
    state: AuthState,
    auth: AuthInfoView,
    namespace: Seq<char>,
    operation: Operation,
    now: nat,
    later: nat,
)
    requires
        auth.source == AuthSource::Registry,
        state.entry(auth.api_key) is Some,
        state.entry(auth.api_key)->0 is Ready,
        state.bootstrap_key != Some(auth.api_key),
    ensures
        !state.after_failure(auth.api_key, now).allows(auth, namespace, operation, later),
        state.after_failure(auth.api_key, now).lookup(auth.api_key, later)
            == AuthLookupView::Pending,
{
}

/// A principal whose session has expired is not allowed anything.
pub proof fn expired_sessions_allow_nothing(
    state: AuthState,
    auth: AuthInfoView,
    namespace: Seq<char>,
    operation: Operation,
    now: nat,
)
    requires
        auth.source == AuthSource::Registry,
        state.entry(auth.api_key) matches Some(AuthEntryView::Ready { expires_at, .. })
            && expires_at <= now,
    ensures
        !state.allows(auth, namespace, operation, now),
{
}

/// A call that changes the sessions, with its arguments.
#[verifier::ext_equal]
pub enum AuthCall {
    Authenticate { api_key: Seq<char>, now: nat },
    TakeStoreLoad { api_key: Seq<char> },
    TakeScheduledLoad { api_key: Seq<char> },
    ScheduleRefresh { api_key: Seq<char>, now: nat },
    CompleteProviderLoad { api_key: Seq<char>, record: Option<AuthRecordView>, now: nat },
    CompleteStoreLoad { api_key: Seq<char>, record: Option<AuthRecordView>, now: nat },
    ReplaceAuthRecord { api_key: Seq<char>, record: Option<AuthRecordView>, now: nat },
    FailProviderLoad { api_key: Seq<char>, now: nat },
    Disconnect { api_key: Seq<char> },
}

impl AuthState {
    /// Every session comes from a record.
    pub open spec fn only_registered(self) -> bool {
        forall|api_key: Seq<char>|
            #![trigger self.cache[api_key]]
            self.cache.dom().contains(api_key) ==> match self.cache[api_key] {
                AuthEntryView::Ready { info, .. } => info.source == AuthSource::Registry
                    && info.api_key == api_key,
                _ => true,
            }
    }

    /// The state after a call.
    pub open spec fn after_call(self, call: AuthCall) -> AuthState {
        match call {
            AuthCall::Authenticate { api_key, now } => self.after_lookup(api_key, now),
            AuthCall::TakeStoreLoad { api_key } => self.claiming(
                api_key,
                self.store_claim(api_key),
            ),
            AuthCall::TakeScheduledLoad { api_key } => self.claiming(
                api_key,
                self.provider_claim(api_key),
            ),
            AuthCall::ScheduleRefresh { api_key, now } => self.claiming(
                api_key,
                self.refresh_claim(api_key, now),
            ),
            AuthCall::CompleteProviderLoad { api_key, record, now } => self.after_load(
                api_key,
                record,
                now,
            ),
            AuthCall::CompleteStoreLoad { api_key, record, now } => self.after_load(
                api_key,
                record,
                now,
            ).after_lookup(api_key, now),
            AuthCall::ReplaceAuthRecord { api_key, record, now } => self.after_load(
                api_key,
                record,
                now,
            ),
            AuthCall::FailProviderLoad { api_key, now } => self.after_failure(api_key, now),
            AuthCall::Disconnect { api_key } => self.without_entry(api_key),
        }
    }

    /// The state after calls, in order.
    pub open spec fn after_calls(self, calls: Seq<AuthCall>) -> AuthState
        decreases calls.len(),
    {
        if calls.len() == 0 {
            self
        } else {
            self.after_calls(calls.drop_last()).after_call(calls.last())
        }
    }
}

/// Each call keeps the key of the administrator and the session time, and leaves no
/// session that does not come from a record.
pub proof fn calls_keep_sessions_registered(state: AuthState, call: AuthCall)
    requires
        state.only_registered(),
    ensures
        state.after_call(call).only_registered(),
        state.after_call(call).bootstrap_key == state.bootstrap_key,
        state.after_call(call).timeout == state.timeout,
{
}

/// Whatever calls are made on a new manager, a key authenticates as the
/// administrator of the configuration if and only if it is the configured key, with
/// the one role of an administrator. No record of the store makes any other key one.
pub proof fn only_the_configured_key_is_the_administrator(
    bootstrap_key: Option<Seq<char>>,
    timeout: nat,
    calls: Seq<AuthCall>,
    api_key: Seq<char>,
    now: nat,
)
    ensures
        ({
            let start = AuthState { bootstrap_key, timeout, cache: Map::empty() };
            let state = start.after_calls(calls);
            &&& start.only_registered()
            &&& state.only_registered()
            &&& state.bootstrap_key == bootstrap_key
            &&& (state.lookup(api_key, now) matches AuthLookupView::Authenticated(info)
                && info.source == AuthSource::BootstrapAdmin) <==> bootstrap_key == Some(api_key)
            &&& bootstrap_key == Some(api_key) ==> state.lookup(api_key, now)
                == AuthLookupView::Authenticated(
                AuthInfoView {
                    api_key,
                    client_id: "bootstrap-admin"@,
                    roles: seq![RoleView::Admin],
                    source: AuthSource::BootstrapAdmin,
                    authenticated_at: now,
                },
            )
            &&& (state.lookup(api_key, now) matches AuthLookupView::Authenticated(info)
                ==> info.api_key == api_key)
        }),
    decreases calls.len(),
{
    let start = AuthState { bootstrap_key, timeout, cache: Map::empty() };
    if calls.len() > 0 {
        only_the_configured_key_is_the_administrator(
            bootstrap_key,
            timeout,
            calls.drop_last(),
            api_key,
            now,
        );
        calls_keep_sessions_registered(start.after_calls(calls.drop_last()), calls.last());
    }
}

/// A refused encryption or decryption.
pub open spec fn cipher_error<T>(message: Seq<char>) -> Result<T, ErrorView> {
    Err(ErrorView::Encryption(message))
}

/// The key that a hexadecimal text writes: 32 bytes.
pub open spec fn cipher_key(key_hex: Seq<char>) -> Result<Seq<u8>, ErrorView> {
    if !crypto::is_hex(key_hex) {
        cipher_error("key is not hexadecimal"@)
    } else if crypto::hex_bytes(key_hex).len() != 32 {
        cipher_error("key must be exactly 32 bytes encoded as hexadecimal"@)
    } else {
        Ok(crypto::hex_bytes(key_hex))
    }
}

/// The text that is authenticated along with a value: the base namespace and the
/// key, each on a line. Where the base namespace itself holds a line feed, a line
/// with its length stands before it, behind an empty one.
pub open spec fn associated_text(namespace: Seq<char>, key: Seq<char>) -> Seq<char> {
    let base = route::base_of(namespace);
    if base.contains('\n') {
        seq!['\n'] + text::decimal(base.len()) + seq!['\n'] + base + key
    } else {
        base + seq!['\n'] + key
    }
}

/// The bytes that are authenticated along with a value.
pub open spec fn associated(namespace: Seq<char>, key: Seq<char>) -> Seq<u8> {
    vstd::utf8::encode_utf8(associated_text(namespace, key))
}

/// The envelope of a nonce and a ciphertext.
pub open spec fn envelope(nonce: Seq<u8>, ciphertext: Seq<u8>) -> JsonView {
    JsonView::Object(
        seq![
            ("ciphertext"@, JsonView::Text(crypto::base64_text(ciphertext))),
            ("nonce"@, JsonView::Text(crypto::base64_text(nonce))),
            ("version"@, JsonView::Number(text::decimal(1))),
        ],
    )
}

/// The bytes that are encrypted for a value.
pub open spec fn plain_bytes(value: JsonView) -> Seq<u8> {
    vstd::utf8::encode_utf8(json::json_text(value))
}

/// The envelope of a value under a nonce, or why there is none.
pub open spec fn encrypted(
    key_hex: Seq<char>,
    namespace: Seq<char>,
    key: Seq<char>,
    value: JsonView,
    nonce: Seq<u8>,
) -> Result<JsonView, ErrorView> {
    match cipher_key(key_hex) {
        Err(error) => Err(error),
        Ok(secret) => match crypto::sealed(
            secret,
            nonce,
            plain_bytes(value),
            associated(namespace, key),
        ) {
            Some(ciphertext) => Ok(envelope(nonce, ciphertext)),
            None => cipher_error("encryption rejected the input"@),
        },
    }
}

/// The bytes of a base64 text.
pub open spec fn base64_bytes(text: Seq<char>) -> Option<Seq<u8>> {
    if exists|bytes: Seq<u8>| text == #[trigger] crypto::base64_text(bytes) {
        Some(choose|bytes: Seq<u8>| text == #[trigger] crypto::base64_text(bytes))
    } else {
        None
    }
}

/// The texts of the nonce and the ciphertext of an envelope.
pub open spec fn envelope_texts(value: JsonView) -> Result<(Seq<char>, Seq<char>), ErrorView> {
    match json::member(value, "nonce"@) {
        Some(JsonView::Text(nonce)) => match json::member(value, "ciphertext"@) {
            Some(JsonView::Text(ciphertext)) => {
                let version = match json::member(value, "version"@) {
                    Some(version) => json::unsigned(version),
                    None => None,
                };
                if version == Some(1u64) {
                    Ok((nonce, ciphertext))
                } else {
                    cipher_error("unsupported envelope version"@)
                }
            },
            _ => cipher_error("missing ciphertext"@),
        },
        _ => cipher_error("missing nonce"@),
    }
}

/// The bytes that an envelope encrypts, or why it is refused.
pub open spec fn unsealed(
    key_hex: Seq<char>,
    namespace: Seq<char>,
    key: Seq<char>,
    value: JsonView,
) -> Result<Seq<u8>, ErrorView> {
    match cipher_key(key_hex) {
        Err(error) => Err(error),
        Ok(secret) => match envelope_texts(value) {
            Err(error) => Err(error),
            Ok((nonce_text, ciphertext_text)) => match base64_bytes(nonce_text) {
                None => cipher_error(crypto::base64_failure(nonce_text)),
                Some(nonce) => match base64_bytes(ciphertext_text) {
                    None => cipher_error(crypto::base64_failure(ciphertext_text)),
                    Some(ciphertext) => if nonce.len() != 24 {
                        cipher_error("decryption failed"@)
                    } else {
                        match crypto::opened(
                            secret,
                            nonce,
                            ciphertext,
                            associated(namespace, key),
                        ) {
                            None => cipher_error("decryption failed"@),
                            Some(plain) => Ok(plain),
                        }
                    },
                },
            },
        },
    }
}

/// The value that an envelope encrypts, or why it is refused.
pub open spec fn decrypted(
    key_hex: Seq<char>,
    namespace: Seq<char>,
    key: Seq<char>,
    value: JsonView,
) -> Result<JsonView, ErrorView> {
    match unsealed(key_hex, namespace, key, value) {
        Err(error) => Err(error),
        Ok(plain) => match json::read_bytes(plain) {
            Some(value) => Ok(value),
            None => cipher_error(json::read_failure(plain)),
        },
    }
}

/// An envelope holds a value for a key of a namespace: decrypting it there gives
/// the bytes of the value's text.
pub open spec fn holds(
    key_hex: Seq<char>,
    namespace: Seq<char>,
    key: Seq<char>,
    envelope: JsonView,
    value: JsonView,
) -> bool {
    unsealed(key_hex, namespace, key, envelope) == Ok::<Seq<u8>, ErrorView>(plain_bytes(value))
}

fn encryption_error(message: &str) -> (r: Error)
    ensures
        r@ == ErrorView::Encryption(message@),
{
    Error::Encryption(message.to_owned())
}

fn read_cipher_key(key_hex: &str) -> (r: Result<Vec<u8>, Error>)
    ensures
        crate::error::outcome(r) == cipher_key(key_hex@),
        r matches Ok(secret) ==> secret.len() == 32,
{
    match crypto::hex_decode(key_hex) {
        None => Err(encryption_error("key is not hexadecimal")),
        Some(bytes) => if bytes.len() != 32 {
            Err(encryption_error("key must be exactly 32 bytes encoded as hexadecimal"))
        } else {
            Ok(bytes)
        },
    }
}

fn holds_line_feed(chars: &Vec<char>) -> (r: bool)
    ensures
        r == chars@.contains('\n'),
{
    let mut i: usize = 0;
    while i < chars.len()
        invariant
            i <= chars.len(),
            forall|k: int| 0 <= k < i ==> #[trigger] chars@[k] != '\n',
        decreases chars.len() - i,
    {
        if chars[i] == '\n' {
            assert(chars@[i as int] == '\n');
            return true;
        }
        i += 1;
    }
    false
}

fn associated_bytes(namespace: &NamespaceContext, key: &Key) -> (r: Vec<u8>)
    ensures
        r@ == associated(namespace@, key@),
{
    let base = namespace.ns();
    let chars = text::chars_of(base);
    let mut text = String::new();
    if holds_line_feed(&chars) {
        let length = text::number(chars.len() as u128);
        text.push('\n');
        text.append(length.as_str());
        text.push('\n');
        text.append(base);
    } else {
        text.append(base);
        text.push('\n');
    }
    text.append(key.as_str());
    assert(text@ =~= associated_text(namespace@, key@));
    text::bytes_of(text.as_str())
}

proof fn lemma_base64_bytes(bytes: Seq<u8>)
    ensures
        base64_bytes(crypto::base64_text(bytes)) == Some(bytes),
{
    let text = crypto::base64_text(bytes);
    let found = choose|found: Seq<u8>| text == #[trigger] crypto::base64_text(found);
    crypto::base64_is_injective(found, bytes);
}

proof fn lemma_envelope_texts(nonce: Seq<u8>, ciphertext: Seq<u8>)
    ensures
        envelope_texts(envelope(nonce, ciphertext)) == Ok::<(Seq<char>, Seq<char>), ErrorView>(
            (crypto::base64_text(nonce), crypto::base64_text(ciphertext)),
        ),
{
    reveal_strlit("nonce");
    reveal_strlit("ciphertext");
    reveal_strlit("version");
    assert("nonce"@.len() == 5);
    assert("ciphertext"@.len() == 10);
    assert("version"@.len() == 7);
    let members = envelope(nonce, ciphertext)->Object_0;
    reveal_with_fuel(json::member_from, 4);
    assert(json::member_from(members, "ciphertext"@, 0) == Some(0int));
    assert(json::member_from(members, "nonce"@, 0) == Some(1int));
    assert(json::member_from(members, "version"@, 0) == Some(2int));
    text::lemma_decimal(1);
}

fn decode_text(text: &str) -> (r: Result<Vec<u8>, Error>)
    ensures
        match r {
            Ok(bytes) => base64_bytes(text@) == Some(bytes@),
            Err(error) => base64_bytes(text@) is None && error@ == ErrorView::Encryption(
                crypto::base64_failure(text@),
            ),
        },
{
    match crypto::base64_decode(text) {
        Ok(bytes) => {
            proof {
                lemma_base64_bytes(bytes@);
            }
            Ok(bytes)
        },
        Err(message) => Err(Error::Encryption(message)),
    }
}

/// An envelope made in one context of a namespace can be decrypted in any other
/// context of it: moving a value between contexts keeps it readable.
pub proof fn context_moves_keep_envelopes(
    key_hex: Seq<char>,
    source: Seq<char>,
    destination: Seq<char>,
    key: Seq<char>,
    envelope: JsonView,
)
    requires
        route::context_move(source, destination) is Ok,
    ensures
        decrypted(key_hex, source, key, envelope) == decrypted(key_hex, destination, key, envelope),
{
}

proof fn lemma_lines(a: Seq<char>, b: Seq<char>, c: Seq<char>, d: Seq<char>)
    requires
        !a.contains('\n'),
        !c.contains('\n'),
        a + seq!['\n'] + b == c + seq!['\n'] + d,
    ensures
        a == c,
        b == d,
{
    let x = a + seq!['\n'] + b;
    let y = c + seq!['\n'] + d;
    assert(x[a.len() as int] == '\n');
    assert(y[c.len() as int] == '\n');
    if a.len() < c.len() {
        assert(c[a.len() as int] == '\n');
    } else if c.len() < a.len() {
        assert(a[c.len() as int] == '\n');
    }
    assert(a =~= x.take(a.len() as int));
    assert(c =~= y.take(c.len() as int));
    assert(b =~= x.skip(a.len() as int + 1));
    assert(d =~= y.skip(c.len() as int + 1));
}

proof fn lemma_number_line(n: nat)
    ensures
        !text::decimal(n).contains('\n'),
{
    text::lemma_decimal(n);
    let s = text::decimal(n);
    if s.contains('\n') {
        let i = s.index_of('\n');
        assert(text::is_digit(s[i]));
    }
}

proof fn lemma_associated_text(
    namespace: Seq<char>,
    key: Seq<char>,
    other_namespace: Seq<char>,
    other_key: Seq<char>,
)
    requires
        namespace.len() > 0,
        other_namespace.len() > 0,
        associated_text(namespace, key) == associated_text(other_namespace, other_key),
    ensures
        route::base_of(namespace) == route::base_of(other_namespace),
        key == other_key,
{
    let a = associated_text(namespace, key);
    let b = associated_text(other_namespace, other_key);
    let x = route::base_of(namespace);
    let y = route::base_of(other_namespace);
    route::lemma_base(namespace);
    route::lemma_base(other_namespace);
    assert(x.contains(x[0]) && y.contains(y[0]));
    if x.contains('\n') && y.contains('\n') {
        let m = text::decimal(x.len());
        let n = text::decimal(y.len());
        assert(m + seq!['\n'] + (x + key) =~= a.skip(1));
        assert(n + seq!['\n'] + (y + other_key) =~= b.skip(1));
        lemma_number_line(x.len());
        lemma_number_line(y.len());
        lemma_lines(m, x + key, n, y + other_key);
        text::lemma_decimal(x.len());
        text::lemma_decimal(y.len());
        assert(x =~= (x + key).take(x.len() as int));
        assert(y =~= (y + other_key).take(y.len() as int));
        assert(key =~= (x + key).skip(x.len() as int));
        assert(other_key =~= (y + other_key).skip(y.len() as int));
    } else if x.contains('\n') {
        assert(a[0] == '\n' && b[0] == y[0]);
    } else if y.contains('\n') {
        assert(b[0] == '\n' && a[0] == x[0]);
    } else {
        lemma_lines(x, key, y, other_key);
    }
}

/// What is authenticated along with a value is the same for two routes exactly where
/// they share their base namespace and their key.
pub proof fn associated_data_binds_the_route(
    namespace: Seq<char>,
    key: Seq<char>,
    other_namespace: Seq<char>,
    other_key: Seq<char>,
)
    requires
        namespace.len() > 0,
        other_namespace.len() > 0,
    ensures
        associated(namespace, key) == associated(other_namespace, other_key) <==> route::base_of(
            namespace,
        ) == route::base_of(other_namespace) && key == other_key,
{
    if associated(namespace, key) == associated(other_namespace, other_key) {
        vstd::utf8::encode_utf8_decode_utf8(associated_text(namespace, key));
        vstd::utf8::encode_utf8_decode_utf8(associated_text(other_namespace, other_key));
        lemma_associated_text(namespace, key, other_namespace, other_key);
    }
}

/// An envelope that was made for one route is opened for another one, of another base
/// namespace or another key, with other authenticated data than it was sealed with;
/// where the cipher then refuses it, so does decrypting.
pub proof fn replayed_envelopes_are_opened_with_other_data(
    key_hex: Seq<char>,
    namespace: Seq<char>,
    key: Seq<char>,
    value: JsonView,
    nonce: Seq<u8>,
    made: JsonView,
    other_namespace: Seq<char>,
    other_key: Seq<char>,
)
    requires
        namespace.len() > 0,
        other_namespace.len() > 0,
        nonce.len() == 24,
        encrypted(key_hex, namespace, key, value, nonce) == Ok::<JsonView, ErrorView>(made),
        route::base_of(namespace) != route::base_of(other_namespace) || key != other_key,
    ensures
        ({
            let secret = cipher_key(key_hex)->Ok_0;
            let ciphertext = crypto::sealed(
                secret,
                nonce,
                plain_bytes(value),
                associated(namespace, key),
            )->0;
            let opened = crypto::opened(
                secret,
                nonce,
                ciphertext,
                associated(other_namespace, other_key),
            );
            &&& associated(other_namespace, other_key) != associated(namespace, key)
            &&& unsealed(key_hex, other_namespace, other_key, made) == (match opened {
                Some(plain) => Ok::<Seq<u8>, ErrorView>(plain),
                None => cipher_error("decryption failed"@),
            })
            &&& opened is None ==> decrypted(key_hex, other_namespace, other_key, made)
                == cipher_error::<JsonView>("decryption failed"@)
        }),
{
    associated_data_binds_the_route(namespace, key, other_namespace, other_key);
    let ciphertext = crypto::sealed(
        cipher_key(key_hex)->Ok_0,
        nonce,
        plain_bytes(value),
        associated(namespace, key),
    )->0;
    lemma_envelope_texts(nonce, ciphertext);
    lemma_base64_bytes(nonce);
    lemma_base64_bytes(ciphertext);
}

/// Decrypting fails with no other error than one of encryption.
pub proof fn decryption_errors_are_of_encryption(
    key_hex: Seq<char>,
    namespace: Seq<char>,
    key: Seq<char>,
    envelope: JsonView,
)
    ensures
        decrypted(key_hex, namespace, key, envelope) matches Err(error) ==> error is Encryption,
{
}

/// Versioned XChaCha20-Poly1305 JSON envelopes. The base namespace and key are
/// authenticated additional data, preventing ciphertext replay across
/// namespaces while allowing context moves within one namespace.
pub struct ValueCipher;

impl ValueCipher {
    /// Encrypts a value for a key of a namespace, under a nonce of its own.
    pub fn encrypt(key_hex: &str, namespace: &NamespaceContext, key: &Key, value: &Value) -> (r:
        Result<Value, Error>)
        ensures
            exists|nonce: Seq<u8>|
                nonce.len() == 24 && crate::error::outcome(r) == #[trigger] encrypted(
                    key_hex@,
                    namespace@,
                    key@,
                    value@,
                    nonce,
                ),
            cipher_key(key_hex@) matches Err(error) ==> crate::error::outcome(r) == Err::<
                JsonView,
                ErrorView,
            >(error),
            cipher_key(key_hex@) is Ok && plain_bytes(value@).len() / 64 < u32::MAX ==> r is Ok,
            r matches Ok(sealed) ==> holds(key_hex@, namespace@, key@, sealed@, value@),
    {
        let nonce = crypto::fresh_nonce();
        Self::encrypt_with(key_hex, namespace, key, value, &nonce)
    }

    /// Encrypts a value for a key of a namespace under the nonce.
    pub fn encrypt_with(
        key_hex: &str,
        namespace: &NamespaceContext,
        key: &Key,
        value: &Value,
        nonce: &Vec<u8>,
    ) -> (r: Result<Value, Error>)
        requires
            nonce.len() == 24,
        ensures
            crate::error::outcome(r) == encrypted(key_hex@, namespace@, key@, value@, nonce@),
            cipher_key(key_hex@) is Ok && plain_bytes(value@).len() / 64 < u32::MAX ==> r is Ok,
            r matches Ok(sealed) ==> holds(key_hex@, namespace@, key@, sealed@, value@),
    {
        let secret = match read_cipher_key(key_hex) {
            Ok(secret) => secret,
            Err(error) => {
                return Err(error);
            },
        };
        let text = json::render(value);
        let message = text::bytes_of(text.as_str());
        let associated = associated_bytes(namespace, key);
        match crypto::seal(&secret, nonce, &message, &associated) {
            None => Err(encryption_error("encryption rejected the input")),
            Some(ciphertext) => {
                let members: Vec<(String, Value)> = vec![
                    ("ciphertext".to_owned(), Value::Text(crypto::base64_encode(&ciphertext))),
                    ("nonce".to_owned(), Value::Text(crypto::base64_encode(nonce))),
                    ("version".to_owned(), Value::from_u64(1)),
                ];
                proof {
                    json::lemma_object_view(members);
                    assert(json::members_view(members@) =~= envelope(
                        nonce@,
                        ciphertext@,
                    )->Object_0);
                    lemma_envelope_texts(nonce@, ciphertext@);
                    lemma_base64_bytes(nonce@);
                    lemma_base64_bytes(ciphertext@);
                }
                Ok(Value::Object(members))
            },
        }
    }

    /// Decrypts the envelope of a key of a namespace. A readable value is given
    /// back from the envelope that encrypting it made, in whatever context of the
    /// base namespace.
    pub fn decrypt(key_hex: &str, namespace: &NamespaceContext, key: &Key, envelope: &Value) -> (r:
        Result<Value, Error>)
        ensures
            crate::error::outcome(r) == decrypted(key_hex@, namespace@, key@, envelope@),
            forall|value: JsonView, made_in: Seq<char>|
                #![trigger json::readable(value), route::base_of(made_in)]
                json::readable(value) && route::base_of(made_in) == route::base_of(namespace@)
                    && holds(key_hex@, made_in, key@, envelope@, value) ==> crate::error::outcome(r)
                    == Ok::<JsonView, ErrorView>(value),
            r matches Err(error) ==> error@ is Encryption,
    {
        let secret = match read_cipher_key(key_hex) {
            Ok(secret) => secret,
            Err(error) => {
                return Err(error);
            },
        };
        let nonce_text = match envelope.get("nonce") {
            Some(Value::Text(text)) => text,
            _ => {
                return Err(encryption_error("missing nonce"));
            },
        };
        let ciphertext_text = match envelope.get("ciphertext") {
            Some(Value::Text(text)) => text,
            _ => {
                return Err(encryption_error("missing ciphertext"));
            },
        };
        let version: Option<u64> = match envelope.get("version") {
            Some(version) => version.as_u64(),
            None => None,
        };
        match version {
            Some(1) => {},
            _ => {
                return Err(encryption_error("unsupported envelope version"));
            },
        }
        let nonce = match decode_text(nonce_text.as_str()) {
            Ok(bytes) => bytes,
            Err(error) => {
                return Err(error);
            },
        };
        let ciphertext = match decode_text(ciphertext_text.as_str()) {
            Ok(bytes) => bytes,
            Err(error) => {
                return Err(error);
            },
        };
        if nonce.len() != 24 {
            return Err(encryption_error("decryption failed"));
        }
        let associated = associated_bytes(namespace, key);
        let plain = match crypto::open(&secret, &nonce, &ciphertext, &associated) {
            Some(plain) => plain,
            None => {
                return Err(encryption_error("decryption failed"));
            },
        };
        let failure = json::explain_failure(&plain);
        match json::parse_bytes(plain) {
            Some(value) => Ok(value),
            None => Err(Error::Encryption(failure)),
        }
    }
}

} // verus!
