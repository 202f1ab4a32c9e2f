//! What permissions allow, and what becomes of sessions.

use crate::broker::{self, BrokerState};
use crate::command_laws::answer;
use crate::error::ErrorView;
use crate::json::JsonView;
use crate::outcome::{ContextView, DispatchView, MutationView, OutcomeView, StepView};
use crate::protocol::{CommandView, ResponseView, ServerCommandView, Uuid};
use crate::route::{self, RouteView};
use crate::security::{
    self, AuthCall, AuthEntryView, AuthInfoView, AuthLookupView, AuthRecordView, AuthSource,
    AuthState, Operation, PermissionOperation, PermissionView, RoleView,
};
use crate::text;
use vstd::prelude::*;

verus! {

/// A namespace lies within what the pattern of a role names: with a star at its end
/// everything that begins with the text before the star, else the namespace itself and
/// what follows it after a slash or a double colon.
pub open spec fn within(pattern: Seq<char>, namespace: Seq<char>) -> bool {
    if pattern.len() > 0 && pattern[pattern.len() - 1] == '*' {
        exists|rest: Seq<char>| namespace == #[trigger] (pattern.take(pattern.len() - 1) + rest)
    } else {
        ||| namespace == pattern
        ||| exists|rest: Seq<char>| namespace == #[trigger] (pattern.push('/') + rest)
        ||| exists|rest: Seq<char>| namespace == #[trigger] (pattern.push(':').push(':') + rest)
    }
}

proof fn lemma_prefix(prefix: Seq<char>, s: Seq<char>)
    ensures
        prefix.is_prefix_of(s) <==> exists|rest: Seq<char>| s == #[trigger] (prefix + rest),
{
    if prefix.is_prefix_of(s) {
        assert(s =~= prefix + s.skip(prefix.len() as int));
    }
    assert forall|rest: Seq<char>| s == #[trigger] (prefix + rest) implies prefix.is_prefix_of(
        s,
    ) by {
        assert(s.take(prefix.len() as int) =~= prefix);
    }
}

/// The pattern of a role covers exactly what lies within it.
pub proof fn patterns_cover_what_is_within(pattern: Seq<char>, namespace: Seq<char>)
    ensures
        security::permission_covers(pattern, namespace) <==> within(pattern, namespace),
{
    if pattern.len() > 0 && pattern.last() == '*' {
        assert(pattern.drop_last() =~= pattern.take(pattern.len() - 1));
        lemma_prefix(pattern.drop_last(), namespace);
    } else {
        let n = pattern.len() as int;
        lemma_prefix(pattern, namespace);
        if security::permission_covers(pattern, namespace) {
            let rest = namespace.skip(n);
            assert(namespace =~= pattern + rest);
            if rest.len() > 0 && rest[0] == '/' {
                assert(namespace =~= pattern.push('/') + rest.skip(1));
            } else if rest.len() > 0 {
                assert(namespace =~= pattern.push(':').push(':') + rest.skip(2));
            } else {
                assert(namespace =~= pattern);
            }
        }
        assert forall|rest: Seq<char>| namespace == #[trigger] (pattern.push('/')
            + rest) implies security::permission_covers(pattern, namespace) by {
            assert(namespace =~= pattern + (seq!['/'] + rest));
            assert(namespace.skip(n)[0] == '/');
        }
        assert forall|rest: Seq<char>| namespace == #[trigger] (pattern.push(':').push(
            ':',
        ) + rest) implies security::permission_covers(pattern, namespace) by {
            assert(namespace =~= pattern + (seq![':', ':'] + rest));
            assert(namespace.skip(n)[0] == ':');
            assert(namespace.skip(n)[1] == ':');
        }
        if namespace == pattern {
            assert(namespace =~= pattern + Seq::<char>::empty());
        }
    }
}

/// The role that one of several roles has to be for an operation on a namespace.
pub open spec fn suits(role: RoleView, operation: Operation, namespace: Seq<char>) -> bool {
    ||| role is Admin
    ||| match operation {
        Operation::Read => role matches RoleView::Read(pattern) && within(pattern, namespace),
        Operation::Write => role matches RoleView::Write(pattern) && within(pattern, namespace),
        Operation::Delete => role matches RoleView::Write(pattern) && within(pattern, namespace),
        Operation::Provide => role matches RoleView::Write(pattern) && within(pattern, namespace),
        Operation::Store => role matches RoleView::Write(pattern) && within(pattern, namespace),
        Operation::ReadEncrypted => role matches RoleView::ReadEncrypted(pattern) && within(
            pattern,
            namespace,
        ),
        Operation::WriteEncrypted => role matches RoleView::WriteEncrypted(pattern) && within(
            pattern,
            namespace,
        ),
    }
}

/// A live session with some roles.
pub open spec fn has_session(
    state: AuthState,
    api_key: Seq<char>,
    roles: Seq<RoleView>,
    now: nat,
) -> bool {
    &&& state.cache.dom().contains(api_key)
    &&& state.cache[api_key] matches AuthEntryView::Ready { info, expires_at, .. }
    &&& expires_at > now
    &&& info.roles == roles
}

proof fn lemma_allows(
    state: AuthState,
    auth: AuthInfoView,
    roles: Seq<RoleView>,
    namespace: Seq<char>,
    operation: Operation,
    now: nat,
)
    requires
        auth.source != AuthSource::BootstrapAdmin,
        has_session(state, auth.api_key, roles, now),
    ensures
        state.allows(auth, namespace, operation, now) <==> exists|i: int|
            0 <= i < roles.len() && suits(#[trigger] roles[i], operation, namespace),
{
    assert forall|i: int| 0 <= i < roles.len() implies suits(
        #[trigger] roles[i],
        operation,
        namespace,
    ) == security::role_grants(roles[i], namespace, operation) by {
        match roles[i] {
            RoleView::Read(pattern) => patterns_cover_what_is_within(pattern, namespace),
            RoleView::Write(pattern) => patterns_cover_what_is_within(pattern, namespace),
            RoleView::ReadEncrypted(pattern) => patterns_cover_what_is_within(pattern, namespace),
            RoleView::WriteEncrypted(pattern) => patterns_cover_what_is_within(pattern, namespace),
            RoleView::Admin => {},
        }
    }
}

/// A session may read a namespace exactly with a role to read within it, or as an
/// administrator.
pub proof fn read_roles_allow_reading(
    state: AuthState,
    auth: AuthInfoView,
    roles: Seq<RoleView>,
    namespace: Seq<char>,
    now: nat,
)
    requires
        auth.source != AuthSource::BootstrapAdmin,
        has_session(state, auth.api_key, roles, now),
    ensures
        state.allows(auth, namespace, Operation::Read, now) <==> exists|i: int|
            0 <= i < roles.len() && ((#[trigger] roles[i]) is Admin || (roles[i] matches RoleView::Read(
                pattern,
            ) && within(pattern, namespace))),
{
    lemma_allows(state, auth, roles, namespace, Operation::Read, now);
}

/// A session may write to a namespace, delete from it, provide it and store it exactly
/// with a role to write within it, or as an administrator.
pub proof fn write_roles_allow_changes(
    state: AuthState,
    auth: AuthInfoView,
    roles: Seq<RoleView>,
    namespace: Seq<char>,
    now: nat,
)
    requires
        auth.source != AuthSource::BootstrapAdmin,
        has_session(state, auth.api_key, roles, now),
    ensures
        ({
            let writes = exists|i: int|
                0 <= i < roles.len() && ((#[trigger] roles[i]) is Admin || (
                roles[i] matches RoleView::Write(pattern) && within(pattern, namespace)));
            &&& state.allows(auth, namespace, Operation::Write, now) == writes
            &&& state.allows(auth, namespace, Operation::Delete, now) == writes
            &&& state.allows(auth, namespace, Operation::Provide, now) == writes
            &&& state.allows(auth, namespace, Operation::Store, now) == writes
        }),
{
    lemma_allows(state, auth, roles, namespace, Operation::Write, now);
    lemma_allows(state, auth, roles, namespace, Operation::Delete, now);
    lemma_allows(state, auth, roles, namespace, Operation::Provide, now);
    lemma_allows(state, auth, roles, namespace, Operation::Store, now);
    let writes = exists|i: int|
        0 <= i < roles.len() && ((#[trigger] roles[i]) is Admin || (
        roles[i] matches RoleView::Write(pattern) && within(pattern, namespace)));
    if writes {
        let i = choose|i: int|
            0 <= i < roles.len() && ((#[trigger] roles[i]) is Admin || (
            roles[i] matches RoleView::Write(pattern) && within(pattern, namespace)));
        assert(suits(roles[i], Operation::Write, namespace));
        assert(suits(roles[i], Operation::Delete, namespace));
        assert(suits(roles[i], Operation::Provide, namespace));
        assert(suits(roles[i], Operation::Store, namespace));
    }
}

/// A session may read or write encrypted values of a namespace exactly with the role for
/// that within it, or as an administrator.
pub proof fn encryption_roles_allow_encrypted_values(
    state: AuthState,
    auth: AuthInfoView,
    roles: Seq<RoleView>,
    namespace: Seq<char>,
    now: nat,
)
    requires
        auth.source != AuthSource::BootstrapAdmin,
        has_session(state, auth.api_key, roles, now),
    ensures
        state.allows(auth, namespace, Operation::ReadEncrypted, now) <==> exists|i: int|
            0 <= i < roles.len() && ((#[trigger] roles[i]) is Admin || (
            roles[i] matches RoleView::ReadEncrypted(pattern) && within(pattern, namespace))),
        state.allows(auth, namespace, Operation::WriteEncrypted, now) <==> exists|i: int|
            0 <= i < roles.len() && ((#[trigger] roles[i]) is Admin || (
            roles[i] matches RoleView::WriteEncrypted(pattern) && within(pattern, namespace))),
{
    lemma_allows(state, auth, roles, namespace, Operation::ReadEncrypted, now);
    lemma_allows(state, auth, roles, namespace, Operation::WriteEncrypted, now);
}

/// The administrator of the configuration may do everything; a principal without a live
/// session nothing.
pub proof fn only_sessions_allow(
    state: AuthState,
    auth: AuthInfoView,
    namespace: Seq<char>,
    operation: Operation,
    now: nat,
)
    ensures
        auth.source == AuthSource::BootstrapAdmin ==> state.allows(auth, namespace, operation, now),
        auth.source != AuthSource::BootstrapAdmin && !(exists|roles: Seq<RoleView>|
            has_session(state, auth.api_key, roles, now)) ==> !state.allows(
            auth,
            namespace,
            operation,
            now,
        ),
{
    if state.allows(auth, namespace, operation, now) && auth.source != AuthSource::BootstrapAdmin {
        if let AuthEntryView::Ready { info, .. } = state.cache[auth.api_key] {
            assert(has_session(state, auth.api_key, info.roles, now));
        }
    }
}

/// The role that a permission grants by one of its operations.
pub open spec fn granted(permission: PermissionView, k: int) -> RoleView {
    match permission.operations[k] {
        PermissionOperation::Admin => RoleView::Admin,
        PermissionOperation::Read => RoleView::Read(permission.namespace->0),
        PermissionOperation::Write => RoleView::Write(permission.namespace->0),
        PermissionOperation::ReadEncrypted => RoleView::ReadEncrypted(permission.namespace->0),
        PermissionOperation::WriteEncrypted => RoleView::WriteEncrypted(permission.namespace->0),
    }
}

/// A permission is in order: it lists operations, none of them twice, on a namespace; or
/// it is that of an administrator, alone and without a namespace.
pub open spec fn in_order(permission: PermissionView) -> bool {
    &&& permission.operations.len() > 0
    &&& permission.operations.no_duplicates()
    &&& if exists|k: int|
        0 <= k < permission.operations.len() && (#[trigger] permission.operations[k])
            == PermissionOperation::Admin {
        permission.operations.len() == 1 && permission.namespace is None
    } else {
        permission.namespace is Some && text::trim(permission.namespace->0).len() > 0
    }
}

/// A permission in order grants one role for each of its operations, on its namespace;
/// any other is refused.
pub proof fn permissions_grant_their_operations(permission: PermissionView)
    ensures
        in_order(permission) <==> security::permission_roles(permission) is Ok,
        in_order(permission) ==> {
            let roles = security::permission_roles(permission)->Ok_0;
            &&& roles.len() == permission.operations.len()
            &&& forall|k: int|
                0 <= k < roles.len() ==> #[trigger] roles[k] == granted(permission, k)
        },
{
    let operations = permission.operations;
    if operations.contains(PermissionOperation::Admin) {
        let k = choose|k: int| 0 <= k < operations.len() && operations[k]
            == PermissionOperation::Admin;
        assert(permission.operations[k] == PermissionOperation::Admin);
    }
}

/// A role that a permission from a position on grants.
pub open spec fn is_granted(permissions: Seq<PermissionView>, from: int, role: RoleView) -> bool {
    exists|p: int, k: int|
        from <= p < permissions.len() && 0 <= k < permissions[p].operations.len() && role
            == #[trigger] granted(permissions[p], k)
}

proof fn lemma_granted(permissions: Seq<PermissionView>, i: int)
    requires
        0 <= i <= permissions.len(),
    ensures
        (forall|p: int| i <= p < permissions.len() ==> in_order(#[trigger] permissions[p]))
            <==> security::granted_roles(permissions, i) is Ok,
        security::granted_roles(permissions, i) matches Ok(roles) ==> forall|role: RoleView| #[trigger]
            roles.contains(role) <==> is_granted(permissions, i, role),
    decreases permissions.len() - i,
{
    if i < permissions.len() {
        lemma_granted(permissions, i + 1);
        permissions_grant_their_operations(permissions[i]);
        if forall|p: int| i <= p < permissions.len() ==> in_order(#[trigger] permissions[p]) {
            assert(in_order(permissions[i]));
        }
        if let Ok(roles) = security::granted_roles(permissions, i) {
            let first = security::permission_roles(permissions[i])->Ok_0;
            let rest = security::granted_roles(permissions, i + 1)->Ok_0;
            assert(roles == first + rest);
            assert forall|p: int| i <= p < permissions.len() implies in_order(
                #[trigger] permissions[p],
            ) by {
                if p > i {
                    assert(in_order(permissions[p]));
                }
            }
            assert forall|role: RoleView| #[trigger] roles.contains(role) <==> is_granted(
                permissions,
                i,
                role,
            ) by {
                if roles.contains(role) {
                    let r = choose|r: int| 0 <= r < roles.len() && roles[r] == role;
                    if r < first.len() {
                        assert(first[r] == granted(permissions[i], r));
                    } else {
                        assert(rest[r - first.len()] == role);
                        assert(rest.contains(role));
                        assert(is_granted(permissions, i + 1, role));
                    }
                }
                if is_granted(permissions, i, role) {
                    let (p, k) = choose|p: int, k: int|
                        i <= p < permissions.len() && 0 <= k < permissions[p].operations.len()
                            && role == #[trigger] granted(permissions[p], k);
                    if p == i {
                        assert(first[k] == role);
                        assert(roles[k] == role);
                    } else {
                        assert(is_granted(permissions, i + 1, role));
                        assert(rest.contains(role));
                        let j = choose|j: int| 0 <= j < rest.len() && rest[j] == role;
                        assert(roles[first.len() + j] == role);
                    }
                }
            }
        }
    } else if let Ok(roles) = security::granted_roles(permissions, i) {
        assert forall|role: RoleView| #[trigger] roles.contains(role) <==> is_granted(
            permissions,
            i,
            role,
        ) by {}
    }
}

/// A record that describes a principal: it names one, is enabled, lists no more than a
/// principal may have, and its permissions are in order.
pub open spec fn describes(record: AuthRecordView) -> bool {
    &&& text::trim(record.client_id).len() > 0
    &&& text::trim(record.name).len() > 0
    &&& record.enabled
    &&& record.permissions.len() <= 256
    &&& record.roles.len() + security::operation_count(record.permissions) <= 256
    &&& forall|p: int| 0 <= p < record.permissions.len() ==> in_order(#[trigger] record.permissions[p])
}

/// A record describes the principal with its client and its key, whose roles are those
/// of the record, then those that its permissions grant, and no others. A record that is
/// not enabled does not authenticate.
pub proof fn records_describe_their_principal(record: AuthRecordView, api_key: Seq<char>, now: nat)
    ensures
        describes(record) <==> security::record_info(record, api_key, now) is Ok,
        security::record_info(record, api_key, now) matches Ok(info) ==> {
            &&& info.api_key == api_key
            &&& info.client_id == record.client_id
            &&& info.source == AuthSource::Registry
            &&& info.authenticated_at == now
            &&& record.roles.is_prefix_of(info.roles)
            &&& forall|role: RoleView| #[trigger]
                info.roles.contains(role) <==> record.roles.contains(role) || is_granted(
                    record.permissions,
                    0,
                    role,
                )
        },
        text::trim(record.client_id).len() > 0 && text::trim(record.name).len() > 0
            && !record.enabled ==> security::record_info(record, api_key, now) == Err::<
            AuthInfoView,
            ErrorView,
        >(ErrorView::AuthenticationFailed),
        security::authenticated_record(None, api_key, now) == Err::<AuthInfoView, ErrorView>(
            ErrorView::AuthenticationFailed,
        ),
        security::authenticated_record(Some(record), api_key, now) == security::record_info(
            record,
            api_key,
            now,
        ),
{
    let permissions = record.permissions;
    lemma_granted(permissions, 0);
    if let Ok(info) = security::record_info(record, api_key, now) {
        let more = security::granted_roles(permissions, 0)->Ok_0;
        let own = record.roles;
        assert(info.roles == own + more);
        assert(own =~= info.roles.take(own.len() as int));
        assert forall|role: RoleView| #[trigger] info.roles.contains(role) <==> own.contains(role)
            || is_granted(permissions, 0, role) by {
            assert(more.contains(role) <==> is_granted(permissions, 0, role));
            if info.roles.contains(role) {
                let r = choose|r: int| 0 <= r < info.roles.len() && info.roles[r] == role;
                if r < own.len() {
                    assert(own[r] == role);
                } else {
                    assert(more[r - own.len()] == role);
                }
            }
            if own.contains(role) {
                let r = choose|r: int| 0 <= r < own.len() && own[r] == role;
                assert(info.roles[r] == role);
            }
            if more.contains(role) {
                let r = choose|r: int| 0 <= r < more.len() && more[r] == role;
                assert(info.roles[own.len() + r] == role);
            }
        }
    }
}

/// A key whose record is loaded authenticates as the principal that the record describes
/// until the session time is over; then it has to be loaded again.
pub proof fn loaded_records_authenticate(
    state: AuthState,
    api_key: Seq<char>,
    record: AuthRecordView,
    now: nat,
    later: nat,
)
    requires
        state.bootstrap_key != Some(api_key),
        describes(record),
    ensures
        ({
            let loaded = state.after_load(api_key, Some(record), now);
            loaded.lookup(api_key, later) == if later < now + state.timeout {
                AuthLookupView::Authenticated(
                    security::record_info(record, api_key, now)->Ok_0,
                )
            } else {
                AuthLookupView::Pending
            }
        }),
{
    records_describe_their_principal(record, api_key, now);
}

/// A key whose load fails, or whose record does not describe a principal, is rejected for
/// the session time and may be tried again after it. A session that was live ends with
/// the failure.
pub proof fn failed_loads_reject(
    state: AuthState,
    api_key: Seq<char>,
    record: Option<AuthRecordView>,
    now: nat,
    later: nat,
)
    requires
        state.bootstrap_key != Some(api_key),
        record is None || !describes(record->0),
    ensures
        ({
            let was_live = state.cache.dom().contains(api_key) && state.cache[api_key] is Ready;
            let answered = if !was_live && later < now + state.timeout {
                AuthLookupView::Rejected
            } else {
                AuthLookupView::Pending
            };
            &&& state.after_failure(api_key, now).lookup(api_key, later) == answered
            &&& state.after_load(api_key, record, now).lookup(api_key, later) == answered
        }),
{
    if let Some(record) = record {
        records_describe_their_principal(record, api_key, now);
    }
}

/// The key of a call.
pub open spec fn key_of(call: AuthCall) -> Seq<char> {
    match call {
        AuthCall::Authenticate { api_key, .. } => api_key,
        AuthCall::TakeStoreLoad { api_key } => api_key,
        AuthCall::TakeScheduledLoad { api_key } => api_key,
        AuthCall::ScheduleRefresh { api_key, .. } => api_key,
        AuthCall::CompleteProviderLoad { api_key, .. } => api_key,
        AuthCall::CompleteStoreLoad { api_key, .. } => api_key,
        AuthCall::ReplaceAuthRecord { api_key, .. } => api_key,
        AuthCall::FailProviderLoad { api_key, .. } => api_key,
        AuthCall::Disconnect { api_key } => api_key,
    }
}

/// A call for one key leaves the session of every other as it is.
pub proof fn calls_concern_their_key(state: AuthState, call: AuthCall, other: Seq<char>, now: nat)
    requires
        other != key_of(call),
    ensures
        state.after_call(call).cache.dom().contains(other) == state.cache.dom().contains(other),
        state.cache.dom().contains(other) ==> state.after_call(call).cache[other]
            == state.cache[other],
        state.after_call(call).lookup(other, now) == state.lookup(other, now),
{
}

/// A key that is asked for the first time, or whose entry is over, is to be loaded, from
/// the store and from a provider. One that is live is not loaded from the store.
pub proof fn unknown_keys_are_loaded(state: AuthState, api_key: Seq<char>, now: nat)
    requires
        state.bootstrap_key != Some(api_key),
    ensures
        ({
            let over = !state.cache.dom().contains(api_key) || (match state.cache[api_key] {
                AuthEntryView::Ready { expires_at, .. } => expires_at <= now,
                AuthEntryView::Rejected { expires_at } => expires_at <= now,
                AuthEntryView::Loading { .. } => false,
            });
            let looked = state.after_lookup(api_key, now);
            &&& over ==> looked.store_claim(api_key) is Some && looked.provider_claim(
                api_key,
            ) is Some && state.lookup(api_key, now) is Pending
            &&& !over && !(state.cache[api_key] is Loading) ==> looked.store_claim(api_key) is None
        }),
{
}

/// A live session is refreshed by a provider once half of its time has passed, and not
/// before, unless it is being refreshed.
pub proof fn sessions_are_refreshed_after_half_their_time(
    state: AuthState,
    api_key: Seq<char>,
    info: AuthInfoView,
    expires_at: nat,
    now: nat,
)
    requires
        state.bootstrap_key != Some(api_key),
        state.cache.dom().contains(api_key),
        state.cache[api_key] == (AuthEntryView::Ready {
            info,
            expires_at,
            scheduled: false,
            loading: false,
        }),
        info.authenticated_at <= now < expires_at,
    ensures
        state.lookup(api_key, now) == AuthLookupView::Authenticated(info),
        state.after_lookup(api_key, now).provider_claim(api_key) is Some <==> now
            - info.authenticated_at >= state.timeout / 2,
        state.after_lookup(api_key, now).lookup(api_key, now) == AuthLookupView::Authenticated(
            info,
        ),
        state.refresh_claim(api_key, now) is Some,
        state.claiming(api_key, state.refresh_claim(api_key, now)).provider_claim(api_key) is Some,
{
}

/// A session that is being refreshed stays live as it is until the refresh ends.
pub proof fn refreshes_keep_the_session(
    state: AuthState,
    api_key: Seq<char>,
    info: AuthInfoView,
    expires_at: nat,
    scheduled: bool,
    loading: bool,
    now: nat,
    later: nat,
)
    requires
        state.bootstrap_key != Some(api_key),
        state.cache.dom().contains(api_key),
        state.cache[api_key] == (AuthEntryView::Ready { info, expires_at, scheduled, loading }),
        now < expires_at,
        later < expires_at,
    ensures
        state.after_lookup(api_key, now).lookup(api_key, later) == AuthLookupView::Authenticated(
            info,
        ),
        state.claiming(api_key, state.provider_claim(api_key)).lookup(api_key, later)
            == AuthLookupView::Authenticated(info),
        state.claiming(api_key, state.refresh_claim(api_key, now)).lookup(api_key, later)
            == AuthLookupView::Authenticated(info),
        state.without_entry(api_key).lookup(api_key, later) == AuthLookupView::Pending,
{
}

proof fn lemma_auth_namespace()
    ensures
        broker::AUTH_NAMESPACE@ == "/__auth"@,
{
}

/// The outcome of an authentication that succeeds.
pub open spec fn welcomed(
    info: AuthInfoView,
    timeout: nat,
    dispatch: Option<DispatchView>,
) -> StepView {
    StepView::Finished(
        Ok(
            OutcomeView {
                response: ResponseView::AuthSuccess {
                    client_id: info.client_id,
                    session_ttl_seconds: (timeout / 1_000_000_000) as u64,
                },
                dispatch,
                pending_mutation: None,
                authenticated: Some(info),
            },
        ),
    )
}

/// The outcome of an authentication that has to be tried again.
pub open spec fn postponed(dispatch: Option<DispatchView>) -> StepView {
    StepView::Finished(
        Ok(
            OutcomeView {
                response: ResponseView::AuthPending { retry_after_ms: 10 },
                dispatch,
                pending_mutation: None,
                authenticated: None,
            },
        ),
    )
}

/// Without authentication configured every AUTH fails. The configured key and a key with
/// a live session succeed, with their client, the whole seconds of the session time and
/// their principal; a rejected key fails, an unknown one is looked up in the store, and
/// one that is being loaded has to be tried again.
pub proof fn authentications_are_answered(
    state: BrokerState,
    api_key: Seq<char>,
    command: CommandView,
    context: ContextView,
    id: Uuid,
    now: nat,
)
    requires
        command matches CommandView::Auth { api_key: given, .. } && given == api_key,
        api_key.len() > 0,
    ensures
        ({
            let (next, step) = state.executed(command, context, id, now);
            &&& state.auth is None ==> step == answer(
                ResponseView::AuthFailure { message: "authentication is not configured"@ },
            )
            &&& state.auth matches Some(auth) ==> {
                &&& auth.lookup(api_key, now) matches AuthLookupView::Authenticated(info) ==> {
                    &&& step matches StepView::Finished(Ok(outcome))
                    &&& step == welcomed(info, auth.timeout, outcome.dispatch)
                }
                &&& auth.lookup(api_key, now) is Rejected ==> step == answer(
                    ResponseView::AuthFailure { message: "invalid API key"@ },
                )
                &&& auth.lookup(api_key, now) is Pending ==> {
                    let claimed = auth.cache.dom().contains(api_key) && (
                    auth.cache[api_key] matches AuthEntryView::Loading { store_loading, .. }
                        && store_loading);
                    step == if claimed {
                        postponed(None)
                    } else {
                        StepView::ReadAuthRecord { key: api_key }
                    }
                }
                &&& auth.bootstrap_key == Some(api_key) ==> (step matches StepView::Finished(
                    Ok(outcome),
                ) && outcome.response == (ResponseView::AuthSuccess {
                    client_id: "bootstrap-admin"@,
                    session_ttl_seconds: (auth.timeout / 1_000_000_000) as u64,
                }))
            }
        }),
{
}

/// A key is looked up at the provider of permission records under the key itself, where
/// a load is due; without a provider it is rejected.
pub proof fn keys_are_looked_up_at_their_provider(
    state: BrokerState,
    api_key: Seq<char>,
    request_id: Uuid,
    now: nat,
)
    requires
        state.auth is Some,
        api_key.len() > 0,
    ensures
        ({
            let auth = state.auth->0;
            let (next, dispatch) = state.auth_dispatched(api_key, request_id, now);
            let due = auth.cache.dom().contains(api_key) && (match auth.cache[api_key] {
                AuthEntryView::Loading { dispatched, .. } => !dispatched,
                AuthEntryView::Ready { scheduled, loading, .. } => scheduled && !loading,
                AuthEntryView::Rejected { .. } => false,
            });
            &&& !due ==> dispatch is None && next == state
            &&& due ==> dispatch == (match state.registry.provider_for("/__auth"@, api_key) {
                None => None,
                Some(provider) => Some(
                    DispatchView {
                        owner: provider.owner,
                        provider_id: Some(provider.id),
                        provider_refresh_id: None,
                        mutation_generation: 0,
                        command: ServerCommandView::Query {
                            request_id,
                            namespace: "/__auth"@,
                            key: api_key,
                        },
                        authentication: true,
                        provider_options: None,
                        encrypted: false,
                    },
                ),
            })
            &&& due && dispatch is None && auth.bootstrap_key != Some(api_key) && !(
            auth.cache[api_key] is Ready) && auth.timeout > 0 ==> next.auth->0.lookup(api_key, now)
                is Rejected
        }),
{
    lemma_auth_namespace();
}

/// A record that is found in the store authenticates where it describes a principal, and
/// is refused where it does not; where there is none a provider is asked. An error is
/// passed on.
pub proof fn stored_records_authenticate(
    state: BrokerState,
    api_key: Seq<char>,
    record: Option<AuthRecordView>,
    error: ErrorView,
    request_id: Uuid,
    now: nat,
)
    requires
        state.auth is Some,
        state.auth->0.bootstrap_key != Some(api_key),
        state.auth->0.timeout > 0,
        !(state.auth->0.cache.dom().contains(api_key) && state.auth->0.cache[api_key] is Ready),
        api_key.len() > 0,
    ensures
        ({
            let auth = state.auth->0;
            let (next, step) = state.auth_record_read(api_key, Ok(Some(record)), request_id, now);
            let (asked, waiting) = state.auth_record_read(api_key, Ok(None), request_id, now);
            &&& record is Some && describes(record->0) ==> step == welcomed(
                security::record_info(record->0, api_key, now)->Ok_0,
                auth.timeout,
                None,
            )
            &&& record is None || !describes(record->0) ==> step == answer(
                ResponseView::AuthFailure { message: "invalid API key"@ },
            )
            &&& waiting == postponed(state.auth_dispatched(api_key, request_id, now).1)
            &&& state.auth_record_read(api_key, Err(error), request_id, now).1
                == StepView::Finished(Err(error))
        }),
{
    if let Some(record) = record {
        records_describe_their_principal(record, api_key, now);
    }
}

/// A permission record that is set replaces the session of its key at once: the key is
/// the principal that the record describes, or nobody. No other change touches a session.
pub proof fn set_records_replace_the_session(
    state: BrokerState,
    key: Seq<char>,
    value: JsonView,
    ttl: Option<nat>,
    record: Option<AuthRecordView>,
    mutation: MutationView,
    now: nat,
)
    requires
        state.auth is Some,
        state.auth->0.bootstrap_key != Some(key),
        state.auth->0.timeout > 0,
    ensures
        ({
            let set = MutationView::SetValue { namespace: "/__auth"@, key, value, ttl };
            let after = state.committed(set, record, now);
            let lookup = after.auth->0.lookup(key, now);
            &&& after.auth is Some
            &&& record is Some && describes(record->0) ==> lookup == AuthLookupView::Authenticated(
                security::record_info(record->0, key, now)->Ok_0,
            )
            &&& record is None || !describes(record->0) ==> !(lookup is Authenticated)
            &&& !(mutation matches MutationView::SetValue { namespace, .. } && namespace
                == "/__auth"@) ==> state.committed(mutation, record, now).auth == state.auth
        }),
{
    if let Some(record) = record {
        records_describe_their_principal(record, key, now);
    }
    if let MutationView::SetBatch { namespace, entries, .. } = mutation {
        lemma_auth_kept(state, namespace, broker::entry_keys(entries));
    }
}

proof fn lemma_auth_kept(state: BrokerState, namespace: Seq<char>, keys: Seq<Seq<char>>)
    ensures
        state.all_mutated(namespace, keys).auth == state.auth,
    decreases keys.len(),
{
    if keys.len() > 0 {
        lemma_auth_kept(state, namespace, keys.drop_last());
    }
}

/// A deletion pattern with a star at its end stands for the keys that begin with the text
/// before the star, any other for the key of that text.
pub proof fn deletion_patterns_stand_for_keys(text: Seq<char>, key: Seq<char>)
    ensures
        route::key_matches(text.push('*'), key) <==> exists|rest: Seq<char>|
            key == #[trigger] (text + rest),
        text.len() == 0 || text[text.len() - 1] != '*' ==> (route::key_matches(text, key) <==> key
            == text),
        route::key_matches(seq!['*'], key),
{
    assert(text.push('*').drop_last() =~= text);
    lemma_prefix(text, key);
    assert(seq!['*'].drop_last() =~= Seq::<char>::empty());
    assert(key.take(0) =~= Seq::<char>::empty());
}

/// A change voids the misses of exactly the routes that it changes: of a value that is set
/// the route itself, of a deletion the keys that its pattern stands for, all of them
/// without one, of a move both namespaces.
pub proof fn changes_concern_their_routes(
    state: BrokerState,
    namespace: Seq<char>,
    other: Seq<char>,
    key: Seq<char>,
    value: JsonView,
    ttl: Option<nat>,
    pattern: Seq<char>,
    route: RouteView,
)
    ensures
        state.concerned(MutationView::SetValue { namespace, key, value, ttl }, route)
            <==> state.routes.dom().contains(route) && route.namespace == namespace && route.key
            == key,
        state.concerned(MutationView::Delete { namespace, key_pattern: Some(pattern) }, route)
            <==> route.namespace == namespace && route::key_matches(pattern, route.key),
        state.concerned(MutationView::Delete { namespace, key_pattern: None }, route)
            <==> route.namespace == namespace,
        state.concerned(MutationView::Move { source: namespace, destination: other }, route)
            <==> route.namespace == namespace || route.namespace == other,
{
    deletion_patterns_stand_for_keys(Seq::empty(), route.key);
}

/// A key that is being loaded can be claimed at the store and at a provider, each once and
/// neither instead of the other. A new session is not being refreshed, and can be.
pub proof fn claims_are_taken_one_by_one(
    state: AuthState,
    api_key: Seq<char>,
    record: Option<AuthRecordView>,
    now: nat,
)
    ensures
        ({
            let stored = state.claiming(api_key, state.store_claim(api_key));
            let asked = state.claiming(api_key, state.provider_claim(api_key));
            let loaded = state.after_load(api_key, record, now);
            &&& stored.store_claim(api_key) is None
            &&& stored.provider_claim(api_key) is Some <==> state.provider_claim(api_key) is Some
            &&& asked.provider_claim(api_key) is None
            &&& asked.store_claim(api_key) is Some <==> state.store_claim(api_key) is Some
            &&& state.timeout > 0 && security::authenticated_record(record, api_key, now) is Ok ==> {
                &&& loaded.store_claim(api_key) is None
                &&& loaded.provider_claim(api_key) is None
                &&& loaded.refresh_claim(api_key, now) is Some
            }
        }),
{
}

/// A session that a record begins is due for a refresh when the time that was told has
/// passed, and not before; a record that begins none tells no time.
pub proof fn refreshes_are_due_after_their_delay(
    state: AuthState,
    api_key: Seq<char>,
    record: Option<AuthRecordView>,
    now: nat,
    later: nat,
)
    requires
        state.timeout > 0,
        state.bootstrap_key != Some(api_key),
        now <= later < now + state.timeout,
    ensures
        ({
            let loaded = state.after_load(api_key, record, now);
            let due = loaded.after_lookup(api_key, later).provider_claim(api_key) is Some;
            match state.refresh_delay(api_key, record, now) {
                Some(delay) => due <==> later >= now + delay,
                None => security::authenticated_record(record, api_key, now) is Err,
            }
        }),
{
}

/// A request is one of the principal that its key has a live session for, or of the
/// administrator with the configured key; every other is refused, and all are where no
/// authentication is configured.
pub proof fn requests_are_of_their_principal(state: BrokerState, api_key: Seq<char>, now: nat)
    ensures
        ({
            let (next, result) = state.request_authenticated(api_key, now);
            &&& state.auth is None ==> next == state && result == Err::<AuthInfoView, ErrorView>(
                ErrorView::AuthenticationFailed,
            )
            &&& state.auth is Some && state.auth->0.bootstrap_key == Some(api_key) ==> (
            result matches Ok(info) && info.source == AuthSource::BootstrapAdmin && info.api_key
                == api_key)
            &&& state.auth is Some && state.auth->0.bootstrap_key != Some(api_key) ==> match result {
                Ok(principal) => state.auth->0.entry(api_key) matches Some(
                    AuthEntryView::Ready { info, expires_at, .. },
                ) && info == principal && expires_at > now,
                Err(error) => error == ErrorView::AuthenticationFailed && !(
                state.auth->0.entry(api_key) matches Some(
                    AuthEntryView::Ready { expires_at, .. },
                ) && expires_at > now),
            }
            &&& next == (BrokerState { auth: next.auth, ..state })
        }),
{
}

} // verus!
