//! Authorization: users, roles and the closed permission set, bearer-token
//! validation, and the per-user sliding-window rate limiter.

use crate::error::BichonError;
use crate::error::ErrorCode;
use vstd::prelude::*;
use vstd::string::StringExecFns;

verus! {

/// The closed set of permissions.
#[derive(Clone, Copy, Debug, PartialEq, Eq, Structural)]
pub enum Permission {
    Root,
    UserManage,
    UserView,
    AccountCreate,
    AccountManage,
    AccountManageAll,
    AccountReadDetails,
    DataRead,
    DataReadAll,
    DataDelete,
    DataDeleteAll,
    DataRawDownload,
    DataRawDownloadAll,
    DataExportBatch,
    DataExportBatchAll,
    DataManage,
}

/// Whether a role is system-wide or scoped to one account.
#[derive(Clone, Copy, Debug, PartialEq, Eq, Structural)]
pub enum RoleType {
    Global,
    Account,
}

/// The id of the system-built account-manager role, granted to the creator
/// of an account.
pub const DEFAULT_ACCOUNT_MANAGER_ROLE_ID: u64 = 2;

/// One role: a named set of permissions of one kind.
#[derive(Clone, Debug, PartialEq, Eq)]
pub struct Role {
    pub id: u64,
    pub name: String,
    pub role_type: RoleType,
    pub permissions: Vec<Permission>,
}

/// One user: global roles plus a per-account role map, with optional
/// access control settings.
#[derive(Clone, Debug, PartialEq, Eq)]
pub struct User {
    pub id: u64,
    pub username: String,
    pub email: String,
    /// The password, encrypted at rest; absent for external-only logins.
    pub password: Option<String>,
    pub global_roles: Vec<u64>,
    /// Account id paired with the role held on that account.
    pub account_access_map: Vec<(u64, u64)>,
    /// The client addresses allowed to use this user's tokens, where set.
    pub ip_whitelist: Option<Vec<String>>,
    /// The rate limit, where set: quota per sliding interval in seconds.
    pub rate_limit: Option<(u32, u32)>,
    pub created_at: i64,
    pub updated_at: i64,
}

/// The kind of a bearer token: browser tokens expire by age, API tokens at
/// an explicit instant or never.
#[derive(Clone, Copy, Debug, PartialEq, Eq, Structural)]
pub enum TokenType {
    WebUI,
    Api,
}

/// One bearer token record.
#[derive(Clone, Debug, PartialEq, Eq)]
pub struct AccessToken {
    pub token: String,
    pub user_id: u64,
    pub name: Option<String>,
    pub token_type: TokenType,
    pub created_at: i64,
    pub updated_at: i64,
    /// The explicit expiry of an API token; none means it never expires.
    pub expire_at: Option<i64>,
    pub last_access_at: i64,
}

/// The permissions of a role with this id, gathered over a role table.
pub open spec fn role_has_perm(roles: Seq<Role>, role_id: u64, p: Permission) -> bool {
    exists|i: int|
        0 <= i < roles.len() && (#[trigger] roles[i]).id == role_id && roles[i].permissions@.contains(
            p,
        )
}

/// Whether the user's global roles grant `p` directly.
pub open spec fn global_grants_direct(roles: Seq<Role>, user: User, p: Permission) -> bool {
    exists|k: int| 0 <= k < user.global_roles@.len() && role_has_perm(
        roles,
        #[trigger] user.global_roles@[k],
        p,
    )
}

/// The global implication rules: an all-accounts permission implies its
/// single-account form, and managing all accounts implies managing and
/// reading details of each.
pub open spec fn global_implied(roles: Seq<Role>, user: User, p: Permission) -> bool {
    ||| global_grants_direct(roles, user, p)
    ||| (p == Permission::DataRead && global_grants_direct(roles, user, Permission::DataReadAll))
    ||| (p == Permission::DataDelete && global_grants_direct(
        roles,
        user,
        Permission::DataDeleteAll,
    ))
    ||| (p == Permission::DataRawDownload && global_grants_direct(
        roles,
        user,
        Permission::DataRawDownloadAll,
    ))
    ||| (p == Permission::DataExportBatch && global_grants_direct(
        roles,
        user,
        Permission::DataExportBatchAll,
    ))
    ||| ((p == Permission::AccountManage || p == Permission::AccountReadDetails)
        && global_grants_direct(roles, user, Permission::AccountManageAll))
}

/// The role a user holds on an account: the first mapped entry.
pub open spec fn role_in_map(map: Seq<(u64, u64)>, account_id: u64) -> Option<u64>
    decreases map.len(),
{
    if map.len() == 0 {
        None
    } else if map[0].0 == account_id {
        Some(map[0].1)
    } else {
        role_in_map(map.drop_first(), account_id)
    }
}

/// The role a user holds on an account, where one is mapped.
pub open spec fn account_role_of(user: User, account_id: u64) -> Option<u64> {
    role_in_map(user.account_access_map@, account_id)
}

/// The account-scoped implication rule: managing an account implies
/// reading its data and details.
pub open spec fn account_grants(roles: Seq<Role>, role_id: u64, p: Permission) -> bool {
    ||| role_has_perm(roles, role_id, p)
    ||| ((p == Permission::DataRead || p == Permission::AccountReadDetails) && role_has_perm(
        roles,
        role_id,
        Permission::AccountManage,
    ))
}

/// Whether the user is an administrator: some global role carries the root
/// permission.
pub open spec fn is_admin_spec(roles: Seq<Role>, user: User) -> bool {
    global_grants_direct(roles, user, Permission::Root)
}

/// The full permission decision: administrators pass; otherwise the global
/// roles (with the global implications) decide, and where an account is
/// named, the role mapped on that account (with the account implication)
/// may also grant.
pub open spec fn has_permission_spec(
    roles: Seq<Role>,
    user: User,
    account_id: Option<u64>,
    p: Permission,
) -> bool {
    ||| is_admin_spec(roles, user)
    ||| global_implied(roles, user, p)
    ||| (match account_id {
        Some(aid) => match account_role_of(user, aid) {
            Some(rid) => account_grants(roles, rid, p),
            None => false,
        },
        None => false,
    })
}

fn role_has_perm_exec(roles: &Vec<Role>, role_id: u64, p: Permission) -> (r: bool)
    ensures
        r == role_has_perm(roles@, role_id, p),
{
    let mut i: usize = 0;
    while i < roles.len()
        invariant
            i <= roles@.len(),
            forall|k: int|
                0 <= k < i ==> !((#[trigger] roles@[k]).id == role_id
                    && roles@[k].permissions@.contains(p)),
        decreases roles@.len() - i,
    {
        if roles[i].id == role_id {
            let mut j: usize = 0;
            while j < roles[i].permissions.len()
                invariant
                    i < roles@.len(),
                    roles@[i as int].id == role_id,
                    j <= roles@[i as int].permissions@.len(),
                    forall|q: int| 0 <= q < j ==> roles@[i as int].permissions@[q] != p,
                decreases roles@[i as int].permissions@.len() - j,
            {
                let cur = roles[i].permissions[j];
                proof {
                    assert(cur == roles@[i as int].permissions@[j as int]);
                }
                if cur == p {
                    proof {
                        assert(roles@[i as int].permissions@.contains(p));
                        assert(role_has_perm(roles@, role_id, p));
                    }
                    return true;
                }
                j = j + 1;
            }
        }
        i = i + 1;
    }
    false
}

fn global_grants_direct_exec(roles: &Vec<Role>, user: &User, p: Permission) -> (r: bool)
    ensures
        r == global_grants_direct(roles@, *user, p),
{
    let mut k: usize = 0;
    while k < user.global_roles.len()
        invariant
            k <= user.global_roles@.len(),
            forall|x: int|
                0 <= x < k ==> !role_has_perm(roles@, #[trigger] user.global_roles@[x], p),
        decreases user.global_roles@.len() - k,
    {
        if role_has_perm_exec(roles, user.global_roles[k], p) {
            proof {
                assert(role_has_perm(roles@, user.global_roles@[k as int], p));
                assert(global_grants_direct(roles@, *user, p));
            }
            return true;
        }
        k = k + 1;
    }
    false
}

/// Whether the user is an administrator.
pub fn is_admin(roles: &Vec<Role>, user: &User) -> (r: bool)
    ensures
        r == is_admin_spec(roles@, *user),
{
    global_grants_direct_exec(roles, user, Permission::Root)
}

fn account_role_of_exec(user: &User, account_id: u64) -> (r: Option<u64>)
    ensures
        r == account_role_of(*user, account_id),
{
    let ghost m = user.account_access_map@;
    proof {
        assert(m.subrange(0, m.len() as int) =~= m);
    }
    let mut i: usize = 0;
    while i < user.account_access_map.len()
        invariant
            m == user.account_access_map@,
            i <= m.len(),
            role_in_map(m, account_id) == role_in_map(
                m.subrange(i as int, m.len() as int),
                account_id,
            ),
        decreases m.len() - i,
    {
        let ghost tail = m.subrange(i as int, m.len() as int);
        proof {
            assert(tail[0] == m[i as int]);
            assert(tail.drop_first() =~= m.subrange(i + 1, m.len() as int));
        }
        if user.account_access_map[i].0 == account_id {
            return Some(user.account_access_map[i].1);
        }
        i = i + 1;
    }
    proof {
        assert(m.subrange(m.len() as int, m.len() as int) =~= Seq::<(u64, u64)>::empty());
    }
    None
}

/// Decides a permission for a user, optionally on one account.
pub fn has_permission(roles: &Vec<Role>, user: &User, account_id: Option<u64>, p: Permission) -> (r:
    bool)
    ensures
        r == has_permission_spec(roles@, *user, account_id, p),
{
    if is_admin(roles, user) {
        return true;
    }
    if global_grants_direct_exec(roles, user, p) {
        return true;
    }
    let implied = match p {
        Permission::DataRead => global_grants_direct_exec(roles, user, Permission::DataReadAll),
        Permission::DataDelete => global_grants_direct_exec(
            roles,
            user,
            Permission::DataDeleteAll,
        ),
        Permission::DataRawDownload => global_grants_direct_exec(
            roles,
            user,
            Permission::DataRawDownloadAll,
        ),
        Permission::DataExportBatch => global_grants_direct_exec(
            roles,
            user,
            Permission::DataExportBatchAll,
        ),
        Permission::AccountManage => global_grants_direct_exec(
            roles,
            user,
            Permission::AccountManageAll,
        ),
        Permission::AccountReadDetails => global_grants_direct_exec(
            roles,
            user,
            Permission::AccountManageAll,
        ),
        _ => false,
    };
    if implied {
        return true;
    }
    match account_id {
        Some(aid) => {
            match account_role_of_exec(user, aid) {
                Some(rid) => {
                    if role_has_perm_exec(roles, rid, p) {
                        true
                    } else if p == Permission::DataRead || p == Permission::AccountReadDetails {
                        role_has_perm_exec(roles, rid, Permission::AccountManage)
                    } else {
                        false
                    }
                },
                None => false,
            }
        },
        None => false,
    }
}

/// Turns a negative permission decision into a forbidden error: grants
/// pass, and exactly the denials fail.
pub fn require_permission(
    roles: &Vec<Role>,
    user: &User,
    account_id: Option<u64>,
    p: Permission,
) -> (r: Result<(), BichonError>)
    ensures
        r is Ok <==> has_permission_spec(roles@, *user, account_id, p),
        r matches Err(e) ==> e.code == ErrorCode::Forbidden,
{
    if has_permission(roles, user, account_id, p) {
        Result::Ok(())
    } else {
        Result::Err(
            BichonError::new(
                ErrorCode::Forbidden,
                String::from_str("access denied: missing permission"),
            ),
        )
    }
}

/// Passes when any one of the requirements is granted; fails exactly when
/// all are denied.
pub fn require_any_permission(
    roles: &Vec<Role>,
    user: &User,
    requirements: &Vec<(Option<u64>, Permission)>,
) -> (r: Result<(), BichonError>)
    ensures
        r is Ok <==> exists|i: int|
            0 <= i < requirements@.len() && has_permission_spec(
                roles@,
                *user,
                (#[trigger] requirements@[i]).0,
                requirements@[i].1,
            ),
        r matches Err(e) ==> e.code == ErrorCode::Forbidden,
{
    let mut i: usize = 0;
    while i < requirements.len()
        invariant
            i <= requirements@.len(),
            forall|k: int|
                0 <= k < i ==> !has_permission_spec(
                    roles@,
                    *user,
                    (#[trigger] requirements@[k]).0,
                    requirements@[k].1,
                ),
        decreases requirements@.len() - i,
    {
        if has_permission(roles, user, requirements[i].0, requirements[i].1) {
            return Result::Ok(());
        }
        i = i + 1;
    }
    Result::Err(
        BichonError::new(
            ErrorCode::Forbidden,
            String::from_str("access denied: none of the permissions is held"),
        ),
    )
}

/// The accounts a search is restricted to: none for a caller who may read
/// all data, else exactly the keys of the caller's account map.
pub fn allowed_accounts_for(roles: &Vec<Role>, user: &User) -> (r: Option<Vec<u64>>)
    ensures
        r is None <==> has_permission_spec(roles@, *user, None, Permission::DataReadAll),
        r matches Some(v) ==> v@.len() == user.account_access_map@.len() && forall|i: int|
            0 <= i < v@.len() ==> #[trigger] v@[i] == user.account_access_map@[i].0,
{
    if has_permission(roles, user, None, Permission::DataReadAll) {
        return None;
    }
    let mut out: Vec<u64> = Vec::new();
    let mut i: usize = 0;
    while i < user.account_access_map.len()
        invariant
            i <= user.account_access_map@.len(),
            out@.len() == i,
            forall|k: int| 0 <= k < i ==> #[trigger] out@[k] == user.account_access_map@[k].0,
        decreases user.account_access_map@.len() - i,
    {
        out.push(user.account_access_map[i].0);
        i = i + 1;
    }
    Some(out)
}

/// How a presented bearer token resolves at an instant: valid, expired, or
/// of an unknown kind of expiry.
#[derive(Clone, Copy, Debug, PartialEq, Eq, Structural)]
pub enum TokenDecision {
    Valid,
    Expired,
}

/// Whether a token is expired at `now_ms`: a browser token by age, an API
/// token by its explicit instant.
pub open spec fn token_expired(t: AccessToken, now_ms: i64, webui_max_age_ms: i64) -> bool {
    match t.token_type {
        TokenType::WebUI => now_ms - t.created_at > webui_max_age_ms,
        TokenType::Api => match t.expire_at {
            Some(e) => now_ms > e,
            None => false,
        },
    }
}

/// Decides whether a token is still valid at `now_ms`.
pub fn check_token(t: &AccessToken, now_ms: i64, webui_max_age_ms: i64) -> (r: TokenDecision)
    requires
        t.created_at >= 0,
        now_ms >= 0,
        webui_max_age_ms >= 0,
    ensures
        r == TokenDecision::Valid <==> !token_expired(*t, now_ms, webui_max_age_ms),
{
    match t.token_type {
        TokenType::WebUI => {
            if now_ms >= t.created_at && now_ms - t.created_at > webui_max_age_ms {
                TokenDecision::Expired
            } else {
                TokenDecision::Valid
            }
        },
        TokenType::Api => {
            match t.expire_at {
                Some(e) => if now_ms > e {
                    TokenDecision::Expired
                } else {
                    TokenDecision::Valid
                },
                None => TokenDecision::Valid,
            }
        },
    }
}

/// The token of an `Authorization` header value: the text after the
/// `Bearer ` scheme, where the value starts with it.
pub open spec fn spec_bearer_of(h: Seq<char>) -> Option<Seq<char>> {
    if h.len() >= 7 && h.subrange(0, 7) == "Bearer "@ {
        Some(h.subrange(7, h.len() as int))
    } else {
        None
    }
}

/// The token a request presents: the header's `Bearer` value where well
/// formed, else the query-string token.
pub open spec fn spec_presented_token(h: Option<Seq<char>>, q: Option<Seq<char>>) -> Option<
    Seq<char>,
> {
    match h {
        Some(hv) => match spec_bearer_of(hv) {
            Some(t) => Some(t),
            None => q,
        },
        None => q,
    }
}

/// Extracts the bearer token of a request from the `Authorization` header
/// or the query string; a missing token is the caller's permission-denied.
pub fn extract_bearer_token(header: Option<&String>, query_token: Option<&String>) -> (r: Option<
    String,
>)
    ensures
        r.deep_view() == spec_presented_token(
            match header {
                Some(h) => Some(h@),
                None => None,
            },
            match query_token {
                Some(q) => Some(q@),
                None => None,
            },
        ),
{
    match header {
        Some(h) => {
            let hl = h.as_str().unicode_len();
            let mut ok = hl >= 7;
            if ok {
                proof {
                    reveal_strlit("Bearer ");
                }
                ok = h.as_str().get_char(0) == 'B' && h.as_str().get_char(1) == 'e'
                    && h.as_str().get_char(2) == 'a' && h.as_str().get_char(3) == 'r'
                    && h.as_str().get_char(4) == 'e' && h.as_str().get_char(5) == 'r'
                    && h.as_str().get_char(6) == ' ';
                proof {
                    if ok {
                        assert(h@.subrange(0, 7) =~= "Bearer "@);
                    } else {
                        assert(h@.subrange(0, 7) != "Bearer "@) by {
                            if h@.subrange(0, 7) == "Bearer "@ {
                                assert(h@.subrange(0, 7)[0] == h@[0]);
                                assert(h@.subrange(0, 7)[1] == h@[1]);
                                assert(h@.subrange(0, 7)[2] == h@[2]);
                                assert(h@.subrange(0, 7)[3] == h@[3]);
                                assert(h@.subrange(0, 7)[4] == h@[4]);
                                assert(h@.subrange(0, 7)[5] == h@[5]);
                                assert(h@.subrange(0, 7)[6] == h@[6]);
                            }
                        }
                    }
                }
            }
            if ok {
                Some(String::from_str(h.as_str().substring_char(7, hl)))
            } else {
                match query_token {
                    Some(q) => Some(q.clone()),
                    None => None,
                }
            }
        },
        None => {
            match query_token {
                Some(q) => Some(q.clone()),
                None => None,
            }
        },
    }
}

/// Whether a client address passes the user's allow-list: a user without a
/// list admits every address; a configured list admits exactly its
/// members.
pub open spec fn ip_allowed_spec(u: User, ip: Seq<char>) -> bool {
    match u.ip_whitelist {
        Some(l) => exists|i: int| 0 <= i < l@.len() && (#[trigger] l@[i])@ == ip,
        None => true,
    }
}

/// The allow-list check of the request middleware.
pub fn ip_allowed(u: &User, ip: &String) -> (r: bool)
    ensures
        r == ip_allowed_spec(*u, ip@),
{
    match &u.ip_whitelist {
        Some(list) => {
            let mut i: usize = 0;
            while i < list.len()
                invariant
                    u.ip_whitelist == Some(*list),
                    i <= list@.len(),
                    forall|k: int| 0 <= k < i ==> (#[trigger] list@[k])@ != ip@,
                decreases list@.len() - i,
            {
                if crate::query::string_eq(&list[i], ip) {
                    proof {
                        let l = u.ip_whitelist->Some_0;
                        assert(l == *list);
                        assert(l@[i as int]@ == ip@);
                        assert(ip_allowed_spec(*u, ip@));
                    }
                    return true;
                }
                i = i + 1;
            }
            false
        },
        None => true,
    }
}

/// Whether some token record carries this value.
pub open spec fn token_listed(ts: Seq<AccessToken>, v: Seq<char>) -> bool {
    exists|i: int| 0 <= i < ts.len() && (#[trigger] ts[i]).token@ == v
}

/// Whether `t2` is `t` with its last access stamped at `now_ms`.
pub open spec fn with_access_stamp(t: AccessToken, t2: AccessToken, now_ms: i64) -> bool {
    &&& t2.last_access_at == now_ms
    &&& t2.token == t.token
    &&& t2.user_id == t.user_id
    &&& t2.name == t.name
    &&& t2.token_type == t.token_type
    &&& t2.created_at == t.created_at
    &&& t2.updated_at == t.updated_at
    &&& t2.expire_at == t.expire_at
}

/// The middleware's token resolution: finds the record carrying the
/// presented value, refuses an expired one, stamps an accepted API token's
/// last access, and yields the owning user's id on acceptance. Every other
/// record survives unchanged.
pub fn resolve_token(
    tokens: &mut Vec<AccessToken>,
    presented: &String,
    now_ms: i64,
    webui_max_age_ms: i64,
) -> (r: Option<u64>)
    requires
        now_ms >= 0,
        webui_max_age_ms >= 0,
        forall|i: int| 0 <= i < old(tokens)@.len() ==> (#[trigger] old(tokens)@[i]).created_at >= 0,
    ensures
        final(tokens)@.len() == old(tokens)@.len(),
        !token_listed(old(tokens)@, presented@) ==> r is None && final(tokens)@ == old(tokens)@,
        r is None ==> final(tokens)@ == old(tokens)@,
        forall|i: int|
            0 <= i < old(tokens)@.len() && (#[trigger] old(tokens)@[i]).token@ != presented@
                ==> final(tokens)@[i] == old(tokens)@[i],
        r matches Some(uid) ==> exists|i: int|
            0 <= i < old(tokens)@.len() && (#[trigger] old(tokens)@[i]).token@ == presented@
                && !token_expired(old(tokens)@[i], now_ms, webui_max_age_ms) && old(
                tokens,
            )@[i].user_id == uid && (old(tokens)@[i].token_type == TokenType::Api
                ==> with_access_stamp(old(tokens)@[i], final(tokens)@[i], now_ms)) && (old(
                tokens,
            )@[i].token_type == TokenType::WebUI ==> final(tokens)@[i] == old(tokens)@[i]),
{
    let mut i: usize = 0;
    let n = tokens.len();
    while i < n
        invariant
            n == tokens@.len(),
            tokens@ == old(tokens)@,
            i <= n,
            now_ms >= 0,
            webui_max_age_ms >= 0,
            forall|k: int|
                0 <= k < old(tokens)@.len() ==> (#[trigger] old(tokens)@[k]).created_at >= 0,
            forall|k: int| 0 <= k < i ==> (#[trigger] tokens@[k]).token@ != presented@,
        decreases n - i,
    {
        if crate::query::string_eq(&tokens[i].token, presented) {
            proof {
                assert(old(tokens)@[i as int].created_at >= 0);
            }
            let decision = check_token(&tokens[i], now_ms, webui_max_age_ms);
            match decision {
                TokenDecision::Expired => {
                    return None;
                },
                TokenDecision::Valid => {
                    let uid = tokens[i].user_id;
                    let is_api = match tokens[i].token_type {
                        TokenType::Api => true,
                        TokenType::WebUI => false,
                    };
                    if is_api {
                        let ghost pre = tokens@;
                        let mut t = tokens.remove(i);
                        t.last_access_at = now_ms;
                        tokens.insert(i, t);
                        proof {
                            assert(tokens@.len() == pre.len());
                            assert(forall|k: int|
                                0 <= k < pre.len() && k != i ==> tokens@[k] == pre[k]);
                            assert(with_access_stamp(pre[i as int], tokens@[i as int], now_ms));
                        }
                    }
                    return Some(uid);
                },
            }
        }
        i = i + 1;
    }
    None
}

/// One user's sliding-window rate limiter state: the instants of the
/// requests admitted so far, in admission order.
pub struct RateLimiter {
    pub admitted: Vec<i64>,
    /// How many requests the window may hold.
    pub quota: u32,
    /// The window length, in milliseconds.
    pub interval_ms: u64,
}

/// How many admitted instants lie inside the window `(t - interval, t]`.
pub open spec fn count_in_window(s: Seq<i64>, t: int, interval_ms: int) -> int
    decreases s.len(),
{
    if s.len() == 0 {
        0
    } else {
        count_in_window(s.drop_last(), t, interval_ms) + (if t - interval_ms < s.last()
            && s.last() <= t {
            1int
        } else {
            0int
        })
    }
}

impl RateLimiter {
    /// Instants are recorded in order.
    pub open spec fn wf(&self) -> bool {
        &&& self.quota > 0
        &&& forall|i: int, j: int|
            0 <= i < j < self.admitted@.len() ==> (#[trigger] self.admitted@[i])
                <= (#[trigger] self.admitted@[j])
        &&& forall|t: int|
            count_in_window(self.admitted@, t, self.interval_ms as int) <= self.quota
    }

    pub fn new(quota: u32, interval_secs: u32) -> (r: RateLimiter)
        requires
            quota > 0,
        ensures
            r.wf(),
            r.quota == quota,
            r.interval_ms == interval_secs * 1000,
            r.admitted@ =~= Seq::<i64>::empty(),
    {
        let r = RateLimiter {
            admitted: Vec::new(),
            quota,
            interval_ms: (interval_secs as u64) * 1000,
        };
        proof {
            assert(r.admitted@ =~= Seq::<i64>::empty());
            assert forall|t: int|
                count_in_window(r.admitted@, t, r.interval_ms as int) <= r.quota by {
                assert(count_in_window(r.admitted@, t, r.interval_ms as int) == 0);
            }
        }
        r
    }

    /// Counts the admitted instants inside the window ending at `now_ms`.
    fn window_count(&self, now_ms: i64) -> (r: u64)
        requires
            self.admitted@.len() <= u64::MAX,
        ensures
            r == count_in_window(self.admitted@, now_ms as int, self.interval_ms as int),
    {
        let mut count: u64 = 0;
        let mut i: usize = 0;
        proof {
            assert(self.admitted@.subrange(0, 0) =~= Seq::<i64>::empty());
        }
        while i < self.admitted.len()
            invariant
                self.admitted@.len() <= u64::MAX,
                i <= self.admitted@.len(),
                count <= i,
                count == count_in_window(
                    self.admitted@.subrange(0, i as int),
                    now_ms as int,
                    self.interval_ms as int,
                ),
            decreases self.admitted@.len() - i,
        {
            proof {
                assert(self.admitted@.subrange(0, i + 1).drop_last() =~= self.admitted@.subrange(
                    0,
                    i as int,
                ));
                assert(self.admitted@.subrange(0, i + 1).last() == self.admitted@[i as int]);
            }
            let a = self.admitted[i];
            let in_window = a <= now_ms && ((now_ms as i128) - (self.interval_ms as i128)
                < (a as i128));
            if in_window {
                count = count + 1;
            }
            i = i + 1;
        }
        proof {
            assert(self.admitted@.subrange(0, self.admitted@.len() as int) =~= self.admitted@);
        }
        count
    }

    /// Admits or rejects a request at `now_ms`: admitted exactly when the
    /// sliding window still has room, and the instant is then recorded. A
    /// rejection reports a positive wait in seconds and records nothing,
    /// so no window ever holds more than the quota.
    pub fn check(&mut self, now_ms: i64) -> (r: Result<(), u64>)
        requires
            old(self).wf(),
            old(self).admitted@.len() <= u64::MAX,
            forall|i: int|
                0 <= i < old(self).admitted@.len() ==> #[trigger] old(self).admitted@[i] <= now_ms,
        ensures
            final(self).wf(),
            final(self).quota == old(self).quota,
            final(self).interval_ms == old(self).interval_ms,
            r is Ok <==> count_in_window(
                old(self).admitted@,
                now_ms as int,
                old(self).interval_ms as int,
            ) < old(self).quota,
            r is Ok ==> final(self).admitted@ =~= old(self).admitted@.push(now_ms),
            r is Err ==> final(self).admitted@ == old(self).admitted@,
            r matches Err(w) ==> w > 0,
    {
        let current = self.window_count(now_ms);
        if current < self.quota as u64 {
            proof {
                let s = self.admitted@;
                let iv = self.interval_ms as int;
                assert forall|t: int| count_in_window(s.push(now_ms), t, iv) <= self.quota by {
                    assert(s.push(now_ms).drop_last() =~= s);
                    assert(s.push(now_ms).last() == now_ms);
                    if t - iv < now_ms <= t {
                        lemma_count_window_mono(s, t, now_ms as int, iv);
                    }
                }
            }
            self.admitted.push(now_ms);
            Result::Ok(())
        } else {
            let wait = if self.interval_ms >= 1000 {
                self.interval_ms / 1000
            } else {
                1
            };
            let w = if wait == 0 {
                1
            } else {
                wait
            };
            Result::Err(w)
        }
    }
}

/// For instants all at or before `now`, a window ending earlier than `now`
/// holds at most as many as some window; in particular any window count
/// stays bounded by the count of its own instants. Stated for the bound
/// needed by admission: if every recorded window respects the quota before
/// a push at `now`, then after pushing `now` every window respects it too,
/// because a window containing `now` ends at or after `now`, and its other
/// members lie in the window ending at `now`.
proof fn lemma_count_window_mono(s: Seq<i64>, t: int, now: int, interval: int)
    requires
        forall|i: int| 0 <= i < s.len() ==> #[trigger] s[i] <= now,
        t - interval < now <= t,
    ensures
        count_in_window(s, t, interval) <= count_in_window(s, now, interval),
    decreases s.len(),
{
    if s.len() > 0 {
        lemma_count_window_mono(s.drop_last(), t, now, interval);
    }
}

} // verus!
