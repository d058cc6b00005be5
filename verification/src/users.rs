//! User management: login, creation with conflict checks, field-wise
//! update, removal with token cleanup, and account cleanup across users.
//! The default administrator is protected: its roles are immutable and it
//! cannot be removed.

use crate::auth::AccessToken;
use crate::auth::User;
use crate::crypto::decrypt_string;
use crate::crypto::spec_decrypt;
use crate::error::BichonError;
use crate::error::ErrorCode;
use crate::query::string_eq;
use vstd::prelude::*;
use vstd::string::StringExecFns;
use vstd::string::StringSliceAdditionalSpecFns;

verus! {

/// A login request.
#[derive(Clone, Debug, PartialEq, Eq)]
pub struct LoginPayload {
    pub username: String,
    pub password: String,
}

/// The reserved id of the default administrator.
pub const DEFAULT_ADMIN_USER_ID: u64 = 100000000000000;

/// What a login attempt yields.
#[derive(Clone, Copy, Debug, PartialEq, Eq, Structural)]
pub enum LoginOutcome {
    /// The password matched; a fresh browser token should be issued.
    Accepted,
    /// No user carries this username or email.
    UnknownUser,
    /// The password did not match.
    WrongPassword,
    /// The user has no password set and must use another method.
    NoPassword,
}

/// The first user carrying this username, then this email.
pub open spec fn user_by_login(users: Seq<User>, login: Seq<char>) -> Option<User>
    decreases users.len(), 1int,
{
    match first_by_username(users, login) {
        Some(u) => Some(u),
        None => first_by_email(users, login),
    }
}

/// The first user carrying this username.
pub open spec fn first_by_username(users: Seq<User>, name: Seq<char>) -> Option<User>
    decreases users.len(), 0int,
{
    if users.len() == 0 {
        None
    } else if users[0].username@ == name {
        Some(users[0])
    } else {
        first_by_username(users.drop_first(), name)
    }
}

/// The first user carrying this email.
pub open spec fn first_by_email(users: Seq<User>, email: Seq<char>) -> Option<User>
    decreases users.len(), 0int,
{
    if users.len() == 0 {
        None
    } else if users[0].email@ == email {
        Some(users[0])
    } else {
        first_by_email(users.drop_first(), email)
    }
}

fn find_by_username<'a>(users: &'a Vec<User>, name: &String) -> (r: Option<&'a User>)
    ensures
        match r {
            Some(u) => first_by_username(users@, name@) == Some(*u),
            None => first_by_username(users@, name@) is None,
        },
{
    proof {
        assert(users@.subrange(0, users@.len() as int) =~= users@);
    }
    let mut i: usize = 0;
    while i < users.len()
        invariant
            i <= users@.len(),
            first_by_username(users@, name@) == first_by_username(
                users@.subrange(i as int, users@.len() as int),
                name@,
            ),
        decreases users@.len() - i,
    {
        let ghost tail = users@.subrange(i as int, users@.len() as int);
        proof {
            assert(tail[0] == users@[i as int]);
            assert(tail.drop_first() =~= users@.subrange(i + 1, users@.len() as int));
        }
        if string_eq(&users[i].username, name) {
            return Some(&users[i]);
        }
        i = i + 1;
    }
    proof {
        assert(users@.subrange(users@.len() as int, users@.len() as int) =~= Seq::<User>::empty());
    }
    None
}

fn find_by_email<'a>(users: &'a Vec<User>, email: &String) -> (r: Option<&'a User>)
    ensures
        match r {
            Some(u) => first_by_email(users@, email@) == Some(*u),
            None => first_by_email(users@, email@) is None,
        },
{
    proof {
        assert(users@.subrange(0, users@.len() as int) =~= users@);
    }
    let mut i: usize = 0;
    while i < users.len()
        invariant
            i <= users@.len(),
            first_by_email(users@, email@) == first_by_email(
                users@.subrange(i as int, users@.len() as int),
                email@,
            ),
        decreases users@.len() - i,
    {
        let ghost tail = users@.subrange(i as int, users@.len() as int);
        proof {
            assert(tail[0] == users@[i as int]);
            assert(tail.drop_first() =~= users@.subrange(i + 1, users@.len() as int));
        }
        if string_eq(&users[i].email, email) {
            return Some(&users[i]);
        }
        i = i + 1;
    }
    proof {
        assert(users@.subrange(users@.len() as int, users@.len() as int) =~= Seq::<User>::empty());
    }
    None
}

/// Decides a login: the user is looked up by username, then by email; a
/// stored password is decrypted under the key material and compared. The
/// outcome says exactly which check failed.
pub fn authenticate_user(users: &Vec<User>, master: &str, login: &String, password: &String) -> (r:
    (LoginOutcome, u64))
    ensures
        ({
            let found = user_by_login(users@, login@);
            match found {
                None => r.0 == LoginOutcome::UnknownUser,
                Some(u) => {
                    &&& (r.0 == LoginOutcome::Accepted ==> r.1 == u.id)
                    &&& match u.password {
                        None => r.0 == LoginOutcome::NoPassword,
                        Some(enc) => {
                            &&& (r.0 == LoginOutcome::Accepted <==> spec_decrypt(
                                master.spec_bytes(),
                                enc@,
                            ) == Some(password@))
                            &&& (r.0 == LoginOutcome::Accepted || r.0
                                == LoginOutcome::WrongPassword)
                        },
                    }
                },
            }
        }),
{
    let found = match find_by_username(users, login) {
        Some(u) => Some(u),
        None => find_by_email(users, login),
    };
    let user = match found {
        Some(u) => u,
        None => {
            return (LoginOutcome::UnknownUser, 0);
        },
    };
    match &user.password {
        None => (LoginOutcome::NoPassword, user.id),
        Some(enc) => {
            match decrypt_string(master, enc.as_str()) {
                Result::Ok(plain) => {
                    if string_eq(&plain, password) {
                        (LoginOutcome::Accepted, user.id)
                    } else {
                        (LoginOutcome::WrongPassword, user.id)
                    }
                },
                Result::Err(_) => (LoginOutcome::WrongPassword, user.id),
            }
        },
    }
}

/// Whether a username is taken.
pub fn check_username_conflict(users: &Vec<User>, username: &String) -> (r: Result<
    (),
    BichonError,
>)
    ensures
        r is Ok <==> first_by_username(users@, username@) is None,
        r matches Err(e) ==> e.code == ErrorCode::AlreadyExists,
{
    match find_by_username(users, username) {
        Some(_) => Result::Err(
            BichonError::new(
                ErrorCode::AlreadyExists,
                String::from_str("this username is already taken"),
            ),
        ),
        None => Result::Ok(()),
    }
}

/// Whether an email is registered.
pub fn check_email_conflict(users: &Vec<User>, email: &String) -> (r: Result<(), BichonError>)
    ensures
        r is Ok <==> first_by_email(users@, email@) is None,
        r matches Err(e) ==> e.code == ErrorCode::AlreadyExists,
{
    match find_by_email(users, email) {
        Some(_) => Result::Err(
            BichonError::new(
                ErrorCode::AlreadyExists,
                String::from_str("this email is already registered"),
            ),
        ),
        None => Result::Ok(()),
    }
}

/// Adds a user after the conflict checks: fails exactly when the username
/// or email is taken, and nothing changes then.
pub fn create_user(users: &mut Vec<User>, user: User) -> (r: Result<(), BichonError>)
    ensures
        r is Ok <==> (first_by_username(old(users)@, user.username@) is None && first_by_email(
            old(users)@,
            user.email@,
        ) is None),
        r is Ok ==> final(users)@ =~= old(users)@.push(user),
        r is Err ==> final(users)@ == old(users)@,
        r matches Err(e) ==> e.code == ErrorCode::AlreadyExists,
{
    match check_username_conflict(users, &user.username) {
        Result::Ok(_) => {},
        Result::Err(e) => {
            return Result::Err(e);
        },
    }
    match check_email_conflict(users, &user.email) {
        Result::Ok(_) => {},
        Result::Err(e) => {
            return Result::Err(e);
        },
    }
    users.push(user);
    Result::Ok(())
}

/// The whole composition of user creation: under a supplied fresh id, the
/// password is encrypted at rest, and the user row and an initial WebUI
/// token are stored together; a taken username or email is a conflict, and
/// nothing is stored on any failure. The token's value is drawn from the
/// system's randomness.
pub fn register_user(
    users: &mut Vec<User>,
    tokens: &mut Vec<AccessToken>,
    master: &str,
    username: String,
    email: String,
    password: &str,
    global_roles: Vec<u64>,
    account_access_map: Vec<(u64, u64)>,
    new_id: u64,
    now_ms: i64,
) -> (r: Result<u64, BichonError>)
    requires
        !user_id_exists(old(users)@, new_id),
    ensures
        r is Err ==> final(users)@ == old(users)@ && final(tokens)@ == old(tokens)@,
        r matches Err(e) ==> (e.code == ErrorCode::AlreadyExists <==> (first_by_username(
            old(users)@,
            username@,
        ) is Some || first_by_email(old(users)@, email@) is Some)),
        r matches Err(e) ==> e.code == ErrorCode::AlreadyExists || e.code
            == ErrorCode::InternalError,
        (first_by_username(old(users)@, username@) is Some || first_by_email(
            old(users)@,
            email@,
        ) is Some) ==> r is Err,
        r matches Ok(uid) ==> ({
            let u = final(users)@[old(users)@.len() as int];
            let t = final(tokens)@[old(tokens)@.len() as int];
            &&& uid == new_id
            &&& final(users)@ =~= old(users)@.push(u)
            &&& final(tokens)@ =~= old(tokens)@.push(t)
            &&& u.id == new_id
            &&& u.username@ == username@
            &&& u.email@ == email@
            &&& u.global_roles@ == global_roles@
            &&& u.account_access_map@ == account_access_map@
            &&& u.created_at == now_ms
            &&& u.updated_at == now_ms
            &&& (u.password matches Some(p) && crate::crypto::spec_decrypt(
                master.spec_bytes(),
                p@,
            ) == Some(password@))
            &&& t.user_id == new_id
            &&& t.token_type == crate::auth::TokenType::WebUI
            &&& t.expire_at is None
            &&& t.created_at == now_ms
        }),
{
    match check_username_conflict(users, &username) {
        Result::Ok(_) => {},
        Result::Err(e) => {
            return Result::Err(e);
        },
    }
    match check_email_conflict(users, &email) {
        Result::Ok(_) => {},
        Result::Err(e) => {
            return Result::Err(e);
        },
    }
    let encrypted = match crate::crypto::internal_encrypt_string(master, password) {
        Result::Ok(c) => c,
        Result::Err(e) => {
            return Result::Err(e);
        },
    };
    let token_bytes = match crate::crypto::fill_random(32) {
        Some(b) => b,
        None => {
            return Result::Err(
                BichonError::new(
                    ErrorCode::InternalError,
                    String::from_str("the system's random generator refused to fill the token"),
                ),
            );
        },
    };
    let token_value = crate::ingest::b64_url_encode(token_bytes.as_slice());
    let user = User {
        id: new_id,
        username,
        email,
        password: Some(encrypted),
        global_roles,
        account_access_map,
        ip_whitelist: None,
        rate_limit: None,
        created_at: now_ms,
        updated_at: now_ms,
    };
    users.push(user);
    let token = AccessToken {
        token: token_value,
        user_id: new_id,
        name: Some(String::from_str("Default WebUI Token")),
        token_type: crate::auth::TokenType::WebUI,
        created_at: now_ms,
        updated_at: now_ms,
        expire_at: None,
        last_access_at: 0,
    };
    tokens.push(token);
    Result::Ok(new_id)
}

/// Resets a user's WebUI session on login: every WebUI token of the user
/// is dropped, one fresh token drawn from the system's randomness is
/// stored behind the kept records, and every other record survives in
/// order — so the user never holds more than one WebUI token. Yields the
/// new token's value; a refusal of the generator changes nothing.
pub fn reset_webui_token(tokens: &mut Vec<AccessToken>, user_id: u64, now_ms: i64) -> (r: Result<
    String,
    BichonError,
>)
    ensures
        r is Err ==> final(tokens)@ == old(tokens)@,
        r matches Err(e) ==> e.code == ErrorCode::InternalError,
        r matches Ok(v) ==> ({
            let kept = old(tokens)@.filter(
                |t: AccessToken|
                    !(t.user_id == user_id && t.token_type == crate::auth::TokenType::WebUI),
            );
            &&& final(tokens)@.len() == kept.len() + 1
            &&& final(tokens)@.subrange(0, kept.len() as int) =~= kept
            &&& final(tokens)@[kept.len() as int].user_id == user_id
            &&& final(tokens)@[kept.len() as int].token_type == crate::auth::TokenType::WebUI
            &&& final(tokens)@[kept.len() as int].token@ == v@
            &&& final(tokens)@[kept.len() as int].created_at == now_ms
        }),
{
    let token_bytes = match crate::crypto::fill_random(32) {
        Some(b) => b,
        None => {
            return Result::Err(
                BichonError::new(
                    ErrorCode::InternalError,
                    String::from_str("the system's random generator refused to fill the token"),
                ),
            );
        },
    };
    let value = crate::ingest::b64_url_encode(token_bytes.as_slice());
    let ghost tpred = |t: AccessToken|
        !(t.user_id == user_id && t.token_type == crate::auth::TokenType::WebUI);
    let ghost tpre = tokens@;
    let mut tkept: Vec<AccessToken> = Vec::new();
    proof {
        assert(tkept@ =~= tpre.subrange(0, 0).filter(tpred)) by {
            reveal(Seq::filter);
            assert(tpre.subrange(0, 0) =~= Seq::<AccessToken>::empty());
        }
    }
    let tn0 = tokens.len();
    let mut tdone: usize = 0;
    proof {
        assert(tokens@ =~= tpre.subrange(0, tpre.len() as int));
    }
    while tokens.len() > 0
        invariant
            tpre.len() == tn0,
            tpred == (|t: AccessToken|
                !(t.user_id == user_id && t.token_type == crate::auth::TokenType::WebUI)),
            tdone + tokens@.len() == tpre.len(),
            tokens@ =~= tpre.subrange(tdone as int, tpre.len() as int),
            tkept@ == tpre.subrange(0, tdone as int).filter(tpred),
        decreases tokens@.len(),
    {
        let ghost before = tokens@;
        let t = tokens.remove(0);
        proof {
            assert(t == before[0]);
            assert(before[0] == tpre[tdone as int]);
            assert(tokens@ =~= before.drop_first());
            assert(before.drop_first() =~= tpre.subrange(tdone + 1, tpre.len() as int));
            assert(tpre.subrange(0, tdone + 1).drop_last() =~= tpre.subrange(0, tdone as int));
            assert(tpre.subrange(0, tdone + 1).last() == tpre[tdone as int]);
            reveal(Seq::filter);
        }
        let keep = !(t.user_id == user_id && match t.token_type {
            crate::auth::TokenType::WebUI => true,
            crate::auth::TokenType::Api => false,
        });
        if keep {
            tkept.push(t);
        }
        tdone = tdone + 1;
    }
    proof {
        assert(tpre.subrange(0, tpre.len() as int) =~= tpre);
    }
    let mut final_tokens = tkept;
    core::mem::swap(tokens, &mut final_tokens);
    let ghost kept_now = tokens@;
    let fresh = AccessToken {
        token: value.clone(),
        user_id,
        name: Some(String::from_str("Default WebUI Token")),
        token_type: crate::auth::TokenType::WebUI,
        created_at: now_ms,
        updated_at: now_ms,
        expire_at: None,
        last_access_at: 0,
    };
    tokens.push(fresh);
    proof {
        assert(tokens@.subrange(0, kept_now.len() as int) =~= kept_now);
    }
    Result::Ok(value)
}

/// The requested changes of a user update: present fields replace the
/// stored ones.
pub struct UserUpdate {
    pub username: Option<String>,
    pub email: Option<String>,
    /// The new password, already encrypted at rest.
    pub encrypted_password: Option<String>,
    pub global_roles: Option<Vec<u64>>,
    pub account_access_map: Option<Vec<(u64, u64)>>,
    pub ip_whitelist: Option<Vec<String>>,
    pub rate_limit: Option<(u32, u32)>,
}

/// The stored user after an update is applied at `now_ms`.
pub open spec fn spec_apply_update(u: User, req: UserUpdate, now_ms: i64) -> User {
    User {
        username: match req.username {
            Some(n) => n,
            None => u.username,
        },
        email: match req.email {
            Some(e) => e,
            None => u.email,
        },
        password: match req.encrypted_password {
            Some(p) => Some(p),
            None => u.password,
        },
        global_roles: match req.global_roles {
            Some(g) => g,
            None => u.global_roles,
        },
        account_access_map: match req.account_access_map {
            Some(m) => m,
            None => u.account_access_map,
        },
        ip_whitelist: match req.ip_whitelist {
            Some(w) => Some(w),
            None => u.ip_whitelist,
        },
        rate_limit: match req.rate_limit {
            Some(r) => Some(r),
            None => u.rate_limit,
        },
        updated_at: now_ms,
        ..u
    }
}

/// Whether a user other than `id` holds this username.
pub open spec fn other_holds_username(users: Seq<User>, id: u64, name: Seq<char>) -> bool {
    exists|i: int|
        0 <= i < users.len() && (#[trigger] users[i]).username@ == name && users[i].id != id
}

/// Whether a user other than `id` holds this email.
pub open spec fn other_holds_email(users: Seq<User>, id: u64, email: Seq<char>) -> bool {
    exists|i: int| 0 <= i < users.len() && (#[trigger] users[i]).email@ == email && users[i].id != id
}

/// Whether an update would take a username already held by another user.
pub open spec fn username_conflicts(users: Seq<User>, id: u64, req: UserUpdate) -> bool {
    match req.username {
        Some(n) => other_holds_username(users, id, n@),
        None => false,
    }
}

/// Whether an update would take an email already held by another user.
pub open spec fn email_conflicts(users: Seq<User>, id: u64, req: UserUpdate) -> bool {
    match req.email {
        Some(e) => other_holds_email(users, id, e@),
        None => false,
    }
}

/// Whether a user other than `id` holds this username.
fn other_user_has_username(users: &Vec<User>, id: u64, name: &String) -> (r: bool)
    ensures
        r == other_holds_username(users@, id, name@),
{
    let mut i: usize = 0;
    while i < users.len()
        invariant
            i <= users@.len(),
            forall|k: int|
                0 <= k < i ==> !((#[trigger] users@[k]).username@ == name@ && users@[k].id != id),
        decreases users@.len() - i,
    {
        if users[i].id != id && crate::query::string_eq(&users[i].username, name) {
            return true;
        }
        i = i + 1;
    }
    false
}

/// Whether a user other than `id` holds this email.
fn other_user_has_email(users: &Vec<User>, id: u64, email: &String) -> (r: bool)
    ensures
        r == other_holds_email(users@, id, email@),
{
    let mut i: usize = 0;
    while i < users.len()
        invariant
            i <= users@.len(),
            forall|k: int|
                0 <= k < i ==> !((#[trigger] users@[k]).email@ == email@ && users@[k].id != id),
        decreases users@.len() - i,
    {
        if users[i].id != id && crate::query::string_eq(&users[i].email, email) {
            return true;
        }
        i = i + 1;
    }
    false
}

/// Applies an update to the user with this id. The default administrator's
/// role assignments are immutable; a request touching them is forbidden.
/// A username or email held by a different user is a conflict. Fails with
/// not-found exactly when no user carries the id; succeeds exactly when
/// none of the three stands in the way. Only the addressed user changes,
/// field for field as requested.
pub fn update_user(users: &mut Vec<User>, id: u64, req: UserUpdate, now_ms: i64) -> (r: Result<
    (),
    BichonError,
>)
    ensures
        r is Ok <==> (!(id == DEFAULT_ADMIN_USER_ID && req.global_roles is Some)
            && !username_conflicts(old(users)@, id, req) && !email_conflicts(old(users)@, id, req)
            && user_id_exists(old(users)@, id)),
        r matches Err(e) ==> final(users)@ == old(users)@ && e.code == (if id
            == DEFAULT_ADMIN_USER_ID && req.global_roles is Some {
            ErrorCode::Forbidden
        } else if username_conflicts(old(users)@, id, req) || email_conflicts(
            old(users)@,
            id,
            req,
        ) {
            ErrorCode::AlreadyExists
        } else {
            ErrorCode::ResourceNotFound
        }),
        r is Ok ==> exists|i: int|
            0 <= i < old(users)@.len() && (#[trigger] old(users)@[i]).id == id && final(users)@
                =~= old(users)@.update(i, spec_apply_update(old(users)@[i], req, now_ms)),
{
    if id == DEFAULT_ADMIN_USER_ID && req.global_roles.is_some() {
        return Result::Err(
            BichonError::new(
                ErrorCode::Forbidden,
                String::from_str("the default administrator's roles are immutable"),
            ),
        );
    }
    match &req.username {
        Some(n) => {
            if other_user_has_username(users, id, n) {
                return Result::Err(
                    BichonError::new(
                        ErrorCode::AlreadyExists,
                        String::from_str("this username is already taken"),
                    ),
                );
            }
        },
        None => {},
    }
    match &req.email {
        Some(e) => {
            if other_user_has_email(users, id, e) {
                return Result::Err(
                    BichonError::new(
                        ErrorCode::AlreadyExists,
                        String::from_str("this email is already registered"),
                    ),
                );
            }
        },
        None => {},
    }
    let mut idx: usize = 0;
    let mut found = false;
    while idx < users.len() && !found
        invariant
            users@ == old(users)@,
            idx <= users@.len(),
            found ==> idx < users@.len() && users@[idx as int].id == id,
            !found ==> forall|k: int| 0 <= k < idx ==> (#[trigger] users@[k]).id != id,
        decreases users@.len() - idx, (if found { 0int } else { 1int }),
    {
        if users[idx].id == id {
            found = true;
        } else {
            idx = idx + 1;
        }
    }
    if !found {
        return Result::Err(
            BichonError::new(ErrorCode::ResourceNotFound, String::from_str("user not found")),
        );
    }
    let cur = users.remove(idx);
    let ghost pre = old(users)@;
    let updated = User {
        username: match req.username {
            Some(n) => n,
            None => cur.username,
        },
        email: match req.email {
            Some(e) => e,
            None => cur.email,
        },
        password: match req.encrypted_password {
            Some(p) => Some(p),
            None => cur.password,
        },
        global_roles: match req.global_roles {
            Some(g) => g,
            None => cur.global_roles,
        },
        account_access_map: match req.account_access_map {
            Some(m) => m,
            None => cur.account_access_map,
        },
        ip_whitelist: match req.ip_whitelist {
            Some(w) => Some(w),
            None => cur.ip_whitelist,
        },
        rate_limit: match req.rate_limit {
            Some(r) => Some(r),
            None => cur.rate_limit,
        },
        updated_at: now_ms,
        ..cur
    };
    users.insert(idx, updated);
    proof {
        assert(users@ =~= pre.update(idx as int, spec_apply_update(pre[idx as int], req, now_ms)));
    }
    Result::Ok(())
}

/// Removes a user and every token of theirs. The default administrator
/// cannot be removed; otherwise fails exactly when the id is absent.
pub fn remove_user(users: &mut Vec<User>, tokens: &mut Vec<AccessToken>, id: u64) -> (r: Result<
    (),
    BichonError,
>)
    ensures
        id == DEFAULT_ADMIN_USER_ID ==> r is Err && final(users)@ == old(users)@ && final(tokens)@
            == old(tokens)@,
        r matches Err(e) ==> (e.code == ErrorCode::PermissionDenied || e.code
            == ErrorCode::ResourceNotFound),
        r is Err ==> final(users)@ == old(users)@ && final(tokens)@ == old(tokens)@,
        r is Ok ==> (forall|i: int|
            0 <= i < final(users)@.len() ==> (#[trigger] final(users)@[i]).id != id),
        r is Ok ==> final(users)@ =~= old(users)@.filter(|u: User| u.id != id),
        r is Ok ==> final(tokens)@ =~= old(tokens)@.filter(|t: AccessToken| t.user_id != id),
{
    if id == DEFAULT_ADMIN_USER_ID {
        return Result::Err(
            BichonError::new(
                ErrorCode::PermissionDenied,
                String::from_str("the default administrator cannot be removed"),
            ),
        );
    }
    let mut present = false;
    let mut i: usize = 0;
    while i < users.len()
        invariant
            users@ == old(users)@,
            i <= users@.len(),
            present <==> exists|k: int| 0 <= k < i && (#[trigger] users@[k]).id == id,
        decreases users@.len() - i,
    {
        if users[i].id == id {
            present = true;
        }
        i = i + 1;
    }
    if !present {
        return Result::Err(
            BichonError::new(ErrorCode::ResourceNotFound, String::from_str("user not found")),
        );
    }
    let ghost upred = |u: User| u.id != id;
    let ghost upre = users@;
    let mut kept: Vec<User> = Vec::new();
    proof {
        assert(kept@ =~= upre.subrange(0, 0).filter(upred)) by {
            reveal(Seq::filter);
            assert(upre.subrange(0, 0) =~= Seq::<User>::empty());
        }
    }
    let n0 = users.len();
    let mut done: usize = 0;
    proof {
        assert(users@ =~= upre.subrange(0, upre.len() as int));
    }
    while users.len() > 0
        invariant
            upre.len() == n0,
            upred == (|u: User| u.id != id),
            done + users@.len() == upre.len(),
            users@ =~= upre.subrange(done as int, upre.len() as int),
            kept@ == upre.subrange(0, done as int).filter(upred),
        decreases users@.len(),
    {
        let ghost before = users@;
        let u = users.remove(0);
        proof {
            assert(u == before[0]);
            assert(before[0] == upre[done as int]);
            assert(users@ =~= before.drop_first());
            assert(before.drop_first() =~= upre.subrange(done + 1, upre.len() as int));
            assert(upre.subrange(0, done + 1).drop_last() =~= upre.subrange(0, done as int));
            assert(upre.subrange(0, done + 1).last() == upre[done as int]);
            reveal(Seq::filter);
        }
        if u.id != id {
            kept.push(u);
        }
        done = done + 1;
    }
    proof {
        assert(upre.subrange(0, upre.len() as int) =~= upre);
    }
    let mut final_users = kept;
    core::mem::swap(users, &mut final_users);
    let ghost tpred = |t: AccessToken| t.user_id != id;
    let ghost tpre = tokens@;
    let mut tkept: Vec<AccessToken> = Vec::new();
    proof {
        assert(tkept@ =~= tpre.subrange(0, 0).filter(tpred)) by {
            reveal(Seq::filter);
            assert(tpre.subrange(0, 0) =~= Seq::<AccessToken>::empty());
        }
    }
    let tn0 = tokens.len();
    let mut tdone: usize = 0;
    proof {
        assert(tokens@ =~= tpre.subrange(0, tpre.len() as int));
    }
    while tokens.len() > 0
        invariant
            tpre.len() == tn0,
            tpred == (|t: AccessToken| t.user_id != id),
            tdone + tokens@.len() == tpre.len(),
            tokens@ =~= tpre.subrange(tdone as int, tpre.len() as int),
            tkept@ == tpre.subrange(0, tdone as int).filter(tpred),
        decreases tokens@.len(),
    {
        let ghost before = tokens@;
        let t = tokens.remove(0);
        proof {
            assert(t == before[0]);
            assert(before[0] == tpre[tdone as int]);
            assert(tokens@ =~= before.drop_first());
            assert(before.drop_first() =~= tpre.subrange(tdone + 1, tpre.len() as int));
            assert(tpre.subrange(0, tdone + 1).drop_last() =~= tpre.subrange(0, tdone as int));
            assert(tpre.subrange(0, tdone + 1).last() == tpre[tdone as int]);
            reveal(Seq::filter);
        }
        if t.user_id != id {
            tkept.push(t);
        }
        tdone = tdone + 1;
    }
    proof {
        assert(tpre.subrange(0, tpre.len() as int) =~= tpre);
    }
    let mut final_tokens = tkept;
    core::mem::swap(tokens, &mut final_tokens);
    proof {
        broadcast use vstd::seq_lib::group_filter_ensures;

        assert forall|i: int|
            0 <= i < users@.len() implies (#[trigger] users@[i]).id != id by {
        }
    }
    Result::Ok(())
}

/// A user as presented to clients: the password masked, the role names
/// resolved.
#[derive(Clone, Debug, PartialEq, Eq)]
pub struct UserView {
    pub id: u64,
    pub username: String,
    pub email: String,
    /// Whether a password is set; the value itself is never shown.
    pub has_password: bool,
    pub global_roles: Vec<u64>,
    pub global_roles_names: Vec<String>,
    pub account_access_map: Vec<(u64, u64)>,
}

/// The name of a role in a table, or empty where unknown.
pub open spec fn spec_role_name(roles: Seq<crate::auth::Role>, id: u64) -> Seq<char>
    decreases roles.len(),
{
    if roles.len() == 0 {
        Seq::empty()
    } else if roles[0].id == id {
        roles[0].name@
    } else {
        spec_role_name(roles.drop_first(), id)
    }
}

fn role_name(roles: &Vec<crate::auth::Role>, id: u64) -> (r: String)
    ensures
        r@ == spec_role_name(roles@, id),
{
    proof {
        assert(roles@.subrange(0, roles@.len() as int) =~= roles@);
    }
    let mut i: usize = 0;
    while i < roles.len()
        invariant
            i <= roles@.len(),
            spec_role_name(roles@, id) == spec_role_name(
                roles@.subrange(i as int, roles@.len() as int),
                id,
            ),
        decreases roles@.len() - i,
    {
        let ghost tail = roles@.subrange(i as int, roles@.len() as int);
        proof {
            assert(tail[0] == roles@[i as int]);
            assert(tail.drop_first() =~= roles@.subrange(i + 1, roles@.len() as int));
        }
        if roles[i].id == id {
            return roles[i].name.clone();
        }
        i = i + 1;
    }
    proof {
        assert(roles@.subrange(roles@.len() as int, roles@.len() as int)
            =~= Seq::<crate::auth::Role>::empty());
    }
    String::new()
}

/// Renders a user for clients: scalar fields copied, the password masked,
/// and each global role resolved to its name.
pub fn to_view(user: &User, roles: &Vec<crate::auth::Role>) -> (r: UserView)
    ensures
        r.id == user.id,
        r.username@ == user.username@,
        r.email@ == user.email@,
        r.has_password == (user.password is Some),
        r.global_roles@ == user.global_roles@,
        r.global_roles_names@.len() == user.global_roles@.len(),
        forall|i: int|
            0 <= i < r.global_roles_names@.len() ==> (#[trigger] r.global_roles_names@[i])@
                == spec_role_name(roles@, user.global_roles@[i]),
        r.account_access_map@ == user.account_access_map@,
{
    let mut names: Vec<String> = Vec::new();
    let mut i: usize = 0;
    while i < user.global_roles.len()
        invariant
            i <= user.global_roles@.len(),
            names@.len() == i,
            forall|k: int|
                0 <= k < i ==> (#[trigger] names@[k])@ == spec_role_name(
                    roles@,
                    user.global_roles@[k],
                ),
        decreases user.global_roles@.len() - i,
    {
        let n = role_name(roles, user.global_roles[i]);
        names.push(n);
        i = i + 1;
    }
    let mut map_copy: Vec<(u64, u64)> = Vec::new();
    let mut j: usize = 0;
    while j < user.account_access_map.len()
        invariant
            j <= user.account_access_map@.len(),
            map_copy@ == user.account_access_map@.subrange(0, j as int),
        decreases user.account_access_map@.len() - j,
    {
        map_copy.push(user.account_access_map[j]);
        proof {
            assert(user.account_access_map@.subrange(0, j + 1)
                =~= user.account_access_map@.subrange(0, j as int).push(
                user.account_access_map@[j as int],
            ));
        }
        j = j + 1;
    }
    proof {
        assert(user.account_access_map@.subrange(0, user.account_access_map@.len() as int)
            =~= user.account_access_map@);
    }
    let mut gr_copy: Vec<u64> = Vec::new();
    let mut k: usize = 0;
    while k < user.global_roles.len()
        invariant
            k <= user.global_roles@.len(),
            gr_copy@ == user.global_roles@.subrange(0, k as int),
        decreases user.global_roles@.len() - k,
    {
        gr_copy.push(user.global_roles[k]);
        proof {
            assert(user.global_roles@.subrange(0, k + 1) =~= user.global_roles@.subrange(
                0,
                k as int,
            ).push(user.global_roles@[k as int]));
        }
        k = k + 1;
    }
    proof {
        assert(user.global_roles@.subrange(0, user.global_roles@.len() as int)
            =~= user.global_roles@);
    }
    UserView {
        id: user.id,
        username: user.username.clone(),
        email: user.email.clone(),
        has_password: user.password.is_some(),
        global_roles: gr_copy,
        global_roles_names: names,
        account_access_map: map_copy,
    }
}

/// Whether some user carries this id.
pub open spec fn user_id_exists(users: Seq<User>, id: u64) -> bool {
    exists|u: int| 0 <= u < users.len() && (#[trigger] users[u]).id == id
}

/// An access map with every grant on the given account removed, in order.
pub open spec fn strip_map(s: Seq<(u64, u64)>, account_id: u64) -> Seq<(u64, u64)>
    decreases s.len(),
{
    if s.len() == 0 {
        Seq::empty()
    } else if s[0].0 == account_id {
        strip_map(s.drop_first(), account_id)
    } else {
        seq![s[0]] + strip_map(s.drop_first(), account_id)
    }
}

/// Whether `u2` is `u` with every grant on the given account removed and
/// everything else kept.
pub open spec fn ungranted(u: User, u2: User, account_id: u64) -> bool {
    &&& u2.account_access_map@ == strip_map(u.account_access_map@, account_id)
    &&& u2.id == u.id
    &&& u2.username == u.username
    &&& u2.email == u.email
    &&& u2.password == u.password
    &&& u2.global_roles == u.global_roles
    &&& u2.ip_whitelist == u.ip_whitelist
    &&& u2.rate_limit == u.rate_limit
    &&& u2.created_at == u.created_at
    &&& u2.updated_at == u.updated_at
}

/// Removes every user's grant on the given account, as the account
/// cleanup chain runs; nothing else of any user changes.
pub fn strip_account_grants(users: &mut Vec<User>, account_id: u64)
    ensures
        final(users)@.len() == old(users)@.len(),
        forall|i: int|
            0 <= i < old(users)@.len() ==> ungranted(
                old(users)@[i],
                #[trigger] final(users)@[i],
                account_id,
            ),
{
    let mut i: usize = 0;
    while i < users.len()
        invariant
            users@.len() == old(users)@.len(),
            i <= users@.len(),
            forall|k: int| 0 <= k < i ==> ungranted(old(users)@[k], #[trigger] users@[k], account_id),
            forall|k: int| i <= k < users@.len() ==> users@[k] == old(users)@[k],
        decreases users@.len() - i,
    {
        let ghost upre = users@;
        let mut u = users.remove(i);
        let ghost u0 = u;
        let ghost mpre = u.account_access_map@;
        let mut kept: Vec<(u64, u64)> = Vec::new();
        proof {
            assert(mpre.subrange(0, mpre.len() as int) =~= mpre);
        }
        let mut j: usize = 0;
        while j < u.account_access_map.len()
            invariant
                mpre == u.account_access_map@,
                j <= mpre.len(),
                strip_map(mpre, account_id) == kept@ + strip_map(
                    mpre.subrange(j as int, mpre.len() as int),
                    account_id,
                ),
            decreases mpre.len() - j,
        {
            let p = u.account_access_map[j];
            let ghost tail = mpre.subrange(j as int, mpre.len() as int);
            proof {
                assert(tail[0] == mpre[j as int]);
                assert(tail.drop_first() =~= mpre.subrange(j + 1, mpre.len() as int));
            }
            if p.0 != account_id {
                let ghost kpre = kept@;
                kept.push(p);
                proof {
                    assert(strip_map(tail, account_id) =~= seq![tail[0]] + strip_map(
                        tail.drop_first(),
                        account_id,
                    ));
                    assert(kpre + strip_map(tail, account_id) =~= kept@ + strip_map(
                        tail.drop_first(),
                        account_id,
                    ));
                }
            }
            j = j + 1;
        }
        proof {
            assert(mpre.subrange(mpre.len() as int, mpre.len() as int) =~= Seq::<(
                u64,
                u64,
            )>::empty());
            assert(kept@ + Seq::<(u64, u64)>::empty() =~= kept@);
            assert(kept@ == strip_map(mpre, account_id));
        }
        u.account_access_map = kept;
        proof {
            assert(ungranted(u0, u, account_id));
        }
        users.insert(i, u);
        proof {
            assert(users@.len() == upre.len());
            assert(forall|k: int| 0 <= k < upre.len() && k != i ==> users@[k] == upre[k]);
        }
        i = i + 1;
    }
}

/// A request to grant one account role to several users on several
/// accounts at once.
#[derive(Clone, Debug, PartialEq, Eq)]
pub struct BatchAccountRoleRequest {
    pub account_ids: Vec<u64>,
    pub user_ids: Vec<u64>,
    pub role_id: u64,
}

impl BatchAccountRoleRequest {
    /// Checks that the role exists and is account-scoped, and that every
    /// named account and user exists: exactly these conditions.
    pub fn validate_existence(
        &self,
        roles: &Vec<crate::auth::Role>,
        account_ids: &Vec<u64>,
        users: &Vec<User>,
    ) -> (r: Result<(), BichonError>)
        ensures
            r is Ok <==> ({
                &&& crate::payload::role_type_of(roles@, self.role_id) == Some(
                    crate::auth::RoleType::Account,
                )
                &&& forall|i: int|
                    0 <= i < self.account_ids@.len() ==> account_ids@.contains(
                        #[trigger] self.account_ids@[i],
                    )
                &&& forall|i: int|
                    0 <= i < self.user_ids@.len() ==> user_id_exists(
                        users@,
                        #[trigger] self.user_ids@[i],
                    )
            }),
            r matches Err(e) ==> (e.code == ErrorCode::ResourceNotFound || e.code
                == ErrorCode::InvalidParameter),
    {
        let rt = crate::payload::role_type_of_exec(roles, self.role_id);
        let ok = match rt {
            Some(crate::auth::RoleType::Account) => true,
            _ => false,
        };
        if !ok {
            return Result::Err(
                BichonError::new(
                    ErrorCode::InvalidParameter,
                    String::from_str("only an account-scoped role can be granted per account"),
                ),
            );
        }
        let mut i: usize = 0;
        while i < self.account_ids.len()
            invariant
                i <= self.account_ids@.len(),
                forall|k: int|
                    0 <= k < i ==> account_ids@.contains(#[trigger] self.account_ids@[k]),
            decreases self.account_ids@.len() - i,
        {
            if !crate::index::contains_u64(account_ids, self.account_ids[i]) {
                return Result::Err(
                    BichonError::new(
                        ErrorCode::ResourceNotFound,
                        String::from_str("a named account does not exist"),
                    ),
                );
            }
            i = i + 1;
        }
        let mut j: usize = 0;
        while j < self.user_ids.len()
            invariant
                j <= self.user_ids@.len(),
                forall|k: int|
                    0 <= k < j ==> user_id_exists(users@, #[trigger] self.user_ids@[k]),
            decreases self.user_ids@.len() - j,
        {
            let target = self.user_ids[j];
            let mut found = false;
            let mut u: usize = 0;
            while u < users.len()
                invariant
                    u <= users@.len(),
                    target == self.user_ids@[j as int],
                    j < self.user_ids@.len(),
                    found ==> user_id_exists(users@, target),
                    !found ==> forall|x: int| 0 <= x < u ==> (#[trigger] users@[x]).id != target,
                decreases users@.len() - u,
            {
                if users[u].id == target {
                    found = true;
                    proof {
                        assert(user_id_exists(users@, target));
                    }
                }
                u = u + 1;
            }
            if !found {
                return Result::Err(
                    BichonError::new(
                        ErrorCode::ResourceNotFound,
                        String::from_str("a named user does not exist"),
                    ),
                );
            }
            j = j + 1;
        }
        Result::Ok(())
    }
}

} // verus!