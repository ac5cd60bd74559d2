//! Registration, login and the caller's own account.

use vstd::prelude::*;
use crate::auth::{clock_in_range, issue_token, msg_clock_out_of_range, token_for};
use crate::clock::now;
use crate::error::AppError;
use crate::ids::{new_uuid, uuid_text};
use crate::models::{AuthResponse, Claims, LoginRequest, RecordId, RegisterRequest, Timestamp, User, UserPublic};
use crate::password::{bcrypt_verdict, hash_password, verify_password};
use crate::store::{user_by_email, user_by_key, user_table, PlannerStore};
use crate::text::{chars_of, copy_str, is_prefix, text_starts_with};

verus! {

/// Message for an e-mail address already registered.
pub open spec fn msg_email_taken() -> Seq<char> {
    "이미 사용 중인 이메일입니다."@
}

/// Message when the account record could not be made.
pub open spec fn msg_user_not_created() -> Seq<char> {
    "유저 생성 실패"@
}

/// Message for an unknown e-mail address or a wrong password.
pub open spec fn msg_bad_login() -> Seq<char> {
    "이메일 또는 비밀번호가 틀렸습니다."@
}

/// Message for a token whose account no longer exists.
pub open spec fn msg_user_not_found() -> Seq<char> {
    "유저를 찾을 수 없습니다."@
}

/// The full name of an account record (`user:<key>`), or the empty text.
pub open spec fn user_id_text(id: Option<RecordId>) -> Seq<char> {
    match id {
        Some(r) => r.text_spec(),
        None => Seq::empty(),
    }
}

/// The account as shown to clients.
pub fn user_public(u: &User) -> (r: UserPublic)
    ensures
        r.id@ == user_id_text(u.id),
        r.username@ == u.username@,
        r.email@ == u.email@,
{
    let id = match &u.id {
        Some(t) => t.to_text(),
        None => String::new(),
    };
    UserPublic { id, username: copy_str(u.username.as_str()), email: copy_str(u.email.as_str()) }
}

/// The account record a registration makes.
pub open spec fn is_new_user(u: User, req: RegisterRequest, hash: Seq<char>, key: Seq<char>, at: Timestamp) -> bool {
    &&& u.id matches Some(r) && r.table@ == user_table() && r.key@ == key
    &&& u.username@ == req.username@
    &&& u.email@ == req.email@
    &&& u.password_hash@ == hash
    &&& u.created_at == at
}

/// Registration, given the outcome of hashing the password, the new record's key
/// and the time: refused when the e-mail address is taken; otherwise the account
/// is made and a token issued for it.
pub fn register_with(
    store: &mut PlannerStore,
    req: RegisterRequest,
    hashed: Result<String, String>,
    key: String,
    at: Timestamp,
) -> (res: Result<AuthResponse, AppError>)
    requires
        old(store).wf(),
    ensures
        final(store).wf(),
        final(store).plans() == old(store).plans(),
        user_by_email(old(store).users(), req.email@) is Some ==> (res matches Err(
            AppError::BadRequest(m),
        ) && m@ == msg_email_taken() && final(store).users() == old(store).users()),
        user_by_email(old(store).users(), req.email@) is None ==> match hashed {
            Err(m) => res matches Err(AppError::Auth(m2)) && m2@ == m@ && final(store).users()
                == old(store).users(),
            Ok(h) => if user_by_key(old(store).users(), key@) is Some {
                res matches Err(AppError::Internal(m)) && m@ == msg_user_not_created()
                    && final(store).users() == old(store).users()
            } else {
                &&& final(store).users().len() == old(store).users().len() + 1
                &&& final(store).users().drop_last() == old(store).users()
                &&& is_new_user(final(store).users().last(), req, h@, key@, at)
                &&& if clock_in_range(at) {
                    res matches Ok(r) && r.token@ == token_for(
                        user_id_text(final(store).users().last().id),
                        at.secs as nat,
                    ) && r.user.id@ == user_id_text(final(store).users().last().id)
                        && r.user.username@ == req.username@ && r.user.email@ == req.email@
                } else {
                    res matches Err(AppError::Auth(m)) && m@ == msg_clock_out_of_range()
                }
            },
        },
{
    if store.find_user_by_email(req.email.as_str()).is_some() {
        return Err(AppError::BadRequest(copy_str("이미 사용 중인 이메일입니다.")));
    }
    let password_hash = match hashed {
        Ok(h) => h,
        Err(m) => {
            return Err(AppError::Auth(m));
        },
    };
    let ghost req_view = req;
    let user = User {
        id: Some(RecordId { table: copy_str("user"), key }),
        username: req.username,
        email: req.email,
        password_hash,
        created_at: at,
    };
    let ghost u = user;
    let id = user_public(&user);
    if !store.insert_user(user) {
        return Err(AppError::Internal(copy_str("유저 생성 실패")));
    }
    assert(store.users().drop_last() =~= old(store).users());
    let token = match issue_token(id.id.as_str(), at) {
        Ok(t) => t,
        Err(e) => {
            return Err(e);
        },
    };
    Ok(AuthResponse { token, user: id })
}

/// Registration (`POST /api/auth/register`): hashes the password, names the
/// record with a fresh key and stamps it with the current time.
pub fn register(store: &mut PlannerStore, req: RegisterRequest) -> (res: Result<AuthResponse, AppError>)
    requires
        old(store).wf(),
    ensures
        final(store).wf(),
        final(store).plans() == old(store).plans(),
        user_by_email(old(store).users(), req.email@) is Some ==> (res matches Err(
            AppError::BadRequest(m),
        ) && m@ == msg_email_taken() && final(store).users() == old(store).users()),
        res matches Ok(r) ==> {
            &&& user_by_email(old(store).users(), req.email@) is None
            &&& final(store).users().len() == old(store).users().len() + 1
            &&& final(store).users().drop_last() == old(store).users()
            &&& final(store).users().last().id matches Some(id) && id.table@ == user_table()
            &&& final(store).users().last().email@ == req.email@
            &&& final(store).users().last().username@ == req.username@
            &&& bcrypt_verdict(req.password@, final(store).users().last().password_hash@) matches Ok(true)
            &&& r.user.id@ == user_id_text(final(store).users().last().id)
            &&& r.user.username@ == req.username@
            &&& r.user.email@ == req.email@
            &&& exists|t: nat| r.token@ == #[trigger] token_for(r.user.id@, t)
        },
        res matches Ok(_) ==> uuid_text(final(store).users().last().id->0.key@),
        res matches Err(e) ==> {
            ||| e is BadRequest && user_by_email(old(store).users(), req.email@) is Some
                && final(store).users() == old(store).users()
            ||| e is Auth && user_by_email(old(store).users(), req.email@) is None
                && final(store).users() == old(store).users()
            ||| (e matches AppError::Internal(m) && m@ == msg_user_not_created()) && final(store).users()
                == old(store).users() && exists|k: Seq<char>| uuid_text(k) && #[trigger] user_by_key(old(store).users(), k) is Some
            ||| (e matches AppError::Auth(m) && m@ == msg_clock_out_of_range())
                && final(store).users().len() == old(store).users().len() + 1
                && final(store).users().drop_last() == old(store).users()
        },
{
    if store.find_user_by_email(req.email.as_str()).is_some() {
        return Err(AppError::BadRequest(copy_str("이미 사용 중인 이메일입니다.")));
    }
    let hashed = hash_password(req.password.as_str());
    let key = new_uuid();
    let at = now();
    register_with(store, req, hashed, key, at)
}

/// Who logs in: the account with the e-mail address, when the password checks.
pub open spec fn login_user(users: Seq<User>, email: Seq<char>, password: Seq<char>) -> Option<User> {
    match user_by_email(users, email) {
        Some(u) => if bcrypt_verdict(password, u.password_hash@) matches Ok(true) {
            Some(u)
        } else {
            None
        },
        None => None,
    }
}

/// Login at the time `at` (`POST /api/auth/login`): the account with the e-mail
/// address, when the password checks against its hash, gets a token.
pub fn login_at(store: &PlannerStore, req: LoginRequest, at: Timestamp) -> (res: Result<AuthResponse, AppError>)
    requires
        store.wf(),
    ensures
        match user_by_email(store.users(), req.email@) {
            None => res matches Err(AppError::Auth(m)) && m@ == msg_bad_login(),
            Some(u) => match bcrypt_verdict(req.password@, u.password_hash@) {
                Err(msg) => res matches Err(AppError::Auth(m)) && m@ == msg,
                Ok(false) => res matches Err(AppError::Auth(m)) && m@ == msg_bad_login(),
                Ok(true) => if clock_in_range(at) {
                    res matches Ok(r) && r.token@ == token_for(user_id_text(u.id), at.secs as nat)
                        && r.user.id@ == user_id_text(u.id) && r.user.username@ == u.username@
                        && r.user.email@ == u.email@
                } else {
                    res matches Err(AppError::Auth(m)) && m@ == msg_clock_out_of_range()
                },
            },
        },
        res is Ok ==> login_user(store.users(), req.email@, req.password@) is Some,
{
    let user = match store.find_user_by_email(req.email.as_str()) {
        Some(u) => u,
        None => {
            return Err(AppError::Auth(copy_str("이메일 또는 비밀번호가 틀렸습니다.")));
        },
    };
    let valid = match verify_password(req.password.as_str(), user.password_hash.as_str()) {
        Ok(b) => b,
        Err(m) => {
            return Err(AppError::Auth(m));
        },
    };
    if !valid {
        return Err(AppError::Auth(copy_str("이메일 또는 비밀번호가 틀렸습니다.")));
    }
    let public = user_public(&user);
    let token = match issue_token(public.id.as_str(), at) {
        Ok(t) => t,
        Err(e) => {
            return Err(e);
        },
    };
    Ok(AuthResponse { token, user: public })
}

/// Login now.
pub fn login(store: &PlannerStore, req: LoginRequest) -> (res: Result<AuthResponse, AppError>)
    requires
        store.wf(),
    ensures
        match user_by_email(store.users(), req.email@) {
            None => res matches Err(AppError::Auth(m)) && m@ == msg_bad_login(),
            Some(u) => match bcrypt_verdict(req.password@, u.password_hash@) {
                Err(msg) => res matches Err(AppError::Auth(m)) && m@ == msg,
                Ok(false) => res matches Err(AppError::Auth(m)) && m@ == msg_bad_login(),
                Ok(true) => match res {
                    Ok(r) => (exists|t: nat| r.token@ == #[trigger] token_for(user_id_text(u.id), t))
                        && r.user.id@ == user_id_text(u.id) && r.user.username@ == u.username@
                        && r.user.email@ == u.email@,
                    Err(e) => e matches AppError::Auth(m) && m@ == msg_clock_out_of_range(),
                },
            },
        },
        res is Ok ==> login_user(store.users(), req.email@, req.password@) is Some,
{
    login_at(store, req, now())
}

/// The account key a token's subject names: the subject without its `user:`
/// prefix, or the whole subject when it has none.
pub open spec fn subject_key(sub: Seq<char>) -> Seq<char> {
    if is_prefix("user:"@, sub) {
        sub.skip(5)
    } else {
        sub
    }
}

fn strip_user_prefix(sub: &str) -> (r: String)
    ensures
        r@ == subject_key(sub@),
{
    let prefix = "user:";
    proof {
        reveal_strlit("user:");
    }
    if text_starts_with(sub, prefix) {
        let v = chars_of(sub);
        let mut out = String::new();
        crate::text::push_chars(&mut out, &v, 5, v.len());
        out
    } else {
        copy_str(sub)
    }
}

/// The caller's own account (`GET /api/auth/me`).
pub fn me(store: &PlannerStore, claims: &Claims) -> (res: Result<UserPublic, AppError>)
    requires
        store.wf(),
    ensures
        match user_by_key(store.users(), subject_key(claims.sub@)) {
            None => res matches Err(AppError::NotFound(m)) && m@ == msg_user_not_found(),
            Some(u) => res matches Ok(r) && r.id@ == user_id_text(u.id) && r.username@
                == u.username@ && r.email@ == u.email@,
        },
{
    let raw_id = strip_user_prefix(claims.sub.as_str());
    match store.find_user_by_key(raw_id.as_str()) {
        None => Err(AppError::NotFound(copy_str("유저를 찾을 수 없습니다."))),
        Some(u) => Ok(user_public(&u)),
    }
}

} // verus!
