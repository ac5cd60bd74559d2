//! Session tokens: HS256 JSON Web Tokens whose claims are `{ sub, exp }`,
//! valid for seven days: accepted up to and including the second `exp`.

use vstd::prelude::*;
use crate::claims::{claims_json, claims_json_text, claims_reading, lemma_parse_claims_json, parse_claims_spec, read_claims};
use crate::clock::{clock_limit, epoch_secs, now};
use crate::error::AppError;
use crate::models::{Claims, ErrorResponse, Timestamp};
use crate::text::copy_str;

verus! {

/// The key the tokens are signed with.
pub const SECRET: &'static str = "planner_secret_change_in_prod";

/// How long a token is valid: seven days, in seconds.
pub const EXPIRY_SECS: usize = 604800;

/// The HS256 token that `jsonwebtoken::encode` makes, with the default header,
/// for the claims whose JSON text is `claims` and the secret `secret`.
pub uninterp spec fn hs256_token(claims: Seq<char>, secret: Seq<char>) -> Seq<char>;

/// What `jsonwebtoken::decode` gives for `token` under `secret` (expiry itself not
/// checked): the claims text when the header and HS256 signature check and it
/// carries a numeric `exp`; otherwise the text of the error it reports.
pub uninterp spec fn hs256_decode(token: Seq<char>, secret: Seq<char>) -> Result<Seq<char>, Seq<char>>;

/// Signs claims given as JSON text (`jsonwebtoken::encode` with `Header::default()`,
/// HS256, after `serde_json::value::RawValue::from_string`, which takes the text
/// as it is). Claimed: the token is `hs256_token` of the text and the secret; and
/// for a claims text that `claims_json` writes, signing succeeds, as the source
/// shows: the text is valid JSON, so `RawValue::from_string` accepts it and
/// serializing it writes it back; the key made by `EncodingKey::from_secret` is of
/// the HMAC family the default header's HS256 asks for; and HMAC signing does not fail.
#[verifier::external_body]
fn jwt_encode(claims: &str, secret: &str) -> (res: Result<String, String>)
    requires
        exists|sub: Seq<char>, exp: nat| exp <= usize::MAX && claims@ == #[trigger] claims_json(sub, exp),
    ensures
        res is Ok,
        res matches Ok(t) ==> t@ == hs256_token(claims@, secret@),
{
    let raw = serde_json::value::RawValue::from_string(claims.to_string()).map_err(|e| e.to_string())?;
    let key = jsonwebtoken::EncodingKey::from_secret(secret.as_bytes());
    jsonwebtoken::encode(&jsonwebtoken::Header::default(), &raw, &key).map_err(|e| e.to_string())
}

/// `got` is what decoding `token` gave: when `token` is the token issued for a
/// claims text `claims_json(sub, exp)` under `secret`, that text.
pub open spec fn reads_back_issued(token: Seq<char>, secret: Seq<char>, got: Result<Seq<char>, Seq<char>>) -> bool {
    forall|sub: Seq<char>, exp: nat|
        exp <= u64::MAX && token == #[trigger] hs256_token(claims_json(sub, exp), secret)
            ==> got == Ok::<Seq<char>, Seq<char>>(claims_json(sub, exp))
}

/// Checks a token's header and HS256 signature and gives its claims as JSON text
/// (`jsonwebtoken::decode` into `Box<RawValue>`, default validation but with
/// `validate_exp` off: the expiry is checked by `verify_token_at`). Claimed: the
/// result, claims text or error text, is `hs256_decode` of token and secret; and,
/// as the source shows (the signature is recomputed over the same parts, the raw
/// value keeps the text), a token that `jsonwebtoken::encode` made for a claims
/// text `claims_json(sub, exp)` under the same secret gives that text back.
#[verifier::external_body]
fn jwt_decode(token: &str, secret: &str) -> (res: Result<String, String>)
    ensures
        hs256_decode(token@, secret@) == match res {
            Ok(c) => Ok::<Seq<char>, Seq<char>>(c@),
            Err(m) => Err(m@),
        },
        reads_back_issued(token@, secret@, match res {
            Ok(c) => Ok::<Seq<char>, Seq<char>>(c@),
            Err(m) => Err(m@),
        }),
{
    let mut validation = jsonwebtoken::Validation::default();
    validation.validate_exp = false;
    let key = jsonwebtoken::DecodingKey::from_secret(secret.as_bytes());
    jsonwebtoken::decode::<Box<serde_json::value::RawValue>>(token, &key, &validation)
        .map(|d| d.claims.get().to_string())
        .map_err(|e| e.to_string())
}

/// The token issued at `now` (seconds) for the account named `sub`.
pub open spec fn token_for(sub: Seq<char>, now: nat) -> Seq<char> {
    hs256_token(claims_json(sub, (now + EXPIRY_SECS) as nat), SECRET@)
}

/// Issues a session token for `user_id` at time `now` (seconds): claims
/// `{ sub: user_id, exp: now + 7 days }`, signed with `SECRET`.
pub fn create_token_at(user_id: &str, now: usize) -> (res: Result<String, AppError>)
    requires
        now + EXPIRY_SECS <= usize::MAX,
    ensures
        res matches Ok(t) && t@ == token_for(user_id@, now as nat),
{
    let exp = now + EXPIRY_SECS;
    let text = claims_json_text(user_id, exp);
    assert(text@ == claims_json(user_id@, exp as nat));
    match jwt_encode(text.as_str(), SECRET) {
        Ok(t) => Ok(t),
        Err(m) => Err(AppError::Auth(m)),
    }
}

/// Message of a token whose claims are not `{ sub, exp }`.
pub open spec fn msg_bad_claims() -> Seq<char> {
    "InvalidToken"@
}

/// Message of an expired token.
pub open spec fn msg_expired() -> Seq<char> {
    "ExpiredSignature"@
}

/// Checks a session token at time `now` (seconds): the signature must check under
/// `SECRET`, the claims must be `{ sub, exp }`, and `now` must not be past `exp`.
/// Gives the claims.
pub fn verify_token_at(token: &str, now: usize) -> (res: Result<Claims, AppError>)
    ensures
        match hs256_decode(token@, SECRET@) {
            Err(msg) => res matches Err(AppError::Auth(m)) && m@ == msg,
            Ok(text) => match claims_reading(text) {
                None => res matches Err(AppError::Auth(m)) && m@ == msg_bad_claims(),
                Some((sub, exp)) => if exp < now {
                    res matches Err(AppError::Auth(m)) && m@ == msg_expired()
                } else {
                    res matches Ok(c) && c.sub@ == sub && c.exp == exp
                },
            },
        },
        forall|sub: Seq<char>, issued: nat|
            issued + EXPIRY_SECS <= usize::MAX && #[trigger] token_for(sub, issued) == token@ ==> if now
                <= issued + EXPIRY_SECS {
                res matches Ok(c) && c.sub@ == sub && c.exp == issued + EXPIRY_SECS
            } else {
                res matches Err(AppError::Auth(m)) && m@ == msg_expired()
            },
        forall|s1: Seq<char>, i1: nat, s2: Seq<char>, i2: nat|
            i1 + EXPIRY_SECS <= usize::MAX && i2 + EXPIRY_SECS <= usize::MAX && #[trigger] token_for(s1, i1)
                == token@ && #[trigger] token_for(s2, i2) == token@ ==> s1 == s2 && i1 == i2,
{
    let decoded = jwt_decode(token, SECRET);
    proof {
        assert forall|sub: Seq<char>, issued: nat|
            issued + EXPIRY_SECS <= usize::MAX && #[trigger] token_for(sub, issued) == token@
            implies hs256_decode(token@, SECRET@) == Ok::<Seq<char>, Seq<char>>(claims_json(sub, (issued + EXPIRY_SECS) as nat))
                && parse_claims_spec(claims_json(sub, (issued + EXPIRY_SECS) as nat)) == Some((sub, (issued + EXPIRY_SECS) as nat)) by {
            lemma_parse_claims_json(sub, (issued + EXPIRY_SECS) as nat);
        }
        assert forall|s1: Seq<char>, i1: nat, s2: Seq<char>, i2: nat|
            i1 + EXPIRY_SECS <= usize::MAX && i2 + EXPIRY_SECS <= usize::MAX && #[trigger] token_for(s1, i1)
                == token@ && #[trigger] token_for(s2, i2) == token@ implies s1 == s2 && i1 == i2 by {
            let e1 = (i1 + EXPIRY_SECS) as nat;
            let e2 = (i2 + EXPIRY_SECS) as nat;
            lemma_parse_claims_json(s1, e1);
            lemma_parse_claims_json(s2, e2);
            assert(hs256_decode(token@, SECRET@) == Ok::<Seq<char>, Seq<char>>(claims_json(s1, e1)));
            assert(hs256_decode(token@, SECRET@) == Ok::<Seq<char>, Seq<char>>(claims_json(s2, e2)));
        }
    }
    match decoded {
        Err(m) => Err(AppError::Auth(m)),
        Ok(text) => match read_claims(text.as_str()) {
            None => Err(AppError::Auth(copy_str("InvalidToken"))),
            Some((sub, exp)) => {
                if exp < now {
                    Err(AppError::Auth(copy_str("ExpiredSignature")))
                } else {
                    Ok(Claims { sub, exp })
                }
            },
        },
    }
}

/// Whether tokens can be issued at `now`: the time is not before the epoch and its
/// expiry fits the claims' number type.
pub open spec fn clock_in_range(now: Timestamp) -> bool {
    0 <= now.secs && now.secs + EXPIRY_SECS <= usize::MAX
}

/// Message when the clock cannot give a token its expiry.
pub open spec fn msg_clock_out_of_range() -> Seq<char> {
    "clock out of range"@
}

/// Issues a session token for `user_id` at the time `now`: refused only when the
/// time is before the epoch or its expiry does not fit.
pub fn issue_token(user_id: &str, now: Timestamp) -> (res: Result<String, AppError>)
    ensures
        clock_in_range(now) ==> (res matches Ok(t) && t@ == token_for(user_id@, now.secs as nat)),
        !clock_in_range(now) ==> (res matches Err(AppError::Auth(m)) && m@ == msg_clock_out_of_range()),
{
    if now.secs < 0 || (now.secs as u64) > ((usize::MAX - EXPIRY_SECS) as u64) {
        return Err(AppError::Auth(copy_str("clock out of range")));
    }
    create_token_at(user_id, now.secs as usize)
}

/// Issues a session token for `user_id` now; refused only when the clock reads a
/// time at which no token can be issued.
pub fn create_token(user_id: &str) -> (res: Result<String, AppError>)
    ensures
        res matches Ok(t) ==> exists|now: Timestamp| clock_in_range(now) && t@ == #[trigger] token_for(user_id@, now.secs as nat),
        res matches Err(e) ==> (e matches AppError::Auth(m) && m@ == msg_clock_out_of_range()),
{
    let at = now();
    issue_token(user_id, at)
}

/// Checks a session token now.
pub fn verify_token(token: &str) -> (res: Result<Claims, AppError>)
    ensures
        match hs256_decode(token@, SECRET@) {
            Err(msg) => res matches Err(AppError::Auth(m)) && m@ == msg,
            Ok(text) => match claims_reading(text) {
                None => res matches Err(AppError::Auth(m)) && m@ == msg_bad_claims(),
                Some((sub, exp)) => (res matches Ok(c) && c.sub@ == sub && c.exp == exp) || (res matches Err(
                    AppError::Auth(m),
                ) && m@ == msg_expired()),
            },
        },
        forall|sub: Seq<char>, issued: nat|
            issued + EXPIRY_SECS <= usize::MAX && #[trigger] token_for(sub, issued) == token@ ==> ((res matches Ok(
                c,
            ) && c.sub@ == sub && c.exp == issued + EXPIRY_SECS) || (res matches Err(AppError::Auth(m))
                && m@ == msg_expired())),
        forall|sub: Seq<char>, issued: nat|
            issued + EXPIRY_SECS <= usize::MAX && issued + EXPIRY_SECS >= clock_limit() && #[trigger] token_for(
                sub,
                issued,
            ) == token@ ==> (res matches Ok(c) && c.sub@ == sub && c.exp == issued + EXPIRY_SECS),
{
    let at = now();
    verify_token_at(token, epoch_secs(at))
}

/// The caller of a request, known by the claims of a valid session token.
#[derive(Debug)]
pub struct AuthUser(pub Claims);

/// Message when no bearer token came with the request.
pub open spec fn msg_no_header() -> Seq<char> {
    "Authorization 헤더 없음"@
}

/// Decides who is calling from the bearer token of the `Authorization` header
/// (`None` when the header is missing or not a bearer token), at time `now`.
/// A refusal is answered with 401 and `{ "error": <message> }`.
pub fn authorize_at(bearer: Option<&str>, now: usize) -> (res: Result<AuthUser, ErrorResponse>)
    ensures
        match bearer {
            None => res matches Err(r) && r.error@ == msg_no_header(),
            Some(t) => match hs256_decode(t@, SECRET@) {
                Err(msg) => res matches Err(r) && r.error@ == msg,
                Ok(text) => match claims_reading(text) {
                    None => res matches Err(r) && r.error@ == msg_bad_claims(),
                    Some((sub, exp)) => if exp < now {
                        res matches Err(r) && r.error@ == msg_expired()
                    } else {
                        res matches Ok(AuthUser(c)) && c.sub@ == sub && c.exp == exp
                    },
                },
            },
        },
        forall|sub: Seq<char>, issued: nat|
            bearer is Some && issued + EXPIRY_SECS <= usize::MAX && #[trigger] token_for(sub, issued)
                == bearer->0@ ==> if now <= issued + EXPIRY_SECS {
                res matches Ok(AuthUser(c)) && c.sub@ == sub && c.exp == issued + EXPIRY_SECS
            } else {
                res matches Err(r) && r.error@ == msg_expired()
            },
{
    match bearer {
        None => Err(ErrorResponse { error: copy_str("Authorization 헤더 없음") }),
        Some(t) => match verify_token_at(t, now) {
            Ok(c) => Ok(AuthUser(c)),
            Err(e) => Err(e.to_response()),
        },
    }
}

/// Decides who is calling, now.
pub fn authorize(bearer: Option<&str>) -> (res: Result<AuthUser, ErrorResponse>)
    ensures
        match bearer {
            None => res matches Err(r) && r.error@ == msg_no_header(),
            Some(t) => match hs256_decode(t@, SECRET@) {
                Err(msg) => res matches Err(r) && r.error@ == msg,
                Ok(text) => match claims_reading(text) {
                    None => res matches Err(r) && r.error@ == msg_bad_claims(),
                    Some((sub, exp)) => (res matches Ok(AuthUser(c)) && c.sub@ == sub && c.exp == exp) || (
                    res matches Err(r) && r.error@ == msg_expired()),
                },
            },
        },
        forall|sub: Seq<char>, issued: nat|
            bearer is Some && issued + EXPIRY_SECS <= usize::MAX && #[trigger] token_for(sub, issued)
                == bearer->0@ ==> ((res matches Ok(AuthUser(c)) && c.sub@ == sub && c.exp == issued
                + EXPIRY_SECS) || (res matches Err(r) && r.error@ == msg_expired())),
        forall|sub: Seq<char>, issued: nat|
            bearer is Some && issued + EXPIRY_SECS <= usize::MAX && issued + EXPIRY_SECS >= clock_limit()
                && #[trigger] token_for(sub, issued) == bearer->0@ ==> (res matches Ok(AuthUser(c)) && c.sub@
                == sub && c.exp == issued + EXPIRY_SECS),
{
    let at = now();
    authorize_at(bearer, epoch_secs(at))
}

} // verus!
