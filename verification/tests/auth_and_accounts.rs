use planner_backend::auth::{
    authorize_at, create_token, create_token_at, issue_token, verify_token, verify_token_at, AuthUser, EXPIRY_SECS,
};
use planner_backend::error::AppError;
use planner_backend::models::{Claims, LoginRequest, RegisterRequest, Timestamp};
use planner_backend::routes::user::{login_at, me, register, register_with, user_public};
use planner_backend::store::PlannerStore;

fn at(secs: i64) -> Timestamp {
    Timestamp { secs, nanos: 0 }
}

fn reg(username: &str, email: &str, password: &str) -> RegisterRequest {
    RegisterRequest { username: username.to_string(), email: email.to_string(), password: password.to_string() }
}

fn quick_hash(password: &str) -> Result<String, String> {
    bcrypt::hash(password, 4).map_err(|e| e.to_string())
}

fn auth_message(e: AppError) -> String {
    match e {
        AppError::Auth(m) => m,
        other => panic!("expected an authentication error, got status {}", other.status_code()),
    }
}

#[test]
fn token_is_a_signed_jwt_with_the_claims() {
    let t = create_token_at("user:abc", 1000).unwrap();
    assert_eq!(t.split('.').count(), 3);
    let claims = verify_token_at(&t, 1000).unwrap();
    assert_eq!(claims.sub, "user:abc");
    assert_eq!(claims.exp, 1000 + 604800);
}

#[test]
fn token_valid_for_seven_days() {
    let t = create_token_at("user:abc", 1000).unwrap();
    let exp = 1000 + EXPIRY_SECS;
    assert_eq!(exp, 1000 + 7 * 24 * 60 * 60);
    assert!(verify_token_at(&t, exp).is_ok());
    let e = verify_token_at(&t, exp + 1).err().unwrap();
    assert_eq!(auth_message(e), "ExpiredSignature");
}

#[test]
fn tokens_differ_by_subject_and_time() {
    let a = create_token_at("user:a", 1000).unwrap();
    assert_eq!(a, create_token_at("user:a", 1000).unwrap());
    assert_ne!(a, create_token_at("user:b", 1000).unwrap());
    assert_ne!(a, create_token_at("user:a", 1001).unwrap());
}

#[test]
fn token_with_a_changed_signature_is_refused() {
    let t = create_token_at("user:abc", 1000).unwrap();
    let mut bytes: Vec<char> = t.chars().collect();
    let last = bytes.len() - 2;
    bytes[last] = if bytes[last] == 'A' { 'B' } else { 'A' };
    let forged: String = bytes.into_iter().collect();
    assert!(matches!(verify_token_at(&forged, 1000), Err(AppError::Auth(_))));
}

#[test]
fn token_signed_with_another_key_is_refused() {
    let key = jsonwebtoken::EncodingKey::from_secret(b"another secret");
    let claims = serde_json::value::RawValue::from_string("{\"sub\":\"user:x\",\"exp\":99999999999}".to_string()).unwrap();
    let t = jsonwebtoken::encode(&jsonwebtoken::Header::default(), &claims, &key).unwrap();
    assert!(matches!(verify_token_at(&t, 1000), Err(AppError::Auth(_))));
}

#[test]
fn garbage_token_is_refused_with_the_decoder_message() {
    let expected = jsonwebtoken::decode::<Box<serde_json::value::RawValue>>(
        "not a token",
        &jsonwebtoken::DecodingKey::from_secret(b"planner_secret_change_in_prod"),
        &jsonwebtoken::Validation::default(),
    )
    .err()
    .unwrap()
    .to_string();
    assert_eq!(auth_message(verify_token_at("not a token", 0).err().unwrap()), expected);
    assert_eq!(authorize_at(Some("not a token"), 0).err().unwrap().error, expected);
    assert!(matches!(verify_token_at("", 0), Err(AppError::Auth(_))));
}

#[test]
fn issue_token_refuses_times_before_the_epoch() {
    assert_eq!(auth_message(issue_token("user:a", at(-1)).err().unwrap()), "clock out of range");
    assert!(issue_token("user:a", at(0)).is_ok());
}

#[test]
fn token_made_now_checks_now() {
    let t = create_token("user:now").unwrap();
    let c = verify_token(&t).unwrap();
    assert_eq!(c.sub, "user:now");
    let now = chrono::Utc::now().timestamp() as usize;
    assert!(c.exp >= now + EXPIRY_SECS - 5 && c.exp <= now + EXPIRY_SECS + 5);
}

#[test]
fn missing_header_is_refused_with_its_message() {
    let r = authorize_at(None, 0);
    assert_eq!(r.err().unwrap().error, "Authorization 헤더 없음");
}

#[test]
fn bearer_token_gives_the_caller() {
    let t = create_token_at("user:who", 50).unwrap();
    match authorize_at(Some(t.as_str()), 60) {
        Ok(AuthUser(c)) => {
            assert_eq!(c.sub, "user:who");
            assert_eq!(c.exp, 50 + EXPIRY_SECS);
        },
        Err(_) => panic!("token refused"),
    }
    let expired = authorize_at(Some(t.as_str()), 50 + EXPIRY_SECS + 1);
    assert_eq!(expired.err().unwrap().error, "ExpiredSignature");
    assert!(authorize_at(Some("x.y.z"), 60).is_err());
}

#[test]
fn register_makes_the_account_and_a_token_for_it() {
    let mut store = PlannerStore::new();
    let res = register_with(&mut store, reg("홍길동", "hong@example.com", "pw"), quick_hash("pw"), "abc123".to_string(), at(1000))
        .ok()
        .unwrap();
    assert_eq!(res.user.id, "user:abc123");
    assert_eq!(res.user.username, "홍길동");
    assert_eq!(res.user.email, "hong@example.com");
    let c = verify_token_at(&res.token, 1000).unwrap();
    assert_eq!(c.sub, "user:abc123");
    assert_eq!(c.exp, 1000 + EXPIRY_SECS);
    let u = store.find_user_by_email("hong@example.com").unwrap();
    assert_eq!(u.created_at.secs, 1000);
    assert_ne!(u.password_hash, "pw");
}

#[test]
fn register_refuses_a_taken_email() {
    let mut store = PlannerStore::new();
    assert!(register_with(&mut store, reg("a", "same@x.com", "pw"), quick_hash("pw"), "k1".to_string(), at(1)).is_ok());
    match register_with(&mut store, reg("b", "same@x.com", "pw2"), quick_hash("pw2"), "k2".to_string(), at(2)) {
        Err(AppError::BadRequest(m)) => assert_eq!(m, "이미 사용 중인 이메일입니다."),
        _ => panic!("expected 400"),
    }
    assert!(store.find_user_by_key("k2").is_none());
    assert_eq!(store.find_user_by_email("same@x.com").unwrap().username, "a");
}

#[test]
fn register_refuses_a_taken_key() {
    let mut store = PlannerStore::new();
    assert!(register_with(&mut store, reg("a", "a@x.com", "pw"), quick_hash("pw"), "k1".to_string(), at(1)).is_ok());
    match register_with(&mut store, reg("b", "b@x.com", "pw"), quick_hash("pw"), "k1".to_string(), at(2)) {
        Err(AppError::Internal(m)) => assert_eq!(m, "유저 생성 실패"),
        _ => panic!("expected 500"),
    }
    assert!(store.find_user_by_email("b@x.com").is_none());
}

#[test]
fn register_passes_on_a_hashing_failure() {
    let mut store = PlannerStore::new();
    let r = register_with(&mut store, reg("a", "a@x.com", "pw"), Err("cost".to_string()), "k1".to_string(), at(1));
    assert_eq!(auth_message(r.err().unwrap()), "cost");
    assert!(store.find_user_by_email("a@x.com").is_none());
}

#[test]
fn registered_account_logs_in() {
    let mut store = PlannerStore::new();
    register_with(&mut store, reg("hong", "hong@example.com", "mypassword"), quick_hash("mypassword"), "u1".to_string(), at(10))
        .ok()
        .unwrap();
    let login = LoginRequest { email: "hong@example.com".to_string(), password: "mypassword".to_string() };
    let res = login_at(&store, login, at(500)).ok().unwrap();
    assert_eq!(res.user.id, "user:u1");
    assert_eq!(res.user.username, "hong");
    let c = verify_token_at(&res.token, 500).unwrap();
    assert_eq!(c.sub, "user:u1");
    assert_eq!(c.exp, 500 + EXPIRY_SECS);
}

#[test]
fn login_refuses_a_wrong_password_or_unknown_email() {
    let mut store = PlannerStore::new();
    register_with(&mut store, reg("hong", "hong@example.com", "right"), quick_hash("right"), "u1".to_string(), at(10))
        .ok()
        .unwrap();
    let wrong = LoginRequest { email: "hong@example.com".to_string(), password: "wrong".to_string() };
    assert_eq!(auth_message(login_at(&store, wrong, at(20)).err().unwrap()), "이메일 또는 비밀번호가 틀렸습니다.");
    let unknown = LoginRequest { email: "nobody@example.com".to_string(), password: "right".to_string() };
    assert_eq!(auth_message(login_at(&store, unknown, at(20)).err().unwrap()), "이메일 또는 비밀번호가 틀렸습니다.");
}

#[test]
fn login_reports_the_error_of_an_unreadable_hash() {
    let mut store = PlannerStore::new();
    register_with(&mut store, reg("h", "h@x.com", "pw"), Ok("not a bcrypt hash".to_string()), "u1".to_string(), at(10))
        .ok()
        .unwrap();
    let req = LoginRequest { email: "h@x.com".to_string(), password: "pw".to_string() };
    let msg = auth_message(login_at(&store, req, at(20)).err().unwrap());
    assert_eq!(msg, bcrypt::verify("pw", "not a bcrypt hash").err().unwrap().to_string());
}

#[test]
fn me_finds_the_account_a_token_names() {
    let mut store = PlannerStore::new();
    let res = register_with(&mut store, reg("hong", "hong@example.com", "pw"), quick_hash("pw"), "abc123".to_string(), at(1000))
        .ok()
        .unwrap();
    let claims = verify_token_at(&res.token, 2000).unwrap();
    let u = me(&store, &claims).ok().unwrap();
    assert_eq!(u.id, "user:abc123");
    assert_eq!(u.username, "hong");
    assert_eq!(u.email, "hong@example.com");
    let bare = Claims { sub: "abc123".to_string(), exp: 0 };
    assert_eq!(me(&store, &bare).ok().unwrap().id, "user:abc123");
}

#[test]
fn me_reports_a_missing_account() {
    let store = PlannerStore::new();
    let claims = Claims { sub: "user:gone".to_string(), exp: 0 };
    match me(&store, &claims) {
        Err(AppError::NotFound(m)) => assert_eq!(m, "유저를 찾을 수 없습니다."),
        _ => panic!("expected 404"),
    }
}

#[test]
fn register_now_hashes_with_bcrypt() {
    let mut store = PlannerStore::new();
    let res = register(&mut store, reg("n", "n@x.com", "secret")).ok().unwrap();
    assert!(res.user.id.starts_with("user:"));
    assert_eq!(res.user.id.len(), 5 + 36);
    let u = store.find_user_by_email("n@x.com").unwrap();
    assert!(bcrypt::verify("secret", &u.password_hash).unwrap());
    assert_eq!(user_public(&u).id, res.user.id);
    let c = verify_token(&res.token).unwrap();
    assert_eq!(c.sub, res.user.id);
}

fn signed(claims: &str) -> String {
    let key = jsonwebtoken::EncodingKey::from_secret(b"planner_secret_change_in_prod");
    let raw = serde_json::value::RawValue::from_string(claims.to_string()).unwrap();
    jsonwebtoken::encode(&jsonwebtoken::Header::default(), &raw, &key).unwrap()
}

#[test]
fn token_claims_of_any_layout_are_read() {
    let t = signed("{ \"exp\": 2000, \"iat\": 5, \"sub\": \"user:\\u0041b\" }");
    let c = verify_token_at(&t, 1000).unwrap();
    assert_eq!(c.sub, "user:Ab");
    assert_eq!(c.exp, 2000);
    assert_eq!(auth_message(verify_token_at(&t, 2001).err().unwrap()), "ExpiredSignature");
}

#[test]
fn token_claims_without_a_subject_are_refused() {
    for claims in ["{\"exp\":5}", "{\"sub\":1,\"exp\":5}"] {
        let t = signed(claims);
        assert_eq!(auth_message(verify_token_at(&t, 0).err().unwrap()), "InvalidToken");
        assert_eq!(authorize_at(Some(t.as_str()), 0).err().unwrap().error, "InvalidToken");
    }
}

#[test]
fn token_claims_without_a_usable_expiry_are_refused() {
    for claims in ["{\"sub\":\"user:a\"}", "{\"sub\":\"a\",\"exp\":-1}", "[1]"] {
        let t = signed(claims);
        assert!(matches!(verify_token_at(&t, 0), Err(AppError::Auth(_))));
        assert!(authorize_at(Some(t.as_str()), 0).is_err());
    }
}

#[test]
fn login_right_after_registering_succeeds() {
    let mut store = PlannerStore::new();
    let r1 = register_with(&mut store, reg("kim", "kim@x.com", "pw1"), quick_hash("pw1"), "k7".to_string(), at(100))
        .ok()
        .unwrap();
    let r2 = login_at(&store, LoginRequest { email: "kim@x.com".to_string(), password: "pw1".to_string() }, at(100))
        .ok()
        .unwrap();
    assert_eq!(r2.user.id, r1.user.id);
    assert_eq!(r2.user.username, r1.user.username);
    assert_eq!(r2.token, r1.token);
}
