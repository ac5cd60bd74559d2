use planner_backend::clock::epoch_secs;
use planner_backend::models::{Claims, CreatePlanRequest, Plan, PlanDate, PlanPublic, RecordId, RegisterRequest, Timestamp, User};
use planner_backend::routes::plan::create_with;
use planner_backend::routes::user::{register_with, user_public};
use planner_backend::store::{copy_strings, PlannerStore};

fn plan(id: Option<RecordId>) -> Plan {
    Plan {
        id,
        user_id: "user:a".to_string(),
        date: PlanDate { year: 2026, month: 6, day: 8 },
        title: "t".to_string(),
        description: None,
        time: Some("오전 09:00".to_string()),
        completed: true,
        photos: vec!["a1b2.jpg".to_string()],
        created_at: Timestamp { secs: 1, nanos: 2 },
        updated_at: Timestamp { secs: 3, nanos: 4 },
    }
}

#[test]
fn public_plan_shows_the_plain_key() {
    let p = PlanPublic::from(plan(Some(RecordId { table: "plan".to_string(), key: "x7k2p9".to_string() })));
    assert_eq!(p.id, "x7k2p9");
    assert_eq!(p.user_id, "user:a");
    assert_eq!(p.time.as_deref(), Some("오전 09:00"));
    assert!(p.completed);
    assert_eq!(p.photos, vec!["a1b2.jpg"]);
    assert_eq!((p.created_at.secs, p.created_at.nanos), (1, 2));
    assert_eq!((p.updated_at.secs, p.updated_at.nanos), (3, 4));
}

#[test]
fn public_plan_without_a_record_name_has_an_empty_id() {
    assert_eq!(PlanPublic::from(plan(None)).id, "");
}

#[test]
fn public_account_shows_the_full_record_name() {
    let u = User {
        id: Some(RecordId { table: "user".to_string(), key: "abc123".to_string() }),
        username: "홍길동".to_string(),
        email: "hong@example.com".to_string(),
        password_hash: "$2b$04$...".to_string(),
        created_at: Timestamp { secs: 0, nanos: 0 },
    };
    let p = user_public(&u);
    assert_eq!(p.id, "user:abc123");
    assert_eq!(p.username, "홍길동");
    assert_eq!(p.email, "hong@example.com");
}

#[test]
fn seconds_before_the_epoch_count_as_zero() {
    assert_eq!(epoch_secs(Timestamp { secs: -5, nanos: 0 }), 0);
    assert_eq!(epoch_secs(Timestamp { secs: 0, nanos: 999 }), 0);
    assert_eq!(epoch_secs(Timestamp { secs: 1_780_000_000, nanos: 1 }), 1_780_000_000);
}

#[test]
fn copies_keep_every_name() {
    let v = vec!["a".to_string(), "b".to_string(), "".to_string()];
    assert_eq!(copy_strings(&v), v);
}

#[test]
fn new_store_is_empty() {
    let s = PlannerStore::new();
    assert!(s.find_user_by_email("a@x.com").is_none());
    assert!(s.find_user_by_key("a").is_none());
    assert!(s.find_plan("p", "user:a").is_none());
    assert!(!s.plan_key_taken("p"));
}

#[test]
fn store_lists_every_record_in_order() {
    let mut s = PlannerStore::new();
    let req = RegisterRequest { username: "a".to_string(), email: "a@x.com".to_string(), password: "p".to_string() };
    register_with(&mut s, req, Ok("h".to_string()), "u1".to_string(), Timestamp { secs: 5, nanos: 0 }).ok().unwrap();
    let c = Claims { sub: "user:u1".to_string(), exp: 0 };
    for (k, t) in [("p1", "one"), ("p2", "two")] {
        let r = CreatePlanRequest { date: PlanDate { year: 2026, month: 1, day: 1 }, title: t.to_string(), description: None, time: None };
        create_with(&mut s, &c, r, k.to_string(), Timestamp { secs: 6, nanos: 0 }).ok().unwrap();
    }
    let users = s.all_users();
    assert_eq!(users.len(), 1);
    assert_eq!(users[0].email, "a@x.com");
    assert_eq!(users[0].password_hash, "h");
    let plans = s.all_plans();
    assert_eq!(plans.iter().map(|p| p.title.clone()).collect::<Vec<_>>(), vec!["one", "two"]);
    assert_eq!(plans[1].id.as_ref().unwrap().key, "p2");
}
