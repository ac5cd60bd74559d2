use planner_backend::error::AppError;
use planner_backend::models::{Claims, CreatePlanRequest, DateFilter, PlanDate, PlanPublic, Timestamp, UpdatePlanRequest, FieldUpdate};
use planner_backend::routes::photo::{
    extension_for, finish_upload_at, missing_file, photo_content_type, photo_field, photo_field_with, serve_photo,
    FieldAction, CACHE_CONTROL,
};
use planner_backend::routes::plan::{create, create_with, delete, get_one, list, update, update_at};
use planner_backend::store::PlannerStore;

fn at(secs: i64) -> Timestamp {
    Timestamp { secs, nanos: 0 }
}

fn caller(sub: &str) -> Claims {
    Claims { sub: sub.to_string(), exp: 0 }
}

fn req(year: i32, month: u32, day: u32, title: &str) -> CreatePlanRequest {
    CreatePlanRequest {
        date: PlanDate { year, month, day },
        title: title.to_string(),
        description: Some(format!("{} details", title)),
        time: None,
    }
}

fn no_filter() -> DateFilter {
    DateFilter { date: None, month: None }
}

fn titles(v: &[PlanPublic]) -> Vec<String> {
    v.iter().map(|p| p.title.clone()).collect()
}

fn not_found(r: Result<PlanPublic, AppError>) -> bool {
    matches!(r, Err(AppError::NotFound(m)) if m == "플랜을 찾을 수 없습니다.")
}

/// A store where `user:a` has three plans and `user:b` one.
fn sample() -> PlannerStore {
    let mut s = PlannerStore::new();
    let a = caller("user:a");
    create_with(&mut s, &a, req(2026, 6, 8, "essay"), "p1".to_string(), at(100)).ok().unwrap();
    create_with(&mut s, &a, req(2026, 6, 8, "run"), "p2".to_string(), at(200)).ok().unwrap();
    create_with(&mut s, &a, req(2026, 7, 1, "trip"), "p3".to_string(), at(150)).ok().unwrap();
    create_with(&mut s, &caller("user:b"), req(2026, 6, 8, "other"), "p4".to_string(), at(300)).ok().unwrap();
    s
}

#[test]
fn created_plan_starts_open_and_without_photos() {
    let mut s = PlannerStore::new();
    let r = create_with(&mut s, &caller("user:a"), req(2026, 6, 8, "essay"), "x7k2p9".to_string(), at(42)).ok().unwrap();
    assert_eq!(r.id, "x7k2p9");
    assert_eq!(r.user_id, "user:a");
    assert_eq!((r.date.year, r.date.month, r.date.day), (2026, 6, 8));
    assert_eq!(r.title, "essay");
    assert_eq!(r.description.as_deref(), Some("essay details"));
    assert_eq!(r.time, None);
    assert!(!r.completed);
    assert!(r.photos.is_empty());
    assert_eq!(r.created_at.secs, 42);
    assert_eq!(r.updated_at.secs, 42);
}

#[test]
fn created_plan_is_found_by_its_shown_id() {
    let mut s = PlannerStore::new();
    let a = caller("user:a");
    let r = create_with(&mut s, &a, req(2026, 6, 8, "essay"), "k9".to_string(), at(1)).ok().unwrap();
    let g = get_one(&s, &a, &r.id).ok().unwrap();
    assert_eq!(g.id, r.id);
    assert_eq!(g.title, "essay");
}

#[test]
fn creation_with_a_taken_key_is_refused() {
    let mut s = sample();
    match create_with(&mut s, &caller("user:a"), req(2026, 1, 1, "dup"), "p1".to_string(), at(5)) {
        Err(AppError::Internal(m)) => assert_eq!(m, "플랜 생성 실패"),
        _ => panic!("expected 500"),
    }
    assert_eq!(list(&s, &caller("user:a"), &no_filter()).len(), 3);
}

#[test]
fn creation_now_uses_a_fresh_key() {
    let mut s = PlannerStore::new();
    let a = caller("user:a");
    let r1 = create(&mut s, &a, req(2026, 6, 8, "one")).ok().unwrap();
    let r2 = create(&mut s, &a, req(2026, 6, 8, "two")).ok().unwrap();
    assert_ne!(r1.id, r2.id);
    assert_eq!(r1.id.len(), 36);
    assert_eq!(r1.created_at.secs, r1.updated_at.secs);
    assert!(get_one(&s, &a, &r2.id).is_ok());
}

#[test]
fn plans_of_others_are_not_found() {
    let s = sample();
    assert!(not_found(get_one(&s, &caller("user:b"), "p1")));
    assert!(not_found(get_one(&s, &caller("user:a"), "p4")));
    assert!(not_found(get_one(&s, &caller("user:a"), "nope")));
    assert_eq!(get_one(&s, &caller("user:b"), "p4").ok().unwrap().title, "other");
}

#[test]
fn listing_all_is_latest_date_first() {
    let s = sample();
    let v = list(&s, &caller("user:a"), &no_filter());
    assert_eq!(v.len(), 3);
    assert_eq!(titles(&v), vec!["trip", "essay", "run"]);
}

#[test]
fn listing_a_date_is_newest_first() {
    let s = sample();
    let f = DateFilter { date: Some("2026-06-08".to_string()), month: None };
    assert_eq!(titles(&list(&s, &caller("user:a"), &f)), vec!["run", "essay"]);
    let none = DateFilter { date: Some("2026-6-8".to_string()), month: None };
    assert!(list(&s, &caller("user:a"), &none).is_empty());
}

#[test]
fn listing_a_month_is_earliest_date_first() {
    let mut s = sample();
    let a = caller("user:a");
    create_with(&mut s, &a, req(2026, 6, 1, "early"), "p5".to_string(), at(400)).ok().unwrap();
    let f = DateFilter { date: None, month: Some("2026-06".to_string()) };
    let v = list(&s, &a, &f);
    assert_eq!(v.len(), 3);
    assert_eq!(v[0].title, "early");
    let july = DateFilter { date: None, month: Some("2026-07".to_string()) };
    assert_eq!(titles(&list(&s, &a, &july)), vec!["trip"]);
    let prefix_only = DateFilter { date: None, month: Some("2026-0".to_string()) };
    assert!(list(&s, &a, &prefix_only).is_empty());
}

#[test]
fn date_filter_wins_over_month() {
    let s = sample();
    let f = DateFilter { date: Some("2026-07-01".to_string()), month: Some("2026-06".to_string()) };
    assert_eq!(titles(&list(&s, &caller("user:a"), &f)), vec!["trip"]);
}

#[test]
fn listing_depends_only_on_the_callers_plans() {
    let mut other = PlannerStore::new();
    let a = caller("user:a");
    create_with(&mut other, &caller("user:z"), req(2026, 6, 8, "noise"), "z1".to_string(), at(1)).ok().unwrap();
    create_with(&mut other, &a, req(2026, 6, 8, "essay"), "p1".to_string(), at(100)).ok().unwrap();
    create_with(&mut other, &a, req(2026, 6, 8, "run"), "p2".to_string(), at(200)).ok().unwrap();
    create_with(&mut other, &caller("user:z"), req(2026, 7, 1, "noise2"), "z2".to_string(), at(2)).ok().unwrap();
    create_with(&mut other, &a, req(2026, 7, 1, "trip"), "p3".to_string(), at(150)).ok().unwrap();
    let s = sample();
    for f in [no_filter(), DateFilter { date: None, month: Some("2026-06".to_string()) }] {
        let x: Vec<(String, String)> = list(&s, &a, &f).into_iter().map(|p| (p.id, p.title)).collect();
        let y: Vec<(String, String)> = list(&other, &a, &f).into_iter().map(|p| (p.id, p.title)).collect();
        assert_eq!(x, y);
    }
}

#[test]
fn listing_shows_only_the_callers_plans() {
    let s = sample();
    let v = list(&s, &caller("user:b"), &no_filter());
    assert_eq!(titles(&v), vec!["other"]);
    assert!(list(&s, &caller("user:c"), &no_filter()).is_empty());
}

#[test]
fn update_applies_only_the_fields_sent() {
    let mut s = sample();
    let a = caller("user:a");
    let toggle = UpdatePlanRequest { title: None, description: FieldUpdate::Absent, time: FieldUpdate::Absent, completed: Some(true) };
    let r = update_at(&mut s, &a, "p1", toggle, at(900)).ok().unwrap();
    assert!(r.completed);
    assert_eq!(r.title, "essay");
    assert_eq!(r.description.as_deref(), Some("essay details"));
    assert_eq!(r.created_at.secs, 100);
    assert_eq!(r.updated_at.secs, 900);
    let edit = UpdatePlanRequest {
        title: Some("new title".to_string()),
        description: FieldUpdate::Absent,
        time: FieldUpdate::Value("오후 03:00".to_string()),
        completed: None,
    };
    let r = update_at(&mut s, &a, "p1", edit, at(950)).ok().unwrap();
    assert_eq!(r.title, "new title");
    assert_eq!(r.time.as_deref(), Some("오후 03:00"));
    assert!(r.completed);
    let g = get_one(&s, &a, "p1").ok().unwrap();
    assert_eq!(g.title, "new title");
    assert_eq!(g.updated_at.secs, 950);
}

#[test]
fn update_with_null_clears_a_field() {
    let mut s = sample();
    let a = caller("user:a");
    let set = UpdatePlanRequest {
        title: None,
        description: FieldUpdate::Absent,
        time: FieldUpdate::Value("오전 09:00".to_string()),
        completed: None,
    };
    assert_eq!(update_at(&mut s, &a, "p1", set, at(10)).ok().unwrap().time.as_deref(), Some("오전 09:00"));
    let clear = UpdatePlanRequest { title: None, description: FieldUpdate::Null, time: FieldUpdate::Null, completed: None };
    let r = update_at(&mut s, &a, "p1", clear, at(11)).ok().unwrap();
    assert_eq!(r.time, None);
    assert_eq!(r.description, None);
    assert_eq!(r.title, "essay");
    let g = get_one(&s, &a, "p1").ok().unwrap();
    assert_eq!(g.time, None);
    assert_eq!(g.description, None);
}

#[test]
fn update_of_a_missing_or_foreign_plan_is_not_found() {
    let mut s = sample();
    let u = UpdatePlanRequest { title: Some("x".to_string()), description: FieldUpdate::Absent, time: FieldUpdate::Absent, completed: None };
    assert!(not_found(update_at(&mut s, &caller("user:b"), "p1", u, at(1))));
    assert_eq!(get_one(&s, &caller("user:a"), "p1").ok().unwrap().title, "essay");
}

#[test]
fn update_now_records_the_time() {
    let mut s = sample();
    let u = UpdatePlanRequest { title: None, description: FieldUpdate::Absent, time: FieldUpdate::Absent, completed: Some(true) };
    let r = update(&mut s, &caller("user:a"), "p2", u).ok().unwrap();
    assert!(r.updated_at.secs > 1_600_000_000);
}

#[test]
fn update_leaves_what_others_list() {
    let mut s = sample();
    let before = titles(&list(&s, &caller("user:b"), &no_filter()));
    let u = UpdatePlanRequest { title: Some("changed".to_string()), description: FieldUpdate::Absent, time: FieldUpdate::Absent, completed: None };
    update_at(&mut s, &caller("user:a"), "p1", u, at(5)).ok().unwrap();
    assert_eq!(titles(&list(&s, &caller("user:b"), &no_filter())), before);
}

#[test]
fn deleted_plan_is_gone() {
    let mut s = sample();
    let a = caller("user:a");
    let r = delete(&mut s, &a, "p2").ok().unwrap();
    assert_eq!(r.message, "삭제 완료");
    assert!(not_found(get_one(&s, &a, "p2")));
    assert_eq!(list(&s, &a, &no_filter()).len(), 2);
    assert_eq!(titles(&list(&s, &caller("user:b"), &no_filter())), vec!["other"]);
}

#[test]
fn deleting_a_missing_or_foreign_plan_is_not_found() {
    let mut s = sample();
    match delete(&mut s, &caller("user:b"), "p1") {
        Err(AppError::NotFound(m)) => assert_eq!(m, "플랜을 찾을 수 없습니다."),
        _ => panic!("expected 404"),
    }
    assert!(get_one(&s, &caller("user:a"), "p1").is_ok());
}

#[test]
fn image_types_and_their_extensions() {
    assert_eq!(extension_for("image/jpeg").as_deref(), Some("jpg"));
    assert_eq!(extension_for("image/png").as_deref(), Some("png"));
    assert_eq!(extension_for("image/webp").as_deref(), Some("webp"));
    assert_eq!(extension_for("image/gif").as_deref(), Some("gif"));
    assert_eq!(extension_for("image/bmp"), None);
    assert_eq!(extension_for("application/octet-stream"), None);
}

#[test]
fn upload_fields_other_than_photo_are_passed_over() {
    assert!(matches!(photo_field_with(Some("file"), Some("image/png"), "id"), Ok(FieldAction::Skip)));
    assert!(matches!(photo_field_with(None, Some("image/png"), "id"), Ok(FieldAction::Skip)));
}

#[test]
fn upload_of_an_unsupported_type_is_refused() {
    for ct in [Some("text/plain"), None] {
        match photo_field_with(Some("photo"), ct, "id") {
            Err(AppError::BadRequest(m)) => assert_eq!(m, "지원하지 않는 이미지 형식입니다."),
            _ => panic!("expected 400"),
        }
    }
}

#[test]
fn uploaded_photo_is_named_by_the_id_and_extension() {
    match photo_field_with(Some("photo"), Some("image/webp"), "abc") {
        Ok(FieldAction::Save { filename, path }) => {
            assert_eq!(filename, "abc.webp");
            assert_eq!(path, "uploads/abc.webp");
        },
        _ => panic!("expected a file to save"),
    }
}

#[test]
fn uploaded_photo_gets_a_random_uuid_name() {
    let names: Vec<String> = (0..2)
        .map(|_| match photo_field(Some("photo"), Some("image/png")) {
            Ok(FieldAction::Save { filename, path }) => {
                assert_eq!(path, format!("uploads/{}", filename));
                filename
            },
            _ => panic!("expected a file to save"),
        })
        .collect();
    assert_ne!(names[0], names[1]);
    for n in &names {
        assert_eq!(n.len(), 36 + 4);
        assert!(n.ends_with(".png"));
        let id = &n[..36];
        assert_eq!(id.chars().filter(|c| *c == '-').count(), 4);
        assert_eq!(id.as_bytes()[14], b'4');
        assert!(matches!(id.as_bytes()[19], b'8' | b'9' | b'a' | b'b'));
        assert!(id.chars().all(|c| c == '-' || c.is_ascii_digit() || ('a'..='f').contains(&c)));
    }
}

#[test]
fn upload_without_files_is_refused() {
    let mut s = sample();
    match finish_upload_at(&mut s, &caller("user:a"), "p1", &Vec::new(), at(9)) {
        Err(AppError::BadRequest(m)) => assert_eq!(m, "업로드된 파일이 없습니다."),
        _ => panic!("expected 400"),
    }
}

#[test]
fn uploaded_names_follow_the_plans_photos() {
    let mut s = sample();
    let a = caller("user:a");
    let r = finish_upload_at(&mut s, &a, "p1", &vec!["a1b2.jpg".to_string()], at(7)).ok().unwrap();
    assert_eq!(r.photos, vec!["a1b2.jpg"]);
    assert_eq!(r.updated_at.secs, 7);
    let r = finish_upload_at(&mut s, &a, "p1", &vec!["c3d4.png".to_string(), "e5.gif".to_string()], at(8)).ok().unwrap();
    assert_eq!(r.photos, vec!["a1b2.jpg", "c3d4.png", "e5.gif"]);
    assert_eq!(get_one(&s, &a, "p1").ok().unwrap().photos.len(), 3);
}

#[test]
fn upload_to_a_vanished_plan_is_not_saved() {
    let mut s = sample();
    match finish_upload_at(&mut s, &caller("user:b"), "p1", &vec!["x.jpg".to_string()], at(7)) {
        Err(AppError::Internal(m)) => assert_eq!(m, "사진 저장 실패"),
        _ => panic!("expected 500"),
    }
}

#[test]
fn serving_refuses_names_that_leave_the_directory() {
    for name in ["../secret", "a/b.jpg", "x..jpg", "..", "/"] {
        match serve_photo(name) {
            Err(AppError::BadRequest(m)) => assert_eq!(m, "잘못된 파일 이름"),
            _ => panic!("expected 400 for {}", name),
        }
    }
}

#[test]
fn serving_answers_with_the_type_of_the_extension() {
    let s = serve_photo("a1b2.jpg").ok().unwrap();
    assert_eq!(s.path, "uploads/a1b2.jpg");
    assert_eq!(s.content_type, "image/jpeg");
    assert_eq!(s.cache_control, "public, max-age=31536000");
    assert_eq!(CACHE_CONTROL, "public, max-age=31536000");
    assert_eq!(photo_content_type("x.jpeg"), "image/jpeg");
    assert_eq!(photo_content_type("x.png"), "image/png");
    assert_eq!(photo_content_type("x.tar.webp"), "image/webp");
    assert_eq!(photo_content_type("x.gif"), "image/gif");
    assert_eq!(photo_content_type("x.JPG"), "application/octet-stream");
    assert_eq!(photo_content_type("jpg"), "image/jpeg");
    assert_eq!(photo_content_type("noext"), "application/octet-stream");
    assert_eq!(photo_content_type("x."), "application/octet-stream");
}

#[test]
fn uploaded_photo_is_served_with_its_type() {
    for ct in ["image/jpeg", "image/png", "image/webp", "image/gif"] {
        let filename = match photo_field(Some("photo"), Some(ct)) {
            Ok(FieldAction::Save { filename, .. }) => filename,
            _ => panic!("expected a file to save"),
        };
        let s = serve_photo(&filename).ok().unwrap();
        assert_eq!(s.content_type, ct);
    }
}

#[test]
fn missing_file_is_not_found() {
    match missing_file() {
        AppError::NotFound(m) => assert_eq!(m, "파일을 찾을 수 없습니다."),
        _ => panic!("expected 404"),
    }
}

#[test]
fn upload_to_a_plan_of_another_account_stops_first() {
    let s = sample();
    match planner_backend::routes::photo::start_upload(&s, &caller("user:b"), "p1") {
        Err(AppError::NotFound(m)) => assert_eq!(m, "플랜을 찾을 수 없습니다."),
        _ => panic!("expected 404"),
    }
}

#[test]
fn upload_session_adds_the_recorded_names() {
    let mut s = sample();
    let a = caller("user:a");
    let mut session = planner_backend::routes::photo::start_upload(&s, &a, "p1").ok().unwrap();
    assert_eq!(session.plan_id, "p1");
    assert!(session.saved.is_empty());
    session.record("a.jpg".to_string());
    session.record("b.png".to_string());
    let r = session.finish(&mut s, &a).ok().unwrap();
    assert_eq!(r.photos, vec!["a.jpg", "b.png"]);
    let empty = planner_backend::routes::photo::start_upload(&s, &a, "p1").ok().unwrap();
    match empty.finish(&mut s, &a) {
        Err(AppError::BadRequest(m)) => assert_eq!(m, "업로드된 파일이 없습니다."),
        _ => panic!("expected 400"),
    }
}
