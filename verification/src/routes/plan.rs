//! The caller's plans: listing, creation, lookup, update and deletion.

use vstd::prelude::*;
use crate::clock::now;
use crate::error::AppError;
use crate::ids::{new_uuid, uuid_text};
use crate::models::{
    plan_key_text, Claims, CreatePlanRequest, DateFilter, MessageResponse, Plan, PlanPublic, PlanView,
    RecordId, Timestamp, UpdatePlanRequest,
};
use crate::store::{
    copy_plan, key_of, listing, plan_of, plan_pos, plan_table, selector, sorted_for, updated_plan,
    views, PlannerStore,
};
use crate::text::copy_str;

verus! {

/// Message for a plan that does not exist for the caller.
pub open spec fn msg_plan_not_found() -> Seq<char> {
    "플랜을 찾을 수 없습니다."@
}

/// Message when the plan record could not be made.
pub open spec fn msg_plan_not_created() -> Seq<char> {
    "플랜 생성 실패"@
}

/// Message when the plan record could not be updated.
pub open spec fn msg_plan_not_updated() -> Seq<char> {
    "플랜 업데이트 실패"@
}

/// Message of a deletion.
pub open spec fn msg_deleted() -> Seq<char> {
    "삭제 완료"@
}

/// Some plan record, whoever owns it, has the key `k`.
pub open spec fn key_taken(ps: Seq<PlanView>, k: Seq<char>) -> bool {
    exists|i: int| 0 <= i < ps.len() && key_of((#[trigger] ps[i]).id) == Some(k)
}

/// `r` shows the stored plan `p` to a client: the same fields, the record key as
/// plain text.
pub open spec fn shows(r: PlanPublic, p: PlanView) -> bool {
    &&& r.id@ == plan_key_text(p.id)
    &&& r.user_id == p.user_id
    &&& r.date == p.date
    &&& r.title == p.title
    &&& r.description == p.description
    &&& r.time == p.time
    &&& r.completed == p.completed
    &&& r.photos@ == p.photos
    &&& r.created_at == p.created_at
    &&& r.updated_at == p.updated_at
}

/// Each of `rs` shows the plan at the same place in `ps`.
pub open spec fn shows_all(rs: Seq<PlanPublic>, ps: Seq<PlanView>) -> bool {
    rs.len() == ps.len() && forall|i: int| 0 <= i < rs.len() ==> shows(#[trigger] rs[i], ps[i])
}

/// The listing `ps` answers the query `f` of `uid` on the plans `all`: exactly the
/// selected plans, in the query's order.
pub open spec fn is_listing(ps: Seq<PlanView>, all: Seq<PlanView>, uid: Seq<char>, f: DateFilter) -> bool {
    ps.to_multiset() == all.filter(selector(uid, f)).to_multiset() && sorted_for(f, ps)
}

fn public_of(p: Plan) -> (r: PlanPublic)
    ensures
        shows(r, p@),
{
    PlanPublic::from(p)
}

/// The caller's plans (`GET /api/plans`): on the date `f.date`, newest first; else
/// in the month `f.month`, earliest date first; else all, latest date first. Plans
/// the order does not tell apart keep the order they were made in.
pub fn list(store: &PlannerStore, claims: &Claims, f: &DateFilter) -> (r: Vec<PlanPublic>)
    ensures
        shows_all(r@, listing(store.plans(), claims.sub@, *f)),
        is_listing(listing(store.plans(), claims.sub@, *f), store.plans(), claims.sub@, *f),
{
    let plans = store.list_plans(claims.sub.as_str(), f);
    let ghost ps = views(plans@);
    let mut out: Vec<PlanPublic> = Vec::new();
    let mut i: usize = 0;
    while i < plans.len()
        invariant
            i <= plans@.len(),
            ps == views(plans@),
            out@.len() == i,
            forall|k: int| 0 <= k < i ==> shows(#[trigger] out@[k], ps[k]),
        decreases plans@.len() - i,
    {
        let p = copy_plan(&plans[i]);
        let q = public_of(p);
        out.push(q);
        i = i + 1;
    }
    assert(shows_all(out@, ps));
    out
}

/// The record `p` is the one a creation makes for `uid`, `req`, the key `key` and the
/// time `at`.
pub open spec fn is_new_plan(p: PlanView, uid: Seq<char>, req: CreatePlanRequest, key: Seq<char>, at: Timestamp) -> bool {
    &&& p.id matches Some(r) && r.table@ == plan_table() && r.key@ == key
    &&& p.user_id@ == uid
    &&& p.date == req.date
    &&& p.title == req.title
    &&& p.description == req.description
    &&& p.time == req.time
    &&& !p.completed
    &&& p.photos == Seq::<String>::empty()
    &&& p.created_at == at
    &&& p.updated_at == at
}

/// Creation, given the new record's key and the time (`POST /api/plans`): the plan
/// belongs to the caller, starts not completed and without photos, and is created
/// and updated at `at`. Refused when the key is taken.
pub fn create_with(store: &mut PlannerStore, claims: &Claims, req: CreatePlanRequest, key: String, at: Timestamp)
    -> (res: Result<PlanPublic, AppError>)
    requires
        old(store).wf(),
    ensures
        final(store).wf(),
        final(store).users() == old(store).users(),
        key_taken(old(store).plans(), key@) ==> (res matches Err(AppError::Internal(m)) && m@ == msg_plan_not_created()
            && final(store).plans() == old(store).plans()),
        !key_taken(old(store).plans(), key@) ==> {
            &&& final(store).plans().len() == old(store).plans().len() + 1
            &&& final(store).plans().drop_last() == old(store).plans()
            &&& is_new_plan(final(store).plans().last(), claims.sub@, req, key@, at)
            &&& res matches Ok(r) && shows(r, final(store).plans().last())
        },
{
    let plan = Plan {
        id: Some(RecordId { table: copy_str("plan"), key }),
        user_id: copy_str(claims.sub.as_str()),
        date: req.date,
        title: req.title,
        description: req.description,
        time: req.time,
        completed: false,
        photos: Vec::new(),
        created_at: at,
        updated_at: at,
    };
    let shown = copy_plan(&plan);
    proof {
        reveal_strlit("plan");
    }
    if !store.insert_plan(plan) {
        return Err(AppError::Internal(copy_str("플랜 생성 실패")));
    }
    assert(store.plans().drop_last() =~= old(store).plans());
    Ok(public_of(shown))
}

/// Creation now, under a fresh random key.
pub fn create(store: &mut PlannerStore, claims: &Claims, req: CreatePlanRequest) -> (res: Result<PlanPublic, AppError>)
    requires
        old(store).wf(),
    ensures
        final(store).wf(),
        final(store).users() == old(store).users(),
        res is Err ==> (res matches Err(AppError::Internal(m)) && m@ == msg_plan_not_created()
            && final(store).plans() == old(store).plans() && exists|k: Seq<char>|
            uuid_text(k) && #[trigger] key_taken(old(store).plans(), k)),
        res matches Ok(r) ==> {
            &&& final(store).plans().len() == old(store).plans().len() + 1
            &&& final(store).plans().drop_last() == old(store).plans()
            &&& final(store).plans().last().user_id@ == claims.sub@
            &&& final(store).plans().last().date == req.date
            &&& final(store).plans().last().title == req.title
            &&& final(store).plans().last().description == req.description
            &&& final(store).plans().last().time == req.time
            &&& !final(store).plans().last().completed
            &&& final(store).plans().last().photos == Seq::<String>::empty()
            &&& final(store).plans().last().created_at == final(store).plans().last().updated_at
            &&& final(store).plans().last().id matches Some(id) && id.table@ == plan_table() && uuid_text(id.key@)
            &&& shows(r, final(store).plans().last())
        },
{
    let key = new_uuid();
    let at = now();
    create_with(store, claims, req, key, at)
}

/// One of the caller's plans (`GET /api/plans/{id}`), by its plain key.
pub fn get_one(store: &PlannerStore, claims: &Claims, id: &str) -> (res: Result<PlanPublic, AppError>)
    requires
        store.wf(),
    ensures
        match plan_of(store.plans(), id@, claims.sub@) {
            None => res matches Err(AppError::NotFound(m)) && m@ == msg_plan_not_found(),
            Some(p) => res matches Ok(r) && shows(r, p),
        },
{
    match store.find_plan(id, claims.sub.as_str()) {
        None => Err(AppError::NotFound(copy_str("플랜을 찾을 수 없습니다."))),
        Some(p) => Ok(public_of(p)),
    }
}

/// Update at time `at` (`PUT /api/plans/{id}`): each field the request holds
/// replaces the stored one, the others stay; the plan records `at` as its update time.
pub fn update_at(store: &mut PlannerStore, claims: &Claims, id: &str, req: UpdatePlanRequest, at: Timestamp)
    -> (res: Result<PlanPublic, AppError>)
    requires
        old(store).wf(),
    ensures
        final(store).wf(),
        final(store).users() == old(store).users(),
        match plan_of(old(store).plans(), id@, claims.sub@) {
            None => res matches Err(AppError::NotFound(m)) && m@ == msg_plan_not_found()
                && final(store).plans() == old(store).plans(),
            Some(p) => {
                let q = updated_plan(p, req, at);
                &&& final(store).plans() == old(store).plans().update(
                    plan_pos(old(store).plans(), id@, claims.sub@),
                    q,
                )
                &&& res matches Ok(r) && shows(r, q)
            },
        },
{
    if store.find_plan(id, claims.sub.as_str()).is_none() {
        return Err(AppError::NotFound(copy_str("플랜을 찾을 수 없습니다.")));
    }
    match store.update_plan(id, claims.sub.as_str(), req, at) {
        None => Err(AppError::Internal(copy_str("플랜 업데이트 실패"))),
        Some(q) => Ok(public_of(q)),
    }
}

/// Update now.
pub fn update(store: &mut PlannerStore, claims: &Claims, id: &str, req: UpdatePlanRequest) -> (res: Result<
    PlanPublic,
    AppError,
>)
    requires
        old(store).wf(),
    ensures
        final(store).wf(),
        final(store).users() == old(store).users(),
        match plan_of(old(store).plans(), id@, claims.sub@) {
            None => res matches Err(AppError::NotFound(m)) && m@ == msg_plan_not_found()
                && final(store).plans() == old(store).plans(),
            Some(p) => exists|at: Timestamp| {
                let q = #[trigger] updated_plan(p, req, at);
                &&& final(store).plans() == old(store).plans().update(
                    plan_pos(old(store).plans(), id@, claims.sub@),
                    q,
                )
                &&& res matches Ok(r) && shows(r, q)
            },
        },
{
    let at = now();
    update_at(store, claims, id, req, at)
}

/// Deletion (`DELETE /api/plans/{id}`): answered `{ "message": "삭제 완료" }`.
pub fn delete(store: &mut PlannerStore, claims: &Claims, id: &str) -> (res: Result<MessageResponse, AppError>)
    requires
        old(store).wf(),
    ensures
        final(store).wf(),
        final(store).users() == old(store).users(),
        match plan_of(old(store).plans(), id@, claims.sub@) {
            None => res matches Err(AppError::NotFound(m)) && m@ == msg_plan_not_found()
                && final(store).plans() == old(store).plans(),
            Some(p) => {
                &&& final(store).plans() == old(store).plans().remove(
                    plan_pos(old(store).plans(), id@, claims.sub@),
                )
                &&& res matches Ok(r) && r.message@ == msg_deleted()
            },
        },
{
    if store.delete_plan(id, claims.sub.as_str()) {
        Ok(MessageResponse { message: copy_str("삭제 완료") })
    } else {
        Err(AppError::NotFound(copy_str("플랜을 찾을 수 없습니다.")))
    }
}

} // verus!
