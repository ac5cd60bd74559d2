//! What holds across requests: logging in after registering, finding a plan by
//! the id it is shown with, what an update or a deletion leaves behind, and that
//! an account never reaches, or disturbs, the plans of another.

use vstd::prelude::*;
use crate::models::{date_before, four_digit_date, lemma_date_text_order, plan_key_text, DateFilter, FieldUpdate, PlanPublic, PlanView, Timestamp, UpdatePlanRequest, User};
use crate::password::bcrypt_verdict;
use crate::routes::plan::shows;
use crate::routes::user::{login_user, subject_key, user_id_text};
use crate::store::{
    has_plan, insert_in_order, key_of, lemma_precedes_total, lemma_precedes_transitive, listing, ordered, owns, plan_of, plan_precedes, plan_selected, user_by_email, plan_pos, plans_wf, selector, updated_plan, user_by_key,
    sorted_for, user_table, users_wf, with_photos,
};
use crate::text::is_prefix;

verus! {

/// An account that registration added logs in with the e-mail address and the
/// password it was registered with.
pub proof fn law_registered_account_logs_in(before: Seq<User>, u: User, password: Seq<char>)
    requires
        users_wf(before.push(u)),
        bcrypt_verdict(password, u.password_hash@) matches Ok(true),
    ensures
        user_by_email(before.push(u), u.email@) == Some(u),
        login_user(before.push(u), u.email@, password) == Some(u),
{
    let us = before.push(u);
    let n = before.len() as int;
    assert(us[n] == u);
    assert(exists|i: int| 0 <= i < us.len() && (#[trigger] us[i]).email@ == u.email@);
    let j = choose|i: int| 0 <= i < us.len() && (#[trigger] us[i]).email@ == u.email@;
    if j != n {
        assert(us[j].email@ != us[n].email@);
    }
}

/// The subject of an account's token names that account: `me` finds it.
pub proof fn law_token_subject_finds_account(users: Seq<User>, i: int)
    requires
        users_wf(users),
        0 <= i < users.len(),
    ensures
        user_by_key(users, subject_key(user_id_text(users[i].id))) == Some(users[i]),
{
    let u = users[i];
    let r = u.id->0;
    let sub = user_id_text(u.id);
    reveal_strlit("user:");
    reveal_strlit("user");
    assert(r.table@ == user_table());
    assert(sub == r.table@ + seq![':'] + r.key@);
    assert(sub.take(5) =~= "user:"@);
    assert(is_prefix("user:"@, sub));
    assert(sub.skip(5) =~= r.key@);
    assert(key_of(users[i].id) == Some(r.key@));
    let j = choose|j: int| 0 <= j < users.len() && key_of((#[trigger] users[j]).id) == Some(r.key@);
    if j != i {
        assert(key_of(users[j].id) != key_of(users[i].id));
    }
}

/// Only the caller's plans are reached: what a lookup finds has the key asked for
/// and belongs to the caller.
pub proof fn law_lookup_finds_own_plan(ps: Seq<PlanView>, key: Seq<char>, uid: Seq<char>)
    requires
        has_plan(ps, key, uid),
    ensures
        plan_of(ps, key, uid) matches Some(p) && key_of(p.id) == Some(key) && p.user_id@ == uid,
{
}

/// The id a plan is shown with finds that plan again, for its owner.
pub proof fn law_shown_id_finds_plan(ps: Seq<PlanView>, i: int, r: PlanPublic)
    requires
        plans_wf(ps),
        0 <= i < ps.len(),
        shows(r, ps[i]),
    ensures
        plan_of(ps, r.id@, ps[i].user_id@) == Some(ps[i]),
{
    let uid = ps[i].user_id@;
    assert(r.id@ == plan_key_text(ps[i].id));
    assert(owns(ps[i], r.id@, uid));
    let j = plan_pos(ps, r.id@, uid);
    if j != i {
        assert(key_of(ps[j].id) != key_of(ps[i].id));
    }
}

/// A plan just added is found by its key for its owner.
pub proof fn law_created_plan_found(ps: Seq<PlanView>, p: PlanView, key: Seq<char>)
    requires
        plans_wf(ps.push(p)),
        key_of(p.id) == Some(key),
    ensures
        plan_of(ps.push(p), key, p.user_id@) == Some(p),
{
    let qs = ps.push(p);
    let n = ps.len() as int;
    assert(qs[n] == p);
    assert(owns(qs[n], key, p.user_id@));
    let j = plan_pos(qs, key, p.user_id@);
    if j != n {
        assert(key_of(qs[j].id) != key_of(qs[n].id));
    }
}

/// After an update, the plan is found with the update applied.
pub proof fn law_updated_plan_found(
    ps: Seq<PlanView>,
    key: Seq<char>,
    uid: Seq<char>,
    req: UpdatePlanRequest,
    at: Timestamp,
)
    requires
        plans_wf(ps),
        has_plan(ps, key, uid),
    ensures
        ({
            let i = plan_pos(ps, key, uid);
            let q = updated_plan(ps[i], req, at);
            plan_of(ps.update(i, q), key, uid) == Some(q)
        }),
{
    let i = plan_pos(ps, key, uid);
    let q = updated_plan(ps[i], req, at);
    let qs = ps.update(i, q);
    assert(qs[i] == q);
    assert(owns(qs[i], key, uid));
    let j = plan_pos(qs, key, uid);
    if j != i {
        assert(qs[j] == ps[j]);
        assert(key_of(ps[j].id) != key_of(ps[i].id));
    }
}

/// After photos are added, the plan is found with the new names after the old ones.
pub proof fn law_photos_added_found(ps: Seq<PlanView>, key: Seq<char>, uid: Seq<char>, added: Seq<String>, at: Timestamp)
    requires
        plans_wf(ps),
        has_plan(ps, key, uid),
    ensures
        ({
            let i = plan_pos(ps, key, uid);
            let q = with_photos(ps[i], added, at);
            &&& plan_of(ps.update(i, q), key, uid) == Some(q)
            &&& q.photos == ps[i].photos + added
        }),
{
    let i = plan_pos(ps, key, uid);
    let q = with_photos(ps[i], added, at);
    let qs = ps.update(i, q);
    assert(qs[i] == q);
    assert(owns(qs[i], key, uid));
    let j = plan_pos(qs, key, uid);
    if j != i {
        assert(qs[j] == ps[j]);
        assert(key_of(ps[j].id) != key_of(ps[i].id));
    }
}

/// After a deletion, no account finds a plan under that key.
pub proof fn law_deleted_plan_gone(ps: Seq<PlanView>, key: Seq<char>, uid: Seq<char>, anyone: Seq<char>)
    requires
        plans_wf(ps),
        has_plan(ps, key, uid),
    ensures
        plan_of(ps.remove(plan_pos(ps, key, uid)), key, anyone) is None,
{
    let i = plan_pos(ps, key, uid);
    let qs = ps.remove(i);
    if has_plan(qs, key, anyone) {
        let j = choose|j: int| 0 <= j < qs.len() && owns(#[trigger] qs[j], key, anyone);
        let j2 = if j < i { j } else { j + 1 };
        assert(qs[j] == ps[j2]);
        assert(key_of(ps[j2].id) != key_of(ps[i].id));
    }
}

/// A plan record put in place of another one of `uid`, without changing its owner,
/// leaves what every other account lists unchanged.
pub proof fn law_replacing_keeps_others_listing(
    ps: Seq<PlanView>,
    i: int,
    q: PlanView,
    other: Seq<char>,
    f: DateFilter,
)
    requires
        0 <= i < ps.len(),
        q.user_id == ps[i].user_id,
        ps[i].user_id@ != other,
    ensures
        ps.update(i, q).filter(selector(other, f)) == ps.filter(selector(other, f)),
{
    let pred = selector(other, f);
    let a = ps.take(i);
    let b = ps.skip(i + 1);
    assert(ps =~= a + seq![ps[i]] + b);
    assert(ps.update(i, q) =~= a + seq![q] + b);
    Seq::filter_distributes_over_add(a + seq![ps[i]], b, pred);
    Seq::filter_distributes_over_add(a, seq![ps[i]], pred);
    Seq::filter_distributes_over_add(a + seq![q], b, pred);
    Seq::filter_distributes_over_add(a, seq![q], pred);
    assert(!pred(ps[i]));
    assert(!pred(q));
    Seq::<PlanView>::empty().lemma_filter_push(ps[i], pred);
    Seq::<PlanView>::empty().lemma_filter_push(q, pred);
    assert(seq![ps[i]] =~= Seq::<PlanView>::empty().push(ps[i]));
    assert(seq![q] =~= Seq::<PlanView>::empty().push(q));
    assert(Seq::<PlanView>::empty().filter(pred) =~= Seq::<PlanView>::empty()) by {
        reveal(Seq::filter);
    }
    assert(a.filter(pred) + Seq::<PlanView>::empty() =~= a.filter(pred));
}

/// Deleting a plan of `uid` leaves what every other account lists unchanged.
pub proof fn law_deleting_keeps_others_listing(ps: Seq<PlanView>, i: int, other: Seq<char>, f: DateFilter)
    requires
        0 <= i < ps.len(),
        ps[i].user_id@ != other,
    ensures
        ps.remove(i).filter(selector(other, f)) == ps.filter(selector(other, f)),
{
    let pred = selector(other, f);
    let a = ps.take(i);
    let b = ps.skip(i + 1);
    assert(ps =~= a + seq![ps[i]] + b);
    assert(ps.remove(i) =~= a + b);
    Seq::filter_distributes_over_add(a + seq![ps[i]], b, pred);
    Seq::filter_distributes_over_add(a, seq![ps[i]], pred);
    Seq::filter_distributes_over_add(a, b, pred);
    assert(!pred(ps[i]));
    Seq::<PlanView>::empty().lemma_filter_push(ps[i], pred);
    assert(seq![ps[i]] =~= Seq::<PlanView>::empty().push(ps[i]));
    assert(Seq::<PlanView>::empty().filter(pred) =~= Seq::<PlanView>::empty()) by {
        reveal(Seq::filter);
    }
    assert(a.filter(pred) + Seq::<PlanView>::empty() =~= a.filter(pred));
}

/// A plan is one of `uid`'s.
pub open spec fn owned_by(uid: Seq<char>) -> spec_fn(PlanView) -> bool {
    |p: PlanView| p.user_id@ == uid
}

/// Narrowing a listing: a plan listed for the date `d` (`YYYY-MM-DD`) is listed for
/// its month `m` (`YYYY-MM`), and a plan listed for a month is listed with no filter.
pub proof fn law_listing_narrows(uid: Seq<char>, d: String, m: String)
    requires
        d@.len() >= 8,
        d@[7] == '-',
        m@ == d@.take(7),
    ensures
        forall|p: PlanView|
            #[trigger] plan_selected(p, uid, DateFilter { date: Some(d), month: None }) ==> plan_selected(
                p,
                uid,
                DateFilter { date: None, month: Some(m) },
            ),
        forall|p: PlanView|
            #[trigger] plan_selected(p, uid, DateFilter { date: None, month: Some(m) }) ==> plan_selected(
                p,
                uid,
                DateFilter { date: None, month: None },
            ),
{
    assert(m@.push('-') =~= d@.take(8));
}

proof fn lemma_insert_all(f: DateFilter, s: Seq<PlanView>, x: PlanView, pred: spec_fn(PlanView) -> bool)
    requires
        forall|i: int| 0 <= i < s.len() ==> pred(#[trigger] s[i]),
        pred(x),
    ensures
        forall|i: int| 0 <= i < insert_in_order(f, s, x).len() ==> pred(#[trigger] insert_in_order(f, s, x)[i]),
    decreases s.len(),
{
    if s.len() > 0 && plan_precedes(f, s[0], x) {
        let r = s.drop_first();
        assert forall|i: int| 0 <= i < r.len() implies pred(#[trigger] r[i]) by {
            assert(r[i] == s[i + 1]);
        }
        lemma_insert_all(f, r, x, pred);
        let t = insert_in_order(f, r, x);
        assert forall|i: int| 0 <= i < (seq![s[0]] + t).len() implies pred(#[trigger] (seq![s[0]] + t)[i]) by {
            if i > 0 {
                assert((seq![s[0]] + t)[i] == t[i - 1]);
            }
        }
    } else if s.len() > 0 {
        assert forall|i: int| 0 <= i < (seq![x] + s).len() implies pred(#[trigger] (seq![x] + s)[i]) by {
            if i > 0 {
                assert((seq![x] + s)[i] == s[i - 1]);
            }
        }
    }
}

proof fn lemma_ordered_all(f: DateFilter, s: Seq<PlanView>, pred: spec_fn(PlanView) -> bool)
    requires
        forall|i: int| 0 <= i < s.len() ==> pred(#[trigger] s[i]),
    ensures
        forall|i: int| 0 <= i < ordered(f, s).len() ==> pred(#[trigger] ordered(f, s)[i]),
    decreases s.len(),
{
    if s.len() > 0 {
        let t = s.drop_last();
        assert forall|i: int| 0 <= i < t.len() implies pred(#[trigger] t[i]) by {
            assert(t[i] == s[i]);
        }
        lemma_ordered_all(f, t, pred);
        assert(s.last() == s[s.len() - 1]);
        lemma_insert_all(f, ordered(f, t), s.last(), pred);
    }
}

proof fn lemma_insert_sorted(f: DateFilter, s: Seq<PlanView>, x: PlanView)
    requires
        sorted_for(f, s),
    ensures
        sorted_for(f, insert_in_order(f, s, x)),
    decreases s.len(),
{
    let out = insert_in_order(f, s, x);
    if s.len() == 0 {
    } else if plan_precedes(f, s[0], x) {
        let r = s.drop_first();
        assert(sorted_for(f, r)) by {
            assert forall|i: int, j: int| 0 <= i < j < r.len() implies plan_precedes(f, #[trigger] r[i], #[trigger] r[j]) by {
                assert(r[i] == s[i + 1] && r[j] == s[j + 1]);
            }
        }
        lemma_insert_sorted(f, r, x);
        let t = insert_in_order(f, r, x);
        let s0 = s[0];
        assert forall|i: int| 0 <= i < r.len() implies plan_precedes(f, s0, #[trigger] r[i]) by {
            assert(r[i] == s[i + 1]);
            assert(plan_precedes(f, s[0], s[i + 1]));
        }
        lemma_insert_all(f, r, x, |p: PlanView| plan_precedes(f, s0, p));
        assert(out == seq![s0] + t);
        assert forall|i: int, j: int| 0 <= i < j < out.len() implies plan_precedes(f, #[trigger] out[i], #[trigger] out[j]) by {
            assert(out[j] == t[j - 1]);
            if i > 0 {
                assert(out[i] == t[i - 1]);
            }
        }
    } else {
        lemma_precedes_total(f, s[0], x);
        assert(out == seq![x] + s);
        assert forall|i: int, j: int| 0 <= i < j < out.len() implies plan_precedes(f, #[trigger] out[i], #[trigger] out[j]) by {
            assert(out[j] == s[j - 1]);
            if i > 0 {
                assert(out[i] == s[i - 1]);
            } else {
                if j > 1 {
                    assert(plan_precedes(f, s[0], s[j - 1]));
                    lemma_precedes_transitive(f, x, s[0], s[j - 1]);
                }
            }
        }
    }
}

proof fn lemma_ordered_sorted(f: DateFilter, s: Seq<PlanView>)
    ensures
        sorted_for(f, ordered(f, s)),
    decreases s.len(),
{
    if s.len() > 0 {
        lemma_ordered_sorted(f, s.drop_last());
        lemma_insert_sorted(f, ordered(f, s.drop_last()), s.last());
    }
}

proof fn lemma_listing_is_own(ps: Seq<PlanView>, uid: Seq<char>, f: DateFilter)
    ensures
        forall|i: int| 0 <= i < listing(ps, uid, f).len() ==> (#[trigger] listing(ps, uid, f)[i]).user_id@ == uid,
{
    let s = ps.filter(selector(uid, f));
    assert forall|i: int| 0 <= i < s.len() implies (#[trigger] s[i]).user_id@ == uid by {
        ps.lemma_filter_pred(selector(uid, f), i);
    }
    lemma_ordered_all(f, s, owned_by(uid));
}

proof fn lemma_selection_within_own(s: Seq<PlanView>, uid: Seq<char>, f: DateFilter)
    ensures
        s.filter(selector(uid, f)) == s.filter(owned_by(uid)).filter(selector(uid, f)),
    decreases s.len(),
{
    let sel = selector(uid, f);
    let own = owned_by(uid);
    if s.len() == 0 {
        assert(s.filter(sel) =~= Seq::<PlanView>::empty()) by {
            reveal(Seq::filter);
        }
        assert(s.filter(own) =~= Seq::<PlanView>::empty()) by {
            reveal(Seq::filter);
        }
        assert(Seq::<PlanView>::empty().filter(sel) =~= Seq::<PlanView>::empty()) by {
            reveal(Seq::filter);
        }
    } else {
        let t = s.drop_last();
        let x = s.last();
        lemma_selection_within_own(t, uid, f);
        assert(s =~= t.push(x));
        t.lemma_filter_push(x, sel);
        t.lemma_filter_push(x, own);
        t.filter(own).lemma_filter_push(x, sel);
    }
}

/// What an account lists depends only on its own plans: two stores that hold the
/// same plans of `uid`, in the same order, list exactly the same for `uid`,
/// whatever the plans of other accounts; and every plan listed is `uid`'s.
pub proof fn law_listing_depends_only_on_own_plans(
    ps1: Seq<PlanView>,
    ps2: Seq<PlanView>,
    uid: Seq<char>,
    f: DateFilter,
)
    requires
        ps1.filter(owned_by(uid)) == ps2.filter(owned_by(uid)),
    ensures
        ps1.filter(selector(uid, f)) == ps2.filter(selector(uid, f)),
        listing(ps1, uid, f) == listing(ps2, uid, f),
        forall|i: int|
            0 <= i < listing(ps1, uid, f).len() ==> (#[trigger] listing(ps1, uid, f)[i]).user_id@ == uid,
{
    lemma_selection_within_own(ps1, uid, f);
    lemma_selection_within_own(ps2, uid, f);
    lemma_listing_is_own(ps1, uid, f);
}

/// Sending the same update again changes nothing but the time of the last change.
pub proof fn law_repeated_update_changes_only_its_time(
    p: PlanView,
    req: UpdatePlanRequest,
    first: Timestamp,
    again: Timestamp,
)
    ensures
        updated_plan(updated_plan(p, req, first), req, again) == (PlanView {
            updated_at: again,
            ..updated_plan(p, req, first)
        }),
{
}

/// An update sets each field the request carries to the value sent (completion
/// checked and unchecked alike; `null` clears the description or the time), keeps
/// every field the request leaves out and every field it cannot change (record
/// name, owner, date, photos, creation time), and records `at` as the time of the
/// change.
pub proof fn law_update_sets_what_is_sent(p: PlanView, req: UpdatePlanRequest, at: Timestamp)
    ensures
        ({
            let q = updated_plan(p, req, at);
            &&& (req.completed matches Some(c) ==> q.completed == c)
            &&& (req.completed is None ==> q.completed == p.completed)
            &&& (req.title matches Some(t) ==> q.title == t)
            &&& (req.title is None ==> q.title == p.title)
            &&& (req.description matches FieldUpdate::Value(d) ==> q.description == Some(d))
            &&& (req.description is Null ==> q.description is None)
            &&& (req.description is Absent ==> q.description == p.description)
            &&& (req.time matches FieldUpdate::Value(t) ==> q.time == Some(t))
            &&& (req.time is Null ==> q.time is None)
            &&& (req.time is Absent ==> q.time == p.time)
            &&& q.id == p.id
            &&& q.user_id == p.user_id
            &&& q.date == p.date
            &&& q.photos == p.photos
            &&& q.created_at == p.created_at
            &&& q.updated_at == at
        }),
{
}

/// Adding photos puts the new names after the old ones and records `at` as the
/// time of the change; every other field of the plan, completion included, stays.
pub proof fn law_photos_change_only_photos(p: PlanView, added: Seq<String>, at: Timestamp)
    ensures
        ({
            let q = with_photos(p, added, at);
            &&& q.photos.len() == p.photos.len() + added.len()
            &&& forall|i: int| 0 <= i < p.photos.len() ==> #[trigger] q.photos[i] == p.photos[i]
            &&& forall|i: int| 0 <= i < added.len() ==> q.photos[p.photos.len() + i] == #[trigger] added[i]
            &&& q.updated_at == at
            &&& q.id == p.id
            &&& q.user_id == p.user_id
            &&& q.date == p.date
            &&& q.title == p.title
            &&& q.description == p.description
            &&& q.time == p.time
            &&& q.completed == p.completed
            &&& q.created_at == p.created_at
        }),
{
}

/// The order of a listing, pair by pair: with no filter a plan may come before
/// another exactly when its date is not earlier in the calendar (latest date
/// first); with a month, exactly when its date is not later (earliest date first);
/// with a date, exactly when it was not made earlier (newest first). Dates here
/// have four-digit years.
pub proof fn law_listing_order(f: DateFilter, a: PlanView, b: PlanView)
    requires
        four_digit_date(a.date),
        four_digit_date(b.date),
    ensures
        f.date is None && f.month is None ==> (plan_precedes(f, a, b) <==> !date_before(a.date, b.date)),
        f.date is None && f.month is Some ==> (plan_precedes(f, a, b) <==> !date_before(b.date, a.date)),
        f.date is Some ==> (plan_precedes(f, a, b) <==> !(a.created_at.secs < b.created_at.secs || (
        a.created_at.secs == b.created_at.secs && a.created_at.nanos < b.created_at.nanos))),
{
    lemma_date_text_order(a.date, b.date);
    lemma_date_text_order(b.date, a.date);
}

/// What a listing holds, in order: with no filter, latest date first; with a month,
/// earliest date first; with a date, newest first; for plans whose dates have
/// four-digit years.
pub proof fn law_listing_sorted(ps: Seq<PlanView>, uid: Seq<char>, f: DateFilter)
    requires
        forall|k: int| 0 <= k < ps.len() ==> four_digit_date((#[trigger] ps[k]).date),
    ensures
        forall|i: int, j: int|
            0 <= i < j < listing(ps, uid, f).len() ==> {
                let a = #[trigger] listing(ps, uid, f)[i];
                let b = #[trigger] listing(ps, uid, f)[j];
                &&& (f.date is None && f.month is None ==> !date_before(a.date, b.date))
                &&& (f.date is None && f.month is Some ==> !date_before(b.date, a.date))
                &&& (f.date is Some ==> !(a.created_at.secs < b.created_at.secs || (a.created_at.secs
                    == b.created_at.secs && a.created_at.nanos < b.created_at.nanos)))
            },
{
    let sel = ps.filter(selector(uid, f));
    let good = |p: PlanView| four_digit_date(p.date);
    assert forall|i: int| 0 <= i < sel.len() implies good(#[trigger] sel[i]) by {
        assert(sel.contains(sel[i]));
        ps.lemma_filter_contains_rev(selector(uid, f), sel[i]);
        let k = choose|k: int| 0 <= k < ps.len() && ps[k] == sel[i];
        assert(four_digit_date(ps[k].date));
    }
    lemma_ordered_all(f, sel, good);
    lemma_ordered_sorted(f, sel);
    let l = listing(ps, uid, f);
    assert forall|i: int, j: int| 0 <= i < j < l.len() implies {
        let a = #[trigger] l[i];
        let b = #[trigger] l[j];
        &&& (f.date is None && f.month is None ==> !date_before(a.date, b.date))
        &&& (f.date is None && f.month is Some ==> !date_before(b.date, a.date))
        &&& (f.date is Some ==> !(a.created_at.secs < b.created_at.secs || (a.created_at.secs
            == b.created_at.secs && a.created_at.nanos < b.created_at.nanos)))
    } by {
        assert(good(l[i]) && good(l[j]));
        assert(plan_precedes(f, l[i], l[j]));
        law_listing_order(f, l[i], l[j]);
    }
}

} // verus!
