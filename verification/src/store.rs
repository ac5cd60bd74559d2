//! The records the service keeps: accounts and plans, with the queries and
//! updates each request makes on them.

use vstd::prelude::*;
use crate::models::{date_text, date_to_text, DateFilter, FieldUpdate, Plan, PlanView, RecordId, Timestamp, UpdatePlanRequest, User};
use crate::text::{
    copy_str, is_prefix, lemma_seq_lt_asymmetric, lemma_seq_lt_total, lemma_seq_lt_transitive,
    push_char, push_str, seq_lt, text_eq, text_lt, text_starts_with,
};

verus! {

/// Table of accounts.
pub open spec fn user_table() -> Seq<char> {
    "user"@
}

/// Table of plans.
pub open spec fn plan_table() -> Seq<char> {
    "plan"@
}

/// The key of a record name, if it has one.
pub open spec fn key_of(id: Option<RecordId>) -> Option<Seq<char>> {
    match id {
        Some(r) => Some(r.key@),
        None => None,
    }
}

/// Every account is named in the account table; keys and e-mail addresses are unique.
pub open spec fn users_wf(us: Seq<User>) -> bool {
    &&& forall|i: int|
        0 <= i < us.len() ==> ((#[trigger] us[i]).id matches Some(r) && r.table@ == user_table())
    &&& forall|i: int, j: int|
        #![trigger us[i], us[j]]
        0 <= i < us.len() && 0 <= j < us.len() && i != j ==> key_of(us[i].id) != key_of(us[j].id)
            && us[i].email@ != us[j].email@
}

/// Every plan is named in the plan table; keys are unique.
pub open spec fn plans_wf(ps: Seq<PlanView>) -> bool {
    &&& forall|i: int|
        0 <= i < ps.len() ==> ((#[trigger] ps[i]).id matches Some(r) && r.table@ == plan_table())
    &&& forall|i: int, j: int|
        #![trigger ps[i], ps[j]]
        0 <= i < ps.len() && 0 <= j < ps.len() && i != j ==> key_of(ps[i].id) != key_of(ps[j].id)
}

/// The account with e-mail address `e`, if there is one.
pub open spec fn user_by_email(us: Seq<User>, e: Seq<char>) -> Option<User> {
    if exists|i: int| 0 <= i < us.len() && (#[trigger] us[i]).email@ == e {
        Some(us[choose|i: int| 0 <= i < us.len() && (#[trigger] us[i]).email@ == e])
    } else {
        None
    }
}

/// The account with key `k`, if there is one.
pub open spec fn user_by_key(us: Seq<User>, k: Seq<char>) -> Option<User> {
    if exists|i: int| 0 <= i < us.len() && key_of((#[trigger] us[i]).id) == Some(k) {
        Some(us[choose|i: int| 0 <= i < us.len() && key_of((#[trigger] us[i]).id) == Some(k)])
    } else {
        None
    }
}

/// Plan `p` has key `k` and belongs to the account named `uid`.
pub open spec fn owns(p: PlanView, k: Seq<char>, uid: Seq<char>) -> bool {
    key_of(p.id) == Some(k) && p.user_id@ == uid
}

/// Whether a plan with key `k` belongs to `uid`.
pub open spec fn has_plan(ps: Seq<PlanView>, k: Seq<char>, uid: Seq<char>) -> bool {
    exists|i: int| 0 <= i < ps.len() && owns(#[trigger] ps[i], k, uid)
}

/// Where the plan with key `k` of `uid` stands.
pub open spec fn plan_pos(ps: Seq<PlanView>, k: Seq<char>, uid: Seq<char>) -> int {
    choose|i: int| 0 <= i < ps.len() && owns(#[trigger] ps[i], k, uid)
}

/// The plan with key `k` of `uid`, if there is one.
pub open spec fn plan_of(ps: Seq<PlanView>, k: Seq<char>, uid: Seq<char>) -> Option<PlanView> {
    if has_plan(ps, k, uid) {
        Some(ps[plan_pos(ps, k, uid)])
    } else {
        None
    }
}

/// A field a plan may leave empty, after an update of it.
pub open spec fn applied(stored: Option<String>, u: FieldUpdate) -> Option<String> {
    match u {
        FieldUpdate::Absent => stored,
        FieldUpdate::Null => None,
        FieldUpdate::Value(v) => Some(v),
    }
}

/// A plan after an update: each field the request holds replaces the stored one;
/// the time of the change is recorded.
pub open spec fn updated_plan(p: PlanView, req: UpdatePlanRequest, now: Timestamp) -> PlanView {
    PlanView {
        id: p.id,
        user_id: p.user_id,
        date: p.date,
        title: match req.title {
            Some(t) => t,
            None => p.title,
        },
        description: applied(p.description, req.description),
        time: applied(p.time, req.time),
        completed: match req.completed {
            Some(c) => c,
            None => p.completed,
        },
        photos: p.photos,
        created_at: p.created_at,
        updated_at: now,
    }
}

/// A plan after photos are added: the new names follow the old ones; the time of
/// the change is recorded.
pub open spec fn with_photos(p: PlanView, added: Seq<String>, now: Timestamp) -> PlanView {
    PlanView { photos: p.photos + added, updated_at: now, ..p }
}

fn copy_string(s: &String) -> (r: String)
    ensures
        r == *s,
{
    s.clone()
}

fn copy_opt_string(s: &Option<String>) -> (r: Option<String>)
    ensures
        r == *s,
{
    match s {
        Some(x) => Some(x.clone()),
        None => None,
    }
}

fn copy_record_id(r: &Option<RecordId>) -> (c: Option<RecordId>)
    ensures
        c == *r,
{
    match r {
        Some(x) => Some(RecordId { table: x.table.clone(), key: x.key.clone() }),
        None => None,
    }
}

/// A copy of a list of names.
pub fn copy_strings(v: &Vec<String>) -> (r: Vec<String>)
    ensures
        r@ == v@,
{
    let mut r: Vec<String> = Vec::new();
    let mut i: usize = 0;
    while i < v.len()
        invariant
            i <= v@.len(),
            r@ == v@.take(i as int),
        decreases v@.len() - i,
    {
        r.push(v[i].clone());
        assert(v@.take(i + 1) == v@.take(i as int).push(v@[i as int]));
        i = i + 1;
    }
    assert(v@.take(v@.len() as int) == v@);
    r
}

/// A copy of an account record.
pub fn copy_user(u: &User) -> (r: User)
    ensures
        r == *u,
{
    User {
        id: copy_record_id(&u.id),
        username: copy_string(&u.username),
        email: copy_string(&u.email),
        password_hash: copy_string(&u.password_hash),
        created_at: u.created_at,
    }
}

/// A copy of a plan record.
pub fn copy_plan(p: &Plan) -> (r: Plan)
    ensures
        r@ == p@,
{
    let photos = copy_strings(&p.photos);
    assert(photos@ == p.photos@);
    let r = Plan {
        id: copy_record_id(&p.id),
        user_id: copy_string(&p.user_id),
        date: p.date,
        title: copy_string(&p.title),
        description: copy_opt_string(&p.description),
        time: copy_opt_string(&p.time),
        completed: p.completed,
        photos,
        created_at: p.created_at,
        updated_at: p.updated_at,
    };
    r
}

/// The accounts and plans the service keeps.
pub struct PlannerStore {
    users: Vec<User>,
    plans: Vec<Plan>,
}

impl PlannerStore {
    /// The accounts, in the order they were made.
    pub closed spec fn users(&self) -> Seq<User> {
        self.users@
    }

    /// The plans, in the order they were made.
    pub closed spec fn plans(&self) -> Seq<PlanView> {
        self.plans@.map_values(|p: Plan| p@)
    }

    /// Records are named in their tables; keys and account e-mails are unique.
    pub open spec fn wf(&self) -> bool {
        users_wf(self.users()) && plans_wf(self.plans())
    }

    /// An empty store.
    pub fn new() -> (s: PlannerStore)
        ensures
            s.wf(),
            s.users() == Seq::<User>::empty(),
            s.plans() == Seq::<PlanView>::empty(),
    {
        let s = PlannerStore { users: Vec::new(), plans: Vec::new() };
        assert(s.plans() =~= Seq::<PlanView>::empty());
        s
    }

    /// A copy of every account, in the order they were made.
    pub fn all_users(&self) -> (r: Vec<User>)
        ensures
            r@ == self.users(),
    {
        let mut r: Vec<User> = Vec::new();
        let mut i: usize = 0;
        while i < self.users.len()
            invariant
                i <= self.users@.len(),
                r@ == self.users@.take(i as int),
            decreases self.users@.len() - i,
        {
            r.push(copy_user(&self.users[i]));
            assert(self.users@.take(i + 1) == self.users@.take(i as int).push(self.users@[i as int]));
            i = i + 1;
        }
        assert(self.users@.take(self.users@.len() as int) == self.users@);
        r
    }

    /// A copy of every plan, in the order they were made.
    pub fn all_plans(&self) -> (r: Vec<Plan>)
        ensures
            views(r@) == self.plans(),
    {
        let mut r: Vec<Plan> = Vec::new();
        let mut i: usize = 0;
        while i < self.plans.len()
            invariant
                i <= self.plans@.len(),
                views(r@) == self.plans().take(i as int),
            decreases self.plans@.len() - i,
        {
            let c = copy_plan(&self.plans[i]);
            let ghost before = views(r@);
            r.push(c);
            assert(views(r@) =~= before.push(c@));
            assert(self.plans().take(i + 1) =~= self.plans().take(i as int).push(self.plans()[i as int]));
            i = i + 1;
        }
        assert(self.plans().take(self.plans@.len() as int) =~= self.plans());
        r
    }

    fn email_index(&self, email: &str) -> (r: Option<usize>)
        ensures
            match r {
                Some(i) => i < self.users().len() && self.users()[i as int].email@ == email@,
                None => forall|i: int|
                    0 <= i < self.users().len() ==> (#[trigger] self.users()[i]).email@ != email@,
            },
    {
        let mut i: usize = 0;
        while i < self.users.len()
            invariant
                i <= self.users@.len(),
                forall|k: int| 0 <= k < i ==> (#[trigger] self.users@[k]).email@ != email@,
            decreases self.users@.len() - i,
        {
            if text_eq(self.users[i].email.as_str(), email) {
                return Some(i);
            }
            i = i + 1;
        }
        None
    }

    fn user_key_index(&self, key: &str) -> (r: Option<usize>)
        ensures
            match r {
                Some(i) => i < self.users().len() && key_of(self.users()[i as int].id) == Some(key@),
                None => forall|i: int|
                    0 <= i < self.users().len() ==> key_of((#[trigger] self.users()[i]).id) != Some(
                        key@,
                    ),
            },
    {
        let mut i: usize = 0;
        while i < self.users.len()
            invariant
                i <= self.users@.len(),
                forall|k: int|
                    0 <= k < i ==> key_of((#[trigger] self.users@[k]).id) != Some(key@),
            decreases self.users@.len() - i,
        {
            match &self.users[i].id {
                Some(r) => {
                    if text_eq(r.key.as_str(), key) {
                        return Some(i);
                    }
                },
                None => {},
            }
            i = i + 1;
        }
        None
    }

    /// The account with this e-mail address, if any.
    pub fn find_user_by_email(&self, email: &str) -> (r: Option<User>)
        requires
            self.wf(),
        ensures
            r == user_by_email(self.users(), email@),
    {
        match self.email_index(email) {
            Some(i) => {
                proof {
                    let j = choose|j: int|
                        0 <= j < self.users().len() && (#[trigger] self.users()[j]).email@ == email@;
                    assert(self.users()[i as int].email@ == email@);
                    if j != i {
                        assert(self.users()[j].email@ != self.users()[i as int].email@);
                    }
                }
                Some(copy_user(&self.users[i]))
            },
            None => None,
        }
    }

    /// The account with this key, if any.
    pub fn find_user_by_key(&self, key: &str) -> (r: Option<User>)
        requires
            self.wf(),
        ensures
            r == user_by_key(self.users(), key@),
    {
        match self.user_key_index(key) {
            Some(i) => {
                proof {
                    let j = choose|j: int|
                        0 <= j < self.users().len() && key_of((#[trigger] self.users()[j]).id)
                            == Some(key@);
                    if j != i {
                        assert(key_of(self.users()[j].id) != key_of(self.users()[i as int].id));
                    }
                }
                Some(copy_user(&self.users[i]))
            },
            None => None,
        }
    }

    /// Adds an account, unless its key or e-mail address is taken already.
    pub fn insert_user(&mut self, u: User) -> (added: bool)
        requires
            old(self).wf(),
            u.id matches Some(r) && r.table@ == user_table(),
        ensures
            final(self).wf(),
            final(self).plans() == old(self).plans(),
            added == (user_by_key(old(self).users(), key_of(u.id)->0) is None
                && user_by_email(old(self).users(), u.email@) is None),
            added ==> final(self).users() == old(self).users().push(u),
            !added ==> final(self).users() == old(self).users(),
    {
        let ghost k = key_of(u.id)->0;
        let key = match &u.id {
            Some(r) => copy_str(r.key.as_str()),
            None => String::new(),
        };
        if self.user_key_index(key.as_str()).is_some() {
            return false;
        }
        if self.email_index(u.email.as_str()).is_some() {
            return false;
        }
        let ghost before = self.users@;
        self.users.push(u);
        proof {
            assert forall|i: int, j: int|
                #![trigger self.users@[i], self.users@[j]]
                0 <= i < self.users@.len() && 0 <= j < self.users@.len() && i != j implies key_of(
                self.users@[i].id,
            ) != key_of(self.users@[j].id) && self.users@[i].email@ != self.users@[j].email@ by {
                if i < before.len() && j < before.len() {
                    assert(before[i] == self.users@[i] && before[j] == self.users@[j]);
                } else if i < before.len() {
                    assert(before[i] == self.users@[i]);
                } else {
                    assert(before[j] == self.users@[j]);
                }
            }
            assert forall|i: int| 0 <= i < self.users@.len() implies ((
            #[trigger] self.users@[i]).id matches Some(r) && r.table@ == user_table()) by {
                if i < before.len() {
                    assert(before[i] == self.users@[i]);
                }
            }
        }
        true
    }
}

/// The names of `a` followed by those of `b`.
fn concat_names(a: &Vec<String>, b: &Vec<String>) -> (r: Vec<String>)
    ensures
        r@ == a@ + b@,
{
    let mut r = copy_strings(a);
    let mut k: usize = 0;
    while k < b.len()
        invariant
            k <= b@.len(),
            r@ == a@ + b@.take(k as int),
        decreases b@.len() - k,
    {
        r.push(b[k].clone());
        assert(b@.take(k + 1) == b@.take(k as int).push(b@[k as int]));
        k = k + 1;
    }
    assert(b@.take(b@.len() as int) == b@);
    r
}

impl PlannerStore {
    fn plan_index(&self, key: &str, uid: &str) -> (r: Option<usize>)
        requires
            self.wf(),
        ensures
            match r {
                Some(i) => i < self.plans().len() && owns(self.plans()[i as int], key@, uid@)
                    && plan_pos(self.plans(), key@, uid@) == i && has_plan(self.plans(), key@, uid@),
                None => !has_plan(self.plans(), key@, uid@),
            },
    {
        let mut i: usize = 0;
        while i < self.plans.len()
            invariant
                self.wf(),
                i <= self.plans@.len(),
                forall|k: int| 0 <= k < i ==> !owns(#[trigger] self.plans()[k], key@, uid@),
            decreases self.plans@.len() - i,
        {
            let found = match &self.plans[i].id {
                Some(r) => text_eq(r.key.as_str(), key) && text_eq(self.plans[i].user_id.as_str(), uid),
                None => false,
            };
            assert(self.plans()[i as int] == self.plans@[i as int]@);
            if found {
                proof {
                    assert(owns(self.plans()[i as int], key@, uid@));
                    let j = plan_pos(self.plans(), key@, uid@);
                    if j != i {
                        assert(key_of(self.plans()[j].id) != key_of(self.plans()[i as int].id));
                    }
                }
                return Some(i);
            }
            i = i + 1;
        }
        None
    }

    /// The plan with this key, if it belongs to `uid`.
    pub fn find_plan(&self, key: &str, uid: &str) -> (r: Option<Plan>)
        requires
            self.wf(),
        ensures
            match r {
                Some(p) => plan_of(self.plans(), key@, uid@) == Some(p@),
                None => plan_of(self.plans(), key@, uid@) is None,
            },
    {
        match self.plan_index(key, uid) {
            Some(i) => Some(copy_plan(&self.plans[i])),
            None => None,
        }
    }

    /// Whether a plan record with this key exists, whoever owns it.
    pub fn plan_key_taken(&self, key: &str) -> (r: bool)
        ensures
            r == exists|i: int|
                0 <= i < self.plans().len() && key_of((#[trigger] self.plans()[i]).id) == Some(key@),
    {
        let mut i: usize = 0;
        while i < self.plans.len()
            invariant
                i <= self.plans@.len(),
                forall|k: int| 0 <= k < i ==> key_of((#[trigger] self.plans()[k]).id) != Some(key@),
            decreases self.plans@.len() - i,
        {
            let same = match &self.plans[i].id {
                Some(r) => text_eq(r.key.as_str(), key),
                None => false,
            };
            assert(self.plans()[i as int] == self.plans@[i as int]@);
            if same {
                assert(key_of(self.plans()[i as int].id) == Some(key@));
                return true;
            }
            i = i + 1;
        }
        false
    }

    /// Adds a plan, unless a plan with its key exists already.
    pub fn insert_plan(&mut self, p: Plan) -> (added: bool)
        requires
            old(self).wf(),
            p.id matches Some(r) && r.table@ == plan_table(),
        ensures
            final(self).wf(),
            final(self).users() == old(self).users(),
            added == !(exists|i: int|
                0 <= i < old(self).plans().len() && key_of((#[trigger] old(self).plans()[i]).id)
                    == key_of(p.id)),
            added ==> final(self).plans() == old(self).plans().push(p@),
            !added ==> final(self).plans() == old(self).plans(),
    {
        let key = match &p.id {
            Some(r) => copy_str(r.key.as_str()),
            None => String::new(),
        };
        if self.plan_key_taken(key.as_str()) {
            return false;
        }
        let ghost before = self.plans();
        let ghost pv = p@;
        self.plans.push(p);
        proof {
            let qs = self.plans();
            assert(qs =~= before.push(pv));
            assert forall|i: int, j: int|
                #![trigger qs[i], qs[j]]
                0 <= i < qs.len() && 0 <= j < qs.len() && i != j implies key_of(qs[i].id) != key_of(
                qs[j].id,
            ) by {
                if i < before.len() && j < before.len() {
                    assert(before[i] == qs[i] && before[j] == qs[j]);
                } else if i < before.len() {
                    assert(before[i] == qs[i]);
                } else {
                    assert(before[j] == qs[j]);
                }
            }
            assert forall|i: int| 0 <= i < qs.len() implies ((#[trigger] qs[i]).id matches Some(r)
                && r.table@ == plan_table()) by {
                if i < before.len() {
                    assert(before[i] == qs[i]);
                }
            }
        }
        true
    }

    proof fn lemma_replace_keeps_wf(ps: Seq<PlanView>, i: int, q: PlanView)
        requires
            plans_wf(ps),
            0 <= i < ps.len(),
            q.id == ps[i].id,
        ensures
            plans_wf(ps.update(i, q)),
    {
        let qs = ps.update(i, q);
        assert forall|a: int, b: int|
            #![trigger qs[a], qs[b]]
            0 <= a < qs.len() && 0 <= b < qs.len() && a != b implies key_of(qs[a].id) != key_of(
            qs[b].id,
        ) by {
            assert(key_of(qs[a].id) == key_of(ps[a].id));
            assert(key_of(qs[b].id) == key_of(ps[b].id));
        }
        assert forall|a: int| 0 <= a < qs.len() implies ((#[trigger] qs[a]).id matches Some(r)
            && r.table@ == plan_table()) by {
            assert(qs[a].id == ps[a].id);
        }
    }

    /// Applies an update to the plan with this key if it belongs to `uid`; gives the
    /// plan as it is afterwards.
    pub fn update_plan(&mut self, key: &str, uid: &str, req: UpdatePlanRequest, now: Timestamp) -> (r:
        Option<Plan>)
        requires
            old(self).wf(),
        ensures
            final(self).wf(),
            final(self).users() == old(self).users(),
            match r {
                Some(q) => has_plan(old(self).plans(), key@, uid@) && q@ == updated_plan(
                    old(self).plans()[plan_pos(old(self).plans(), key@, uid@)],
                    req,
                    now,
                ) && final(self).plans() == old(self).plans().update(
                    plan_pos(old(self).plans(), key@, uid@),
                    q@,
                ),
                None => !has_plan(old(self).plans(), key@, uid@) && final(self).plans() == old(
                    self,
                ).plans(),
            },
    {
        match self.plan_index(key, uid) {
            None => None,
            Some(i) => {
                let mut q = copy_plan(&self.plans[i]);
                match req.title {
                    Some(t) => {
                        q.title = t;
                    },
                    None => {},
                }
                match req.description {
                    FieldUpdate::Absent => {},
                    FieldUpdate::Null => {
                        q.description = None;
                    },
                    FieldUpdate::Value(d) => {
                        q.description = Some(d);
                    },
                }
                match req.time {
                    FieldUpdate::Absent => {},
                    FieldUpdate::Null => {
                        q.time = None;
                    },
                    FieldUpdate::Value(t) => {
                        q.time = Some(t);
                    },
                }
                match req.completed {
                    Some(c) => {
                        q.completed = c;
                    },
                    None => {},
                }
                q.updated_at = now;
                let result = copy_plan(&q);
                let ghost before = self.plans();
                let ghost qv = q@;
                proof {
                    Self::lemma_replace_keeps_wf(before, i as int, qv);
                }
                self.plans.set(i, q);
                assert(self.plans() =~= before.update(i as int, qv));
                Some(result)
            },
        }
    }

    /// Adds photo names to the plan with this key if it belongs to `uid`; gives the
    /// plan as it is afterwards.
    pub fn append_photos(&mut self, key: &str, uid: &str, added: &Vec<String>, now: Timestamp) -> (r:
        Option<Plan>)
        requires
            old(self).wf(),
        ensures
            final(self).wf(),
            final(self).users() == old(self).users(),
            match r {
                Some(q) => has_plan(old(self).plans(), key@, uid@) && q@ == with_photos(
                    old(self).plans()[plan_pos(old(self).plans(), key@, uid@)],
                    added@,
                    now,
                ) && final(self).plans() == old(self).plans().update(
                    plan_pos(old(self).plans(), key@, uid@),
                    q@,
                ),
                None => !has_plan(old(self).plans(), key@, uid@) && final(self).plans() == old(
                    self,
                ).plans(),
            },
    {
        match self.plan_index(key, uid) {
            None => None,
            Some(i) => {
                let mut q = copy_plan(&self.plans[i]);
                q.photos = concat_names(&self.plans[i].photos, added);
                q.updated_at = now;
                let result = copy_plan(&q);
                let ghost before = self.plans();
                let ghost qv = q@;
                proof {
                    Self::lemma_replace_keeps_wf(before, i as int, qv);
                }
                self.plans.set(i, q);
                assert(self.plans() =~= before.update(i as int, qv));
                Some(result)
            },
        }
    }

    /// Removes the plan with this key if it belongs to `uid`.
    pub fn delete_plan(&mut self, key: &str, uid: &str) -> (removed: bool)
        requires
            old(self).wf(),
        ensures
            final(self).wf(),
            final(self).users() == old(self).users(),
            removed == has_plan(old(self).plans(), key@, uid@),
            removed ==> final(self).plans() == old(self).plans().remove(
                plan_pos(old(self).plans(), key@, uid@),
            ),
            !removed ==> final(self).plans() == old(self).plans(),
    {
        match self.plan_index(key, uid) {
            None => false,
            Some(i) => {
                let ghost before = self.plans();
                let _gone = self.plans.remove(i);
                proof {
                    let qs = self.plans();
                    assert(qs =~= before.remove(i as int));
                    assert forall|a: int, b: int|
                        #![trigger qs[a], qs[b]]
                        0 <= a < qs.len() && 0 <= b < qs.len() && a != b implies key_of(qs[a].id)
                        != key_of(qs[b].id) by {
                        let a2 = if a < i { a } else { a + 1 };
                        let b2 = if b < i { b } else { b + 1 };
                        assert(qs[a] == before[a2] && qs[b] == before[b2]);
                    }
                    assert forall|a: int| 0 <= a < qs.len() implies ((#[trigger] qs[a]).id matches Some(
                        r,
                    ) && r.table@ == plan_table()) by {
                        let a2 = if a < i { a } else { a + 1 };
                        assert(qs[a] == before[a2]);
                    }
                }
                true
            },
        }
    }
}

// ---------------------------------------------------------------------------
// Listing

/// Whether plan `p` is listed for the account `uid` under the query `f`: it is
/// the account's, and on the date `f.date` if one is given, else in the month
/// `f.month` (its date text starts with `YYYY-MM-`) if one is given.
pub open spec fn plan_selected(p: PlanView, uid: Seq<char>, f: DateFilter) -> bool {
    p.user_id@ == uid && match f.date {
        Some(d) => date_text(p.date) == d@,
        None => match f.month {
            Some(m) => is_prefix(m@.push('-'), date_text(p.date)),
            None => true,
        },
    }
}

/// The selection as a predicate.
pub open spec fn selector(uid: Seq<char>, f: DateFilter) -> spec_fn(PlanView) -> bool {
    |p: PlanView| plan_selected(p, uid, f)
}

/// Whether `a` may be listed before `b` under the query `f`: newest creation first
/// for a date, earliest date first for a month, latest date first otherwise
/// (dates compared as their text).
pub open spec fn plan_precedes(f: DateFilter, a: PlanView, b: PlanView) -> bool {
    match f.date {
        Some(_) => !a.created_at.before(b.created_at),
        None => match f.month {
            Some(_) => !seq_lt(date_text(b.date), date_text(a.date)),
            None => !seq_lt(date_text(a.date), date_text(b.date)),
        },
    }
}

/// `s` is in the order of the query `f`.
pub open spec fn sorted_for(f: DateFilter, s: Seq<PlanView>) -> bool {
    forall|i: int, j: int|
        #![trigger s[i], s[j]]
        0 <= i < j < s.len() ==> plan_precedes(f, s[i], s[j])
}

/// The views of a list of plans.
pub open spec fn views(s: Seq<Plan>) -> Seq<PlanView> {
    s.map_values(|p: Plan| p@)
}

pub proof fn lemma_precedes_total(f: DateFilter, a: PlanView, b: PlanView)
    ensures
        plan_precedes(f, a, b) || plan_precedes(f, b, a),
{
    lemma_seq_lt_asymmetric(date_text(a.date), date_text(b.date));
}

pub proof fn lemma_precedes_transitive(f: DateFilter, a: PlanView, b: PlanView, c: PlanView)
    requires
        plan_precedes(f, a, b),
        plan_precedes(f, b, c),
    ensures
        plan_precedes(f, a, c),
{
    let ta = date_text(a.date);
    let tb = date_text(b.date);
    let tc = date_text(c.date);
    lemma_seq_lt_total(ta, tb);
    lemma_seq_lt_total(tb, tc);
    lemma_seq_lt_total(ta, tc);
    if seq_lt(tb, ta) && seq_lt(ta, tc) {
        lemma_seq_lt_transitive(tb, ta, tc);
        lemma_seq_lt_asymmetric(tb, tc);
    }
    if seq_lt(tc, tb) && seq_lt(tb, ta) {
        lemma_seq_lt_transitive(tc, tb, ta);
        lemma_seq_lt_asymmetric(tc, ta);
    }
    if seq_lt(ta, tc) && seq_lt(tc, tb) {
        lemma_seq_lt_transitive(ta, tc, tb);
    }
    if seq_lt(tc, ta) && seq_lt(ta, tb) {
        lemma_seq_lt_transitive(tc, ta, tb);
    }
    if seq_lt(ta, tc) {
        lemma_seq_lt_asymmetric(ta, tc);
    }
    if seq_lt(tc, ta) {
        lemma_seq_lt_asymmetric(tc, ta);
    }
}

/// `x` put into the listing `s`: after the plans that may come before it, ahead
/// of the first that may not.
pub open spec fn insert_in_order(f: DateFilter, s: Seq<PlanView>, x: PlanView) -> Seq<PlanView>
    decreases s.len(),
{
    if s.len() == 0 {
        seq![x]
    } else if plan_precedes(f, s[0], x) {
        seq![s[0]] + insert_in_order(f, s.drop_first(), x)
    } else {
        seq![x] + s
    }
}

/// The plans of `s` in the order of `f`: each put into place in turn, so that
/// plans the order does not tell apart keep the order they are stored in.
pub open spec fn ordered(f: DateFilter, s: Seq<PlanView>) -> Seq<PlanView>
    decreases s.len(),
{
    if s.len() == 0 {
        s
    } else {
        insert_in_order(f, ordered(f, s.drop_last()), s.last())
    }
}

/// What `uid` lists under `f` from the plans `ps`.
pub open spec fn listing(ps: Seq<PlanView>, uid: Seq<char>, f: DateFilter) -> Seq<PlanView> {
    ordered(f, ps.filter(selector(uid, f)))
}

proof fn lemma_insert_at(f: DateFilter, s: Seq<PlanView>, x: PlanView, pos: int)
    requires
        0 <= pos <= s.len(),
        forall|t: int| 0 <= t < pos ==> plan_precedes(f, #[trigger] s[t], x),
        pos < s.len() ==> !plan_precedes(f, s[pos], x),
    ensures
        insert_in_order(f, s, x) == s.insert(pos, x),
    decreases pos,
{
    if pos == 0 {
        assert(seq![x] + s =~= s.insert(0, x));
        if s.len() == 0 {
            assert(seq![x] =~= s.insert(0, x));
        }
    } else {
        let r = s.drop_first();
        assert forall|t: int| 0 <= t < pos - 1 implies plan_precedes(f, #[trigger] r[t], x) by {
            assert(r[t] == s[t + 1]);
        }
        if pos < s.len() {
            assert(r[pos - 1] == s[pos]);
        }
        assert(plan_precedes(f, s[0], x));
        lemma_insert_at(f, r, x, pos - 1);
        assert(seq![s[0]] + r.insert(pos - 1, x) =~= s.insert(pos, x));
    }
}

/// Whether `p` is listed for `uid` under `f`.
fn selects(p: &Plan, uid: &str, f: &DateFilter) -> (r: bool)
    ensures
        r == plan_selected(p@, uid@, *f),
{
    if !text_eq(p.user_id.as_str(), uid) {
        return false;
    }
    let t = date_to_text(&p.date);
    match &f.date {
        Some(d) => text_eq(t.as_str(), d.as_str()),
        None => match &f.month {
            Some(m) => {
                let mut prefix = String::new();
                push_str(&mut prefix, m.as_str());
                push_char(&mut prefix, '-');
                text_starts_with(t.as_str(), prefix.as_str())
            },
            None => true,
        },
    }
}

/// Whether `a` may be listed before `b` under `f`.
fn precedes(f: &DateFilter, a: &Plan, b: &Plan) -> (r: bool)
    ensures
        r == plan_precedes(*f, a@, b@),
{
    match &f.date {
        Some(_) => !(a.created_at.secs < b.created_at.secs || (a.created_at.secs
            == b.created_at.secs && a.created_at.nanos < b.created_at.nanos)),
        None => {
            let ta = date_to_text(&a.date);
            let tb = date_to_text(&b.date);
            match &f.month {
                Some(_) => !text_lt(tb.as_str(), ta.as_str()),
                None => !text_lt(ta.as_str(), tb.as_str()),
            }
        },
    }
}

/// Puts `x` into the ordered list `res` at its place.
fn insert_ordered(res: &mut Vec<Plan>, x: Plan, f: &DateFilter)
    requires
        sorted_for(*f, views(old(res)@)),
    ensures
        sorted_for(*f, views(final(res)@)),
        views(final(res)@).to_multiset() == views(old(res)@).to_multiset().insert(x@),
        views(final(res)@) == insert_in_order(*f, views(old(res)@), x@),
{
    let mut pos: usize = 0;
    while pos < res.len() && precedes(f, &res[pos], &x)
        invariant
            pos <= res@.len(),
            forall|t: int| 0 <= t < pos ==> plan_precedes(*f, (#[trigger] res@[t])@, x@),
        decreases res@.len() - pos,
    {
        pos = pos + 1;
    }
    let ghost before = views(res@);
    let ghost xv = x@;
    proof {
        if pos < res@.len() {
            lemma_precedes_total(*f, res@[pos as int]@, xv);
        }
    }
    proof {
        assert forall|t: int| 0 <= t < pos implies plan_precedes(*f, #[trigger] before[t], xv) by {
            assert(before[t] == res@[t]@);
        }
        if pos < res@.len() {
            assert(before[pos as int] == res@[pos as int]@);
        }
        lemma_insert_at(*f, before, xv, pos as int);
    }
    res.insert(pos, x);
    proof {
        let after = views(res@);
        assert(after =~= before.insert(pos as int, xv));
        vstd::seq_lib::to_multiset_insert(before, pos as int, xv);
        assert forall|i: int, j: int|
            #![trigger after[i], after[j]]
            0 <= i < j < after.len() implies plan_precedes(*f, after[i], after[j]) by {
            let i0 = if i < pos { i } else { i - 1 };
            let j0 = if j < pos { j } else { j - 1 };
            if i == pos {
                assert(after[i] == xv);
                assert(after[j] == before[j0]);
                if j0 > pos {
                    assert(plan_precedes(*f, before[pos as int], before[j0]));
                    lemma_precedes_transitive(*f, xv, before[pos as int], before[j0]);
                }
            } else if j == pos {
                assert(after[j] == xv);
                assert(after[i] == before[i0]);
                assert(before[i0] == res@[i]@);
            } else {
                assert(after[i] == before[i0]);
                assert(after[j] == before[j0]);
            }
        }
    }
}

impl PlannerStore {
    /// The plans of `uid` the query `f` selects, in the query's order. Plans the
    /// order does not tell apart may come in either order.
    pub fn list_plans(&self, uid: &str, f: &DateFilter) -> (r: Vec<Plan>)
        ensures
            views(r@) == listing(self.plans(), uid@, *f),
            views(r@).to_multiset() == self.plans().filter(selector(uid@, *f)).to_multiset(),
            sorted_for(*f, views(r@)),
    {
        let ghost pred = selector(uid@, *f);
        let mut sel: Vec<Plan> = Vec::new();
        let mut i: usize = 0;
        while i < self.plans.len()
            invariant
                i <= self.plans@.len(),
                pred == selector(uid@, *f),
                views(sel@) == self.plans().take(i as int).filter(pred),
            decreases self.plans@.len() - i,
        {
            let ghost before = views(sel@);
            let keep = selects(&self.plans[i], uid, f);
            proof {
                assert(self.plans().take(i + 1) =~= self.plans().take(i as int).push(self.plans()[i as int]));
                self.plans().take(i as int).lemma_filter_push(self.plans()[i as int], pred);
                assert(self.plans()[i as int] == self.plans@[i as int]@);
            }
            if keep {
                let c = copy_plan(&self.plans[i]);
                sel.push(c);
                assert(views(sel@) =~= before.push(c@));
            }
            i = i + 1;
        }
        assert(self.plans().take(self.plans@.len() as int) =~= self.plans());
        let mut res: Vec<Plan> = Vec::new();
        let mut k: usize = 0;
        assert(views(res@) =~= Seq::<PlanView>::empty());
        assert(views(sel@).take(0) =~= Seq::<PlanView>::empty());
        assert(ordered(*f, views(sel@).take(0)) == views(sel@).take(0));
        while k < sel.len()
            invariant
                k <= sel@.len(),
                sorted_for(*f, views(res@)),
                views(res@).to_multiset() == views(sel@).take(k as int).to_multiset(),
                views(res@) == ordered(*f, views(sel@).take(k as int)),
            decreases sel@.len() - k,
        {
            let x = copy_plan(&sel[k]);
            proof {
                assert(views(sel@).take(k + 1) =~= views(sel@).take(k as int).push(sel@[k as int]@));
                assert(views(sel@).take(k + 1).drop_last() =~= views(sel@).take(k as int));
                assert(views(sel@).take(k + 1).last() == sel@[k as int]@);
                vstd::seq_lib::to_multiset_build(views(sel@).take(k as int), sel@[k as int]@);
            }
            insert_ordered(&mut res, x, f);
            k = k + 1;
        }
        assert(views(sel@).take(sel@.len() as int) =~= views(sel@));
        res
    }
}

} // verus!
