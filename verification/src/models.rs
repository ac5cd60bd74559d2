//! The records the service keeps and the bodies it reads and answers.

use vstd::prelude::*;
use crate::text::{copy_str, decimal, digit_char, lemma_seq_lt_concat, lemma_seq_lt_single, push_char, push_decimal, push_str, seq_lt};

verus! {

/// A point in time: seconds since the Unix epoch and the nanoseconds past that second.
#[derive(Clone, Copy, Debug)]
pub struct Timestamp {
    pub secs: i64,
    pub nanos: u32,
}

impl Timestamp {
    /// Strictly earlier in time.
    pub open spec fn before(self, other: Timestamp) -> bool {
        self.secs < other.secs || (self.secs == other.secs && self.nanos < other.nanos)
    }
}

/// A calendar date (`"YYYY-MM-DD"` on the wire).
#[derive(Clone, Copy, Debug)]
pub struct PlanDate {
    pub year: i32,
    pub month: u32,
    pub day: u32,
}

/// Two decimal digits of `n % 100`, zero-padded.
pub open spec fn two_digits(n: nat) -> Seq<char> {
    seq![digit_char((n % 100) / 10), digit_char(n % 10)]
}

/// Decimal digits of `n`, zero-padded to at least four.
pub open spec fn four_digits(n: nat) -> Seq<char> {
    if n < 10 {
        seq!['0', '0', '0'] + decimal(n)
    } else if n < 100 {
        seq!['0', '0'] + decimal(n)
    } else if n < 1000 {
        seq!['0'] + decimal(n)
    } else {
        decimal(n)
    }
}

/// A year as a date shows it: four digits for 0 to 9999, otherwise a sign and at
/// least four digits.
pub open spec fn year_text(y: int) -> Seq<char> {
    if 0 <= y <= 9999 {
        four_digits(y as nat)
    } else if y > 9999 {
        seq!['+'] + decimal(y as nat)
    } else {
        seq!['-'] + four_digits((-y) as nat)
    }
}

/// The text of a date, `YYYY-MM-DD`, as the date type of the wire writes it.
pub open spec fn date_text(d: PlanDate) -> Seq<char> {
    year_text(d.year as int) + seq!['-'] + two_digits(d.month as nat) + seq!['-'] + two_digits(
        d.day as nat,
    )
}

proof fn lemma_digit_char_code(d: nat)
    requires
        d < 10,
    ensures
        digit_char(d) as u32 == d + 48,
{
}

/// Two-digit texts of numbers under 100 compare as the numbers do.
pub proof fn lemma_two_digits_order(m: nat, n: nat)
    requires
        m < 100,
        n < 100,
    ensures
        two_digits(m).len() == 2,
        (two_digits(m) == two_digits(n)) == (m == n),
        seq_lt(two_digits(m), two_digits(n)) == (m < n),
{
    lemma_digit_char_code(m / 10);
    lemma_digit_char_code(m % 10);
    lemma_digit_char_code(n / 10);
    lemma_digit_char_code(n % 10);
    let a = two_digits(m);
    let b = two_digits(n);
    assert(a =~= seq![digit_char(m / 10)] + seq![digit_char(m % 10)]);
    assert(b =~= seq![digit_char(n / 10)] + seq![digit_char(n % 10)]);
    lemma_seq_lt_concat(seq![digit_char(m / 10)], seq![digit_char(m % 10)], seq![digit_char(n / 10)], seq![digit_char(n % 10)]);
    lemma_seq_lt_single(digit_char(m / 10), digit_char(n / 10));
    lemma_seq_lt_single(digit_char(m % 10), digit_char(n % 10));
    if a == b {
        assert(a[0] == b[0] && a[1] == b[1]);
    }
    if seq![digit_char(m / 10)] == seq![digit_char(n / 10)] {
        assert(seq![digit_char(m / 10)][0] == seq![digit_char(n / 10)][0]);
    }
}

/// The four-digit text of a number under 10000 is the two-digit texts of its
/// hundreds and of its remainder.
proof fn lemma_four_digits_split(n: nat)
    requires
        n < 10000,
    ensures
        four_digits(n) == two_digits(n / 100) + two_digits(n % 100),
{
    reveal_with_fuel(decimal, 5);
    lemma_digit_char_code(0);
    let q = n / 100;
    let r = n % 100;
    assert(digit_char(0) == '0');
    if n < 10 {
        assert(decimal(n) == seq![digit_char(n)]);
    } else if n < 100 {
        assert(decimal(n) == decimal(n / 10).push(digit_char(n % 10)));
        assert(decimal(n / 10) == seq![digit_char(n / 10)]);
    } else if n < 1000 {
        assert(decimal(n) == decimal(n / 10).push(digit_char(n % 10)));
        assert(decimal(n / 10) == decimal(n / 100).push(digit_char((n / 10) % 10)));
        assert(decimal(n / 100) == seq![digit_char(n / 100)]);
        assert(n / 10 / 10 == n / 100);
    } else {
        assert(decimal(n) == decimal(n / 10).push(digit_char(n % 10)));
        assert(decimal(n / 10) == decimal(n / 100).push(digit_char((n / 10) % 10)));
        assert(n / 10 / 10 == n / 100);
        assert(decimal(n / 100) == decimal(n / 1000).push(digit_char((n / 100) % 10)));
        assert(n / 100 / 10 == n / 1000);
        assert(decimal(n / 1000) == seq![digit_char(n / 1000)]);
    }
    assert(q % 100 == q);
    assert(r % 100 == r);
    assert(r / 10 == (n / 10) % 10);
    assert(q / 10 == n / 1000);
    assert(four_digits(n) =~= two_digits(q) + two_digits(r));
}

/// Four-digit texts of numbers under 10000 compare as the numbers do.
pub proof fn lemma_four_digits_order(m: nat, n: nat)
    requires
        m < 10000,
        n < 10000,
    ensures
        four_digits(m).len() == 4,
        (four_digits(m) == four_digits(n)) == (m == n),
        seq_lt(four_digits(m), four_digits(n)) == (m < n),
{
    lemma_four_digits_split(m);
    lemma_four_digits_split(n);
    lemma_two_digits_order(m / 100, n / 100);
    lemma_two_digits_order(m % 100, n % 100);
    lemma_two_digits_order(m / 100, m / 100);
    lemma_seq_lt_concat(two_digits(m / 100), two_digits(m % 100), two_digits(n / 100), two_digits(n % 100));
    if four_digits(m) == four_digits(n) {
        let a = four_digits(m);
        assert(a.subrange(0, 2) =~= two_digits(m / 100));
        assert(four_digits(n).subrange(0, 2) =~= two_digits(n / 100));
        assert(a.subrange(2, 4) =~= two_digits(m % 100));
        assert(four_digits(n).subrange(2, 4) =~= two_digits(n % 100));
    }
}

/// A date whose year has four digits, with a month and a day of the calendar.
pub open spec fn four_digit_date(d: PlanDate) -> bool {
    0 <= d.year <= 9999 && 1 <= d.month <= 12 && 1 <= d.day <= 31
}

/// `x` falls strictly before `y` in the calendar: an earlier year, or the same year
/// and an earlier month, or the same month and an earlier day.
pub open spec fn date_before(x: PlanDate, y: PlanDate) -> bool {
    x.year < y.year || (x.year == y.year && (x.month < y.month || (x.month == y.month && x.day < y.day)))
}

/// The texts of four-digit dates compare as the dates do in the calendar, and are
/// the same exactly for the same date.
pub proof fn lemma_date_text_order(x: PlanDate, y: PlanDate)
    requires
        four_digit_date(x),
        four_digit_date(y),
    ensures
        seq_lt(date_text(x), date_text(y)) == date_before(x, y),
        (date_text(x) == date_text(y)) == (x == y),
{
    let yx = four_digits(x.year as nat);
    let yy = four_digits(y.year as nat);
    let mx = two_digits(x.month as nat);
    let my = two_digits(y.month as nat);
    let dx = two_digits(x.day as nat);
    let dy = two_digits(y.day as nat);
    let sep = seq!['-'];
    lemma_four_digits_order(x.year as nat, y.year as nat);
    lemma_four_digits_order(y.year as nat, x.year as nat);
    lemma_two_digits_order(x.month as nat, y.month as nat);
    lemma_two_digits_order(y.month as nat, x.month as nat);
    lemma_two_digits_order(x.day as nat, y.day as nat);
    lemma_two_digits_order(y.day as nat, x.day as nat);
    let tx = sep + (mx + (sep + dx));
    let ty = sep + (my + (sep + dy));
    assert(date_text(x) =~= yx + tx);
    assert(date_text(y) =~= yy + ty);
    lemma_seq_lt_concat(yx, tx, yy, ty);
    lemma_seq_lt_concat(sep, mx + (sep + dx), sep, my + (sep + dy));
    lemma_seq_lt_concat(mx, sep + dx, my, sep + dy);
    lemma_seq_lt_concat(sep, dx, sep, dy);
    if date_text(x) == date_text(y) {
        assert((yx + tx).subrange(0, 4) =~= yx);
        assert((yy + ty).subrange(0, 4) =~= yy);
        assert((yx + tx).subrange(5, 7) =~= mx);
        assert((yy + ty).subrange(5, 7) =~= my);
        assert((yx + tx).subrange(8, 10) =~= dx);
        assert((yy + ty).subrange(8, 10) =~= dy);
    }
}

fn push_two_digits(s: &mut String, n: u32)
    ensures
        final(s)@ == old(s)@ + two_digits(n as nat),
{
    let a: u32 = (n % 100) / 10;
    let b: u32 = n % 10;
    push_char(s, ((a as u8) + 48u8) as char);
    push_char(s, ((b as u8) + 48u8) as char);
}

fn push_four_digits(s: &mut String, n: u32)
    ensures
        final(s)@ == old(s)@ + four_digits(n as nat),
{
    let ghost s0 = s@;
    if n < 10 {
        push_char(s, '0');
        push_char(s, '0');
        push_char(s, '0');
        assert(s@ == s0 + seq!['0', '0', '0']);
    } else if n < 100 {
        push_char(s, '0');
        push_char(s, '0');
        assert(s@ == s0 + seq!['0', '0']);
    } else if n < 1000 {
        push_char(s, '0');
        assert(s@ == s0 + seq!['0']);
    }
    push_decimal(s, n as usize);
}

/// The text of a date, `YYYY-MM-DD`.
pub fn date_to_text(d: &PlanDate) -> (s: String)
    ensures
        s@ == date_text(*d),
{
    let mut s = String::new();
    let y = d.year;
    if 0 <= y && y <= 9999 {
        push_four_digits(&mut s, y as u32);
    } else if y > 9999 {
        push_char(&mut s, '+');
        push_decimal(&mut s, y as usize);
    } else {
        push_char(&mut s, '-');
        let a: u32 = if y == i32::MIN { 2147483648u32 } else { (-y) as u32 };
        push_four_digits(&mut s, a);
    }
    push_char(&mut s, '-');
    push_two_digits(&mut s, d.month);
    push_char(&mut s, '-');
    push_two_digits(&mut s, d.day);
    s
}

/// The key of a stored record: its table and its key within the table.
#[derive(Debug)]
pub struct RecordId {
    pub table: String,
    pub key: String,
}

impl RecordId {
    /// `table:key`, how a record is named in full.
    pub open spec fn text_spec(&self) -> Seq<char> {
        self.table@ + seq![':'] + self.key@
    }

    /// `table:key`, how a record is named in full.
    pub fn to_text(&self) -> (s: String)
        ensures
            s@ == self.text_spec(),
    {
        let mut s = copy_str(self.table.as_str());
        push_char(&mut s, ':');
        push_str(&mut s, self.key.as_str());
        s
    }

    /// The key alone, without the table.
    pub fn raw(&self) -> (s: String)
        ensures
            s@ == self.key@,
    {
        copy_str(self.key.as_str())
    }
}

/// A stored account.
#[derive(Debug)]
pub struct User {
    pub id: Option<RecordId>,
    pub username: String,
    pub email: String,
    pub password_hash: String,
    pub created_at: Timestamp,
}

/// Body of `POST /api/auth/register`.
#[derive(Debug)]
pub struct RegisterRequest {
    pub username: String,
    pub email: String,
    pub password: String,
}

/// Body of `POST /api/auth/login`.
#[derive(Debug)]
pub struct LoginRequest {
    pub email: String,
    pub password: String,
}

/// Answer to register and login: the session token and the account.
#[derive(Debug)]
pub struct AuthResponse {
    pub token: String,
    pub user: UserPublic,
}

/// An account as shown to clients (no password hash).
#[derive(Debug)]
pub struct UserPublic {
    pub id: String,
    pub username: String,
    pub email: String,
}

/// A stored plan.
#[derive(Debug)]
pub struct Plan {
    pub id: Option<RecordId>,
    pub user_id: String,
    pub date: PlanDate,
    pub title: String,
    pub description: Option<String>,
    pub time: Option<String>,
    pub completed: bool,
    pub photos: Vec<String>,
    pub created_at: Timestamp,
    pub updated_at: Timestamp,
}

/// What a stored plan holds, with its photo names as a sequence.
pub struct PlanView {
    pub id: Option<RecordId>,
    pub user_id: String,
    pub date: PlanDate,
    pub title: String,
    pub description: Option<String>,
    pub time: Option<String>,
    pub completed: bool,
    pub photos: Seq<String>,
    pub created_at: Timestamp,
    pub updated_at: Timestamp,
}

impl View for Plan {
    type V = PlanView;

    open spec fn view(&self) -> PlanView {
        PlanView {
            id: self.id,
            user_id: self.user_id,
            date: self.date,
            title: self.title,
            description: self.description,
            time: self.time,
            completed: self.completed,
            photos: self.photos@,
            created_at: self.created_at,
            updated_at: self.updated_at,
        }
    }
}

/// A plan as shown to clients; `id` is the plain key used in `/plans/{id}`.
#[derive(Debug)]
pub struct PlanPublic {
    pub id: String,
    pub user_id: String,
    pub date: PlanDate,
    pub title: String,
    pub description: Option<String>,
    pub time: Option<String>,
    pub completed: bool,
    pub photos: Vec<String>,
    pub created_at: Timestamp,
    pub updated_at: Timestamp,
}

/// The plain key of a plan record, or the empty text when it has none.
pub open spec fn plan_key_text(id: Option<RecordId>) -> Seq<char> {
    match id {
        Some(r) => r.key@,
        None => Seq::empty(),
    }
}

impl PlanPublic {
    /// The client view of a plan: the same fields, with the record key as plain text.
    pub fn from(p: Plan) -> (r: PlanPublic)
        ensures
            r.id@ == plan_key_text(p.id),
            r.user_id == p.user_id,
            r.date == p.date,
            r.title == p.title,
            r.description == p.description,
            r.time == p.time,
            r.completed == p.completed,
            r.photos == p.photos,
            r.created_at == p.created_at,
            r.updated_at == p.updated_at,
    {
        let id = match &p.id {
            Some(t) => t.raw(),
            None => String::new(),
        };
        PlanPublic {
            id,
            user_id: p.user_id,
            date: p.date,
            title: p.title,
            description: p.description,
            time: p.time,
            completed: p.completed,
            photos: p.photos,
            created_at: p.created_at,
            updated_at: p.updated_at,
        }
    }
}

/// Body of `POST /api/plans`.
#[derive(Debug)]
pub struct CreatePlanRequest {
    pub date: PlanDate,
    pub title: String,
    pub description: Option<String>,
    pub time: Option<String>,
}

/// How an update treats a field a plan may leave empty: kept when the field is
/// absent from the body, cleared when it is sent as `null`, replaced when it is
/// sent with a value.
#[derive(Debug)]
pub enum FieldUpdate {
    Absent,
    Null,
    Value(String),
}

/// Body of `PUT /api/plans/{id}`: each field sent is applied, each absent one kept.
/// `description` and `time` can be cleared by sending `null`; `title` and
/// `completed` always hold a value, so for them a `null` counts as absent.
#[derive(Debug)]
pub struct UpdatePlanRequest {
    pub title: Option<String>,
    pub description: FieldUpdate,
    pub time: FieldUpdate,
    pub completed: Option<bool>,
}

/// Body of the photo upload (`multipart/form-data`, field `photo`).
#[derive(Debug)]
pub struct PhotoUpload {
    pub photo: Vec<u8>,
}

/// Body of every error answer: `{ "error": <message> }`.
#[derive(Debug)]
pub struct ErrorResponse {
    pub error: String,
}

/// Body of the answer to a deletion: `{ "message": <text> }`.
#[derive(Debug)]
pub struct MessageResponse {
    pub message: String,
}

/// Session token claims: the account's full record name and the expiry time (seconds).
#[derive(Debug)]
pub struct Claims {
    pub sub: String,
    pub exp: usize,
}

/// Query of `GET /api/plans`: `?date=YYYY-MM-DD` or `?month=YYYY-MM`.
#[derive(Debug)]
pub struct DateFilter {
    pub date: Option<String>,
    pub month: Option<String>,
}

} // verus!
