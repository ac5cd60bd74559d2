//! Photos of a plan: which uploaded files are kept and under what name, and how
//! a stored file is served back.

use vstd::prelude::*;
use crate::clock::now;
use crate::error::AppError;
use crate::ids::{is_hex_lower, new_uuid, uuid_text};
use crate::models::{Claims, PlanPublic, Timestamp};
use crate::routes::plan::{msg_plan_not_found, shows};
use crate::store::{plan_of, plan_pos, with_photos, PlannerStore};
use crate::text::{chars_of, copy_str, occurs_in, push_char, push_chars, push_str, text_eq};

verus! {

/// Message for a file whose content type is not one of the image types taken.
pub open spec fn msg_unsupported_type() -> Seq<char> {
    "지원하지 않는 이미지 형식입니다."@
}

/// Message for an upload without any `photo` field.
pub open spec fn msg_no_files() -> Seq<char> {
    "업로드된 파일이 없습니다."@
}

/// Message when the photo names could not be added to the plan.
pub open spec fn msg_photos_not_saved() -> Seq<char> {
    "사진 저장 실패"@
}

/// Message for a file name that could leave the upload directory.
pub open spec fn msg_bad_filename() -> Seq<char> {
    "잘못된 파일 이름"@
}

/// Message for a file that is not there.
pub open spec fn msg_file_not_found() -> Seq<char> {
    "파일을 찾을 수 없습니다."@
}

/// The directory uploaded files are kept in, with its separator.
pub open spec fn upload_dir() -> Seq<char> {
    "uploads/"@
}

/// The `Cache-Control` of a served photo: public, kept for a year.
pub const CACHE_CONTROL: &'static str = "public, max-age=31536000";

/// The file extension an uploaded image of this content type is stored under.
pub open spec fn photo_extension(content_type: Seq<char>) -> Option<Seq<char>> {
    if content_type == "image/jpeg"@ {
        Some("jpg"@)
    } else if content_type == "image/png"@ {
        Some("png"@)
    } else if content_type == "image/webp"@ {
        Some("webp"@)
    } else if content_type == "image/gif"@ {
        Some("gif"@)
    } else {
        None
    }
}

/// The content type a stored file with this extension is served with.
pub open spec fn content_type_for(ext: Seq<char>) -> Seq<char> {
    if ext == "jpg"@ || ext == "jpeg"@ {
        "image/jpeg"@
    } else if ext == "png"@ {
        "image/png"@
    } else if ext == "webp"@ {
        "image/webp"@
    } else if ext == "gif"@ {
        "image/gif"@
    } else {
        "application/octet-stream"@
    }
}

/// The text after the last `.` of a name, or the whole name when it has none.
pub open spec fn after_last_dot(s: Seq<char>) -> Seq<char>
    decreases s.len(),
{
    if s.len() == 0 {
        s
    } else if s.last() == '.' {
        Seq::empty()
    } else {
        after_last_dot(s.drop_last()).push(s.last())
    }
}

/// A file name that stays inside the upload directory: no `..` and no `/`.
pub open spec fn safe_filename(s: Seq<char>) -> bool {
    !occurs_in(seq!['.', '.'], s) && !s.contains('/')
}

/// What to do with one field of an upload.
#[derive(Debug)]
pub enum FieldAction {
    /// Not a `photo` field: pass over it.
    Skip,
    /// Store the field's bytes at `path` and record the photo as `filename`.
    Save { filename: String, path: String },
}

/// The extension an image of this content type is stored under.
pub fn extension_for(content_type: &str) -> (r: Option<String>)
    ensures
        match photo_extension(content_type@) {
            Some(e) => r matches Some(x) && x@ == e,
            None => r is None,
        },
{
    if text_eq(content_type, "image/jpeg") {
        Some(copy_str("jpg"))
    } else if text_eq(content_type, "image/png") {
        Some(copy_str("png"))
    } else if text_eq(content_type, "image/webp") {
        Some(copy_str("webp"))
    } else if text_eq(content_type, "image/gif") {
        Some(copy_str("gif"))
    } else {
        None
    }
}

/// Decides on one field of an upload, given the identifier a saved file is named
/// by: a field not named `photo` is passed over; a `photo` of an image type taken
/// is saved as `<id>.<ext>` in the upload directory; any other is refused.
pub fn photo_field_with(name: Option<&str>, content_type: Option<&str>, id: &str) -> (res: Result<
    FieldAction,
    AppError,
>)
    ensures
        !(name matches Some(n) && n@ == "photo"@) ==> res matches Ok(FieldAction::Skip),
        (name matches Some(n) && n@ == "photo"@) ==> match content_type {
            None => res matches Err(AppError::BadRequest(m)) && m@ == msg_unsupported_type(),
            Some(c) => match photo_extension(c@) {
                None => res matches Err(AppError::BadRequest(m)) && m@ == msg_unsupported_type(),
                Some(e) => res matches Ok(FieldAction::Save { filename, path }) && filename@ == id@
                    + seq!['.'] + e && path@ == upload_dir() + filename@,
            },
        },
{
    let is_photo = match name {
        Some(n) => text_eq(n, "photo"),
        None => false,
    };
    if !is_photo {
        return Ok(FieldAction::Skip);
    }
    let ext = match content_type {
        None => None,
        Some(c) => extension_for(c),
    };
    match ext {
        None => Err(AppError::BadRequest(copy_str("지원하지 않는 이미지 형식입니다."))),
        Some(e) => {
            let mut filename = copy_str(id);
            push_char(&mut filename, '.');
            push_str(&mut filename, e.as_str());
            let mut path = copy_str("uploads/");
            push_str(&mut path, filename.as_str());
            Ok(FieldAction::Save { filename, path })
        },
    }
}

/// Decides on one field of an upload, naming a saved file by a fresh random UUID.
pub fn photo_field(name: Option<&str>, content_type: Option<&str>) -> (res: Result<FieldAction, AppError>)
    ensures
        !(name matches Some(n) && n@ == "photo"@) ==> res matches Ok(FieldAction::Skip),
        (name matches Some(n) && n@ == "photo"@) ==> match content_type {
            None => res matches Err(AppError::BadRequest(m)) && m@ == msg_unsupported_type(),
            Some(c) => match photo_extension(c@) {
                None => res matches Err(AppError::BadRequest(m)) && m@ == msg_unsupported_type(),
                Some(e) => res matches Ok(FieldAction::Save { filename, path }) && exists|id: Seq<char>|
                    uuid_text(id) && #[trigger] (id + seq!['.'] + e) == filename@ && path@ == upload_dir()
                        + filename@,
            },
        },
{
    let id = new_uuid();
    photo_field_with(name, content_type, id.as_str())
}

/// Ends an upload at time `at`, given the names of the files saved: refused when
/// none was; otherwise the names are added after the plan's photos and the plan
/// is given as it is afterwards.
pub fn finish_upload_at(store: &mut PlannerStore, claims: &Claims, plan_id: &str, saved: &Vec<String>, at: Timestamp)
    -> (res: Result<PlanPublic, AppError>)
    requires
        old(store).wf(),
    ensures
        final(store).wf(),
        final(store).users() == old(store).users(),
        saved@.len() == 0 ==> (res matches Err(AppError::BadRequest(m)) && m@ == msg_no_files()
            && final(store).plans() == old(store).plans()),
        saved@.len() > 0 ==> match plan_of(old(store).plans(), plan_id@, claims.sub@) {
            None => res matches Err(AppError::Internal(m)) && m@ == msg_photos_not_saved()
                && final(store).plans() == old(store).plans(),
            Some(p) => {
                let q = with_photos(p, saved@, at);
                &&& final(store).plans() == old(store).plans().update(
                    plan_pos(old(store).plans(), plan_id@, claims.sub@),
                    q,
                )
                &&& res matches Ok(r) && shows(r, q)
            },
        },
{
    if saved.len() == 0 {
        return Err(AppError::BadRequest(copy_str("업로드된 파일이 없습니다.")));
    }
    match store.append_photos(plan_id, claims.sub.as_str(), saved, at) {
        None => Err(AppError::Internal(copy_str("사진 저장 실패"))),
        Some(q) => Ok(PlanPublic::from(q)),
    }
}

/// Ends an upload now.
pub fn finish_upload(store: &mut PlannerStore, claims: &Claims, plan_id: &str, saved: &Vec<String>) -> (res: Result<
    PlanPublic,
    AppError,
>)
    requires
        old(store).wf(),
    ensures
        final(store).wf(),
        final(store).users() == old(store).users(),
        saved@.len() == 0 ==> (res matches Err(AppError::BadRequest(m)) && m@ == msg_no_files()
            && final(store).plans() == old(store).plans()),
        saved@.len() > 0 ==> match plan_of(old(store).plans(), plan_id@, claims.sub@) {
            None => res matches Err(AppError::Internal(m)) && m@ == msg_photos_not_saved()
                && final(store).plans() == old(store).plans(),
            Some(p) => exists|at: Timestamp| {
                let q = #[trigger] with_photos(p, saved@, at);
                &&& final(store).plans() == old(store).plans().update(
                    plan_pos(old(store).plans(), plan_id@, claims.sub@),
                    q,
                )
                &&& res matches Ok(r) && shows(r, q)
            },
        },
{
    let at = now();
    finish_upload_at(store, claims, plan_id, saved, at)
}

/// An upload under way: the plan the photos go to and the names of the files
/// saved so far, in the order they came.
#[derive(Debug)]
pub struct UploadSession {
    pub plan_id: String,
    pub saved: Vec<String>,
}

/// Starts an upload to the plan `plan_id` (`POST /api/plans/{id}/photos`): unless
/// the plan belongs to the caller it is refused with 404, before any field of the
/// body is read.
pub fn start_upload(store: &PlannerStore, claims: &Claims, plan_id: &str) -> (res: Result<UploadSession, AppError>)
    requires
        store.wf(),
    ensures
        match plan_of(store.plans(), plan_id@, claims.sub@) {
            None => res matches Err(AppError::NotFound(m)) && m@ == msg_plan_not_found(),
            Some(_) => res matches Ok(u) && u.plan_id@ == plan_id@ && u.saved@.len() == 0,
        },
{
    match store.find_plan(plan_id, claims.sub.as_str()) {
        None => Err(AppError::NotFound(copy_str("플랜을 찾을 수 없습니다."))),
        Some(_) => Ok(UploadSession { plan_id: copy_str(plan_id), saved: Vec::new() }),
    }
}

impl UploadSession {
    /// Records that a field's file was saved under `filename`.
    pub fn record(&mut self, filename: String)
        ensures
            final(self).plan_id == old(self).plan_id,
            final(self).saved@ == old(self).saved@.push(filename),
    {
        self.saved.push(filename);
    }

    /// Ends the upload now: refused when no file was saved; otherwise the saved
    /// names are added after the plan's photos.
    pub fn finish(self, store: &mut PlannerStore, claims: &Claims) -> (res: Result<PlanPublic, AppError>)
        requires
            old(store).wf(),
        ensures
            final(store).wf(),
            final(store).users() == old(store).users(),
            self.saved@.len() == 0 ==> (res matches Err(AppError::BadRequest(m)) && m@ == msg_no_files()
                && final(store).plans() == old(store).plans()),
            self.saved@.len() > 0 ==> match plan_of(old(store).plans(), self.plan_id@, claims.sub@) {
                None => res matches Err(AppError::Internal(m)) && m@ == msg_photos_not_saved()
                    && final(store).plans() == old(store).plans(),
                Some(p) => exists|at: Timestamp| {
                    let q = #[trigger] with_photos(p, self.saved@, at);
                    &&& final(store).plans() == old(store).plans().update(
                        plan_pos(old(store).plans(), self.plan_id@, claims.sub@),
                        q,
                    )
                    &&& res matches Ok(r) && shows(r, q)
                },
            },
    {
        finish_upload(store, claims, self.plan_id.as_str(), &self.saved)
    }
}

/// Whether a file name could leave the upload directory.
fn leaves_upload_dir(name: &str) -> (r: bool)
    ensures
        r == !safe_filename(name@),
{
    let v = chars_of(name);
    let ghost s = name@;
    let mut i: usize = 0;
    while i < v.len()
        invariant
            v@ == s,
            s == name@,
            i <= s.len(),
            forall|k: int| 0 <= k < i ==> #[trigger] s[k] != '/',
            forall|k: int| 0 <= k < i && k + 1 < s.len() ==> !(#[trigger] s[k] == '.' && s[k + 1] == '.'),
        decreases s.len() - i,
    {
        if v[i] == '/' {
            assert(s[i as int] == '/');
            assert(s.contains('/'));
            return true;
        }
        if i + 1 < v.len() && v[i] == '.' && v[i + 1] == '.' {
            let ghost pair = seq!['.', '.'];
            assert(s.subrange(i as int, i + pair.len()) =~= pair);
            assert(occurs_in(pair, s));
            return true;
        }
        i = i + 1;
    }
    proof {
        assert forall|j: int| 0 <= j && j + 2 <= s.len() implies #[trigger] s.subrange(j, j + 2)
            != seq!['.', '.'] by {
            if s.subrange(j, j + 2) == seq!['.', '.'] {
                assert(s.subrange(j, j + 2)[0] == s[j]);
                assert(s.subrange(j, j + 2)[1] == s[j + 1]);
                assert(s[j] == '.');
            }
        }
        assert(!s.contains('/')) by {
            if s.contains('/') {
                let k = choose|k: int| 0 <= k < s.len() && s[k] == '/';
                assert(s[k] != '/');
            }
        }
    }
    false
}

/// The text after the last `.` of a name.
fn extension_of(name: &str) -> (r: String)
    ensures
        r@ == after_last_dot(name@),
{
    let v = chars_of(name);
    let ghost s = name@;
    let mut i: usize = v.len();
    assert(s.take(s.len() as int) =~= s);
    assert(s.subrange(s.len() as int, s.len() as int) =~= Seq::<char>::empty());
    assert(s + Seq::<char>::empty() =~= s);
    while i > 0 && v[i - 1] != '.'
        invariant
            v@ == s,
            s == name@,
            i <= s.len(),
            after_last_dot(s) == after_last_dot(s.take(i as int)) + s.subrange(i as int, s.len() as int),
        decreases i,
    {
        let ghost t = s.take(i as int);
        assert(t.drop_last() =~= s.take(i - 1));
        assert(t.last() == s[i - 1]);
        assert(s.subrange(i - 1, s.len() as int) =~= seq![s[i - 1]] + s.subrange(i as int, s.len() as int));
        assert(after_last_dot(s.take(i - 1)).push(s[i - 1]) + s.subrange(i as int, s.len() as int)
            =~= after_last_dot(s.take(i - 1)) + s.subrange(i - 1, s.len() as int));
        i = i - 1;
    }
    proof {
        if i == 0 {
            assert(s.take(0) =~= Seq::<char>::empty());
        } else {
            assert(s.take(i as int).last() == s[i - 1]);
        }
        assert(Seq::<char>::empty() + s.subrange(i as int, s.len() as int) =~= s.subrange(
            i as int,
            s.len() as int,
        ));
    }
    let mut r = String::new();
    push_chars(&mut r, &v, i, v.len());
    r
}

/// The content type of a stored file, by the text after the last `.` of its name.
pub fn photo_content_type(filename: &str) -> (r: String)
    ensures
        r@ == content_type_for(after_last_dot(filename@)),
{
    let ext = extension_of(filename);
    let e = ext.as_str();
    if text_eq(e, "jpg") || text_eq(e, "jpeg") {
        copy_str("image/jpeg")
    } else if text_eq(e, "png") {
        copy_str("image/png")
    } else if text_eq(e, "webp") {
        copy_str("image/webp")
    } else if text_eq(e, "gif") {
        copy_str("image/gif")
    } else {
        copy_str("application/octet-stream")
    }
}

/// How a stored photo is served: the file to read and the headers of the answer.
#[derive(Debug)]
pub struct PhotoServing {
    pub path: String,
    pub content_type: String,
    pub cache_control: String,
}

/// Serving a photo (`GET /api/photos/{filename}`): a name with `..` or `/` is
/// refused; otherwise the file in the upload directory is read and answered with
/// the content type of its extension, cacheable for a year.
pub fn serve_photo(filename: &str) -> (res: Result<PhotoServing, AppError>)
    ensures
        !safe_filename(filename@) ==> (res matches Err(AppError::BadRequest(m)) && m@ == msg_bad_filename()),
        safe_filename(filename@) ==> (res matches Ok(s) && s.path@ == upload_dir() + filename@
            && s.content_type@ == content_type_for(after_last_dot(filename@)) && s.cache_control@
            == CACHE_CONTROL@),
{
    if leaves_upload_dir(filename) {
        return Err(AppError::BadRequest(copy_str("잘못된 파일 이름")));
    }
    let mut path = copy_str("uploads/");
    push_str(&mut path, filename);
    Ok(PhotoServing {
        path,
        content_type: photo_content_type(filename),
        cache_control: copy_str(CACHE_CONTROL),
    })
}

/// The answer when the file asked for cannot be read: 404.
pub fn missing_file() -> (e: AppError)
    ensures
        e matches AppError::NotFound(m) && m@ == msg_file_not_found(),
{
    AppError::NotFound(copy_str("파일을 찾을 수 없습니다."))
}


proof fn lemma_after_last_dot_tail(a: Seq<char>, e: Seq<char>)
    requires
        !e.contains('.'),
    ensures
        after_last_dot(a + seq!['.'] + e) == e,
    decreases e.len(),
{
    let s = a + seq!['.'] + e;
    if e.len() == 0 {
        assert(s.last() == '.');
    } else {
        assert(e.last() == e[e.len() - 1]);
        assert(s.last() == e.last());
        assert(s.drop_last() =~= a + seq!['.'] + e.drop_last());
        assert(!e.drop_last().contains('.')) by {
            if e.drop_last().contains('.') {
                let k = choose|k: int| 0 <= k < e.drop_last().len() && e.drop_last()[k] == '.';
                assert(e[k] == '.');
            }
        }
        lemma_after_last_dot_tail(a, e.drop_last());
        assert(e.drop_last().push(e.last()) =~= e);
    }
}

/// A photo saved from an upload is served back: the name it is saved under passes
/// the check on names, and the file is answered with the content type it was
/// uploaded with.
pub proof fn law_uploaded_photo_served(id: Seq<char>, content_type: Seq<char>)
    requires
        uuid_text(id),
        photo_extension(content_type) is Some,
    ensures
        ({
            let name = id + seq!['.'] + photo_extension(content_type)->0;
            safe_filename(name) && content_type_for(after_last_dot(name)) == content_type
        }),
{
    reveal_strlit("image/jpeg");
    reveal_strlit("image/png");
    reveal_strlit("image/webp");
    reveal_strlit("image/gif");
    reveal_strlit("jpg");
    reveal_strlit("jpeg");
    reveal_strlit("png");
    reveal_strlit("webp");
    reveal_strlit("gif");
    let e = photo_extension(content_type)->0;
    let name = id + seq!['.'] + e;
    assert(forall|k: int| 0 <= k < e.len() ==> #[trigger] e[k] != '.' && e[k] != '/');
    assert(!e.contains('.'));
    lemma_after_last_dot_tail(id, e);
    assert forall|k: int| 0 <= k < name.len() && k != 36 implies #[trigger] name[k] != '.' && name[k]
        != '/' by {
        if k < 36 {
            assert(name[k] == id[k]);
            if !(k == 8 || k == 13 || k == 18 || k == 23) {
                assert(is_hex_lower(id[k]));
            }
        } else {
            assert(name[k] == e[k - 37]);
        }
    }
    assert(name[36] == '.');
    assert(!name.contains('/')) by {
        if name.contains('/') {
            let k = choose|k: int| 0 <= k < name.len() && name[k] == '/';
            assert(name[k] != '/');
        }
    }
    let pair = seq!['.', '.'];
    assert forall|j: int| 0 <= j && j + pair.len() <= name.len() implies #[trigger] name.subrange(
        j,
        j + pair.len(),
    ) != pair by {
        if name.subrange(j, j + pair.len()) == pair {
            assert(name.subrange(j, j + 2)[0] == name[j]);
            assert(name.subrange(j, j + 2)[1] == name[j + 1]);
            assert(name[j] == '.' && name[j + 1] == '.');
        }
    }
    assert(safe_filename(name));
    assert("png"@ != "jpg"@ && "png"@ != "jpeg"@) by {
        assert("png"@[0] != "jpg"@[0]);
    }
    assert("webp"@ != "jpg"@ && "webp"@ != "jpeg"@ && "webp"@ != "png"@) by {
        assert("webp"@[0] != "jpeg"@[0]);
    }
    assert("gif"@ != "jpg"@ && "gif"@ != "jpeg"@ && "gif"@ != "png"@ && "gif"@ != "webp"@) by {
        assert("gif"@[0] != "jpg"@[0]);
        assert("gif"@[0] != "png"@[0]);
    }
    assert(content_type_for(e) == content_type);
}

} // verus!
