use vstd::prelude::*;
use crate::text::{chars_of, string_of, push_str, push_int, int_text, trim, trim_chars, is_control, is_control_char};
use crate::json::{Json, JsonView, ObjectBuilder, object_of, json_str, json_opt_int, opt_int_view, opt_i64};
use crate::models::{DbAttachment, Viewer};
use crate::listing::{SqlValue, SqlValueView, Statement, binds_view};
use crate::http::{placeholders, placeholders_text};
use crate::keywords::{tag_texts, trimmed_texts};
use crate::relations::strings_view;
use crate::access::is_admin;
use crate::unicode::{unicode_alphanumeric, is_alphanumeric};

verus! {

/// Where an attachment's bytes are stored.
pub open spec fn storage_key_text(creator_id: int, uid: Seq<char>, filename: Seq<char>) -> Seq<char> {
    "attachments/"@ + int_text(creator_id) + "/"@ + uid + "/"@ + filename
}

/// The storage key of an attachment: `attachments/{creator}/{uid}/{filename}`.
pub fn attachment_storage_key(creator_id: i64, uid: &str, filename: &str) -> (r: String)
    ensures
        r@ == storage_key_text(creator_id as int, uid@, filename@),
{
    let mut v = chars_of("attachments/");
    push_int(&mut v, creator_id as i128);
    push_str(&mut v, "/");
    push_str(&mut v, uid);
    push_str(&mut v, "/");
    push_str(&mut v, filename);
    string_of(&v)
}

/// The public URL of an attachment reached through a share.
pub open spec fn shared_attachment_url_text(share_uid: Seq<char>, attachment_uid: Seq<char>, filename: Seq<char>) -> Seq<char> {
    "/api/v1/shares/"@ + share_uid + "/attachments/"@ + attachment_uid + "/"@ + filename
}

/// `/api/v1/shares/{share}/attachments/{attachment}/{filename}`.
pub fn shared_attachment_url(share_uid: &str, attachment_uid: &str, filename: &str) -> (r: String)
    ensures
        r@ == shared_attachment_url_text(share_uid@, attachment_uid@, filename@),
{
    let mut v = chars_of("/api/v1/shares/");
    push_str(&mut v, share_uid);
    push_str(&mut v, "/attachments/");
    push_str(&mut v, attachment_uid);
    push_str(&mut v, "/");
    push_str(&mut v, filename);
    string_of(&v)
}

/// The fields the API shows of an attachment.
pub open spec fn public_attachment_fields(a: DbAttachment) -> Seq<(Seq<char>, JsonView)> {
    seq![
        ("name"@, JsonView::Str("attachments/"@ + a.uid@)),
        ("uid"@, JsonView::Str(a.uid@)),
        ("filename"@, JsonView::Str(a.filename@)),
        ("type"@, JsonView::Str(a.file_type@)),
        ("size"@, JsonView::Int(a.size as int)),
        ("memoId"@, opt_int_view(opt_i64(a.memo_id))),
        ("createdTs"@, JsonView::Int(a.created_ts as int)),
        ("url"@, JsonView::Str("/file/attachments/"@ + a.uid@ + "/"@ + a.filename@)),
    ]
}

/// The API form of an attachment.
pub fn public_attachment(attachment: DbAttachment) -> (j: Json)
    ensures
        j@ == object_of(public_attachment_fields(attachment)),
{
    let ghost a = attachment;
    let mut name = chars_of("attachments/");
    push_str(&mut name, attachment.uid.as_str());
    let mut url = chars_of("/file/attachments/");
    push_str(&mut url, attachment.uid.as_str());
    push_str(&mut url, "/");
    push_str(&mut url, attachment.filename.as_str());
    let mut b = ObjectBuilder::new();
    b.add("name", Json::Str(string_of(&name)));
    b.add("uid", json_str(attachment.uid.as_str()));
    b.add("filename", json_str(attachment.filename.as_str()));
    b.add("type", json_str(attachment.file_type.as_str()));
    b.add("size", Json::Int(attachment.size as i128));
    b.add("memoId", json_opt_int(attachment.memo_id));
    b.add("createdTs", Json::Int(attachment.created_ts as i128));
    b.add("url", Json::Str(string_of(&url)));
    proof {
        assert(b.pairs() =~= public_attachment_fields(a));
    }
    b.build()
}

/// Characters a stored file name may not hold.
pub open spec fn unsafe_filename_char(c: char) -> bool {
    c == '\\' || c == '/' || c == ':' || c == '*' || c == '?' || c == '"' || c == '<' || c == '>'
        || c == '|' || is_control(c)
}

pub open spec fn clean_filename_char(c: char) -> char {
    if unsafe_filename_char(c) {
        '_'
    } else {
        c
    }
}

/// The name with unsafe characters replaced, trimmed, cut to 180 characters.
pub open spec fn cleaned_filename(name: Seq<char>) -> Seq<char> {
    let t = trim(Seq::new(name.len(), |i: int| clean_filename_char(name[i])));
    if t.len() > 180 {
        t.take(180)
    } else {
        t
    }
}

pub open spec fn has_alphanumeric(s: Seq<char>) -> bool {
    exists|i: int| 0 <= i < s.len() && unicode_alphanumeric(#[trigger] s[i])
}

/// The stored file name for an uploaded name: the cleaned name, or `attachment`
/// where nothing alphanumeric is left.
pub open spec fn sanitized_filename(name: Seq<char>) -> Seq<char> {
    let c = cleaned_filename(name);
    if c.len() == 0 || !has_alphanumeric(c) {
        "attachment"@
    } else {
        c
    }
}

/// Makes an uploaded file name safe to store and serve.
pub fn sanitize_filename(name: &str) -> (r: String)
    ensures
        r@ == sanitized_filename(name@),
{
    let v = chars_of(name);
    let mut mapped: Vec<char> = Vec::new();
    let mut i: usize = 0;
    while i < v.len()
        invariant
            i <= v@.len(),
            v@ == name@,
            mapped@ == Seq::new(i as nat, |k: int| clean_filename_char(name@[k])),
        decreases v.len() - i,
    {
        let c = v[i];
        let bad = c == '\\' || c == '/' || c == ':' || c == '*' || c == '?' || c == '"' || c == '<'
            || c == '>' || c == '|' || is_control_char(c);
        if bad {
            mapped.push('_');
        } else {
            mapped.push(c);
        }
        i = i + 1;
        proof {
            assert(mapped@ =~= Seq::new(i as nat, |k: int| clean_filename_char(name@[k])));
        }
    }
    let t = trim_chars(&mapped);
    let cleaned = if t.len() > 180 {
        crate::text::sub_chars(&t, 0, 180)
    } else {
        t
    };
    proof {
        if t@.len() > 180 {
            assert(cleaned@ =~= t@.take(180));
        }
    }
    let mut found = false;
    let mut j: usize = 0;
    while j < cleaned.len()
        invariant
            j <= cleaned@.len(),
            found == exists|k: int| 0 <= k < j && unicode_alphanumeric(#[trigger] cleaned@[k]),
        decreases cleaned.len() - j,
    {
        if is_alphanumeric(cleaned[j]) {
            found = true;
        }
        j = j + 1;
    }
    if cleaned.len() == 0 || !found {
        "attachment".to_owned()
    } else {
        string_of(&cleaned)
    }
}

/// Whether `viewer` may download `attachment`: an admin always; an attachment that
/// belongs to no memo only by its uploader; one of a memo when that memo is not
/// private or belongs to the viewer.
pub open spec fn may_read_attachment(a: DbAttachment, viewer: Viewer) -> bool {
    ||| viewer.role@ == "ADMIN"@
    ||| (a.memo_id is None && a.creator_id == viewer.id)
    ||| (a.memo_id is Some && opt_string_is(a.memo_visibility, "PRIVATE"@) == false)
    ||| (a.memo_id is Some && a.memo_creator_id == Some(viewer.id))
}

pub open spec fn opt_string_is(x: Option<String>, s: Seq<char>) -> bool {
    match x {
        Some(v) => v@ == s,
        None => false,
    }
}

/// Admins read everything; others read their own unattached uploads, attachments of
/// memos that are not private, and attachments of their own memos.
pub fn can_read_attachment(attachment: &DbAttachment, viewer: &Viewer) -> (b: bool)
    ensures
        b == may_read_attachment(*attachment, *viewer),
{
    if crate::text::str_eq(viewer.role.as_str(), "ADMIN") {
        return true;
    }
    if attachment.memo_id.is_none() {
        return attachment.creator_id == viewer.id;
    }
    let private = match &attachment.memo_visibility {
        Some(v) => crate::text::str_eq(v.as_str(), "PRIVATE"),
        None => false,
    };
    if !private {
        return true;
    }
    match attachment.memo_creator_id {
        Some(id) => id == viewer.id,
        None => false,
    }
}

/// The attachments a cleanup request names: its `attachmentUids` strings,
/// trimmed, not blank, at most a hundred.
pub open spec fn cleanup_uids(body: JsonView) -> Seq<Seq<char>> {
    let all = tag_texts(
        match crate::json::json_get(body, "attachmentUids"@) {
            Some(JsonView::Array(items)) => items,
            _ => Seq::empty(),
        },
    );
    if all.len() > 100 {
        all.take(100)
    } else {
        all
    }
}

pub open spec fn unlinked_attachments_sql() -> Seq<char> {
    "SELECT attachment.*, memo.visibility AS memo_visibility, memo.creator_id AS memo_creator_id FROM attachment LEFT JOIN memo ON memo.id = attachment.memo_id WHERE attachment.memo_id IS NULL"@
}

/// The query for the attachments a cleanup removes: only attachments bound to no
/// memo; the named ones, or (when none is named) the first hundred; a non-admin
/// only reaches their own.
pub open spec fn cleanup_query(body: JsonView, viewer: Viewer) -> (Seq<char>, Seq<SqlValueView>) {
    let uids = cleanup_uids(body);
    let admin = is_admin(viewer);
    if uids.len() == 0 && admin {
        (unlinked_attachments_sql() + " LIMIT 100"@, Seq::empty())
    } else if uids.len() == 0 {
        (unlinked_attachments_sql() + " AND attachment.creator_id = ? LIMIT 100"@, seq![SqlValueView::Int(viewer.id as int)])
    } else {
        let named = Seq::new(uids.len(), |i: int| SqlValueView::Text(uids[i]));
        let sql = unlinked_attachments_sql() + " AND attachment.uid IN ("@ + placeholders_text(uids.len()) + ")"@;
        if admin {
            (sql, named)
        } else {
            (sql + " AND attachment.creator_id = ?"@, named.push(SqlValueView::Int(viewer.id as int)))
        }
    }
}

/// Selects the attachments a cleanup request removes.
pub fn batch_delete_attachments(body: &Json, viewer: &Viewer) -> (r: Statement)
    ensures
        (r.sql@, binds_view(r.binds@)) == cleanup_query(body@, *viewer),
{
    let field = crate::json::get_field(body, "attachmentUids");
    let all = match field {
        Some(Json::Array(items)) => {
            proof {
                assert(field.unwrap()@ == JsonView::Array(crate::json::items_view(items@))) by {
                    assert(field.unwrap()@->Array_0 =~= crate::json::items_view(items@));
                }
            }
            trimmed_texts(items)
        },
        _ => {
            let v: Vec<String> = Vec::new();
            proof {
                assert(strings_view(v@) =~= tag_texts(Seq::<JsonView>::empty()));
            }
            v
        },
    };
    let ghost uv = cleanup_uids(body@);
    let n: usize = if all.len() > 100 { 100 } else { all.len() };
    proof {
        assert(uv.len() == n);
        assert(forall|k: int| 0 <= k < n ==> uv[k] == (#[trigger] all@[k])@);
    }
    let admin = crate::text::str_eq(viewer.role.as_str(), "ADMIN");
    let mut v: Vec<char> = Vec::new();
    push_str(&mut v, "SELECT attachment.*, memo.visibility AS memo_visibility, memo.creator_id AS memo_creator_id FROM attachment LEFT JOIN memo ON memo.id = attachment.memo_id WHERE attachment.memo_id IS NULL");
    let mut binds: Vec<SqlValue> = Vec::new();
    if n == 0 {
        if admin {
            push_str(&mut v, " LIMIT 100");
        } else {
            push_str(&mut v, " AND attachment.creator_id = ? LIMIT 100");
            binds.push(SqlValue::Int(viewer.id));
        }
        proof {
            assert(v@ =~= cleanup_query(body@, *viewer).0);
            assert(binds_view(binds@) =~= cleanup_query(body@, *viewer).1);
        }
        return Statement { sql: string_of(&v), binds };
    }
    push_str(&mut v, " AND attachment.uid IN (");
    let p = placeholders(n);
    push_str(&mut v, p.as_str());
    push_str(&mut v, ")");
    let mut i: usize = 0;
    while i < n
        invariant
            i <= n,
            n <= all@.len(),
            binds@.len() == i,
            forall|k: int| 0 <= k < i ==> crate::listing::sql_value_view(#[trigger] binds@[k]) == SqlValueView::Text(all@[k]@),
        decreases n - i,
    {
        binds.push(SqlValue::Text(all[i].clone()));
        i = i + 1;
    }
    if !admin {
        push_str(&mut v, " AND attachment.creator_id = ?");
        binds.push(SqlValue::Int(viewer.id));
    }
    proof {
        let q = cleanup_query(body@, *viewer);
        assert(v@ =~= q.0);
        assert(binds_view(binds@) =~= q.1);
    }
    Statement { sql: string_of(&v), binds }
}

/// The headers an attachment is served with: its type (or a generic one), shown
/// inline under its file name, cached publicly only when its memo is public.
pub open spec fn download_headers(a: DbAttachment) -> Seq<(Seq<char>, Seq<char>)> {
    seq![
        ("Content-Type"@, if a.file_type@.len() == 0 { "application/octet-stream"@ } else { a.file_type@ }),
        ("Content-Disposition"@, "inline; filename=\""@ + a.filename@ + "\""@),
        ("Cache-Control"@, if crate::json::opt_string(a.memo_visibility) == Some("PUBLIC"@) {
            "public, max-age=3600"@
        } else {
            "private, no-store"@
        }),
    ]
}

pub fn attachment_download_headers(attachment: &DbAttachment) -> (r: crate::headers::HeaderList)
    ensures
        r@ == download_headers(*attachment),
{
    let mut h = crate::headers::HeaderList::new();
    if attachment.file_type.as_str().unicode_len() == 0 {
        h.append("Content-Type", "application/octet-stream");
    } else {
        h.append("Content-Type", attachment.file_type.as_str());
    }
    let mut d: Vec<char> = Vec::new();
    push_str(&mut d, "inline; filename=\"");
    push_str(&mut d, attachment.filename.as_str());
    push_str(&mut d, "\"");
    let disposition = string_of(&d);
    h.append("Content-Disposition", disposition.as_str());
    let public = match &attachment.memo_visibility {
        Some(v) => crate::text::str_eq(v.as_str(), "PUBLIC"),
        None => false,
    };
    if public {
        h.append("Cache-Control", "public, max-age=3600");
    } else {
        h.append("Cache-Control", "private, no-store");
    }
    proof {
        assert(h@ =~= download_headers(*attachment));
    }
    h
}

/// What a download request does once its attachment has been looked up: the
/// storage key to read and the headers to serve it with, or the refusal that
/// comes before any object is read (404 when there is no such attachment, then
/// 403 when the viewer may not read it).
pub fn attachment_download_plan(found: Option<DbAttachment>, viewer: &Viewer) -> (r: Result<(String, crate::headers::HeaderList), crate::error::AppError>)
    ensures
        found is None ==> (r matches Err(e) && crate::error::is_error(e, 404, "Attachment not found"@)),
        found matches Some(a) ==> {
            &&& (r is Ok <==> may_read_attachment(a, *viewer))
            &&& (r matches Err(e) ==> crate::error::is_error(e, 403, "Forbidden"@))
            &&& (r matches Ok(p) ==> p.0@ == a.reference@ && p.1@ == download_headers(a))
        },
{
    match found {
        None => Err(crate::error::AppError::new(404, "Attachment not found")),
        Some(a) => {
            if !can_read_attachment(&a, viewer) {
                return Err(crate::error::AppError::new(403, "Forbidden"));
            }
            let headers = attachment_download_headers(&a);
            Ok((a.reference.clone(), headers))
        },
    }
}

} // verus!
