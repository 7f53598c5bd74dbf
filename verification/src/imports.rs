use vstd::prelude::*;
use crate::text::{chars_of, string_of, push_str, trim, trim_str, int_text, str_eq};
use crate::json::{Json, JsonView, items_view, json_get, json_as_str, get_field, as_str, json_text, to_json_string};
use crate::listing::{SqlValue, SqlValueView, sql_value_view, binds_view};
use crate::access::{normalize_state, normalize_visibility, is_row_state, is_visibility};
use crate::unicode::unicode_uppercase;
use crate::domain::{build_memo_payload, memo_payload};
use crate::events::clone_json;
use crate::error::{AppError, is_error};

verus! {

/// How a JSON value is bound to a statement: strings as text, integers as
/// integers (other numbers as numbers, by their decimal text), booleans as 1 or 0,
/// absent and `null` as NULL, arrays and objects as their JSON text.
pub open spec fn bind_of(value: Option<JsonView>) -> SqlValueView {
    match value {
        Some(JsonView::Str(s)) => SqlValueView::Text(s),
        Some(JsonView::Int(n)) => if i64::MIN <= n <= i64::MAX {
            SqlValueView::Int(n)
        } else {
            SqlValueView::Number(int_text(n))
        },
        Some(JsonView::Num(t)) => SqlValueView::Number(t),
        Some(JsonView::Bool(b)) => SqlValueView::Int(if b { 1 } else { 0 }),
        Some(JsonView::Null) | None => SqlValueView::Null,
        Some(other) => SqlValueView::Text(json_text(other)),
    }
}

pub open spec fn opt_json(x: Option<&Json>) -> Option<JsonView> {
    match x {
        Some(j) => Some(j@),
        None => None,
    }
}

pub fn json_bind(value: Option<&Json>) -> (r: SqlValue)
    ensures
        sql_value_view(r) == bind_of(opt_json(value)),
{
    match value {
        Some(Json::Str(s)) => SqlValue::Text(s.clone()),
        Some(Json::Int(n)) => if i64::MIN as i128 <= *n && *n <= i64::MAX as i128 {
            SqlValue::Int(*n as i64)
        } else {
            let mut v: Vec<char> = Vec::new();
            crate::text::push_int(&mut v, *n);
            SqlValue::Number(string_of(&v))
        },
        Some(Json::Num(t)) => SqlValue::Number(t.clone()),
        Some(Json::Bool(b)) => SqlValue::Int(if *b { 1 } else { 0 }),
        Some(Json::Null) => SqlValue::Null,
        None => SqlValue::Null,
        Some(other) => SqlValue::Text(to_json_string(other)),
    }
}

/// NULL replaced by `fallback` text.
pub open spec fn or_text(v: SqlValueView, fallback: Seq<char>) -> SqlValueView {
    match v {
        SqlValueView::Null => SqlValueView::Text(fallback),
        other => other,
    }
}

pub fn if_undefined(v: SqlValue, fallback: &str) -> (r: SqlValue)
    ensures
        sql_value_view(r) == or_text(sql_value_view(v), fallback@),
{
    match v {
        SqlValue::Null => SqlValue::Text(fallback.to_owned()),
        other => other,
    }
}

fn bind_field(item: &Json, key: &str) -> (r: SqlValue)
    ensures
        sql_value_view(r) == bind_of(json_get(item@, key@)),
{
    json_bind(get_field(item, key))
}

fn bind_field_or(item: &Json, key: &str, fallback: &str) -> (r: SqlValue)
    ensures
        sql_value_view(r) == or_text(bind_of(json_get(item@, key@)), fallback@),
{
    if_undefined(json_bind(get_field(item, key)), fallback)
}

/// The values a restored memo row is written with.
pub open spec fn restore_memo_binds(item: JsonView) -> Seq<SqlValueView> {
    seq![
        bind_of(json_get(item, "id"@)),
        bind_of(json_get(item, "uid"@)),
        bind_of(json_get(item, "creator_id"@)),
        bind_of(json_get(item, "created_ts"@)),
        bind_of(json_get(item, "updated_ts"@)),
        or_text(bind_of(json_get(item, "row_status"@)), "NORMAL"@),
        or_text(bind_of(json_get(item, "content"@)), ""@),
        or_text(bind_of(json_get(item, "visibility"@)), "PRIVATE"@),
        bind_of(json_get(item, "pinned"@)),
        or_text(bind_of(json_get(item, "payload"@)), "{}"@),
    ]
}

pub fn restored_memo_values(item: &Json) -> (r: Vec<SqlValue>)
    ensures
        binds_view(r@) == restore_memo_binds(item@),
{
    let mut v: Vec<SqlValue> = Vec::new();
    v.push(bind_field(item, "id"));
    v.push(bind_field(item, "uid"));
    v.push(bind_field(item, "creator_id"));
    v.push(bind_field(item, "created_ts"));
    v.push(bind_field(item, "updated_ts"));
    v.push(bind_field_or(item, "row_status", "NORMAL"));
    v.push(bind_field_or(item, "content", ""));
    v.push(bind_field_or(item, "visibility", "PRIVATE"));
    v.push(bind_field(item, "pinned"));
    v.push(bind_field_or(item, "payload", "{}"));
    proof {
        assert(binds_view(v@) =~= restore_memo_binds(item@));
    }
    v
}

/// The values a restored attachment row is written with.
pub open spec fn restore_attachment_binds(item: JsonView) -> Seq<SqlValueView> {
    seq![
        bind_of(json_get(item, "id"@)),
        bind_of(json_get(item, "uid"@)),
        bind_of(json_get(item, "creator_id"@)),
        bind_of(json_get(item, "created_ts"@)),
        bind_of(json_get(item, "updated_ts"@)),
        or_text(bind_of(json_get(item, "filename"@)), "attachment"@),
        or_text(bind_of(json_get(item, "type"@)), ""@),
        bind_of(json_get(item, "size"@)),
        bind_of(json_get(item, "memo_id"@)),
        or_text(bind_of(json_get(item, "storage_type"@)), "S3"@),
        or_text(bind_of(json_get(item, "reference"@)), ""@),
        or_text(bind_of(json_get(item, "payload"@)), "{}"@),
    ]
}

pub fn restored_attachment_values(item: &Json) -> (r: Vec<SqlValue>)
    ensures
        binds_view(r@) == restore_attachment_binds(item@),
{
    let mut v: Vec<SqlValue> = Vec::new();
    v.push(bind_field(item, "id"));
    v.push(bind_field(item, "uid"));
    v.push(bind_field(item, "creator_id"));
    v.push(bind_field(item, "created_ts"));
    v.push(bind_field(item, "updated_ts"));
    v.push(bind_field_or(item, "filename", "attachment"));
    v.push(bind_field_or(item, "type", ""));
    v.push(bind_field(item, "size"));
    v.push(bind_field(item, "memo_id"));
    v.push(bind_field_or(item, "storage_type", "S3"));
    v.push(bind_field_or(item, "reference", ""));
    v.push(bind_field_or(item, "payload", "{}"));
    proof {
        assert(binds_view(v@) =~= restore_attachment_binds(item@));
    }
    v
}

/// The values a restored relation row is written with.
pub open spec fn restore_relation_binds(item: JsonView) -> Seq<SqlValueView> {
    seq![
        bind_of(json_get(item, "memo_id"@)),
        bind_of(json_get(item, "related_memo_id"@)),
        or_text(bind_of(json_get(item, "type"@)), "REFERENCE"@),
    ]
}

pub fn restored_relation_values(item: &Json) -> (r: Vec<SqlValue>)
    ensures
        binds_view(r@) == restore_relation_binds(item@),
{
    let mut v: Vec<SqlValue> = Vec::new();
    v.push(bind_field(item, "memo_id"));
    v.push(bind_field(item, "related_memo_id"));
    v.push(bind_field_or(item, "type", "REFERENCE"));
    proof {
        assert(binds_view(v@) =~= restore_relation_binds(item@));
    }
    v
}

/// A JSON integer that fits `i64`.
pub open spec fn as_i64(v: Option<JsonView>) -> Option<int> {
    match v {
        Some(JsonView::Int(n)) => if i64::MIN <= n <= i64::MAX {
            Some(n)
        } else {
            None
        },
        _ => None,
    }
}

/// The field `a`, else the field `b`.
pub open spec fn field_either(item: JsonView, a: Seq<char>, b: Seq<char>) -> Option<JsonView> {
    match json_get(item, a) {
        Some(v) => Some(v),
        None => json_get(item, b),
    }
}

/// A memo row read from an import document.
#[derive(Debug)]
pub struct ImportedMemo {
    /// The uid the document gives; none when a new one is to be generated.
    pub uid: Option<String>,
    pub created_ts: i64,
    pub updated_ts: i64,
    pub row_status: String,
    pub content: String,
    pub visibility: String,
    pub pinned: i64,
    pub payload: Json,
}

pub open spec fn import_content(item: JsonView) -> Seq<char> {
    trim(match json_as_str(json_get(item, "content"@)) {
        Some(c) => c,
        None => Seq::empty(),
    })
}

pub open spec fn import_created(item: JsonView, now: int) -> int {
    match as_i64(field_either(item, "created_ts"@, "createdTs"@)) {
        Some(n) => n,
        None => now,
    }
}

pub open spec fn import_updated(item: JsonView, now: int) -> int {
    match as_i64(field_either(item, "updated_ts"@, "updatedTs"@)) {
        Some(n) => n,
        None => import_created(item, now),
    }
}

pub open spec fn import_state(item: JsonView) -> Seq<char> {
    unicode_uppercase(match json_as_str(field_either(item, "row_status"@, "rowStatus"@)) {
        Some(s) => s,
        None => "NORMAL"@,
    })
}

pub open spec fn import_visibility(item: JsonView) -> Seq<char> {
    unicode_uppercase(match json_as_str(json_get(item, "visibility"@)) {
        Some(s) => s,
        None => "PRIVATE"@,
    })
}

/// `pinned` as 1 or 0 when it is a boolean, else as the integer it is, else 0.
pub open spec fn import_pinned(item: JsonView) -> int {
    match json_get(item, "pinned"@) {
        Some(JsonView::Bool(b)) => if b {
            1
        } else {
            0
        },
        other => match as_i64(other) {
            Some(n) => n,
            None => 0,
        },
    }
}

/// The payload the document gives, else the one built from the content.
pub open spec fn import_payload(item: JsonView) -> JsonView {
    match json_get(item, "payload"@) {
        Some(p) => p,
        None => memo_payload(import_content(item)),
    }
}

fn field_either_exec<'a>(item: &'a Json, a: &str, b: &str) -> (r: Option<&'a Json>)
    ensures
        opt_json(r) == field_either(item@, a@, b@),
{
    match get_field(item, a) {
        Some(v) => Some(v),
        None => get_field(item, b),
    }
}

fn as_i64_exec(v: Option<&Json>) -> (r: Option<i64>)
    ensures
        crate::json::opt_i64(r) == as_i64(opt_json(v)),
{
    match v {
        Some(Json::Int(n)) => if i64::MIN as i128 <= *n && *n <= i64::MAX as i128 {
            Some(*n as i64)
        } else {
            None
        },
        _ => None,
    }
}

fn str_or<'a>(v: Option<&'a Json>, fallback: &'a str) -> (r: &'a str)
    ensures
        r@ == match json_as_str(opt_json(v)) {
            Some(s) => s,
            None => fallback@,
        },
{
    match as_str(v) {
        Some(s) => s.as_str(),
        None => fallback,
    }
}

/// Reads one memo of an import document: entries with blank content are skipped
/// (`None`); an invalid state or visibility refuses the import with 400.
pub fn imported_memo(item: &Json, now: i64) -> (r: Result<Option<ImportedMemo>, AppError>)
    ensures
        import_content(item@).len() == 0 ==> r matches Ok(None),
        import_content(item@).len() > 0 ==> match r {
            Ok(Some(m)) => is_row_state(import_state(item@)) && is_visibility(import_visibility(item@))
                && m.content@ == import_content(item@)
                && crate::json::opt_string(m.uid) == json_as_str(json_get(item@, "uid"@))
                && m.created_ts == import_created(item@, now as int)
                && m.updated_ts == import_updated(item@, now as int)
                && m.row_status@ == import_state(item@)
                && m.visibility@ == import_visibility(item@)
                && m.pinned == import_pinned(item@)
                && m.payload@ == import_payload(item@),
            Ok(None) => false,
            Err(e) => if !is_row_state(import_state(item@)) {
                is_error(e, 400, "Invalid row status"@)
            } else {
                !is_visibility(import_visibility(item@)) && is_error(e, 400, "Invalid visibility"@)
            },
        },
{
    proof {
        reveal_strlit("");
    }
    let content = trim_str(str_or(get_field(item, "content"), ""));
    if content.as_str().unicode_len() == 0 {
        return Ok(None);
    }
    let uid = match as_str(get_field(item, "uid")) {
        Some(u) => Some(u.clone()),
        None => None,
    };
    let created_ts = match as_i64_exec(field_either_exec(item, "created_ts", "createdTs")) {
        Some(n) => n,
        None => now,
    };
    let updated_ts = match as_i64_exec(field_either_exec(item, "updated_ts", "updatedTs")) {
        Some(n) => n,
        None => created_ts,
    };
    let row_status = normalize_state(str_or(field_either_exec(item, "row_status", "rowStatus"), "NORMAL"))?;
    let visibility = normalize_visibility(str_or(get_field(item, "visibility"), "PRIVATE"))?;
    let pinned_field = get_field(item, "pinned");
    let pinned: i64 = match pinned_field {
        Some(Json::Bool(b)) => if *b {
            1
        } else {
            0
        },
        other => match as_i64_exec(other) {
            Some(n) => n,
            None => 0,
        },
    };
    let payload = match get_field(item, "payload") {
        Some(p) => clone_json(p),
        None => build_memo_payload(content.as_str()),
    };
    Ok(Some(ImportedMemo { uid, created_ts, updated_ts, row_status, content, visibility, pinned, payload }))
}

/// The memos an import document lists: its `memos` array, or none.
pub open spec fn import_items(body: JsonView) -> Seq<JsonView> {
    match json_get(body, "memos"@) {
        Some(JsonView::Array(items)) => items,
        _ => Seq::empty(),
    }
}

/// An import entry that refuses the import: content that is not blank with a
/// state or a visibility that is not one.
pub open spec fn import_refuses(item: JsonView) -> bool {
    import_content(item).len() > 0 && !(is_row_state(import_state(item)) && is_visibility(import_visibility(item)))
}

/// The contents of the memos a run of import entries inserts, in order: those whose
/// content is not blank.
pub open spec fn import_contents(items: Seq<JsonView>) -> Seq<Seq<char>>
    decreases items.len(),
{
    if items.len() == 0 {
        Seq::empty()
    } else {
        import_contents(items.drop_last()) + if import_content(items.last()).len() > 0 {
            seq![import_content(items.last())]
        } else {
            Seq::empty()
        }
    }
}

pub open spec fn row_contents(rows: Seq<ImportedMemo>) -> Seq<Seq<char>> {
    Seq::new(rows.len(), |k: int| rows[k].content@)
}

/// An import, decided before anything is written: the rows to insert, in order,
/// and then the answer, or the refusal that stops the import after those rows.
#[derive(Debug)]
pub struct ImportPlan {
    pub rows: Vec<ImportedMemo>,
    pub outcome: Result<Json, AppError>,
}

/// Plans an import: a viewer who is not an admin is refused (403) before any
/// row; otherwise each entry in order gives a row (blank contents are skipped)
/// until one refuses the import (400). When none does, the answer is
/// `{"imported": k}` with `k` the number of rows.
pub fn import_plan(viewer: &crate::models::Viewer, body: &Json, now: i64) -> (r: Result<ImportPlan, AppError>)
    ensures
        !crate::access::is_admin(*viewer) ==> (r matches Err(e) && is_error(e, 403, "Forbidden"@)),
        crate::access::is_admin(*viewer) ==> (r matches Ok(p) && {
            let items = import_items(body@);
            match p.outcome {
                Ok(answer) => {
                    &&& forall|j: int| 0 <= j < items.len() ==> !import_refuses(#[trigger] items[j])
                    &&& row_contents(p.rows@) == import_contents(items)
                    &&& answer@ == crate::json::object_of(seq![("imported"@, JsonView::Int(p.rows@.len() as int))])
                },
                Err(e) => exists|i: int| {
                    &&& 0 <= i < items.len()
                    &&& (forall|j: int| 0 <= j < i ==> !import_refuses(#[trigger] items[j]))
                    &&& #[trigger] import_refuses(items[i])
                    &&& row_contents(p.rows@) == import_contents(items.take(i))
                    &&& if !is_row_state(import_state(items[i])) {
                        is_error(e, 400, "Invalid row status"@)
                    } else {
                        is_error(e, 400, "Invalid visibility"@)
                    }
                },
            }
        }),
{
    if let Err(e) = crate::access::require_admin(viewer) {
        return Err(e);
    }
    let empty: Vec<Json> = Vec::new();
    let items: &Vec<Json> = match get_field(body, "memos") {
        Some(Json::Array(items)) => items,
        _ => &empty,
    };
    let ghost iv = import_items(body@);
    proof {
        assert(items_view(items@) =~= iv);
    }
    let mut rows: Vec<ImportedMemo> = Vec::new();
    let mut i: usize = 0;
    while i < items.len()
        invariant
            i <= items@.len(),
            iv == items_view(items@),
            iv == import_items(body@),
            crate::access::is_admin(*viewer),
            forall|j: int| 0 <= j < i ==> !import_refuses(#[trigger] iv[j]),
            row_contents(rows@) == import_contents(iv.take(i as int)),
        decreases items.len() - i,
    {
        proof {
            assert(iv.take(i + 1).drop_last() =~= iv.take(i as int));
            assert(items@[i as int]@ == iv[i as int]);
        }
        match imported_memo(&items[i], now) {
            Ok(Some(m)) => {
                let ghost before = rows@;
                rows.push(m);
                proof {
                    assert(row_contents(rows@) =~= row_contents(before) + seq![import_content(iv[i as int])]);
                }
            },
            Ok(None) => {},
            Err(e) => {
                proof {
                    assert(import_refuses(iv[i as int]));
                }
                return Ok(ImportPlan { rows, outcome: Err(e) });
            },
        }
        i = i + 1;
    }
    proof {
        assert(iv.take(i as int) =~= iv);
    }
    let mut b = crate::json::ObjectBuilder::new();
    b.add("imported", Json::Int(rows.len() as i128));
    proof {
        assert(b.pairs() =~= seq![("imported"@, JsonView::Int(rows@.len() as int))]);
    }
    let answer = b.build();
    Ok(ImportPlan { rows, outcome: Ok(answer) })
}

} // verus!
