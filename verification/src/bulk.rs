use vstd::prelude::*;
use crate::text::{chars_of, string_of, push_str, trim, trim_str, str_eq};
use crate::json::{Json, JsonView, ObjectBuilder, object_of, json_get, json_as_str, get_field, as_str, items_view, json_str};
use crate::keywords::{tag_texts, distinct_tags};
use crate::relations::strings_view;
use crate::listing::{SqlValue, SqlValueView, binds_view, sql_value_view};
use crate::http::{placeholders, placeholders_text};
use crate::access::{normalize_visibility, is_visibility};
use crate::unicode::{unicode_uppercase, to_uppercase};
use crate::models::DbMemo;
use crate::error::{AppError, is_error};
use crate::events::clone_json;

verus! {

/// The memo uids a bulk request names: its `memoUids` strings, trimmed, not blank,
/// each once, at most two hundred.
pub open spec fn bulk_uids(body: JsonView) -> Seq<Seq<char>> {
    let all = distinct_tags(
        tag_texts(
            match json_get(body, "memoUids"@) {
                Some(JsonView::Array(items)) => items,
                _ => Seq::empty(),
            },
        ),
    );
    if all.len() > 200 {
        all.take(200)
    } else {
        all
    }
}

/// The action a bulk request names, uppercased; empty when it names none.
pub open spec fn bulk_action(body: JsonView) -> Seq<char> {
    unicode_uppercase(
        match json_as_str(json_get(body, "action"@)) {
            Some(a) => a,
            None => Seq::empty(),
        },
    )
}

/// A bulk request: its action and memo uids.
#[derive(Debug)]
pub struct BulkRequest {
    pub action: String,
    pub uids: Vec<String>,
}

/// Reads a bulk request; one that names no memo is refused with 400.
pub fn bulk_request(body: &Json) -> (r: Result<BulkRequest, AppError>)
    ensures
        match r {
            Ok(q) => q.action@ == bulk_action(body@) && strings_view(q.uids@) == bulk_uids(body@)
                && q.uids@.len() > 0,
            Err(e) => bulk_uids(body@).len() == 0 && is_error(e, 400, "memoUids is required"@),
        },
{
    let action_field = get_field(body, "action");
    let action = match as_str(action_field) {
        Some(a) => to_uppercase(a.as_str()),
        None => {
            proof {
                reveal_strlit("");
                assert(""@ =~= Seq::<char>::empty());
            }
            to_uppercase("")
        },
    };
    let field = get_field(body, "memoUids");
    let texts = match field {
        Some(j) => match j {
            Json::Array(items) => {
                proof {
                    assert(j@->Array_0 =~= items_view(items@));
                }
                crate::keywords::trimmed_texts(items)
            },
            _ => no_texts(),
        },
        None => no_texts(),
    };
    let ghost items_seen = match json_get(body@, "memoUids"@) {
        Some(JsonView::Array(items)) => items,
        _ => Seq::empty(),
    };
    proof {
        assert(strings_view(texts@) == tag_texts(items_seen));
    }
    let all = crate::keywords::dedupe_texts(&texts);
    let n = all.len();
    let take: usize = if n > 200 {
        200
    } else {
        n
    };
    let mut uids: Vec<String> = Vec::new();
    let mut i: usize = 0;
    while i < take
        invariant
            i <= take <= all@.len(),
            uids@.len() == i,
            forall|k: int| 0 <= k < i ==> (#[trigger] uids@[k])@ == all@[k]@,
        decreases take - i,
    {
        uids.push(all[i].clone());
        i = i + 1;
    }
    proof {
        let av = strings_view(all@);
        assert(strings_view(uids@) =~= if av.len() > 200 {
            av.take(200)
        } else {
            av
        });
    }
    proof {
        assert(action@ == bulk_action(body@));
        assert(strings_view(uids@) == bulk_uids(body@));
    }
    if uids.len() == 0 {
        return Err(AppError::new(400, "memoUids is required"));
    }
    Ok(BulkRequest { action, uids })
}

fn no_texts() -> (r: Vec<String>)
    ensures
        strings_view(r@) == tag_texts(Seq::<JsonView>::empty()),
{
    let r: Vec<String> = Vec::new();
    proof {
        assert(strings_view(r@) =~= Seq::<Seq<char>>::empty());
    }
    r
}


/// What a bulk request does to the memos it found.
#[derive(Debug, Clone, Copy, PartialEq, Eq, Structural)]
pub enum BulkKind {
    Unchanged,
    Archive,
    Restore,
    Delete,
    Visibility,
}

/// A bulk change: the statement to run (empty for deletion, which purges), its
/// values, the counts to report, and the state or visibility the memos get.
#[derive(Debug)]
pub struct BulkPlan {
    pub kind: BulkKind,
    pub sql: String,
    pub binds: Vec<SqlValue>,
    pub updated: usize,
    pub deleted: usize,
    pub skipped: usize,
    pub row_status: Option<String>,
    pub visibility: Option<String>,
}

/// Requested memos that were not found (or may not be changed).
pub open spec fn skipped_count(uid_count: int, id_count: int) -> int {
    if uid_count > id_count {
        uid_count - id_count
    } else {
        0
    }
}

pub open spec fn id_binds(ids: Seq<i64>) -> Seq<SqlValueView> {
    Seq::new(ids.len(), |i: int| SqlValueView::Int(ids[i] as int))
}

pub open spec fn update_sql(set: Seq<char>, n: nat) -> Seq<char> {
    "UPDATE memo SET "@ + set + ", updated_ts = ? WHERE id IN ("@ + placeholders_text(n) + ")"@
}

/// The outcome of a bulk request on the memos found: their kind of change, the
/// statement and values, updated, deleted and skipped counts, and the state or
/// visibility given. Nothing found changes nothing (whatever the action); an
/// unknown action answers 400, as does an invalid visibility.
pub open spec fn bulk_outcome(action: Seq<char>, uid_count: int, ids: Seq<i64>, visibility: Option<Seq<char>>, now: int) -> Result<(BulkKind, Seq<char>, Seq<SqlValueView>, int, int, int, Option<Seq<char>>, Option<Seq<char>>), (u16, Seq<char>)> {
    let n = ids.len();
    let skipped = skipped_count(uid_count, n as int);
    if n == 0 {
        Ok((BulkKind::Unchanged, Seq::empty(), Seq::empty(), 0, 0, skipped, None, None))
    } else if action == "ARCHIVE"@ {
        Ok((BulkKind::Archive, update_sql("row_status = 'ARCHIVED'"@, n), seq![SqlValueView::Int(now)] + id_binds(ids), n as int, 0, skipped, Some("ARCHIVED"@), None))
    } else if action == "RESTORE"@ {
        Ok((BulkKind::Restore, update_sql("row_status = 'NORMAL'"@, n), seq![SqlValueView::Int(now)] + id_binds(ids), n as int, 0, skipped, Some("NORMAL"@), None))
    } else if action == "DELETE"@ {
        Ok((BulkKind::Delete, Seq::empty(), Seq::empty(), 0, n as int, skipped, None, None))
    } else if action == "VISIBILITY"@ {
        let v = unicode_uppercase(match visibility {
            Some(v) => v,
            None => Seq::empty(),
        });
        if is_visibility(v) {
            Ok((BulkKind::Visibility, update_sql("visibility = ?"@, n), seq![SqlValueView::Text(v), SqlValueView::Int(now)] + id_binds(ids), n as int, 0, skipped, None, Some(v)))
        } else {
            Err((400u16, "Invalid visibility"@))
        }
    } else {
        Err((400u16, "Invalid bulk action"@))
    }
}

pub open spec fn plan_view(p: BulkPlan) -> (BulkKind, Seq<char>, Seq<SqlValueView>, int, int, int, Option<Seq<char>>, Option<Seq<char>>) {
    (p.kind, p.sql@, binds_view(p.binds@), p.updated as int, p.deleted as int, p.skipped as int, crate::json::opt_string(p.row_status), crate::json::opt_string(p.visibility))
}

fn update_statement(set: &str, n: usize) -> (r: String)
    ensures
        r@ == update_sql(set@, n as nat),
{
    let mut v: Vec<char> = Vec::new();
    push_str(&mut v, "UPDATE memo SET ");
    push_str(&mut v, set);
    push_str(&mut v, ", updated_ts = ? WHERE id IN (");
    let p = placeholders(n);
    push_str(&mut v, p.as_str());
    push_str(&mut v, ")");
    proof {
        assert(v@ =~= update_sql(set@, n as nat));
    }
    string_of(&v)
}

fn values_then_ids(first: Vec<SqlValue>, ids: &Vec<i64>) -> (r: Vec<SqlValue>)
    ensures
        binds_view(r@) == binds_view(first@) + id_binds(ids@),
{
    let ghost start = binds_view(first@);
    let mut out = first;
    let mut i: usize = 0;
    proof {
        assert(binds_view(out@) =~= start + id_binds(ids@.take(0)));
    }
    while i < ids.len()
        invariant
            i <= ids@.len(),
            binds_view(out@) == start + id_binds(ids@.take(i as int)),
        decreases ids.len() - i,
    {
        let ghost prev = binds_view(out@);
        out.push(SqlValue::Int(ids[i]));
        proof {
            assert(binds_view(out@) =~= prev.push(SqlValueView::Int(ids@[i as int] as int)));
            assert(id_binds(ids@.take(i + 1)) =~= id_binds(ids@.take(i as int)).push(SqlValueView::Int(ids@[i as int] as int)));
            assert(binds_view(out@) =~= start + id_binds(ids@.take(i + 1)));
        }
        i = i + 1;
    }
    proof {
        assert(ids@.take(i as int) =~= ids@);
    }
    out
}

fn empty_binds() -> (r: Vec<SqlValue>)
    ensures
        binds_view(r@) == Seq::<SqlValueView>::empty(),
{
    let r: Vec<SqlValue> = Vec::new();
    proof {
        assert(binds_view(r@) =~= Seq::<SqlValueView>::empty());
    }
    r
}

fn empty_text() -> (r: String)
    ensures
        r@ == Seq::<char>::empty(),
{
    let r = String::new();
    proof {
        assert(r@ =~= Seq::<char>::empty());
    }
    r
}

/// What to do for a bulk request once its memos are found.
pub fn bulk_plan(action: &str, uid_count: usize, ids: &Vec<i64>, visibility: Option<&str>, now: i64) -> (r: Result<BulkPlan, AppError>)
    ensures
        match r {
            Ok(p) => bulk_outcome(action@, uid_count as int, ids@, crate::sse::opt_str_seq(visibility), now as int) == Ok::<_, (u16, Seq<char>)>(plan_view(p)),
            Err(e) => bulk_outcome(action@, uid_count as int, ids@, crate::sse::opt_str_seq(visibility), now as int) == Err::<(BulkKind, Seq<char>, Seq<SqlValueView>, int, int, int, Option<Seq<char>>, Option<Seq<char>>), _>((e.status, e.message@)),
        },
{
    let n = ids.len();
    let skipped: usize = if uid_count > n {
        uid_count - n
    } else {
        0
    };
    if n == 0 {
        return Ok(BulkPlan { kind: BulkKind::Unchanged, sql: empty_text(), binds: empty_binds(), updated: 0, deleted: 0, skipped, row_status: None, visibility: None });
    }
    if str_eq(action, "ARCHIVE") || str_eq(action, "RESTORE") {
        let archive = str_eq(action, "ARCHIVE");
        let state = if archive {
            "ARCHIVED"
        } else {
            "NORMAL"
        };
        let set = if archive {
            "row_status = 'ARCHIVED'"
        } else {
            "row_status = 'NORMAL'"
        };
        let mut first: Vec<SqlValue> = Vec::new();
        first.push(SqlValue::Int(now));
        proof {
            assert(binds_view(first@) =~= seq![SqlValueView::Int(now as int)]);
        }
        let binds = values_then_ids(first, ids);
        return Ok(BulkPlan {
            kind: if archive {
                BulkKind::Archive
            } else {
                BulkKind::Restore
            },
            sql: update_statement(set, n),
            binds,
            updated: n,
            deleted: 0,
            skipped,
            row_status: Some(state.to_owned()),
            visibility: None,
        });
    }
    if str_eq(action, "DELETE") {
        return Ok(BulkPlan { kind: BulkKind::Delete, sql: empty_text(), binds: empty_binds(), updated: 0, deleted: n, skipped, row_status: None, visibility: None });
    }
    if str_eq(action, "VISIBILITY") {
        let given = match visibility {
            Some(v) => v,
            None => {
                proof {
                    reveal_strlit("");
                    assert(""@ =~= Seq::<char>::empty());
                }
                ""
            },
        };
        let v = normalize_visibility(given)?;
        let mut first: Vec<SqlValue> = Vec::new();
        first.push(SqlValue::Text(v.clone()));
        first.push(SqlValue::Int(now));
        proof {
            assert(binds_view(first@) =~= seq![SqlValueView::Text(v@), SqlValueView::Int(now as int)]);
        }
        let binds = values_then_ids(first, ids);
        return Ok(BulkPlan {
            kind: BulkKind::Visibility,
            sql: update_statement("visibility = ?", n),
            binds,
            updated: n,
            deleted: 0,
            skipped,
            row_status: None,
            visibility: Some(v),
        });
    }
    Err(AppError::new(400, "Invalid bulk action"))
}

/// The counts a bulk request answers with.
pub open spec fn bulk_counts_view(updated: int, deleted: int, skipped: int) -> JsonView {
    object_of(seq![
        ("updated"@, JsonView::Int(updated)),
        ("deleted"@, JsonView::Int(deleted)),
        ("skipped"@, JsonView::Int(skipped)),
    ])
}

pub fn bulk_counts(updated: usize, deleted: usize, skipped: usize) -> (j: Json)
    ensures
        j@ == bulk_counts_view(updated as int, deleted as int, skipped as int),
{
    let mut b = ObjectBuilder::new();
    b.add("updated", Json::Int(updated as i128));
    b.add("deleted", Json::Int(deleted as i128));
    b.add("skipped", Json::Int(skipped as i128));
    proof {
        assert(b.pairs() =~= seq![
            ("updated"@, JsonView::Int(updated as int)),
            ("deleted"@, JsonView::Int(deleted as int)),
            ("skipped"@, JsonView::Int(skipped as int)),
        ]);
    }
    b.build()
}

/// The detail every memo event of a bulk change carries: the action and the counts.
pub open spec fn bulk_detail_view(action: Seq<char>, updated: int, deleted: int, skipped: int) -> JsonView {
    object_of(seq![
        ("action"@, JsonView::Str(action)),
        ("updated"@, JsonView::Int(updated)),
        ("deleted"@, JsonView::Int(deleted)),
        ("skipped"@, JsonView::Int(skipped)),
    ])
}

pub fn bulk_event_detail(action: &str, updated: usize, deleted: usize, skipped: usize) -> (j: Json)
    ensures
        j@ == bulk_detail_view(action@, updated as int, deleted as int, skipped as int),
{
    let mut b = ObjectBuilder::new();
    b.add("action", json_str(action));
    b.add("updated", Json::Int(updated as i128));
    b.add("deleted", Json::Int(deleted as i128));
    b.add("skipped", Json::Int(skipped as i128));
    proof {
        assert(b.pairs() =~= seq![
            ("action"@, JsonView::Str(action@)),
            ("updated"@, JsonView::Int(updated as int)),
            ("deleted"@, JsonView::Int(deleted as int)),
            ("skipped"@, JsonView::Int(skipped as int)),
        ]);
    }
    b.build()
}

/// The memo as its bulk event shows it: the new update time, and the new state
/// or visibility where the change set one.
pub fn bulk_event_memo(memo: &DbMemo, updated_ts: i64, row_status: Option<&str>, visibility: Option<&str>) -> (r: DbMemo)
    ensures
        r.id == memo.id,
        r.uid@ == memo.uid@,
        r.creator_id == memo.creator_id,
        r.updated_ts == updated_ts,
        r.row_status@ == match row_status {
            Some(s) => s@,
            None => memo.row_status@,
        },
        r.visibility@ == match visibility {
            Some(v) => v@,
            None => memo.visibility@,
        },
        r.content@ == memo.content@,
        r.payload@ == memo.payload@,
        r.created_ts == memo.created_ts,
        r.pinned == memo.pinned,
{
    DbMemo {
        id: memo.id,
        uid: memo.uid.clone(),
        creator_id: memo.creator_id,
        creator_username: memo.creator_username.clone(),
        creator_nickname: memo.creator_nickname.clone(),
        created_ts: memo.created_ts,
        updated_ts,
        row_status: match row_status {
            Some(s) => s.to_owned(),
            None => memo.row_status.clone(),
        },
        content: memo.content.clone(),
        visibility: match visibility {
            Some(v) => v.to_owned(),
            None => memo.visibility.clone(),
        },
        pinned: memo.pinned,
        payload: clone_json(&memo.payload),
    }
}

/// The statements that purge memos for good: their attachments are unbound (at
/// `now`), their relations either way removed, then the memos deleted.
pub open spec fn purge_statements(ids: Seq<i64>, now: int) -> Seq<(Seq<char>, Seq<SqlValueView>)> {
    let p = placeholders_text(ids.len());
    seq![
        ("UPDATE attachment SET memo_id = NULL, updated_ts = ? WHERE memo_id IN ("@ + p + ")"@, seq![SqlValueView::Int(now)] + id_binds(ids)),
        ("DELETE FROM memo_relation WHERE memo_id IN ("@ + p + ") OR related_memo_id IN ("@ + p + ")"@, id_binds(ids) + id_binds(ids)),
        ("DELETE FROM memo WHERE id IN ("@ + p + ")"@, id_binds(ids)),
    ]
}

pub open spec fn statements_view(v: Seq<crate::listing::Statement>) -> Seq<(Seq<char>, Seq<SqlValueView>)> {
    Seq::new(v.len(), |i: int| (v[i].sql@, binds_view(v[i].binds@)))
}

/// Purges the memos `ids` at `now`; nothing to run when there are none.
pub fn purge_ids(ids: &Vec<i64>, now: i64) -> (r: Vec<crate::listing::Statement>)
    ensures
        ids@.len() == 0 ==> r@.len() == 0,
        ids@.len() > 0 ==> statements_view(r@) == purge_statements(ids@, now as int),
{
    let mut out: Vec<crate::listing::Statement> = Vec::new();
    if ids.len() == 0 {
        return out;
    }
    let n = ids.len();
    let p = placeholders(n);
    let mut first: Vec<SqlValue> = Vec::new();
    first.push(SqlValue::Int(now));
    proof {
        assert(binds_view(first@) =~= seq![SqlValueView::Int(now as int)]);
    }
    let unbind_values = values_then_ids(first, ids);
    let mut v1: Vec<char> = Vec::new();
    push_str(&mut v1, "UPDATE attachment SET memo_id = NULL, updated_ts = ? WHERE memo_id IN (");
    push_str(&mut v1, p.as_str());
    push_str(&mut v1, ")");
    let ids_once = values_then_ids(empty_binds(), ids);
    let relation_values = values_then_ids(ids_once, ids);
    let mut v2: Vec<char> = Vec::new();
    push_str(&mut v2, "DELETE FROM memo_relation WHERE memo_id IN (");
    push_str(&mut v2, p.as_str());
    push_str(&mut v2, ") OR related_memo_id IN (");
    push_str(&mut v2, p.as_str());
    push_str(&mut v2, ")");
    let memo_values = values_then_ids(empty_binds(), ids);
    let mut v3: Vec<char> = Vec::new();
    push_str(&mut v3, "DELETE FROM memo WHERE id IN (");
    push_str(&mut v3, p.as_str());
    push_str(&mut v3, ")");
    out.push(crate::listing::Statement { sql: string_of(&v1), binds: unbind_values });
    out.push(crate::listing::Statement { sql: string_of(&v2), binds: relation_values });
    out.push(crate::listing::Statement { sql: string_of(&v3), binds: memo_values });
    proof {
        assert(Seq::<SqlValueView>::empty() + id_binds(ids@) =~= id_binds(ids@));
        assert(statements_view(out@) =~= purge_statements(ids@, now as int));
    }
    out
}

} // verus!
