use vstd::prelude::*;
use crate::text::{push_str, string_of};
use crate::json::Json;
use crate::keywords::{memo_tags_from_payload, distinct_tags, payload_tags};
use crate::relations::strings_view;
use crate::listing::{SqlValue, SqlValueView, Statement, binds_view};
use crate::http::{placeholders, placeholders_text};
use crate::bulk::{statements_view, id_binds};

verus! {

/// The statements that bring a memo's search row and tag rows up to date: its
/// content replaces the search row, its old tags go, and each tag of its payload
/// (each once) is stored.
pub open spec fn index_statements(memo_id: int, content: Seq<char>, tags: Seq<Seq<char>>, updated_ts: int) -> Seq<(Seq<char>, Seq<SqlValueView>)> {
    seq![
        (
            "INSERT OR REPLACE INTO memo_search (memo_id, content, updated_ts) VALUES (?, ?, ?)"@,
            seq![SqlValueView::Int(memo_id), SqlValueView::Text(content), SqlValueView::Int(updated_ts)],
        ),
        ("DELETE FROM memo_tag WHERE memo_id = ?"@, seq![SqlValueView::Int(memo_id)]),
    ] + Seq::new(
        tags.len(),
        |i: int|
            (
                "INSERT OR IGNORE INTO memo_tag (memo_id, tag) VALUES (?, ?)"@,
                seq![SqlValueView::Int(memo_id), SqlValueView::Text(tags[i])],
            ),
    )
}

fn statement(sql: &str, binds: Vec<SqlValue>) -> (r: Statement)
    ensures
        r.sql@ == sql@,
        r.binds@ == binds@,
{
    Statement { sql: sql.to_string(), binds }
}

pub fn sync_memo_index_fields(memo_id: i64, content: &str, payload: &Json, updated_ts: i64) -> (r: Vec<Statement>)
    ensures
        statements_view(r@) == index_statements(
            memo_id as int,
            content@,
            distinct_tags(payload_tags(payload@)),
            updated_ts as int,
        ),
{
    let tags = memo_tags_from_payload(payload);
    let ghost tv = strings_view(tags@);
    let mut out: Vec<Statement> = Vec::new();
    let mut b1: Vec<SqlValue> = Vec::new();
    b1.push(SqlValue::Int(memo_id));
    b1.push(SqlValue::Text(content.to_string()));
    b1.push(SqlValue::Int(updated_ts));
    proof {
        assert(binds_view(b1@) =~= seq![SqlValueView::Int(memo_id as int), SqlValueView::Text(content@), SqlValueView::Int(updated_ts as int)]);
    }
    out.push(statement("INSERT OR REPLACE INTO memo_search (memo_id, content, updated_ts) VALUES (?, ?, ?)", b1));
    let mut b2: Vec<SqlValue> = Vec::new();
    b2.push(SqlValue::Int(memo_id));
    proof {
        assert(binds_view(b2@) =~= seq![SqlValueView::Int(memo_id as int)]);
    }
    out.push(statement("DELETE FROM memo_tag WHERE memo_id = ?", b2));
    let ghost expected = index_statements(memo_id as int, content@, tv, updated_ts as int);
    proof {
        assert(statements_view(out@) =~= expected.take(2));
    }
    let mut i: usize = 0;
    while i < tags.len()
        invariant
            i <= tags@.len(),
            tv == strings_view(tags@),
            expected == index_statements(memo_id as int, content@, tv, updated_ts as int),
            statements_view(out@) == expected.take(i + 2),
        decreases tags@.len() - i,
    {
        let mut b: Vec<SqlValue> = Vec::new();
        b.push(SqlValue::Int(memo_id));
        b.push(SqlValue::Text(tags[i].clone()));
        proof {
            assert(binds_view(b@) =~= seq![SqlValueView::Int(memo_id as int), SqlValueView::Text(tv[i as int])]);
        }
        let ghost prev = out@;
        out.push(statement("INSERT OR IGNORE INTO memo_tag (memo_id, tag) VALUES (?, ?)", b));
        proof {
            assert(statements_view(out@) =~= statements_view(prev).push(expected[i + 2]));
            assert(expected.take(i + 3) =~= expected.take(i + 2).push(expected[i + 2]));
        }
        i = i + 1;
    }
    proof {
        assert(expected.take(i + 2) =~= expected);
    }
    out
}

/// The statements that drop the search and tag rows of memos `ids`.
pub open spec fn index_removals(ids: Seq<i64>) -> Seq<(Seq<char>, Seq<SqlValueView>)> {
    let p = placeholders_text(ids.len());
    seq![
        ("DELETE FROM memo_search WHERE memo_id IN ("@ + p + ")"@, id_binds(ids)),
        ("DELETE FROM memo_tag WHERE memo_id IN ("@ + p + ")"@, id_binds(ids)),
    ]
}

fn id_values(ids: &Vec<i64>) -> (r: Vec<SqlValue>)
    ensures
        binds_view(r@) == id_binds(ids@),
{
    let mut out: Vec<SqlValue> = Vec::new();
    let mut i: usize = 0;
    while i < ids.len()
        invariant
            i <= ids@.len(),
            binds_view(out@) == id_binds(ids@.take(i as int)),
        decreases ids@.len() - i,
    {
        let ghost prev = out@;
        out.push(SqlValue::Int(ids[i]));
        proof {
            assert(binds_view(out@) =~= binds_view(prev).push(SqlValueView::Int(ids@[i as int] as int)));
            assert(id_binds(ids@.take(i + 1)) =~= id_binds(ids@.take(i as int)).push(SqlValueView::Int(ids@[i as int] as int)));
        }
        i = i + 1;
    }
    proof {
        assert(ids@.take(i as int) =~= ids@);
    }
    out
}

/// Drops the index rows of memos `ids`; nothing to run when there are none.
pub fn delete_memo_indexes(ids: &Vec<i64>) -> (r: Vec<Statement>)
    ensures
        ids@.len() == 0 ==> r@.len() == 0,
        ids@.len() > 0 ==> statements_view(r@) == index_removals(ids@),
{
    let mut out: Vec<Statement> = Vec::new();
    if ids.len() == 0 {
        return out;
    }
    let p = placeholders(ids.len());
    let mut v1: Vec<char> = Vec::new();
    push_str(&mut v1, "DELETE FROM memo_search WHERE memo_id IN (");
    push_str(&mut v1, p.as_str());
    push_str(&mut v1, ")");
    let mut v2: Vec<char> = Vec::new();
    push_str(&mut v2, "DELETE FROM memo_tag WHERE memo_id IN (");
    push_str(&mut v2, p.as_str());
    push_str(&mut v2, ")");
    out.push(Statement { sql: string_of(&v1), binds: id_values(ids) });
    out.push(Statement { sql: string_of(&v2), binds: id_values(ids) });
    proof {
        assert(statements_view(out@) =~= index_removals(ids@));
    }
    out
}

} // verus!
