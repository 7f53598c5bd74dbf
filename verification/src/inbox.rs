use vstd::prelude::*;
use crate::json::{Json, JsonView, ObjectBuilder, object_of, json_str, json_get, json_as_str, get_field, as_str};
use crate::listing::{SqlValue, SqlValueView, Statement, binds_view};
use crate::http::{placeholders, placeholders_text};
use crate::models::Viewer;
use crate::text::{push_str, string_of, str_eq};

verus! {

/// The inbox message that tells a memo's author about a new comment.
pub fn comment_inbox_message(parent_uid: &str, comment_uid: &str) -> (j: Json)
    ensures
        j@ == object_of(
            seq![
                ("type"@, JsonView::Str("memo.comment.created"@)),
                ("memoUid"@, JsonView::Str(parent_uid@)),
                ("commentUid"@, JsonView::Str(comment_uid@)),
            ],
        ),
{
    let mut b = ObjectBuilder::new();
    b.add("type", json_str("memo.comment.created"));
    b.add("memoUid", json_str(parent_uid));
    b.add("commentUid", json_str(comment_uid));
    proof {
        assert(b.pairs() =~= seq![
            ("type"@, JsonView::Str("memo.comment.created"@)),
            ("memoUid"@, JsonView::Str(parent_uid@)),
            ("commentUid"@, JsonView::Str(comment_uid@)),
        ]);
    }
    b.build()
}

/// The ids an inbox update names: the positive integers of its `ids` array, in order.
pub open spec fn positive_ids(items: Seq<JsonView>) -> Seq<int>
    decreases items.len(),
{
    if items.len() == 0 {
        Seq::empty()
    } else {
        let prev = positive_ids(items.drop_last());
        match items.last() {
            JsonView::Int(n) => if 0 < n <= i64::MAX {
                prev.push(n)
            } else {
                prev
            },
            _ => prev,
        }
    }
}

pub open spec fn inbox_ids(body: JsonView) -> Seq<int> {
    positive_ids(
        match json_get(body, "ids"@) {
            Some(JsonView::Array(items)) => items,
            _ => Seq::empty(),
        },
    )
}

/// The status an inbox update sets: `READ` when asked for, else `UNREAD`.
pub open spec fn inbox_status(body: JsonView) -> Seq<char> {
    if json_as_str(json_get(body, "status"@)) == Some("READ"@) {
        "READ"@
    } else {
        "UNREAD"@
    }
}

/// The statement and values that set the status of a user's inbox items: those
/// named by `ids`, or all of them when none is named.
pub open spec fn inbox_update(body: JsonView, receiver: int) -> (Seq<char>, Seq<SqlValueView>) {
    let ids = inbox_ids(body);
    let status = SqlValueView::Text(inbox_status(body));
    if ids.len() == 0 {
        ("UPDATE inbox SET status = ? WHERE receiver_id = ?"@, seq![status, SqlValueView::Int(receiver)])
    } else {
        (
            "UPDATE inbox SET status = ? WHERE id IN ("@ + placeholders_text(ids.len()) + ") AND receiver_id = ?"@,
            seq![status] + Seq::new(ids.len(), |i: int| SqlValueView::Int(ids[i])) + seq![SqlValueView::Int(receiver)],
        )
    }
}

fn id_list(items: &Vec<Json>) -> (r: Vec<i64>)
    ensures
        Seq::new(r@.len(), |i: int| r@[i] as int) == positive_ids(crate::json::items_view(items@)),
{
    let ghost iv = crate::json::items_view(items@);
    let mut out: Vec<i64> = Vec::new();
    let mut i: usize = 0;
    proof {
        assert(Seq::new(out@.len(), |k: int| out@[k] as int) =~= positive_ids(iv.take(0)));
    }
    while i < items.len()
        invariant
            i <= items@.len(),
            iv == crate::json::items_view(items@),
            Seq::new(out@.len(), |k: int| out@[k] as int) == positive_ids(iv.take(i as int)),
        decreases items.len() - i,
    {
        proof {
            assert(iv.take(i + 1).drop_last() =~= iv.take(i as int));
            assert(iv.take(i + 1).last() == items@[i as int]@);
        }
        match &items[i] {
            Json::Int(n) => {
                if 0 < *n && *n <= i64::MAX as i128 {
                    let ghost prev = out@;
                    out.push(*n as i64);
                    proof {
                        assert(Seq::new(out@.len(), |k: int| out@[k] as int) =~= Seq::new(prev.len(), |k: int| prev[k] as int).push(*n as int));
                    }
                }
            },
            _ => {},
        }
        i = i + 1;
    }
    proof {
        assert(iv.take(i as int) =~= iv);
    }
    out
}

/// Marks the viewer's inbox items read or unread, as the request body asks.
pub fn update_inbox_status(body: &Json, viewer: &Viewer) -> (r: Statement)
    ensures
        (r.sql@, binds_view(r.binds@)) == inbox_update(body@, viewer.id as int),
{
    let read = match as_str(get_field(body, "status")) {
        Some(s) => str_eq(s.as_str(), "READ"),
        None => false,
    };
    let status = if read { "READ" } else { "UNREAD" };
    proof {
        assert(status@ == inbox_status(body@));
    }
    let field = get_field(body, "ids");
    let ids = match field {
        Some(Json::Array(items)) => {
            proof {
                assert(field.unwrap()@ == JsonView::Array(crate::json::items_view(items@))) by {
                    assert(field.unwrap()@->Array_0 =~= crate::json::items_view(items@));
                }
            }
            id_list(items)
        },
        _ => {
            let v: Vec<i64> = Vec::new();
            proof {
                assert(Seq::new(v@.len(), |k: int| v@[k] as int) =~= positive_ids(Seq::<JsonView>::empty()));
            }
            v
        },
    };
    let ghost idv = inbox_ids(body@);
    proof {
        assert(Seq::new(ids@.len(), |k: int| ids@[k] as int) == idv);
    }
    let mut binds: Vec<SqlValue> = Vec::new();
    binds.push(SqlValue::Text(status.to_string()));
    if ids.len() == 0 {
        binds.push(SqlValue::Int(viewer.id));
        proof {
            assert(binds_view(binds@) =~= seq![SqlValueView::Text(inbox_status(body@)), SqlValueView::Int(viewer.id as int)]);
        }
        return Statement { sql: "UPDATE inbox SET status = ? WHERE receiver_id = ?".to_string(), binds };
    }
    let mut i: usize = 0;
    while i < ids.len()
        invariant
            i <= ids@.len(),
            binds@.len() == i + 1,
            sql_view_at(binds@, 0) == SqlValueView::Text(inbox_status(body@)),
            forall|k: int| 0 <= k < i ==> sql_view_at(binds@, k + 1) == SqlValueView::Int(ids@[k] as int),
        decreases ids@.len() - i,
    {
        binds.push(SqlValue::Int(ids[i]));
        i = i + 1;
    }
    binds.push(SqlValue::Int(viewer.id));
    let mut v: Vec<char> = Vec::new();
    push_str(&mut v, "UPDATE inbox SET status = ? WHERE id IN (");
    let p = placeholders(ids.len());
    push_str(&mut v, p.as_str());
    push_str(&mut v, ") AND receiver_id = ?");
    proof {
        let n = ids@.len();
        assert(v@ =~= "UPDATE inbox SET status = ? WHERE id IN ("@ + placeholders_text(idv.len()) + ") AND receiver_id = ?"@);
        let expected = seq![SqlValueView::Text(inbox_status(body@))] + Seq::new(idv.len(), |k: int| SqlValueView::Int(idv[k])) + seq![SqlValueView::Int(viewer.id as int)];
        assert forall|k: int| 0 <= k < binds@.len() implies binds_view(binds@)[k] == expected[k] by {
            if k == 0 {
                assert(sql_view_at(binds@, 0) == SqlValueView::Text(inbox_status(body@)));
            } else if k <= n {
                assert(sql_view_at(binds@, (k - 1) + 1) == SqlValueView::Int(ids@[k - 1] as int));
            }
        }
        assert(binds_view(binds@) =~= expected);
    }
    Statement { sql: string_of(&v), binds }
}

pub open spec fn sql_view_at(b: Seq<SqlValue>, k: int) -> SqlValueView {
    crate::listing::sql_value_view(b[k])
}

} // verus!
