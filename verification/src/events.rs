use vstd::prelude::*;
use crate::json::{
    Json, JsonView, ObjectBuilder, object_of, obj_from, fields_view, items_view, json_str,
    json_array, insert_field,
};
use crate::models::{DbMemo, DbMemoEvent};
use crate::text::{push_str, string_of};

verus! {

/// An exact copy of a JSON document.
#[verifier::loop_isolation(false)]
pub fn clone_json(j: &Json) -> (r: Json)
    ensures
        r@ == j@,
    decreases j,
{
    match j {
        Json::Null => Json::Null,
        Json::Bool(b) => Json::Bool(*b),
        Json::Int(n) => Json::Int(*n),
        Json::Num(t) => Json::Num(t.clone()),
        Json::Str(s) => Json::Str(s.clone()),
        Json::Array(items) => {
            let mut out: Vec<Json> = Vec::new();
            let mut i: usize = 0;
            while i < items.len()
                invariant
                    i <= items@.len(),
                    out@.len() == i,
                    forall|k: int| 0 <= k < i ==> (#[trigger] out@[k])@ == items@[k]@,
                decreases items.len() - i,
            {
                proof {
                    assert(decreases_to!(*j => (*j)->Array_0));
                    assert(decreases_to!(*items => items@));
                    assert(decreases_to!(items@ => items@[i as int]));
                }
                let c = clone_json(&items[i]);
                out.push(c);
                i = i + 1;
            }
            let r = json_array(out);
            proof {
                assert(items_view(out@) =~= items_view(items@));
                assert(j@->Array_0 =~= items_view(items@));
            }
            r
        },
        Json::Object(fields) => {
            let mut out: Vec<(String, Json)> = Vec::new();
            let mut i: usize = 0;
            while i < fields.len()
                invariant
                    i <= fields@.len(),
                    out@.len() == i,
                    forall|k: int|
                        0 <= k < i ==> (#[trigger] out@[k]).0@ == fields@[k].0@ && out@[k].1@
                            == fields@[k].1@,
                decreases fields.len() - i,
            {
                proof {
                    assert(decreases_to!(*j => (*j)->Object_0));
                    assert(decreases_to!(*fields => fields@));
                    assert(decreases_to!(fields@ => fields@[i as int]));
                    assert(decreases_to!(fields@[i as int] => fields@[i as int].1));
                }
                let c = clone_json(&fields[i].1);
                let k = fields[i].0.clone();
                out.push((k, c));
                i = i + 1;
            }
            let r = Json::Object(out);
            proof {
                assert(fields_view(out@) =~= fields_view(fields@));
                assert(r@->Object_0 =~= fields_view(out@));
                assert(j@->Object_0 =~= fields_view(fields@));
            }
            r
        },
    }
}


/// The resource name of the memo with `uid`.
pub open spec fn memo_name(uid: Seq<char>) -> Seq<char> {
    "memos/"@ + uid
}

pub fn memo_name_of(uid: &str) -> (s: String)
    ensures
        s@ == memo_name(uid@),
{
    let mut v: Vec<char> = Vec::new();
    push_str(&mut v, "memos/");
    push_str(&mut v, uid);
    proof {
        assert(v@ =~= memo_name(uid@));
    }
    string_of(&v)
}

/// A field-by-field copy of a memo row.
fn copy_memo(memo: &DbMemo) -> (r: DbMemo)
    ensures
        r.id == memo.id,
        r.uid@ == memo.uid@,
        r.creator_id == memo.creator_id,
        r.creator_username@ == memo.creator_username@,
        r.creator_nickname@ == memo.creator_nickname@,
        r.created_ts == memo.created_ts,
        r.updated_ts == memo.updated_ts,
        r.row_status@ == memo.row_status@,
        r.content@ == memo.content@,
        r.visibility@ == memo.visibility@,
        r.pinned == memo.pinned,
        r.payload@ == memo.payload@,
{
    DbMemo {
        id: memo.id,
        uid: memo.uid.clone(),
        creator_id: memo.creator_id,
        creator_username: memo.creator_username.clone(),
        creator_nickname: memo.creator_nickname.clone(),
        created_ts: memo.created_ts,
        updated_ts: memo.updated_ts,
        row_status: memo.row_status.clone(),
        content: memo.content.clone(),
        visibility: memo.visibility.clone(),
        pinned: memo.pinned,
        payload: clone_json(&memo.payload),
    }
}

/// The author of a memo as the API shows it.
#[derive(Debug)]
pub struct MemoCreator {
    pub id: i64,
    pub username: String,
    pub nickname: String,
}

/// A memo as the API shows it.
#[derive(Debug)]
pub struct PublicMemo {
    pub name: String,
    pub id: i64,
    pub uid: String,
    pub creator: MemoCreator,
    pub created_ts: i64,
    pub updated_ts: i64,
    pub row_status: String,
    pub content: String,
    pub visibility: String,
    pub pinned: bool,
    pub payload: Json,
    pub attachments: Vec<Json>,
}

/// The JSON fields of a memo as the API shows it, given its attachments.
pub open spec fn public_memo_pairs(memo: DbMemo, attachments: Seq<JsonView>) -> Seq<(Seq<char>, JsonView)> {
    seq![
        ("name"@, JsonView::Str(memo_name(memo.uid@))),
        ("id"@, JsonView::Int(memo.id as int)),
        ("uid"@, JsonView::Str(memo.uid@)),
        ("creator"@, object_of(seq![
            ("id"@, JsonView::Int(memo.creator_id as int)),
            ("username"@, JsonView::Str(memo.creator_username@)),
            ("nickname"@, JsonView::Str(memo.creator_nickname@)),
        ])),
        ("createdTs"@, JsonView::Int(memo.created_ts as int)),
        ("updatedTs"@, JsonView::Int(memo.updated_ts as int)),
        ("rowStatus"@, JsonView::Str(memo.row_status@)),
        ("content"@, JsonView::Str(memo.content@)),
        ("visibility"@, JsonView::Str(memo.visibility@)),
        ("pinned"@, JsonView::Bool(memo.pinned != 0)),
        ("payload"@, memo.payload@),
        ("attachments"@, JsonView::Array(attachments)),
    ]
}

impl PublicMemo {
    /// The JSON fields of this memo, camel-cased.
    pub open spec fn json_pairs(&self) -> Seq<(Seq<char>, JsonView)> {
        seq![
            ("name"@, JsonView::Str(self.name@)),
            ("id"@, JsonView::Int(self.id as int)),
            ("uid"@, JsonView::Str(self.uid@)),
            ("creator"@, object_of(seq![
                ("id"@, JsonView::Int(self.creator.id as int)),
                ("username"@, JsonView::Str(self.creator.username@)),
                ("nickname"@, JsonView::Str(self.creator.nickname@)),
            ])),
            ("createdTs"@, JsonView::Int(self.created_ts as int)),
            ("updatedTs"@, JsonView::Int(self.updated_ts as int)),
            ("rowStatus"@, JsonView::Str(self.row_status@)),
            ("content"@, JsonView::Str(self.content@)),
            ("visibility"@, JsonView::Str(self.visibility@)),
            ("pinned"@, JsonView::Bool(self.pinned)),
            ("payload"@, self.payload@),
            ("attachments"@, JsonView::Array(items_view(self.attachments@))),
        ]
    }

    /// The memo as a JSON object, with camel-cased keys.
    pub fn to_json(self) -> (j: Json)
        ensures
            j@ == object_of(self.json_pairs()),
    {
        let ghost pairs = self.json_pairs();
        let mut c = ObjectBuilder::new();
        c.add("id", Json::Int(self.creator.id as i128));
        c.add("username", Json::Str(self.creator.username));
        c.add("nickname", Json::Str(self.creator.nickname));
        let creator = c.build();
        let mut b = ObjectBuilder::new();
        b.add("name", Json::Str(self.name));
        b.add("id", Json::Int(self.id as i128));
        b.add("uid", Json::Str(self.uid));
        b.add("creator", creator);
        b.add("createdTs", Json::Int(self.created_ts as i128));
        b.add("updatedTs", Json::Int(self.updated_ts as i128));
        b.add("rowStatus", Json::Str(self.row_status));
        b.add("content", Json::Str(self.content));
        b.add("visibility", Json::Str(self.visibility));
        b.add("pinned", Json::Bool(self.pinned));
        b.add("payload", self.payload);
        let attachments = json_array(self.attachments);
        b.add("attachments", attachments);
        proof {
            assert(c.pairs() =~= seq![
                ("id"@, JsonView::Int(self.creator.id as int)),
                ("username"@, JsonView::Str(self.creator.username@)),
                ("nickname"@, JsonView::Str(self.creator.nickname@)),
            ]);
            assert(b.pairs() =~= pairs);
        }
        b.build()
    }
}

/// The memo as the API shows it, with the given attachment documents.
pub fn public_memo_with_attachments(memo: DbMemo, attachments: Vec<Json>) -> (p: PublicMemo)
    ensures
        p.name@ == memo_name(memo.uid@),
        p.id == memo.id,
        p.uid@ == memo.uid@,
        p.creator.id == memo.creator_id,
        p.creator.username@ == memo.creator_username@,
        p.creator.nickname@ == memo.creator_nickname@,
        p.created_ts == memo.created_ts,
        p.updated_ts == memo.updated_ts,
        p.row_status@ == memo.row_status@,
        p.content@ == memo.content@,
        p.visibility@ == memo.visibility@,
        p.pinned == (memo.pinned != 0),
        p.payload@ == memo.payload@,
        p.attachments@ == attachments@,
        p.json_pairs() == public_memo_pairs(memo, items_view(attachments@)),
{
    let name = memo_name_of(memo.uid.as_str());
    PublicMemo {
        name,
        id: memo.id,
        uid: memo.uid,
        creator: MemoCreator {
            id: memo.creator_id,
            username: memo.creator_username,
            nickname: memo.creator_nickname,
        },
        created_ts: memo.created_ts,
        updated_ts: memo.updated_ts,
        row_status: memo.row_status,
        content: memo.content,
        visibility: memo.visibility,
        pinned: memo.pinned != 0,
        payload: memo.payload,
        attachments,
    }
}

/// The memo as the API shows it, without attachments.
pub fn public_memo(memo: DbMemo) -> (p: PublicMemo)
    ensures
        p.json_pairs() == public_memo_pairs(memo, Seq::empty()),
        p.attachments@.len() == 0,
{
    let p = public_memo_with_attachments(memo, Vec::new());
    proof {
        assert(items_view(p.attachments@) =~= Seq::<JsonView>::empty());
    }
    p
}

/// The fields every memo event carries.
pub open spec fn event_pairs(event_type: Seq<char>, memo: DbMemo) -> Seq<(Seq<char>, JsonView)> {
    seq![
        ("type"@, JsonView::Str(event_type)),
        ("name"@, JsonView::Str(memo_name(memo.uid@))),
        ("visibility"@, JsonView::Str(memo.visibility@)),
        ("creatorId"@, JsonView::Int(memo.creator_id as int)),
    ]
}

fn event_builder(event_type: &str, memo: &DbMemo) -> (b: ObjectBuilder)
    ensures
        b.wf(),
        b.pairs() == event_pairs(event_type@, *memo),
{
    let mut b = ObjectBuilder::new();
    b.add("type", json_str(event_type));
    b.add("name", Json::Str(memo_name_of(memo.uid.as_str())));
    b.add("visibility", Json::Str(memo.visibility.clone()));
    b.add("creatorId", Json::Int(memo.creator_id as i128));
    proof {
        assert(b.pairs() =~= event_pairs(event_type@, *memo));
    }
    b
}

/// The event document the frontend refreshes on: type, memo name, visibility and
/// author.
pub fn memo_event_payload(event_type: &str, memo: &DbMemo) -> (j: Json)
    ensures
        j@ == object_of(event_pairs(event_type@, *memo)),
{
    event_builder(event_type, memo).build()
}

/// An event document with `detail` merged in: the fields of an object detail are
/// set one by one over the event fields, a `null` detail adds nothing, any other
/// detail is stored under `detail`.
pub open spec fn with_detail(pairs: Seq<(Seq<char>, JsonView)>, detail: JsonView) -> JsonView {
    match detail {
        JsonView::Object(extra) => object_of(pairs + extra),
        JsonView::Null => object_of(pairs),
        other => object_of(pairs.push(("detail"@, other))),
    }
}

pub fn memo_event_payload_with_detail(event_type: &str, memo: &DbMemo, detail: Json) -> (j: Json)
    ensures
        j@ == with_detail(event_pairs(event_type@, *memo), detail@),
{
    let mut b = event_builder(event_type, memo);
    let ghost base = b.pairs();
    let ghost dv = detail@;
    match detail {
        Json::Object(extra) => {
            let mut rest = extra;
            let ghost ev = fields_view(rest@);
            proof {
                assert(dv->Object_0 =~= ev);
                assert(ev.skip(0) =~= ev);
                assert(base + ev.take(0) =~= base);
            }
            let mut c: usize = 0;
            let total = rest.len();
            proof {
                assert(fields_view(rest@).len() == rest@.len());
                assert(ev.len() == total);
            }
            while rest.len() > 0
                invariant
                    b.wf(),
                    c <= ev.len() <= usize::MAX,
                    fields_view(rest@) == ev.skip(c as int),
                    b.pairs() == base + ev.take(c as int),
                decreases rest.len(),
            {
                proof {
                    assert(fields_view(rest@).len() == rest@.len());
                }
                let (k, v) = rest.remove(0);
                proof {
                    assert(fields_view(rest@) =~= ev.skip(c as int).drop_first());
                    assert(ev.skip(c as int)[0] == ev[c as int]);
                }
                b.add(k.as_str(), v);
                proof {
                    assert(ev.skip(c as int).drop_first() =~= ev.skip(c + 1));
                    assert(base + ev.take(c + 1) =~= (base + ev.take(c as int)).push(ev[c as int]));
                }
                c = c + 1;
            }
            proof {
                assert(ev.skip(c as int).len() == 0);
                assert(ev.take(c as int) =~= ev);
            }
            b.build()
        },
        Json::Null => b.build(),
        other => {
            b.add("detail", other);
            b.build()
        },
    }
}

/// The body posted to webhooks: event, timestamp, the memo as the API shows it,
/// and the detail.
pub open spec fn webhook_body_view(event_type: Seq<char>, memo: DbMemo, timestamp: int, detail: JsonView) -> JsonView {
    object_of(seq![
        ("event"@, JsonView::Str(event_type)),
        ("timestamp"@, JsonView::Int(timestamp)),
        ("payload"@, object_of(seq![
            ("memo"@, object_of(public_memo_pairs(memo, Seq::empty()))),
            ("detail"@, detail),
        ])),
    ])
}

pub fn memo_webhook_body(event_type: &str, memo: &DbMemo, timestamp: i64, detail: Json) -> (j: Json)
    ensures
        j@ == webhook_body_view(event_type@, *memo, timestamp as int, detail@),
{
    let copy = copy_memo(memo);
    let public = public_memo(copy);
    let memo_json = public.to_json();
    proof {
        assert(public_memo_pairs(copy, Seq::empty()) =~= public_memo_pairs(*memo, Seq::empty()));
    }
    let mut p = ObjectBuilder::new();
    p.add("memo", memo_json);
    p.add("detail", detail);
    proof {
        assert(p.pairs() =~= seq![
            ("memo"@, object_of(public_memo_pairs(*memo, Seq::empty()))),
            ("detail"@, detail@),
        ]);
    }
    let inner = p.build();
    let mut b = ObjectBuilder::new();
    b.add("event", json_str(event_type));
    b.add("timestamp", Json::Int(timestamp as i128));
    b.add("payload", inner);
    proof {
        assert(b.pairs() =~= seq![
            ("event"@, JsonView::Str(event_type@)),
            ("timestamp"@, JsonView::Int(timestamp as int)),
            ("payload"@, object_of(seq![
                ("memo"@, object_of(public_memo_pairs(*memo, Seq::empty()))),
                ("detail"@, detail@),
            ])),
        ]);
    }
    b.build()
}

/// The creation time before which memo events are pruned: whole days back from
/// `now`, a negative retention counting as none.
pub open spec fn retention_cutoff(now: int, retention_days: int) -> int {
    now - (if retention_days > 0 { retention_days } else { 0 }) * 86400
}

pub fn memo_event_retention_cutoff(now: i64, retention_days: i64) -> (r: i64)
    requires
        i64::MIN <= retention_cutoff(now as int, retention_days as int),
        retention_days * 86400 <= i64::MAX,
    ensures
        r == retention_cutoff(now as int, retention_days as int),
{
    let days: i64 = if retention_days > 0 {
        retention_days
    } else {
        0
    };
    now - days * 24 * 60 * 60
}

} // verus!
