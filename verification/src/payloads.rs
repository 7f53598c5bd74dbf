use vstd::prelude::*;
use crate::text::{chars_of, string_of, push_str};
use crate::json::{
    Json, JsonView, ObjectBuilder, object_of, json_str, json_opt_int, opt_int_view, opt_i64,
    opt_string, opt_str_view, json_opt_str, json_get, get_field, json_array, items_view,
};
use crate::models::{DbWebhook, DbWebhookDelivery, DbInboxRow, MemoIndexHealth, BackupArtifact};
use crate::events::clone_json;

verus! {

/// The fields the API shows of a share link.
pub open spec fn share_fields(id: int, uid: Seq<char>, memo_uid: Seq<char>, created_ts: int, expires_ts: Option<int>) -> Seq<(Seq<char>, JsonView)> {
    seq![
        ("id"@, JsonView::Int(id)),
        ("uid"@, JsonView::Str(uid)),
        ("memoUid"@, JsonView::Str(memo_uid)),
        ("createdTs"@, JsonView::Int(created_ts)),
        ("expiresTs"@, opt_int_view(expires_ts)),
        ("url"@, JsonView::Str("/api/v1/shares/"@ + uid)),
    ]
}

/// A share link as the API shows it; the row id is included so that the client
/// can delete it.
pub fn share_payload(id: i64, uid: &str, memo_uid: &str, created_ts: i64, expires_ts: Option<i64>) -> (j: Json)
    ensures
        j@ == object_of(share_fields(id as int, uid@, memo_uid@, created_ts as int, opt_i64(expires_ts))),
{
    let mut url = chars_of("/api/v1/shares/");
    push_str(&mut url, uid);
    let mut b = ObjectBuilder::new();
    b.add("id", Json::Int(id as i128));
    b.add("uid", json_str(uid));
    b.add("memoUid", json_str(memo_uid));
    b.add("createdTs", Json::Int(created_ts as i128));
    b.add("expiresTs", json_opt_int(expires_ts));
    b.add("url", Json::Str(string_of(&url)));
    proof {
        assert(b.pairs() =~= share_fields(id as int, uid@, memo_uid@, created_ts as int, opt_i64(expires_ts)));
    }
    b.build()
}

/// The fields the API shows of a webhook.
pub open spec fn webhook_fields(w: DbWebhook) -> Seq<(Seq<char>, JsonView)> {
    seq![
        ("id"@, JsonView::Int(w.id as int)),
        ("name"@, JsonView::Str(w.name@)),
        ("url"@, JsonView::Str(w.url@)),
        ("rowStatus"@, JsonView::Str(w.row_status@)),
        ("createdTs"@, JsonView::Int(w.created_ts as int)),
        ("updatedTs"@, JsonView::Int(w.updated_ts as int)),
    ]
}

pub fn public_webhook(webhook: DbWebhook) -> (j: Json)
    ensures
        j@ == object_of(webhook_fields(webhook)),
{
    let ghost w = webhook;
    let mut b = ObjectBuilder::new();
    b.add("id", Json::Int(webhook.id as i128));
    b.add("name", Json::Str(webhook.name));
    b.add("url", Json::Str(webhook.url));
    b.add("rowStatus", Json::Str(webhook.row_status));
    b.add("createdTs", Json::Int(webhook.created_ts as i128));
    b.add("updatedTs", Json::Int(webhook.updated_ts as i128));
    proof {
        assert(b.pairs() =~= webhook_fields(w));
    }
    b.build()
}

/// The text of an optional string, empty when absent.
pub open spec fn or_default(x: Option<String>) -> Seq<char> {
    match x {
        Some(s) => s@,
        None => Seq::empty(),
    }
}

/// The fields the API shows of a webhook delivery: everything but the request body,
/// with a missing webhook name or URL shown as empty text.
pub open spec fn delivery_fields(d: DbWebhookDelivery) -> Seq<(Seq<char>, JsonView)> {
    seq![
        ("id"@, JsonView::Int(d.id as int)),
        ("webhookId"@, JsonView::Int(d.webhook_id as int)),
        ("webhookName"@, JsonView::Str(or_default(d.webhook_name))),
        ("webhookUrl"@, JsonView::Str(or_default(d.webhook_url))),
        ("createdTs"@, JsonView::Int(d.created_ts as int)),
        ("event"@, JsonView::Str(d.event@)),
        ("status"@, JsonView::Str(d.status@)),
        ("statusCode"@, opt_int_view(opt_i64(d.status_code))),
        ("durationMs"@, JsonView::Int(d.duration_ms as int)),
        ("error"@, JsonView::Str(d.error@)),
        ("responseBody"@, JsonView::Str(d.response_body@)),
    ]
}

fn string_or_default(x: Option<String>) -> (s: String)
    ensures
        s@ == or_default(x),
{
    match x {
        Some(s) => s,
        None => String::new(),
    }
}

pub fn public_webhook_delivery(delivery: DbWebhookDelivery) -> (j: Json)
    ensures
        j@ == object_of(delivery_fields(delivery)),
{
    let ghost d = delivery;
    let mut b = ObjectBuilder::new();
    b.add("id", Json::Int(delivery.id as i128));
    b.add("webhookId", Json::Int(delivery.webhook_id as i128));
    b.add("webhookName", Json::Str(string_or_default(delivery.webhook_name)));
    b.add("webhookUrl", Json::Str(string_or_default(delivery.webhook_url)));
    b.add("createdTs", Json::Int(delivery.created_ts as i128));
    b.add("event", Json::Str(delivery.event));
    b.add("status", Json::Str(delivery.status));
    b.add("statusCode", json_opt_int(delivery.status_code));
    b.add("durationMs", Json::Int(delivery.duration_ms as i128));
    b.add("error", Json::Str(delivery.error));
    b.add("responseBody", Json::Str(delivery.response_body));
    proof {
        assert(b.pairs() =~= delivery_fields(d));
    }
    b.build()
}

/// What an inbox message shows when its stored text does not parse.
pub open spec fn unknown_message() -> JsonView {
    object_of(seq![("type"@, JsonView::Str("unknown"@))])
}

/// The stored inbox message, or `{"type": "unknown"}` when it did not parse.
pub fn safe_inbox_message(message: Option<Json>) -> (j: Json)
    ensures
        j@ == match message {
            Some(m) => m@,
            None => unknown_message(),
        },
{
    match message {
        Some(m) => m,
        None => {
            let mut b = ObjectBuilder::new();
            b.add("type", json_str("unknown"));
            proof {
                assert(b.pairs() =~= seq![("type"@, JsonView::Str("unknown"@))]);
            }
            b.build()
        },
    }
}

/// The fields the API shows of an inbox item: the sender, when there is one, as
/// id, username and nickname (either may be `null`).
pub open spec fn inbox_fields(row: DbInboxRow) -> Seq<(Seq<char>, JsonView)> {
    seq![
        ("id"@, JsonView::Int(row.id as int)),
        ("createdTs"@, JsonView::Int(row.created_ts as int)),
        ("sender"@, match row.sender_id {
            Some(id) => object_of(seq![
                ("id"@, JsonView::Int(id as int)),
                ("username"@, opt_str_view(opt_string(row.sender_username))),
                ("nickname"@, opt_str_view(opt_string(row.sender_nickname))),
            ]),
            None => JsonView::Null,
        }),
        ("status"@, JsonView::Str(row.status@)),
        ("message"@, match row.message {
            Some(m) => m@,
            None => unknown_message(),
        }),
    ]
}

pub fn public_inbox_item(row: DbInboxRow) -> (j: Json)
    ensures
        j@ == object_of(inbox_fields(row)),
{
    let ghost r = row;
    let sender = match row.sender_id {
        Some(id) => {
            let mut s = ObjectBuilder::new();
            s.add("id", Json::Int(id as i128));
            s.add("username", json_opt_str(row.sender_username));
            s.add("nickname", json_opt_str(row.sender_nickname));
            proof {
                assert(s.pairs() =~= seq![
                    ("id"@, JsonView::Int(id as int)),
                    ("username"@, opt_str_view(opt_string(r.sender_username))),
                    ("nickname"@, opt_str_view(opt_string(r.sender_nickname))),
                ]);
            }
            s.build()
        },
        None => Json::Null,
    };
    let mut b = ObjectBuilder::new();
    b.add("id", Json::Int(row.id as i128));
    b.add("createdTs", Json::Int(row.created_ts as i128));
    b.add("sender", sender);
    b.add("status", Json::Str(row.status));
    b.add("message", safe_inbox_message(row.message));
    proof {
        assert(b.pairs() =~= inbox_fields(r));
    }
    b.build()
}

impl MemoIndexHealth {
    /// Index health from its counts: healthy when every memo has a search row and
    /// no search or tag row is orphaned.
    pub fn from_counts(
        memo_count: i64,
        search_count: i64,
        missing_search_count: i64,
        orphan_search_count: i64,
        tag_count: i64,
        orphan_tag_count: i64,
    ) -> (h: MemoIndexHealth)
        ensures
            h.memo_count == memo_count,
            h.search_count == search_count,
            h.missing_search_count == missing_search_count,
            h.orphan_search_count == orphan_search_count,
            h.tag_count == tag_count,
            h.orphan_tag_count == orphan_tag_count,
            h.healthy == (memo_count == search_count && missing_search_count == 0
                && orphan_search_count == 0 && orphan_tag_count == 0),
    {
        MemoIndexHealth {
            memo_count,
            search_count,
            missing_search_count,
            orphan_search_count,
            tag_count,
            orphan_tag_count,
            healthy: memo_count == search_count && missing_search_count == 0
                && orphan_search_count == 0 && orphan_tag_count == 0,
        }
    }

    pub open spec fn json_fields(&self) -> Seq<(Seq<char>, JsonView)> {
        seq![
            ("memoCount"@, JsonView::Int(self.memo_count as int)),
            ("searchCount"@, JsonView::Int(self.search_count as int)),
            ("missingSearchCount"@, JsonView::Int(self.missing_search_count as int)),
            ("orphanSearchCount"@, JsonView::Int(self.orphan_search_count as int)),
            ("tagCount"@, JsonView::Int(self.tag_count as int)),
            ("orphanTagCount"@, JsonView::Int(self.orphan_tag_count as int)),
            ("healthy"@, JsonView::Bool(self.healthy)),
        ]
    }

    /// The counts and verdict as a camel-cased JSON object.
    pub fn to_json(&self) -> (j: Json)
        ensures
            j@ == object_of(self.json_fields()),
    {
        let mut b = ObjectBuilder::new();
        b.add("memoCount", Json::Int(self.memo_count as i128));
        b.add("searchCount", Json::Int(self.search_count as i128));
        b.add("missingSearchCount", Json::Int(self.missing_search_count as i128));
        b.add("orphanSearchCount", Json::Int(self.orphan_search_count as i128));
        b.add("tagCount", Json::Int(self.tag_count as i128));
        b.add("orphanTagCount", Json::Int(self.orphan_tag_count as i128));
        b.add("healthy", Json::Bool(self.healthy));
        proof {
            assert(b.pairs() =~= self.json_fields());
        }
        b.build()
    }
}

/// What the API answers about a backup it wrote: its storage key and size.
pub open spec fn backup_artifact_view(a: BackupArtifact) -> JsonView {
    object_of(seq![
        ("backup"@, object_of(seq![
            ("key"@, JsonView::Str(a.key@)),
            ("size"@, JsonView::Int(a.size as int)),
        ])),
    ])
}

pub fn backup_artifact_payload(artifact: &BackupArtifact) -> (j: Json)
    ensures
        j@ == backup_artifact_view(*artifact),
{
    let mut inner = ObjectBuilder::new();
    inner.add("key", Json::Str(artifact.key.clone()));
    inner.add("size", Json::Int(artifact.size as i128));
    proof {
        assert(inner.pairs() =~= seq![
            ("key"@, JsonView::Str(artifact.key@)),
            ("size"@, JsonView::Int(artifact.size as int)),
        ]);
    }
    let inner = inner.build();
    let mut b = ObjectBuilder::new();
    b.add("backup", inner);
    proof {
        assert(b.pairs() =~= seq![
            ("backup"@, object_of(seq![
                ("key"@, JsonView::Str(artifact.key@)),
                ("size"@, JsonView::Int(artifact.size as int)),
            ])),
        ]);
    }
    b.build()
}

/// The number of items in the array under `key`; zero when there is none.
pub open spec fn array_count(payload: JsonView, key: Seq<char>) -> int {
    match json_get(payload, key) {
        Some(JsonView::Array(items)) => items.len() as int,
        _ => 0,
    }
}

fn count_array(payload: &Json, key: &str) -> (n: usize)
    ensures
        n == array_count(payload@, key@),
{
    match get_field(payload, key) {
        Some(Json::Array(items)) => {
            proof {
                assert(items_view(items@).len() == items@.len());
            }
            items.len()
        },
        _ => 0,
    }
}

/// What a backup document holds: how many users, memos, attachments and relations.
pub open spec fn backup_preview_view(payload: JsonView) -> JsonView {
    object_of(seq![
        ("userCount"@, JsonView::Int(array_count(payload, "users"@))),
        ("memoCount"@, JsonView::Int(array_count(payload, "memos"@))),
        ("attachmentCount"@, JsonView::Int(array_count(payload, "attachments"@))),
        ("relationCount"@, JsonView::Int(array_count(payload, "relations"@))),
    ])
}

pub fn backup_preview(payload: &Json) -> (j: Json)
    ensures
        j@ == backup_preview_view(payload@),
{
    let users = count_array(payload, "users");
    let memos = count_array(payload, "memos");
    let attachments = count_array(payload, "attachments");
    let relations = count_array(payload, "relations");
    let mut b = ObjectBuilder::new();
    b.add("userCount", Json::Int(users as i128));
    b.add("memoCount", Json::Int(memos as i128));
    b.add("attachmentCount", Json::Int(attachments as i128));
    b.add("relationCount", Json::Int(relations as i128));
    proof {
        assert(b.pairs() =~= seq![
            ("userCount"@, JsonView::Int(array_count(payload@, "users"@))),
            ("memoCount"@, JsonView::Int(array_count(payload@, "memos"@))),
            ("attachmentCount"@, JsonView::Int(array_count(payload@, "attachments"@))),
            ("relationCount"@, JsonView::Int(array_count(payload@, "relations"@))),
        ]);
    }
    b.build()
}

/// A calendar country code: exactly two ASCII capital letters.
pub open spec fn country_code(value: Seq<char>) -> bool {
    value.len() == 2 && crate::text::is_ascii_upper(value[0]) && crate::text::is_ascii_upper(value[1])
}

pub fn valid_country_code(value: &str) -> (b: bool)
    ensures
        b == country_code(value@),
{
    let v = chars_of(value);
    v.len() == 2 && 'A' <= v[0] && v[0] <= 'Z' && 'A' <= v[1] && v[1] <= 'Z'
}

} // verus!
