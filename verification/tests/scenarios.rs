use memos_worker::attachments::{attachment_storage_key, sanitize_filename, shared_attachment_url};
use memos_worker::crypto::random_bytes_with_filler;
use memos_worker::events::{
    memo_event_payload, memo_event_payload_with_detail, memo_event_retention_cutoff, memo_webhook_body,
    public_memo_with_attachments,
};
use memos_worker::http::is_backend_request_path;
use memos_worker::inbox::comment_inbox_message;
use memos_worker::json::{Json, ObjectBuilder};
use memos_worker::models::{BackupArtifact, DbMemo, DbMemoEvent};
use memos_worker::payloads::{backup_artifact_payload, safe_inbox_message, share_payload};
use memos_worker::routes::{memo_child_route, parse_user_settings_path, MemoChildRoute, Method};
use memos_worker::sse::{memo_event_sse, sse_ready_payload, sse_since_id};
use memos_worker::http::RequestUrl;

fn obj(fields: Vec<(&str, Json)>) -> Json {
    let mut b = ObjectBuilder::new();
    for (k, v) in fields {
        b.add(k, v);
    }
    b.build()
}

fn text(s: &str) -> Json {
    Json::Str(s.to_string())
}

fn num(n: i128) -> Json {
    Json::Int(n)
}

/// The library's document for a parsed `serde_json` value.
fn from_value(v: serde_json::Value) -> Json {
    match v {
        serde_json::Value::Null => Json::Null,
        serde_json::Value::Bool(b) => Json::Bool(b),
        serde_json::Value::Number(n) => match n.as_i64() {
            Some(i) => Json::Int(i128::from(i)),
            None => Json::Num(n.to_string()),
        },
        serde_json::Value::String(s) => Json::Str(s),
        serde_json::Value::Array(items) => Json::Array(items.into_iter().map(from_value).collect()),
        serde_json::Value::Object(map) => {
            let mut b = ObjectBuilder::new();
            for (k, v) in map {
                b.add(&k, from_value(v));
            }
            b.build()
        }
    }
}

fn sample_memo() -> DbMemo {
    DbMemo {
        id: 1,
        uid: "m_1".to_string(),
        creator_id: 7,
        creator_username: "alice".to_string(),
        creator_nickname: "Alice".to_string(),
        created_ts: 10,
        updated_ts: 11,
        row_status: "NORMAL".to_string(),
        content: "hello".to_string(),
        visibility: "PRIVATE".to_string(),
        pinned: 0,
        payload: obj(vec![]),
    }
}

#[test]
fn backup_artifact_api_payload_includes_key_and_size() {
    let artifact = BackupArtifact {
        key: "backups/memos-test.json".to_string(),
        size: 42,
    };

    assert_eq!(
        backup_artifact_payload(&artifact),
        obj(vec![(
            "backup",
            obj(vec![("key", text("backups/memos-test.json")), ("size", num(42))]),
        )])
    );
}

#[test]
fn sanitize_filename_replaces_unsafe_names() {
    assert_eq!(sanitize_filename("../bad:name?.png"), ".._bad_name_.png");
    assert_eq!(sanitize_filename("\u{0000}"), "attachment");
}

#[test]
fn random_bytes_with_filler_returns_exact_length() {
    let bytes = random_bytes_with_filler(4, |output| {
        output.copy_from_slice(&[1, 2, 3, 4]);
        Ok(())
    })
    .expect("random bytes");

    assert_eq!(bytes, vec![1, 2, 3, 4]);
}

#[test]
fn attachment_storage_key_uses_creator_uid_and_filename() {
    assert_eq!(
        attachment_storage_key(7, "a_123", "note.txt"),
        "attachments/7/a_123/note.txt"
    );
}

#[test]
fn public_memo_with_attachments_preserves_attachment_payload() {
    let memo = sample_memo();
    let attachments = vec![obj(vec![("uid", text("a_1")), ("filename", text("note.txt"))])];
    let expected = vec![obj(vec![("uid", text("a_1")), ("filename", text("note.txt"))])];
    let public = public_memo_with_attachments(memo, attachments);

    assert_eq!(public.attachments, expected);
}

#[test]
fn shared_attachment_url_uses_share_and_attachment_identity() {
    assert_eq!(
        shared_attachment_url("s_1", "a_1", "note.txt"),
        "/api/v1/shares/s_1/attachments/a_1/note.txt"
    );
}

#[test]
fn sse_ready_payload_is_valid_event_stream() {
    let payload = sse_ready_payload(7).expect("ready payload");

    assert!(payload.starts_with("retry: 5000\n"));
    assert!(payload.contains("event: ready\n"));
    assert!(payload.contains("\"userId\":7"));
}

#[test]
fn memo_event_sse_includes_id_event_and_payload() {
    let event = DbMemoEvent {
        id: 42,
        event_type: "memo.updated".to_string(),
        name: "memos/m_1".to_string(),
        visibility: "PRIVATE".to_string(),
        creator_id: 7,
        payload: obj(vec![("type", text("memo.updated")), ("name", text("memos/m_1"))]),
    };
    let payload = memo_event_sse(&event).expect("memo event");

    assert!(payload.starts_with("id: 42\nevent: memo.updated\n"));
    assert!(payload.contains("\"id\":\"42\""));
    assert!(payload.contains("\"creatorId\":7"));
}

#[test]
fn sse_since_id_prefers_last_event_id() {
    let url = RequestUrl::parse("https://memos.local/api/v1/sse?since=7").expect("url");

    assert_eq!(sse_since_id(Some("42"), &url), Some(42));
    assert_eq!(sse_since_id(None, &url), Some(7));
    assert_eq!(sse_since_id(Some("bad"), &url), Some(7));
}

#[test]
fn memo_event_payload_matches_frontend_refresh_shape() {
    let memo = sample_memo();

    assert_eq!(
        memo_event_payload("memo.updated", &memo),
        obj(vec![
            ("type", text("memo.updated")),
            ("name", text("memos/m_1")),
            ("visibility", text("PRIVATE")),
            ("creatorId", num(7)),
        ])
    );
}

#[test]
fn memo_event_payload_merges_detail_fields() {
    let memo = sample_memo();

    assert_eq!(
        memo_event_payload_with_detail(
            "memo.bulk.updated",
            &memo,
            obj(vec![("action", text("ARCHIVE")), ("updated", num(2)), ("deleted", num(0))])
        ),
        obj(vec![
            ("type", text("memo.bulk.updated")),
            ("name", text("memos/m_1")),
            ("visibility", text("PRIVATE")),
            ("creatorId", num(7)),
            ("action", text("ARCHIVE")),
            ("updated", num(2)),
            ("deleted", num(0)),
        ])
    );
}

#[test]
fn memo_webhook_body_wraps_event_timestamp_and_public_memo() {
    let memo = sample_memo();

    assert_eq!(
        memo_webhook_body("memo.updated", &memo, 1779345600, obj(vec![("source", text("test"))])),
        obj(vec![
            ("event", text("memo.updated")),
            ("timestamp", num(1779345600)),
            (
                "payload",
                obj(vec![
                    (
                        "memo",
                        obj(vec![
                            ("name", text("memos/m_1")),
                            ("id", num(1)),
                            ("uid", text("m_1")),
                            (
                                "creator",
                                obj(vec![("id", num(7)), ("username", text("alice")), ("nickname", text("Alice"))]),
                            ),
                            ("createdTs", num(10)),
                            ("updatedTs", num(11)),
                            ("rowStatus", text("NORMAL")),
                            ("content", text("hello")),
                            ("visibility", text("PRIVATE")),
                            ("pinned", Json::Bool(false)),
                            ("payload", obj(vec![])),
                            ("attachments", Json::Array(vec![])),
                        ]),
                    ),
                    ("detail", obj(vec![("source", text("test"))])),
                ]),
            ),
        ])
    );
}

#[test]
fn share_payload_includes_database_id_for_delete_route() {
    assert_eq!(
        share_payload(9, "s_1", "m_1", 1779345600, Some(1779349200)),
        obj(vec![
            ("id", num(9)),
            ("uid", text("s_1")),
            ("memoUid", text("m_1")),
            ("createdTs", num(1779345600)),
            ("expiresTs", num(1779349200)),
            ("url", text("/api/v1/shares/s_1")),
        ])
    );
}

#[test]
fn comment_inbox_message_points_to_parent_and_comment() {
    assert_eq!(
        comment_inbox_message("m_parent", "m_comment"),
        obj(vec![
            ("type", text("memo.comment.created")),
            ("memoUid", text("m_parent")),
            ("commentUid", text("m_comment")),
        ])
    );
}

#[test]
fn memo_event_retention_cutoff_uses_whole_days() {
    assert_eq!(memo_event_retention_cutoff(1_000_000, 7), 395_200);
    assert_eq!(memo_event_retention_cutoff(1_000_000, -1), 1_000_000);
}

#[test]
fn api_worker_only_handles_backend_paths() {
    assert!(is_backend_request_path("/api/v1/memos"));
    assert!(is_backend_request_path("/file/attachments/a_1/name.png"));
    assert!(!is_backend_request_path("/"));
    assert!(!is_backend_request_path("/assets/index.js"));
    assert!(!is_backend_request_path("/memos/m_1"));
}

#[test]
fn parse_user_settings_path_splits_identifier_and_key() {
    assert_eq!(
        parse_user_settings_path("alice/settings/theme"),
        Some(("alice", Some("theme")))
    );
    assert_eq!(parse_user_settings_path("alice/settings"), Some(("alice", None)));
    assert_eq!(parse_user_settings_path("alice"), None);
}

#[test]
fn safe_inbox_message_parse_falls_back_to_unknown() {
    let parsed = serde_json::from_str::<serde_json::Value>("{\"type\":\"memo.comment.created\",\"memoUid\":\"m_1\"}")
        .ok()
        .map(from_value);
    let message = safe_inbox_message(parsed);
    assert_eq!(
        memos_worker::json::get_field(&message, "type"),
        Some(&text("memo.comment.created"))
    );
    let unparsed = serde_json::from_str::<serde_json::Value>("not json").ok().map(from_value);
    assert_eq!(safe_inbox_message(unparsed), obj(vec![("type", text("unknown"))]));
}

#[test]
fn memo_child_routes_classify_unknown_paths_as_unsupported() {
    assert_eq!(
        memo_child_route(&["m_1", "relations", "suggest"], &Method::Post),
        MemoChildRoute::SuggestRelations
    );
    assert_eq!(
        memo_child_route(&["m_1", "relations", "suggest"], &Method::Get),
        MemoChildRoute::Unsupported
    );
    assert_eq!(
        memo_child_route(&["m_1", "unknown"], &Method::Get),
        MemoChildRoute::Unsupported
    );
}
