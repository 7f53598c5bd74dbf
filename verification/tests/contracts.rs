use memos_worker::accounts::password_change_statements;
use memos_worker::attachments::{attachment_download_plan, can_read_attachment};
use memos_worker::crypto::{base64url, generate_uid};
use memos_worker::dispatch::{
    authed_access, authed_route_target, memo_delete_plan, memo_method_check, memo_subroute_target, AuthedTarget, MemoTarget,
};
use memos_worker::http::{extract_content_contains_filter, extract_filter_value, normalize_http_url, query_param, RequestUrl};
use memos_worker::imports::import_plan;
use memos_worker::json::{Json, ObjectBuilder};
use memos_worker::jwt::Claims;
use memos_worker::listing::{listing_page, SqlValue};
use memos_worker::migration::original_memos_page_url;
use memos_worker::models::{DbAttachment, DbMemo, Viewer};
use memos_worker::ranking::rank_relation_order;
use memos_worker::routes::Method;
use memos_worker::session::{
    backend_credential, live_session_statement, refresh_claims_user, refresh_cookie_token, refresh_user, revoke_sessions_statement,
};
use memos_worker::workflow::{rebuild_batch_progress, AiAttempt, MemoRebuild, MigrationProgress};
use memos_worker::migration::OriginalMemo;

fn obj(fields: Vec<(&str, Json)>) -> Json {
    let mut b = ObjectBuilder::new();
    for (k, v) in fields {
        b.add(k, v);
    }
    b.build()
}

fn text(s: &str) -> Json {
    Json::Str(s.to_string())
}

fn viewer(id: i64, role: &str) -> Viewer {
    Viewer { id, role: role.to_string() }
}

fn attachment(memo_id: Option<i64>, visibility: Option<&str>, memo_creator: Option<i64>) -> DbAttachment {
    DbAttachment {
        id: 1,
        uid: "a_1".to_string(),
        creator_id: 7,
        created_ts: 10,
        filename: "photo.png".to_string(),
        file_type: "image/png".to_string(),
        size: 3,
        memo_id,
        reference: "attachments/7/a_1/photo.png".to_string(),
        memo_visibility: visibility.map(|v| v.to_string()),
        memo_creator_id: memo_creator,
    }
}

fn memo(creator_id: i64) -> DbMemo {
    DbMemo {
        id: 3,
        uid: "m_3".to_string(),
        creator_id,
        creator_username: "alice".to_string(),
        creator_nickname: "Alice".to_string(),
        created_ts: 10,
        updated_ts: 11,
        row_status: "NORMAL".to_string(),
        content: "hello".to_string(),
        visibility: "PRIVATE".to_string(),
        pinned: 0,
        payload: obj(vec![]),
    }
}

fn claims(token_type: &str, sub: &str, tid: Option<&str>) -> Claims {
    Claims {
        iss: "memos-worker".to_string(),
        sub: sub.to_string(),
        exp: 200,
        iat: 100,
        token_type: token_type.to_string(),
        tid: tid.map(|t| t.to_string()),
    }
}

#[test]
fn unattached_attachments_are_read_by_owner_or_admin_only() {
    let loose = attachment(None, None, None);
    assert!(can_read_attachment(&loose, &viewer(7, "USER")));
    assert!(can_read_attachment(&loose, &viewer(1, "ADMIN")));
    assert!(!can_read_attachment(&loose, &viewer(8, "USER")));
    let public = attachment(Some(3), Some("PUBLIC"), Some(7));
    assert!(can_read_attachment(&public, &viewer(8, "USER")));
    let private = attachment(Some(3), Some("PRIVATE"), Some(7));
    assert!(!can_read_attachment(&private, &viewer(8, "USER")));
    assert!(can_read_attachment(&private, &viewer(7, "USER")));
}

#[test]
fn download_plan_refuses_before_reading_the_object() {
    let missing = attachment_download_plan(None, &viewer(7, "USER")).unwrap_err();
    assert_eq!((missing.status, missing.message.as_str()), (404, "Attachment not found"));
    let private = attachment(Some(3), Some("PRIVATE"), Some(7));
    let forbidden = attachment_download_plan(Some(private), &viewer(8, "USER")).unwrap_err();
    assert_eq!((forbidden.status, forbidden.message.as_str()), (403, "Forbidden"));
    let public = attachment(Some(3), Some("PUBLIC"), Some(7));
    let (key, headers) = attachment_download_plan(Some(public), &viewer(8, "USER")).unwrap();
    assert_eq!(key, "attachments/7/a_1/photo.png");
    assert_eq!(headers.entries[1], ("Content-Disposition".to_string(), "inline; filename=\"photo.png\"".to_string()));
    assert_eq!(headers.entries[2], ("Cache-Control".to_string(), "public, max-age=3600".to_string()));
}

#[test]
fn refresh_needs_its_cookie_type_subject_and_live_session() {
    let e = refresh_cookie_token("memos_access=a").unwrap_err();
    assert_eq!((e.status, e.message.as_str()), (401, "Missing refresh token"));
    assert_eq!(refresh_cookie_token("memos_refresh=r1; memos_access=a").unwrap(), "r1");
    let e = refresh_claims_user(&claims("access", "7", Some("s1"))).unwrap_err();
    assert_eq!((e.status, e.message.as_str()), (401, "Invalid refresh token"));
    let e = refresh_claims_user(&claims("refresh", "x7", Some("s1"))).unwrap_err();
    assert_eq!((e.status, e.message.as_str()), (401, "Invalid token subject"));
    assert_eq!(refresh_claims_user(&claims("refresh", "7", Some("s1"))).unwrap(), 7);
    assert_eq!(refresh_user(&claims("refresh", "7", Some("s1")), true).unwrap(), 7);
    let e = refresh_user(&claims("refresh", "7", Some("s1")), false).unwrap_err();
    assert_eq!((e.status, e.message.as_str()), (401, "Invalid refresh token"));
    let e = refresh_user(&claims("refresh", "7", None), true).unwrap_err();
    assert_eq!(e.message, "Invalid refresh token");
}

#[test]
fn password_change_revokes_every_session() {
    let statements = password_change_statements(7, "hash", 500);
    assert_eq!(statements.len(), 2);
    assert_eq!(statements[0].sql, "UPDATE \"user\" SET password_hash = ?, updated_ts = ? WHERE id = ?");
    assert_eq!(statements[0].binds, vec![SqlValue::Text("hash".to_string()), SqlValue::Int(500), SqlValue::Int(7)]);
    assert_eq!(statements[1].sql, "DELETE FROM user_session WHERE user_id = ?");
    assert_eq!(statements[1].binds, vec![SqlValue::Int(7)]);
    let revoke = revoke_sessions_statement(9);
    assert_eq!(revoke.binds, vec![SqlValue::Int(9)]);
    let live = live_session_statement("s1", 7, "digest", 600);
    assert_eq!(
        live.binds,
        vec![SqlValue::Text("s1".to_string()), SqlValue::Int(7), SqlValue::Text("digest".to_string()), SqlValue::Int(600)]
    );
}

#[test]
fn query_values_come_from_the_url_query() {
    let url = RequestUrl::parse("https://memos.local/api/v1/memos?filter=creator%20%3D%3D%20%22alice%22&a=1&a=2#frag")
        .expect("url");
    assert_eq!(url.query_text(), "filter=creator%20%3D%3D%20%22alice%22&a=1&a=2");
    assert_eq!(query_param(&url, "a"), Some("1".to_string()));
    assert_eq!(query_param(&url, "b"), None);
    assert_eq!(extract_filter_value(&url, "creator"), Some("alice".to_string()));
    assert_eq!(extract_filter_value(&url, "tag"), None);
    let search = RequestUrl::parse("https://memos.local/x?filter=content.contains(%22a%5C%22b%22)").expect("url");
    assert_eq!(extract_content_contains_filter(&search), Some("a\"b".to_string()));
    let bare = RequestUrl::parse("https://memos.local/x").expect("url");
    assert_eq!(bare.query_text(), "");
    assert_eq!(extract_content_contains_filter(&bare), None);
    assert!(RequestUrl::parse("not a url").is_none());
}

#[test]
fn base_urls_lose_query_fragment_and_trailing_slash() {
    assert_eq!(normalize_http_url(" https://api.example.com/v1/?x=1#top ", "bad").unwrap(), "https://api.example.com/v1");
    assert_eq!(normalize_http_url("http://example.com", "bad").unwrap(), "http://example.com");
    let e = normalize_http_url("ftp://example.com", "bad").unwrap_err();
    assert_eq!((e.status, e.message.as_str()), (400, "bad"));
    assert_eq!(normalize_http_url("   ", "bad").unwrap_err().status, 400);
    assert_eq!(normalize_http_url("nope", "bad").unwrap_err().message, "bad");
}

#[test]
fn original_memo_pages_carry_size_state_and_token() {
    assert_eq!(
        original_memos_page_url("https://memos.example.com", "NORMAL", "").unwrap(),
        "https://memos.example.com/api/v1/memos?pageSize=100&state=NORMAL"
    );
    assert_eq!(
        original_memos_page_url("https://memos.example.com/base", "ARCHIVED", "next token").unwrap(),
        "https://memos.example.com/base/api/v1/memos?pageSize=100&state=ARCHIVED&pageToken=next+token"
    );
    let e = original_memos_page_url("not a url", "NORMAL", "").unwrap_err();
    assert_eq!((e.status, e.message.as_str()), (400, "Invalid Memos URL"));
}

#[test]
fn admin_only_routes_refuse_other_viewers() {
    let user = viewer(7, "USER");
    let admin = viewer(1, "ADMIN");
    for (path, method) in [
        ("/api/v1/users", Method::Get),
        ("/api/v1/export/memos", Method::Get),
        ("/api/v1/import/memos", Method::Post),
        ("/api/v1/backups", Method::Get),
        ("/api/v1/ai/settings", Method::Get),
        ("/api/v1/audit-logs", Method::Get),
    ] {
        let route = authed_route_target(path, method);
        let e = authed_access(&route.target, &user).unwrap_err();
        assert_eq!((e.status, e.message.as_str()), (403, "Forbidden"), "{}", path);
        assert!(authed_access(&route.target, &admin).is_ok(), "{}", path);
    }
    let memos = authed_route_target("/api/v1/memos", Method::Get);
    assert!(authed_access(&memos.target, &user).is_ok());
    let nowhere = authed_route_target("/api/v2/x", Method::Get);
    assert_eq!(nowhere.target, AuthedTarget::NotFound);
    let e = authed_access(&nowhere.target, &admin).unwrap_err();
    assert_eq!((e.status, e.message.as_str()), (404, "Not found"));
}

#[test]
fn deleting_a_memo_archives_it_unless_purged() {
    assert_eq!(memo_subroute_target("m_3", Method::Put), MemoTarget::MethodNotAllowed);
    let e = memo_method_check(MemoTarget::MethodNotAllowed).unwrap_err();
    assert_eq!((e.status, e.message.as_str()), (405, "Method not allowed"));
    assert!(memo_method_check(MemoTarget::Delete).is_ok());

    let e = memo_delete_plan(None, &viewer(7, "USER"), false, 900).unwrap_err();
    assert_eq!((e.status, e.message.as_str()), (404, "Memo not found"));
    let e = memo_delete_plan(Some(memo(7)), &viewer(8, "USER"), false, 900).unwrap_err();
    assert_eq!((e.status, e.message.as_str()), (403, "Forbidden"));

    let archived = memo_delete_plan(Some(memo(7)), &viewer(7, "USER"), false, 900).unwrap();
    let statement = archived.archive.expect("archive statement");
    assert_eq!(statement.sql, "UPDATE memo SET row_status = 'ARCHIVED', updated_ts = ? WHERE id = ?");
    assert_eq!(statement.binds, vec![SqlValue::Int(900), SqlValue::Int(3)]);
    assert_eq!(archived.event_type, "memo.archived");
    assert_eq!(archived.event_memo.row_status, "ARCHIVED");
    assert_eq!(archived.event_memo.updated_ts, 900);
    assert_eq!(archived.event_memo.content, "hello");
    assert_eq!(archived.answer, obj(vec![("ok", Json::Bool(true))]));

    let purged = memo_delete_plan(Some(memo(7)), &viewer(1, "ADMIN"), true, 900).unwrap();
    assert!(purged.archive.is_none());
    assert_eq!(purged.event_type, "memo.deleted");
    assert_eq!(purged.event_memo.row_status, "NORMAL");
}

#[test]
fn listing_pages_hold_at_most_the_limit() {
    let (page, token) = listing_page(vec![1, 2, 3], 40, 2);
    assert_eq!(page, vec![1, 2]);
    assert_eq!(token, "42");
    let (page, token) = listing_page(vec![1, 2], 40, 2);
    assert_eq!(page, vec![1, 2]);
    assert_eq!(token, "");
}

#[test]
fn imports_count_inserted_memos_and_refuse_non_admins() {
    let body = obj(vec![(
        "memos",
        Json::Array(vec![
            obj(vec![("content", text(" first "))]),
            obj(vec![("content", text("   "))]),
            obj(vec![("content", text("second")), ("visibility", text("PUBLIC"))]),
        ]),
    )]);
    let e = import_plan(&viewer(7, "USER"), &body, 100).unwrap_err();
    assert_eq!((e.status, e.message.as_str()), (403, "Forbidden"));
    let plan = import_plan(&viewer(1, "ADMIN"), &body, 100).unwrap();
    assert_eq!(plan.rows.len(), 2);
    assert_eq!(plan.rows[0].content, "first");
    assert_eq!(plan.rows[1].visibility, "PUBLIC");
    assert_eq!(plan.outcome.unwrap(), obj(vec![("imported", Json::Int(2))]));

    let bad = obj(vec![(
        "memos",
        Json::Array(vec![obj(vec![("content", text("kept"))]), obj(vec![("content", text("x")), ("visibility", text("SECRET"))])]),
    )]);
    let plan = import_plan(&viewer(1, "ADMIN"), &bad, 100).unwrap();
    assert_eq!(plan.rows.len(), 1);
    let e = plan.outcome.unwrap_err();
    assert_eq!((e.status, e.message.as_str()), (400, "Invalid visibility"));
}

#[test]
fn rebuild_batches_count_every_memo_once() {
    let outcomes = vec![
        MemoRebuild { low_score: true, ai: AiAttempt::NotAsked, changed: 0 },
        MemoRebuild { low_score: false, ai: AiAttempt::Used, changed: 3 },
        MemoRebuild { low_score: false, ai: AiAttempt::Failed("a".to_string()), changed: 0 },
        MemoRebuild { low_score: false, ai: AiAttempt::Failed("b".to_string()), changed: 1 },
        MemoRebuild { low_score: false, ai: AiAttempt::Failed("c".to_string()), changed: 1 },
        MemoRebuild { low_score: false, ai: AiAttempt::Failed("d".to_string()), changed: 1 },
    ];
    let p = rebuild_batch_progress(&outcomes, 20, 6, 8, Some(44), true);
    assert_eq!((p.batch_processed, p.updated, p.skipped, p.created), (6, 4, 2, 6));
    assert_eq!(p.warnings, vec!["a".to_string(), "b".to_string(), "c".to_string()]);
    assert_eq!(p.source, "ai");
    assert!(p.done);
    assert_eq!(p.next_cursor, None);
    let local = rebuild_batch_progress(&Vec::new(), 20, 6, 8, Some(44), true);
    assert_eq!(local.source, "local");
    let more = rebuild_batch_progress(&vec![MemoRebuild { low_score: false, ai: AiAttempt::Used, changed: 2 }], 20, 6, 1, Some(44), false);
    assert_eq!(more.source, "local");
    assert!(!more.done);
    assert_eq!(more.next_cursor, Some(44));
}

#[test]
fn backend_paths_without_credentials_are_unauthorized() {
    let none: Vec<(String, String)> = Vec::new();
    for path in ["/api/v1/memos", "/file/attachments/a_1/name.png"] {
        let e = backend_credential(path, None, &none, "").unwrap_err();
        assert_eq!((e.status, e.message.as_str()), (401, "Unauthorized"));
    }
    for path in ["/", "/assets/index.js", "/memos/m_1"] {
        assert_eq!(backend_credential(path, None, &none, "").unwrap(), None);
    }
    assert_eq!(backend_credential("/api/v1/memos", Some("Bearer  tok "), &none, "").unwrap(), Some("tok".to_string()));
}

#[test]
fn base64url_and_uids_have_their_lengths() {
    assert_eq!(base64url(b"hello"), "aGVsbG8");
    assert_eq!(base64url(&[0xfb, 0xff]), "-_8");
    assert_eq!(base64url(&[]), "");
    for n in 0..10usize {
        assert_eq!(base64url(&vec![7u8; n]).len(), (4 * n + 2) / 3);
    }
    let uid = generate_uid("m", &[1u8; 12]);
    assert_eq!(uid.len(), 1 + 17);
    assert!(uid.starts_with("m_"));
    assert!(uid[2..].chars().all(|c| c.is_ascii_alphanumeric() || c == '-' || c == '_'));
}

#[test]
fn relation_ranking_orders_by_scaled_score() {
    let overlaps = vec![Some((1, 0)), None, Some((0, 1)), Some((1, 0)), Some((0, 0))];
    let updated = vec![5, 9, 10, 10, 0];
    assert_eq!(rank_relation_order(&overlaps, &updated, 3, 10), vec![3, 0, 2]);
    assert_eq!(rank_relation_order(&overlaps, &updated, 3, 2), vec![3, 0]);
    assert_eq!(rank_relation_order(&overlaps, &updated, 3, 0), Vec::<usize>::new());
    let ties = vec![Some((0, 1)), Some((0, 1))];
    assert_eq!(rank_relation_order(&ties, &vec![4, 4], 1, 5), vec![0, 1]);
}

#[test]
fn migration_reports_stay_settled_through_each_memo() {
    let archived = OriginalMemo {
        name: Some("memos/1".to_string()),
        state: Some("ARCHIVED".to_string()),
        creator: None,
        create_time: None,
        update_time: None,
        content: Some("hello".to_string()),
        visibility: None,
        tags: None,
        pinned: None,
        attachments: Some(vec![Json::Null, Json::Null]),
        relations: None,
        property: None,
        parent: None,
        location: None,
    };
    let mut p = MigrationProgress::new();
    assert_eq!(p.phase, "fetching");
    p.begin_page("NORMAL");
    assert_eq!(p.state.as_deref(), Some("NORMAL"));
    p.begin_import();
    assert_eq!(p.phase, "importing");
    assert!(p.count_memo(&archived));
    p.record_outcome(true);
    assert!(p.count_memo(&archived));
    p.record_outcome(false);
    assert_eq!((p.processed, p.imported, p.skipped, p.memo_count), (2, 1, 1, 2));
    assert_eq!((p.archived_count, p.attachment_count), (2, 4));
    p.finish();
    assert_eq!(p.phase, "done");
    assert!(!p.truncated);
}
