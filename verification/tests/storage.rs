use memos_worker::attachments::{attachment_download_headers, batch_delete_attachments};
use memos_worker::headers::{apply_security_headers, HeaderList};
use memos_worker::keywords::{candidate_overlap, RelationCandidate};
use memos_worker::backups::{
    backup_health, backup_key, backup_payload_source, encrypted_backup_envelope, encrypted_backup_parts, is_encrypted_backup,
    BackupSource,
};
use memos_worker::crypto::backup_cipher_key;
use memos_worker::bulk::purge_ids;
use memos_worker::cookies::{cookie, cookie_value, parse_cookies};
use memos_worker::imports::{json_bind, restored_memo_values};
use memos_worker::inbox::update_inbox_status;
use memos_worker::json::{Json, ObjectBuilder};
use memos_worker::listing::{memo_list_query, next_page_token, SqlValue};
use memos_worker::memo_index::{delete_memo_indexes, sync_memo_index_fields};
use memos_worker::migration::{
    collect_page, create_original_backup_memo, existing_imported_original_names, fetch_original_memos_page, list_local_memos_for_original_backup,
    original_backup_payload, original_memos_endpoint, read_migration_request, should_skip_original_backup,
    store_original_backup_marker, OriginalBackupResult, OriginalMemo,
};
use memos_worker::models::{DbAttachment, DbMemo, Viewer};
use memos_worker::relations::apply_memo_relations;
use memos_worker::rss::{generate_rss, rss_item, rss_query};
use memos_worker::sse::{format_sse_event, sse_since_id_from};

fn obj(fields: Vec<(&str, Json)>) -> Json {
    let mut b = ObjectBuilder::new();
    for (k, v) in fields {
        b.add(k, v);
    }
    b.build()
}

fn text(s: &str) -> Json {
    Json::Str(s.to_string())
}

fn viewer(id: i64, role: &str) -> Viewer {
    Viewer { id, role: role.to_string() }
}

fn memo(content: &str, payload: Json) -> DbMemo {
    DbMemo {
        id: 3,
        uid: "m_3".to_string(),
        creator_id: 7,
        creator_username: "alice".to_string(),
        creator_nickname: "Alice".to_string(),
        created_ts: 10,
        updated_ts: 11,
        row_status: "ARCHIVED".to_string(),
        content: content.to_string(),
        visibility: "PUBLIC".to_string(),
        pinned: 1,
        payload,
    }
}

fn original(name: Option<&str>) -> OriginalMemo {
    OriginalMemo {
        name: name.map(|n| n.to_string()),
        state: None,
        creator: None,
        create_time: None,
        update_time: None,
        content: Some("hello".to_string()),
        visibility: None,
        tags: None,
        pinned: None,
        attachments: None,
        relations: None,
        property: None,
        parent: None,
        location: None,
    }
}

#[test]
fn inbox_update_names_positive_ids_only() {
    let body = obj(vec![
        ("status", text("READ")),
        ("ids", Json::Array(vec![Json::Int(3), Json::Int(-1), text("x"), Json::Int(4)])),
    ]);
    let st = update_inbox_status(&body, &viewer(7, "USER"));
    assert_eq!(st.sql, "UPDATE inbox SET status = ? WHERE id IN (?,?) AND receiver_id = ?");
    assert_eq!(
        st.binds,
        vec![SqlValue::Text("READ".to_string()), SqlValue::Int(3), SqlValue::Int(4), SqlValue::Int(7)]
    );
    let st = update_inbox_status(&obj(vec![("status", text("DONE"))]), &viewer(7, "USER"));
    assert_eq!(st.sql, "UPDATE inbox SET status = ? WHERE receiver_id = ?");
    assert_eq!(st.binds, vec![SqlValue::Text("UNREAD".to_string()), SqlValue::Int(7)]);
}

#[test]
fn attachment_cleanup_reaches_only_unlinked_attachments() {
    let st = batch_delete_attachments(&obj(vec![]), &viewer(1, "ADMIN"));
    assert!(st.sql.ends_with("WHERE attachment.memo_id IS NULL LIMIT 100"));
    assert!(st.binds.is_empty());
    let body = obj(vec![("attachmentUids", Json::Array(vec![text(" a "), text(""), Json::Int(1)]))]);
    let st = batch_delete_attachments(&body, &viewer(7, "USER"));
    assert!(st.sql.ends_with("AND attachment.uid IN (?) AND attachment.creator_id = ?"));
    assert_eq!(st.binds, vec![SqlValue::Text("a".to_string()), SqlValue::Int(7)]);
}

#[test]
fn migration_request_normalizes_url_and_token() {
    let body = obj(vec![
        ("baseUrl", text(" https://memos.example.com/base/?x=1#top ")),
        ("accessToken", text(" tok ")),
    ]);
    let o = read_migration_request(&body).unwrap();
    assert_eq!(o.base_url, "https://memos.example.com/base");
    assert_eq!(o.access_token, "tok");
    assert!(!o.include_archived);
}

#[test]
fn migration_request_errors() {
    let e = read_migration_request(&obj(vec![("baseUrl", Json::Int(5))])).unwrap_err();
    assert_eq!((e.status, e.message.as_str()), (400, "Invalid JSON"));
    let e = read_migration_request(&Json::Array(vec![])).unwrap_err();
    assert_eq!(e.message, "Invalid JSON");
    let e = read_migration_request(&obj(vec![("baseUrl", text("not a url")), ("accessToken", text("t"))])).unwrap_err();
    assert_eq!(e.message, "Invalid Memos URL");
    let e = read_migration_request(&obj(vec![("baseUrl", text("ftp://x.example")), ("accessToken", text("t"))])).unwrap_err();
    assert_eq!(e.message, "Only http and https URLs are supported");
    let e = read_migration_request(&obj(vec![("baseUrl", text("https://x.example")), ("accessToken", text("  "))])).unwrap_err();
    assert_eq!(e.message, "Access token is required");
    let ok = read_migration_request(&obj(vec![
        ("baseUrl", text("http://x.example")),
        ("accessToken", text("t")),
        ("includeArchived", Json::Bool(true)),
    ]))
    .unwrap();
    assert!(ok.include_archived);
}

#[test]
fn original_backup_payload_and_reply() {
    let m = memo("hello", obj(vec![]));
    let p = original_backup_payload(&m, "2024-01-01T00:00:00.000Z", "2024-01-02T00:00:00.000Z");
    assert_eq!(
        p,
        obj(vec![
            ("state", text("ARCHIVED")),
            ("content", text("hello")),
            ("visibility", text("PUBLIC")),
            ("pinned", Json::Bool(true)),
            ("createTime", text("2024-01-01T00:00:00.000Z")),
            ("updateTime", text("2024-01-02T00:00:00.000Z")),
            ("displayTime", text("2024-01-01T00:00:00.000Z")),
        ])
    );
    assert_eq!(original_memos_endpoint("https://x.example"), "https://x.example/api/v1/memos");
    assert_eq!(create_original_backup_memo(200, &obj(vec![("name", text("memos/9"))])).unwrap(), "memos/9");
    assert_eq!(create_original_backup_memo(201, &obj(vec![])).unwrap(), "");
    let e = create_original_backup_memo(503, &obj(vec![])).unwrap_err();
    assert_eq!(e.message, "Original Memos API returned HTTP 503 while backing up");
}

#[test]
fn backed_up_memo_is_skipped_next_time() {
    let mut m = memo("hello", obj(vec![("tags", Json::Array(vec![]))]));
    assert!(!should_skip_original_backup(&m, "https://x.example"));
    m.payload = store_original_backup_marker(&m, "https://x.example", "memos/9", "2024-01-01T00:00:00.000Z");
    assert!(should_skip_original_backup(&m, "https://x.example"));
    assert!(!should_skip_original_backup(&m, "https://other.example"));
}

#[test]
fn original_backup_result_counts_memos() {
    let mut r = OriginalBackupResult::new(3);
    assert!(!r.truncated);
    let blank = memo("  ", obj(vec![]));
    let full = memo("hello", obj(vec![]));
    assert!(!r.record_memo(&blank, "https://x.example"));
    assert!(r.record_memo(&full, "https://x.example"));
    assert_eq!((r.memo_count, r.pushed, r.skipped, r.archived_count), (2, 1, 1, 2));
    assert!(OriginalBackupResult::new(10001).truncated);
    let st = list_local_memos_for_original_backup(7, false);
    assert!(st.sql.contains("memo.row_status = 'NORMAL'"));
    assert_eq!(st.binds, vec![SqlValue::Int(7), SqlValue::Int(10001)]);
}

#[test]
fn imported_name_lookups_are_sorted_distinct_and_chunked() {
    let memos = vec![original(Some("memos/b")), original(Some(" memos/a ")), original(Some("memos/b")), original(None)];
    let st = existing_imported_original_names(7, &memos);
    assert_eq!(st.len(), 1);
    assert!(st[0].sql.ends_with("IN (?,?)"));
    assert_eq!(
        st[0].binds,
        vec![SqlValue::Int(7), SqlValue::Text("memos/a".to_string()), SqlValue::Text("memos/b".to_string())]
    );
    let many: Vec<OriginalMemo> = (0..120).map(|i| original(Some(&format!("memos/{:03}", i)))).collect();
    let st = existing_imported_original_names(7, &many);
    assert_eq!(st.iter().map(|s| s.binds.len()).collect::<Vec<_>>(), vec![51, 51, 21]);
    assert!(existing_imported_original_names(7, &[original(None)]).is_empty());
}

#[test]
fn relation_rebuild_respects_the_cap() {
    let related: Vec<i64> = (100..114).collect();
    let (st, n) = apply_memo_relations(1, &related, true, &vec![]);
    assert_eq!(n, 12);
    assert_eq!(st.len(), 13);
    assert_eq!(st[0].sql, "DELETE FROM memo_relation WHERE memo_id = ? AND type = 'REFERENCE'");
    let (st, n) = apply_memo_relations(1, &vec![2, 3, 4], false, &vec![1, 1, 2]);
    assert_eq!(n, 2);
    assert_eq!(st[0].binds, vec![SqlValue::Int(1), SqlValue::Int(3)]);
    assert_eq!(st[1].binds, vec![SqlValue::Int(1), SqlValue::Int(4)]);
    let full: Vec<i64> = (1..13).collect();
    let (st, n) = apply_memo_relations(1, &vec![50], false, &full);
    assert_eq!((st.len(), n), (0, 0));
}

#[test]
fn rss_feed_escapes_memo_text() {
    let m = memo("# Title <b>\nbody & more", obj(vec![]));
    let item = rss_item(&m, "Mon, 01 Jan 2024 00:00:00 GMT");
    assert!(item.contains("<title>Title &lt;b&gt;</title>"));
    assert!(item.contains("<link>/memos/m_3</link>"));
    assert!(item.contains("<description># Title &lt;b&gt;\nbody &amp; more</description>"));
    let feed = generate_rss(&vec![item.clone()], Some("alice"), "now");
    assert!(feed.contains("<atom:link href=\"/api/v1/u/alice/rss.xml\""));
    assert!(feed.contains(&item));
    let (sql, binds) = rss_query(None);
    assert!(sql.ends_with("LIMIT 50"));
    assert!(binds.is_empty());
}

#[test]
fn memo_index_statements() {
    let payload = obj(vec![("tags", Json::Array(vec![text("a"), text("b"), text("a")]))]);
    let st = sync_memo_index_fields(5, "hi #a", &payload, 9);
    assert_eq!(st.len(), 4);
    assert_eq!(st[2].binds, vec![SqlValue::Int(5), SqlValue::Text("a".to_string())]);
    assert_eq!(st[3].binds, vec![SqlValue::Int(5), SqlValue::Text("b".to_string())]);
    assert!(delete_memo_indexes(&vec![]).is_empty());
    let st = delete_memo_indexes(&vec![1, 2]);
    assert_eq!(st[0].sql, "DELETE FROM memo_search WHERE memo_id IN (?,?)");
    let st = purge_ids(&vec![4], 77);
    assert_eq!(st.len(), 3);
    assert_eq!(st[0].binds, vec![SqlValue::Int(77), SqlValue::Int(4)]);
    assert_eq!(st[1].sql, "DELETE FROM memo_relation WHERE memo_id IN (?) OR related_memo_id IN (?)");
}

#[test]
fn backup_keys_and_health() {
    assert_eq!(backup_key("2024-01-02T03:04:05.678Z"), "backups/memos-2024-01-02T03-04-05-678Z.json");
    let listed = vec![
        ("backups/a.json".to_string(), 1, "2024-01-01".to_string()),
        ("backups/c.json".to_string(), 3, "2024-03-01".to_string()),
        ("backups/b.json".to_string(), 2, "2024-03-01".to_string()),
    ];
    let h = backup_health(&listed, Json::Null);
    assert_eq!(
        h,
        obj(vec![
            ("r2Available", Json::Bool(true)),
            ("count", Json::Int(3)),
            (
                "latest",
                obj(vec![("key", text("backups/c.json")), ("size", Json::Int(3)), ("uploaded", text("2024-03-01"))])
            ),
            ("encryption", Json::Null),
        ])
    );
    let h = backup_health(&vec![], Json::Null);
    assert_eq!(
        h,
        obj(vec![
            ("r2Available", Json::Bool(true)),
            ("count", Json::Int(0)),
            ("latest", Json::Null),
            ("encryption", Json::Null),
        ])
    );
}

#[test]
fn backup_source_prefers_inline_payload() {
    match backup_payload_source(&obj(vec![("payload", obj(vec![])), ("key", text("x"))])).unwrap() {
        BackupSource::Inline(p) => assert_eq!(p, obj(vec![])),
        BackupSource::Stored(_) => panic!("expected the inline payload"),
    }
    match backup_payload_source(&obj(vec![("key", text("backups/a.json"))])).unwrap() {
        BackupSource::Stored(k) => assert_eq!(k, "backups/a.json"),
        BackupSource::Inline(_) => panic!("expected a stored key"),
    }
    let e = backup_payload_source(&obj(vec![("key", text("../a.json"))])).unwrap_err();
    assert_eq!((e.status, e.message.as_str()), (400, "Invalid backup key"));
}

#[test]
fn session_cookie_reads_back() {
    let set = cookie("memos_access", "token-value", 900, true);
    let sent = set.split(';').next().unwrap();
    let parsed = parse_cookies(&format!("theme=dark; {}", sent));
    assert_eq!(cookie_value(&parsed, "memos_access"), Some("token-value".to_string()));
}

#[test]
fn reconnecting_stream_resumes_after_the_last_id() {
    let frame = format_sse_event(Some(42), Some("memo.updated"), &obj(vec![])).unwrap();
    let id_line = frame.lines().next().unwrap();
    let id = id_line.strip_prefix("id: ").unwrap();
    assert_eq!(sse_since_id_from(Some(id), Some("7".to_string())), Some(42));
}

#[test]
fn encrypted_backup_envelope_reads_back() {
    let env = encrypted_backup_envelope("k1", &[1, 2, 3], &[9, 8, 7, 6]);
    assert!(is_encrypted_backup(&env));
    assert_eq!(encrypted_backup_parts(&env).unwrap(), (vec![1, 2, 3], vec![9, 8, 7, 6]));
    let plain = obj(vec![("memos", Json::Array(vec![]))]);
    assert!(!is_encrypted_backup(&plain));
    let e = encrypted_backup_parts(&plain).unwrap_err();
    assert_eq!((e.status, e.message.as_str()), (400, "Unsupported backup encryption"));
    let bad = obj(vec![("algorithm", text("AES-256-GCM")), ("iv", text("***")), ("data", text("AA"))]);
    assert_eq!(encrypted_backup_parts(&bad).unwrap_err().message, "Invalid encrypted backup");
}

#[test]
fn backup_cipher_key_is_the_secret_digest() {
    let key = backup_cipher_key("secret");
    let hex: String = key.iter().map(|b| format!("{:02x}", b)).collect();
    assert_eq!(hex, "2bb80d537b1da3e38bd30361aa855686bde0eacd7162fef6a25fe97bf527a25b");
}

#[test]
fn attachments_are_cached_only_when_public() {
    let mut a = DbAttachment {
        id: 1,
        uid: "a_1".to_string(),
        creator_id: 7,
        created_ts: 1,
        filename: "photo.png".to_string(),
        file_type: String::new(),
        size: 3,
        memo_id: Some(2),
        reference: "attachments/7/a_1/photo.png".to_string(),
        memo_visibility: Some("PUBLIC".to_string()),
        memo_creator_id: Some(7),
    };
    let h = attachment_download_headers(&a);
    assert_eq!(
        h.entries,
        vec![
            ("Content-Type".to_string(), "application/octet-stream".to_string()),
            ("Content-Disposition".to_string(), "inline; filename=\"photo.png\"".to_string()),
            ("Cache-Control".to_string(), "public, max-age=3600".to_string()),
        ]
    );
    a.memo_visibility = Some("PRIVATE".to_string());
    a.file_type = "image/png".to_string();
    let h = attachment_download_headers(&a);
    assert_eq!(h.entries[0].1, "image/png");
    assert_eq!(h.entries[2].1, "private, no-store");
}

#[test]
fn original_pages_read_memos_and_next_token() {
    let data = obj(vec![
        ("memos", Json::Array(vec![obj(vec![("name", text("memos/1"))])])),
        ("nextPageToken", text("abc")),
    ]);
    let (items, next) = fetch_original_memos_page(200, &data).unwrap();
    assert_eq!(items.len(), 1);
    assert_eq!(next, "abc");
    let (items, next) = fetch_original_memos_page(204, &obj(vec![])).unwrap();
    assert!(items.is_empty());
    assert_eq!(next, "");
    let e = fetch_original_memos_page(401, &data).unwrap_err();
    assert_eq!((e.status, e.message.as_str()), (400, "Original Memos API returned HTTP 401"));
}

#[test]
fn pages_are_collected_up_to_the_limit() {
    let mut all: Vec<OriginalMemo> = Vec::new();
    assert!(!collect_page(&mut all, vec![original(Some("a")), original(Some("b"))]));
    assert_eq!(all.len(), 2);
    let big: Vec<OriginalMemo> = (0..9999).map(|i| original(Some(&format!("memos/{}", i)))).collect();
    assert!(collect_page(&mut all, big));
    assert_eq!(all.len(), 10000);
    assert_eq!(all[2].name.as_deref(), Some("memos/0"));
}

#[test]
fn candidate_overlap_counts_shared_tags_and_keywords() {
    let current_tags = vec!["memos".to_string(), "graph".to_string()];
    let current_keywords = vec!["import".to_string(), "memos".to_string()];
    let candidate = RelationCandidate {
        uid: "m_related".to_string(),
        content: "Memos import done".to_string(),
        payload: obj(vec![("tags", Json::Array(vec![text("memos"), text("other")]))]),
        updated_ts: 1,
    };
    assert_eq!(candidate_overlap("m_current", &current_tags, &current_keywords, &candidate), Some((1, 2)));
    assert_eq!(candidate_overlap("m_related", &current_tags, &current_keywords, &candidate), None);
    let blank = RelationCandidate { uid: "m_x".to_string(), content: "  ".to_string(), payload: obj(vec![]), updated_ts: 1 };
    assert_eq!(candidate_overlap("m_current", &current_tags, &current_keywords, &blank), None);
}

#[test]
fn security_headers_twice_equal_once() {
    let mut once = HeaderList::new();
    once.set("Content-Type", "text/plain");
    once.set("X-Frame-Options", "SAMEORIGIN");
    let mut twice = HeaderList::new();
    twice.set("Content-Type", "text/plain");
    twice.set("X-Frame-Options", "SAMEORIGIN");
    apply_security_headers(&mut once);
    apply_security_headers(&mut twice);
    apply_security_headers(&mut twice);
    assert_eq!(once.entries, twice.entries);
    assert_eq!(once.entries[0].0, "Content-Type");
}

fn pairs(items: &[(&str, &str)]) -> Vec<(String, String)> {
    items.iter().map(|(k, v)| (k.to_string(), v.to_string())).collect()
}

#[test]
fn memo_list_query_filters_for_the_viewer() {
    let q = memo_list_query(
        &pairs(&[("pageSize", "500"), ("page_token", "40"), ("visibility", "public"), ("tag", "work")]),
        &viewer(7, "USER"),
    )
    .unwrap();
    assert_eq!((q.limit, q.offset), (200, 40));
    assert_eq!(
        q.sql,
        "SELECT memo.*, \"user\".username AS creator_username, \"user\".nickname AS creator_nickname FROM memo JOIN \"user\" ON \"user\".id = memo.creator_id WHERE memo.row_status = ? AND (memo.visibility != 'PRIVATE' OR memo.creator_id = ?) AND memo.visibility = ? AND EXISTS (SELECT 1 FROM json_each(memo.payload, '$.tags') WHERE value = ?) ORDER BY memo.pinned DESC, memo.created_ts DESC, memo.id DESC LIMIT ? OFFSET ?"
    );
    assert_eq!(
        q.binds,
        vec![
            SqlValue::Text("NORMAL".to_string()),
            SqlValue::Int(7),
            SqlValue::Text("PUBLIC".to_string()),
            SqlValue::Text("work".to_string()),
            SqlValue::Int(201),
            SqlValue::Int(40),
        ]
    );
    let q = memo_list_query(&pairs(&[("filter", "content.contains(\"50%\")")]), &viewer(1, "ADMIN")).unwrap();
    assert!(q.sql.contains("memo.content LIKE ? ESCAPE '\\'"));
    assert_eq!(q.binds[1], SqlValue::Text("%50\\%%".to_string()));
    assert_eq!((q.limit, q.offset), (20, 0));
    let e = memo_list_query(&pairs(&[("state", "GONE")]), &viewer(1, "ADMIN")).unwrap_err();
    assert_eq!(e.status, 400);
}

#[test]
fn next_page_token_continues_the_listing() {
    let token = next_page_token(40, 20, true);
    let q = memo_list_query(&pairs(&[("pageToken", token.as_str())]), &viewer(1, "ADMIN")).unwrap();
    assert_eq!(q.offset, 60);
}

#[test]
fn restored_rows_bind_json_values() {
    assert_eq!(json_bind(Some(&text("a"))), SqlValue::Text("a".to_string()));
    assert_eq!(json_bind(Some(&Json::Int(5))), SqlValue::Int(5));
    assert_eq!(
        json_bind(Some(&Json::Int(18446744073709551615))),
        SqlValue::Number("18446744073709551615".to_string())
    );
    assert_eq!(json_bind(Some(&Json::Num("1.5".to_string()))), SqlValue::Number("1.5".to_string()));
    assert_eq!(json_bind(Some(&Json::Bool(true))), SqlValue::Int(1));
    assert_eq!(json_bind(None), SqlValue::Null);
    assert_eq!(json_bind(Some(&obj(vec![("k", Json::Int(1))]))), SqlValue::Text("{\"k\":1}".to_string()));
    let item = obj(vec![("id", Json::Int(9)), ("uid", text("m_9")), ("payload", obj(vec![]))]);
    assert_eq!(
        restored_memo_values(&item),
        vec![
            SqlValue::Int(9),
            SqlValue::Text("m_9".to_string()),
            SqlValue::Null,
            SqlValue::Null,
            SqlValue::Null,
            SqlValue::Text("NORMAL".to_string()),
            SqlValue::Text(String::new()),
            SqlValue::Text("PRIVATE".to_string()),
            SqlValue::Null,
            SqlValue::Text("{}".to_string()),
        ]
    );
}
