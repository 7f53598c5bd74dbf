use vstd::prelude::*;
use crate::json::Json;

verus! {

/// A memo row joined with its creator.
#[derive(Debug)]
pub struct DbMemo {
    pub id: i64,
    pub uid: String,
    pub creator_id: i64,
    pub creator_username: String,
    pub creator_nickname: String,
    pub created_ts: i64,
    pub updated_ts: i64,
    pub row_status: String,
    pub content: String,
    pub visibility: String,
    pub pinned: i64,
    /// The memo's stored payload document (an empty object where the stored
    /// text does not parse).
    pub payload: Json,
}

/// A user row.
#[derive(Debug)]
pub struct DbUser {
    pub id: i64,
    pub username: String,
    pub role: String,
    pub email: String,
    pub nickname: String,
    pub password_hash: String,
    pub avatar_url: String,
    pub description: String,
    pub row_status: String,
}

/// What the API shows of a user.
#[derive(Debug, PartialEq)]
pub struct PublicUser {
    pub id: i64,
    pub username: String,
    pub role: String,
    pub nickname: String,
    pub email: String,
    pub avatar_url: String,
    pub description: String,
}

/// An attachment row joined with the memo it belongs to.
#[derive(Debug)]
pub struct DbAttachment {
    pub id: i64,
    pub uid: String,
    pub creator_id: i64,
    pub created_ts: i64,
    pub filename: String,
    pub file_type: String,
    pub size: i64,
    pub memo_id: Option<i64>,
    pub reference: String,
    pub memo_visibility: Option<String>,
    pub memo_creator_id: Option<i64>,
}

/// The signed-in user a request acts for.
#[derive(Debug)]
pub struct Viewer {
    pub id: i64,
    pub role: String,
}

/// A stored memo event.
#[derive(Debug)]
pub struct DbMemoEvent {
    pub id: i64,
    pub event_type: String,
    pub name: String,
    pub visibility: String,
    pub creator_id: i64,
    /// The stored event payload (an empty object where the stored text does not parse).
    pub payload: Json,
}

/// A webhook row.
#[derive(Debug)]
pub struct DbWebhook {
    pub id: i64,
    pub created_ts: i64,
    pub updated_ts: i64,
    pub row_status: String,
    pub name: String,
    pub url: String,
}

/// A webhook delivery row joined with its webhook.
#[derive(Debug)]
pub struct DbWebhookDelivery {
    pub id: i64,
    pub webhook_id: i64,
    pub created_ts: i64,
    pub event: String,
    pub status: String,
    pub status_code: Option<i64>,
    pub duration_ms: i64,
    pub error: String,
    pub request_body: String,
    pub response_body: String,
    pub webhook_name: Option<String>,
    pub webhook_url: Option<String>,
}

/// An inbox row joined with its sender.
#[derive(Debug)]
pub struct DbInboxRow {
    pub id: i64,
    pub created_ts: i64,
    pub sender_id: Option<i64>,
    pub status: String,
    /// The stored message document, or nothing where the stored text does not parse.
    pub message: Option<Json>,
    pub sender_username: Option<String>,
    pub sender_nickname: Option<String>,
}

/// The AI model settings.
#[derive(Debug, PartialEq)]
pub struct AiSettings {
    pub base_url: String,
    pub model: String,
    pub api_key: String,
}

/// A backup written to storage.
#[derive(Debug, PartialEq)]
pub struct BackupArtifact {
    pub key: String,
    pub size: usize,
}

/// One backup encryption key.
#[derive(Debug, PartialEq)]
pub struct BackupEncryptionKey {
    pub id: String,
    pub secret: String,
}

/// Counts that describe the state of the memo search and tag indexes.
#[derive(Debug)]
pub struct MemoIndexHealth {
    pub memo_count: i64,
    pub search_count: i64,
    pub missing_search_count: i64,
    pub orphan_search_count: i64,
    pub tag_count: i64,
    pub orphan_tag_count: i64,
    pub healthy: bool,
}

} // verus!
