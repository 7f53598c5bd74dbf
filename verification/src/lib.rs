//! Verified core of a lightweight Memos server: the text handling, payload
//! building, access rules and request classification behind its HTTP API.
pub mod text;
pub mod json;
pub mod models;
pub mod error;
pub mod inbox;
pub mod unicode;
pub mod attachments;
pub mod access;
pub mod cookies;
pub mod http;
pub mod headers;
pub mod domain;
pub mod ai;
pub mod events;
pub mod sse;
pub mod routes;
pub mod payloads;
pub mod crypto;
pub mod jwt;
pub mod backups;
pub mod relations;
pub mod keywords;
pub mod ranking;
pub mod migration;
pub mod dispatch;
pub mod listing;
pub mod bulk;
pub mod imports;
pub mod session;
pub mod workflow;
pub mod memo_edits;
pub mod accounts;
pub mod calendar;
pub mod rss;
pub mod memo_index;
