use vstd::prelude::*;
use crate::text::{chars_of, string_of, push_str, push_int, trim, trim_str, int_text, str_eq};
use crate::json::{Json, JsonView, json_get, json_as_str, get_field, as_str};
use crate::imports::{as_i64, opt_json};
use crate::access::{truncate, truncated};
use crate::attachments::{sanitize_filename, sanitized_filename};
use crate::migration::{OriginalMemo, original_state, normalize_original_state, opt_len, opt_string_seq};
use crate::relations::strings_view;
use crate::error::{AppError, is_error};

verus! {

/// The largest upload accepted, in bytes.
pub const MAX_UPLOAD_BYTES: usize = 26214400;

/// What an accepted upload is stored as.
#[derive(Debug)]
pub struct UploadPlan {
    /// The memo to attach it to, when the form names one.
    pub memo_uid: Option<String>,
    pub filename: String,
    pub file_type: String,
    /// The name kept in the stored object's metadata.
    pub original_name: String,
    pub content_disposition: String,
}

pub open spec fn upload_filename(original: Seq<char>) -> Seq<char> {
    sanitized_filename(if original.len() == 0 {
        "attachment"@
    } else {
        original
    })
}

/// An upload: refused with 413 above 25 MiB; otherwise stored under its sanitized
/// name (`attachment` when it has none), with its type (`application/octet-stream`
/// when it has none), attached to the memo the form names (trimmed, when not blank).
pub fn upload_plan(size: usize, original_filename: &str, file_type: &str, memo_uid: Option<&str>) -> (r: Result<UploadPlan, AppError>)
    ensures
        size > MAX_UPLOAD_BYTES <==> r is Err,
        r matches Err(e) ==> is_error(e, 413, "file is too large"@),
        r matches Ok(p) ==> {
            &&& p.filename@ == upload_filename(original_filename@)
            &&& p.file_type@ == if file_type@.len() == 0 {
                "application/octet-stream"@
            } else {
                file_type@
            }
            &&& p.original_name@ == if original_filename@.len() == 0 {
                upload_filename(original_filename@)
            } else {
                original_filename@
            }
            &&& p.content_disposition@ == "inline; filename=\""@ + upload_filename(original_filename@) + "\""@
            &&& crate::json::opt_string(p.memo_uid) == match memo_uid {
                Some(m) => if trim(m@).len() > 0 {
                    Some(trim(m@))
                } else {
                    None
                },
                None => None,
            }
        },
{
    if size > MAX_UPLOAD_BYTES {
        return Err(AppError::new(413, "file is too large"));
    }
    let memo = match memo_uid {
        Some(m) => {
            let t = trim_str(m);
            if t.as_str().unicode_len() > 0 {
                Some(t)
            } else {
                None
            }
        },
        None => None,
    };
    let original_empty = original_filename.unicode_len() == 0;
    let filename = sanitize_filename(if original_empty {
        "attachment"
    } else {
        original_filename
    });
    let kind = if file_type.unicode_len() == 0 {
        "application/octet-stream".to_owned()
    } else {
        file_type.to_owned()
    };
    let original_name = if original_empty {
        filename.clone()
    } else {
        original_filename.to_owned()
    };
    let mut d: Vec<char> = Vec::new();
    push_str(&mut d, "inline; filename=\"");
    push_str(&mut d, filename.as_str());
    push_str(&mut d, "\"");
    proof {
        assert(d@ =~= "inline; filename=\""@ + filename@ + "\""@);
    }
    Ok(UploadPlan { memo_uid: memo, filename, file_type: kind, original_name, content_disposition: string_of(&d) })
}

/// What a webhook delivery is recorded as: `SUCCESS` for a 2xx answer, else
/// `FAILED`, with the transport error, or `HTTP {code}` for other answers.
pub open spec fn delivery_status(status_code: Option<int>) -> Seq<char> {
    match status_code {
        Some(c) => if 200 <= c < 300 {
            "SUCCESS"@
        } else {
            "FAILED"@
        },
        None => "FAILED"@,
    }
}

pub open spec fn delivery_error(status_code: Option<int>, transport_error: Option<Seq<char>>) -> Seq<char> {
    match transport_error {
        Some(e) => e,
        None => match status_code {
            Some(c) => if 200 <= c < 300 {
                Seq::empty()
            } else {
                "HTTP "@ + int_text(c)
            },
            None => Seq::empty(),
        },
    }
}

/// A delivery as stored: status, error, and the texts cut to their column limits
/// (event 200, error 1000, request 12000, response 4000 characters).
#[derive(Debug)]
pub struct DeliveryRecord {
    pub status: String,
    pub event: String,
    pub error: String,
    pub request_body: String,
    pub response_body: String,
}

pub fn delivery_record(event: &str, status_code: Option<i64>, transport_error: Option<&str>, request_body: &str, response_body: &str) -> (r: DeliveryRecord)
    ensures
        r.status@ == delivery_status(crate::json::opt_i64(status_code)),
        r.error@ == truncated(delivery_error(crate::json::opt_i64(status_code), crate::sse::opt_str_seq(transport_error)), 1000),
        r.event@ == truncated(event@, 200),
        r.request_body@ == truncated(request_body@, 12000),
        r.response_body@ == truncated(response_body@, 4000),
{
    let ok = match status_code {
        Some(c) => 200 <= c && c < 300,
        None => false,
    };
    let status = if ok {
        "SUCCESS"
    } else {
        "FAILED"
    };
    let error = match transport_error {
        Some(e) => e.to_owned(),
        None => match status_code {
            Some(c) => if ok {
                let e = String::new();
                proof {
                    assert(e@ =~= Seq::<char>::empty());
                }
                e
            } else {
                let mut v: Vec<char> = Vec::new();
                push_str(&mut v, "HTTP ");
                push_int(&mut v, c as i128);
                proof {
                    assert(v@ =~= "HTTP "@ + int_text(c as int));
                }
                string_of(&v)
            },
            None => {
                let e = String::new();
                proof {
                    assert(e@ =~= Seq::<char>::empty());
                }
                e
            },
        },
    };
    DeliveryRecord {
        status: status.to_owned(),
        event: truncate(event, 200),
        error: truncate(error.as_str(), 1000),
        request_body: truncate(request_body, 12000),
        response_body: truncate(response_body, 4000),
    }
}

/// The most memos one migration takes.
pub const MIGRATION_MAX_MEMOS: usize = 10000;

/// How many memos one page of the original server's list asks for.
pub const MIGRATION_PAGE_SIZE: usize = 100;

/// Where a migration from the original server stands.
#[derive(Debug)]
pub struct MigrationProgress {
    pub phase: String,
    pub processed: usize,
    pub imported: usize,
    pub skipped: usize,
    pub memo_count: usize,
    pub attachment_count: usize,
    pub relation_count: usize,
    pub archived_count: usize,
    pub truncated: bool,
    pub state: Option<String>,
}

impl MigrationProgress {
    /// Every memo counted so far is either imported or skipped once handled, and the
    /// counts stay within the migration limit.
    pub open spec fn wf(&self) -> bool {
        &&& self.imported + self.skipped == self.processed
        &&& self.processed <= self.memo_count
        &&& self.archived_count <= self.memo_count
        &&& self.memo_count <= MIGRATION_MAX_MEMOS
        &&& self.truncated ==> self.memo_count == MIGRATION_MAX_MEMOS
    }

    /// A page is about to be fetched for `state`.
    pub fn begin_page(&mut self, state: &str)
        requires
            old(self).wf(),
        ensures
            final(self).wf(),
            final(self).phase@ == "fetching"@,
            final(self).state matches Some(s) && s@ == state@,
            final(self).processed == old(self).processed && final(self).imported == old(self).imported,
            final(self).skipped == old(self).skipped && final(self).memo_count == old(self).memo_count,
            final(self).attachment_count == old(self).attachment_count,
            final(self).relation_count == old(self).relation_count,
            final(self).archived_count == old(self).archived_count,
            final(self).truncated == old(self).truncated,
    {
        self.phase = "fetching".to_owned();
        self.state = Some(state.to_owned());
    }

    /// The fetched page's memos are about to be imported.
    pub fn begin_import(&mut self)
        requires
            old(self).wf(),
        ensures
            final(self).wf(),
            final(self).phase@ == "importing"@,
            final(self).state == old(self).state,
            final(self).processed == old(self).processed && final(self).imported == old(self).imported,
            final(self).skipped == old(self).skipped && final(self).memo_count == old(self).memo_count,
            final(self).attachment_count == old(self).attachment_count,
            final(self).relation_count == old(self).relation_count,
            final(self).archived_count == old(self).archived_count,
            final(self).truncated == old(self).truncated,
    {
        self.phase = "importing".to_owned();
    }

    /// Every page has been read: the migration is done.
    pub fn finish(&mut self)
        requires
            old(self).wf(),
        ensures
            final(self).wf(),
            final(self).phase@ == "done"@,
            final(self).state == old(self).state,
            final(self).processed == old(self).processed && final(self).imported == old(self).imported,
            final(self).skipped == old(self).skipped && final(self).memo_count == old(self).memo_count,
            final(self).attachment_count == old(self).attachment_count,
            final(self).relation_count == old(self).relation_count,
            final(self).archived_count == old(self).archived_count,
            final(self).truncated == old(self).truncated,
    {
        self.phase = "done".to_owned();
    }

    /// A migration about to fetch its first page.
    pub fn new() -> (p: MigrationProgress)
        ensures
            p.wf(),
            p.phase@ == "fetching"@,
            p.processed == 0 && p.imported == 0 && p.skipped == 0 && p.memo_count == 0,
            p.attachment_count == 0 && p.relation_count == 0 && p.archived_count == 0,
            !p.truncated,
            p.state is None,
    {
        MigrationProgress {
            phase: "fetching".to_owned(),
            processed: 0,
            imported: 0,
            skipped: 0,
            memo_count: 0,
            attachment_count: 0,
            relation_count: 0,
            archived_count: 0,
            truncated: false,
            state: None,
        }
    }

    /// Counts one fetched memo: its attachments, relations and archived state. At
    /// the migration limit nothing is counted, the migration is marked truncated,
    /// and `false` says to stop.
    pub fn count_memo(&mut self, memo: &OriginalMemo) -> (counted: bool)
        requires
            old(self).wf(),
            old(self).attachment_count + opt_len(memo.attachments) <= usize::MAX,
            old(self).relation_count + opt_len(memo.relations) <= usize::MAX,
        ensures
            final(self).wf(),
            counted == (old(self).memo_count < MIGRATION_MAX_MEMOS),
            final(self).processed == old(self).processed,
            final(self).imported == old(self).imported,
            final(self).skipped == old(self).skipped,
            final(self).phase == old(self).phase,
            final(self).state == old(self).state,
            counted ==> counted_step(*old(self), *final(self)),
            counted ==> {
                &&& final(self).memo_count == old(self).memo_count + 1
                &&& final(self).attachment_count == old(self).attachment_count + opt_len(memo.attachments)
                &&& final(self).relation_count == old(self).relation_count + opt_len(memo.relations)
                &&& final(self).archived_count == old(self).archived_count + if original_state(
                    opt_string_seq(memo.state),
                ) == "ARCHIVED"@ {
                    1int
                } else {
                    0int
                }
                &&& final(self).truncated == old(self).truncated
            },
            !counted ==> {
                &&& final(self).truncated
                &&& final(self).memo_count == old(self).memo_count
                &&& final(self).attachment_count == old(self).attachment_count
                &&& final(self).relation_count == old(self).relation_count
                &&& final(self).archived_count == old(self).archived_count
            },
    {
        if self.memo_count >= MIGRATION_MAX_MEMOS {
            self.truncated = true;
            return false;
        }
        let attachments: usize = match &memo.attachments {
            Some(v) => v.len(),
            None => 0,
        };
        let relations: usize = match &memo.relations {
            Some(v) => v.len(),
            None => 0,
        };
        let state = match &memo.state {
            Some(s) => normalize_original_state(Some(s.as_str())),
            None => normalize_original_state(None),
        };
        self.memo_count = self.memo_count + 1;
        self.attachment_count = self.attachment_count + attachments;
        self.relation_count = self.relation_count + relations;
        if str_eq(state.as_str(), "ARCHIVED") {
            self.archived_count = self.archived_count + 1;
        }
        true
    }

    /// Records the outcome of one counted memo.
    pub fn record_outcome(&mut self, imported: bool)
        requires
            old(self).wf(),
            old(self).processed < old(self).memo_count,
        ensures
            final(self).wf(),
            recorded_step(*old(self), imported, *final(self)),
            final(self).processed == old(self).processed + 1,
            final(self).imported == old(self).imported + if imported {
                1int
            } else {
                0int
            },
            final(self).skipped == old(self).skipped + if imported {
                0int
            } else {
                1int
            },
            final(self).memo_count == old(self).memo_count,
            final(self).attachment_count == old(self).attachment_count,
            final(self).relation_count == old(self).relation_count,
            final(self).archived_count == old(self).archived_count,
            final(self).truncated == old(self).truncated,
    {
        if imported {
            self.imported = self.imported + 1;
        } else {
            self.skipped = self.skipped + 1;
        }
        self.processed = self.processed + 1;
    }
}

/// A progress that can be reported: every memo counted so far has been handled,
/// as imported or skipped, and the counts keep the migration's bounds.
pub open spec fn reportable(p: MigrationProgress) -> bool {
    &&& p.wf()
    &&& p.processed == p.memo_count
}

/// `after` is `before` with one more fetched memo counted.
pub open spec fn counted_step(before: MigrationProgress, after: MigrationProgress) -> bool {
    &&& after.wf()
    &&& after.memo_count == before.memo_count + 1
    &&& after.processed == before.processed
    &&& after.imported == before.imported
    &&& after.skipped == before.skipped
}

/// `after` is `before` with the outcome of one counted memo recorded.
pub open spec fn recorded_step(before: MigrationProgress, imported: bool, after: MigrationProgress) -> bool {
    &&& after.wf()
    &&& after.processed == before.processed + 1
    &&& after.memo_count == before.memo_count
    &&& after.imported == before.imported + if imported { 1int } else { 0int }
    &&& after.skipped == before.skipped + if imported { 0int } else { 1int }
}

/// Each memo of a migration is counted, then its outcome recorded; a progress
/// that could be reported before the memo can be reported after it: processed,
/// imported plus skipped and the memo count agree, within the migration limit,
/// with no more archived memos than memos.
pub proof fn lemma_memo_keeps_reportable(p0: MigrationProgress, p1: MigrationProgress, imported: bool, p2: MigrationProgress)
    requires
        reportable(p0),
        counted_step(p0, p1),
        recorded_step(p1, imported, p2),
    ensures
        reportable(p2),
        p2.processed == p2.imported + p2.skipped,
        p2.memo_count <= MIGRATION_MAX_MEMOS,
        p2.archived_count <= p2.memo_count,
        p2.processed == p0.processed + 1,
{
}

fn listed(v: &Vec<String>, s: &str) -> (b: bool)
    ensures
        b == strings_view(v@).contains(s@),
{
    let mut i: usize = 0;
    while i < v.len()
        invariant
            i <= v@.len(),
            forall|j: int| 0 <= j < i ==> v@[j]@ != s@,
        decreases v.len() - i,
    {
        if str_eq(v[i].as_str(), s) {
            proof {
                assert(strings_view(v@)[i as int] == s@);
            }
            return true;
        }
        i = i + 1;
    }
    proof {
        if strings_view(v@).contains(s@) {
            let k = choose|k: int| 0 <= k < strings_view(v@).len() && strings_view(v@)[k] == s@;
            assert(v@[k]@ == s@);
        }
    }
    false
}

/// A named original memo already here: imported before, or earlier in this run.
pub fn already_imported(original_name: &str, existing: &Vec<String>, imported: &Vec<String>) -> (b: bool)
    ensures
        b == (original_name@.len() > 0 && (strings_view(existing@).contains(original_name@)
            || strings_view(imported@).contains(original_name@))),
{
    original_name.unicode_len() > 0 && (listed(existing, original_name) || listed(imported, original_name))
}

/// After a page: stop when the migration is truncated or there is no next page; a
/// next page token equal to the one just used is refused with 400; otherwise
/// continue with it.
pub fn next_page_step(truncated: bool, next_token: &str, previous_token: &str) -> (r: Result<Option<String>, AppError>)
    ensures
        (truncated || next_token@.len() == 0) ==> r matches Ok(None),
        !(truncated || next_token@.len() == 0) ==> match r {
            Ok(Some(t)) => t@ == next_token@ && next_token@ != previous_token@,
            Ok(None) => false,
            Err(e) => next_token@ == previous_token@ && is_error(e, 400, "Original Memos API returned a repeated page token"@),
        },
{
    if truncated || next_token.unicode_len() == 0 {
        return Ok(None);
    }
    if str_eq(next_token, previous_token) {
        return Err(AppError::new(400, "Original Memos API returned a repeated page token"));
    }
    Ok(Some(next_token.to_owned()))
}

/// A relation rebuild request: where to resume (not below 0), how many memos per
/// batch (8 unless given, kept within 1 to 16), whether to replace existing
/// relations (`mode` is `replace`), and the totals of earlier batches.
#[derive(Debug)]
pub struct RebuildRequest {
    pub cursor: i64,
    pub batch_size: i64,
    pub replace_existing: bool,
    pub accumulated_created: u64,
    pub accumulated_updated: u64,
    pub accumulated_skipped: u64,
}

pub open spec fn as_u64(v: Option<JsonView>) -> Option<int> {
    match v {
        Some(JsonView::Int(n)) => if 0 <= n <= u64::MAX {
            Some(n)
        } else {
            None
        },
        _ => None,
    }
}

pub open spec fn clamp(n: int, lo: int, hi: int) -> int {
    if n < lo {
        lo
    } else if n > hi {
        hi
    } else {
        n
    }
}

fn field_i64(body: &Json, key: &str) -> (r: Option<i64>)
    ensures
        crate::json::opt_i64(r) == as_i64(json_get(body@, key@)),
{
    match get_field(body, key) {
        Some(Json::Int(n)) => if i64::MIN as i128 <= *n && *n <= i64::MAX as i128 {
            Some(*n as i64)
        } else {
            None
        },
        _ => None,
    }
}

fn field_u64(body: &Json, key: &str) -> (r: u64)
    ensures
        r == match as_u64(json_get(body@, key@)) {
            Some(n) => n,
            None => 0,
        },
{
    match get_field(body, key) {
        Some(Json::Int(n)) => if 0 <= *n && *n <= u64::MAX as i128 {
            *n as u64
        } else {
            0
        },
        _ => 0,
    }
}

pub fn rebuild_request(body: &Json) -> (r: RebuildRequest)
    ensures
        r.cursor == (match as_i64(json_get(body@, "cursor"@)) {
            Some(n) => if n < 0 { 0 } else { n },
            None => 0,
        }),
        r.batch_size == clamp(
            match as_i64(json_get(body@, "batchSize"@)) {
                Some(n) => n,
                None => 8,
            },
            1,
            16,
        ),
        r.replace_existing == (json_as_str(json_get(body@, "mode"@)) == Some("replace"@)),
        r.accumulated_created == (match as_u64(json_get(body@, "accumulatedCreated"@)) {
            Some(n) => n,
            None => 0,
        }),
        r.accumulated_updated == (match as_u64(json_get(body@, "accumulatedUpdated"@)) {
            Some(n) => n,
            None => 0,
        }),
        r.accumulated_skipped == (match as_u64(json_get(body@, "accumulatedSkipped"@)) {
            Some(n) => n,
            None => 0,
        }),
{
    let cursor = match field_i64(body, "cursor") {
        Some(n) => if n < 0 {
            0
        } else {
            n
        },
        None => 0,
    };
    let size = match field_i64(body, "batchSize") {
        Some(n) => n,
        None => 8,
    };
    let batch_size: i64 = if size < 1 {
        1
    } else if size > 16 {
        16
    } else {
        size
    };
    let replace_existing = match as_str(get_field(body, "mode")) {
        Some(m) => str_eq(m.as_str(), "replace"),
        None => false,
    };
    RebuildRequest {
        cursor,
        batch_size,
        replace_existing,
        accumulated_created: field_u64(body, "accumulatedCreated"),
        accumulated_updated: field_u64(body, "accumulatedUpdated"),
        accumulated_skipped: field_u64(body, "accumulatedSkipped"),
    }
}

/// A rebuild is done when its batch came back short or every memo has been
/// processed; only an unfinished rebuild hands out the cursor to resume from.
pub fn rebuild_step(batch_processed: i64, batch_size: i64, processed: i64, total: i64, last_id: Option<i64>) -> (r: (bool, Option<i64>))
    ensures
        r.0 == (batch_processed < batch_size || processed >= total),
        r.1 == if r.0 {
            None
        } else {
            last_id
        },
{
    let done = batch_processed < batch_size || processed >= total;
    (done, if done {
        None
    } else {
        last_id
    })
}

/// Relation counts of a rebuild batch: a memo whose relations did not change is
/// skipped; otherwise its new relations count as created and the memo as updated.
pub fn record_rebuild_change(created: &mut usize, updated: &mut usize, skipped: &mut usize, changed: usize)
    requires
        *old(created) + changed <= usize::MAX,
        *old(updated) < usize::MAX,
        *old(skipped) < usize::MAX,
    ensures
        changed == 0 ==> *final(skipped) == *old(skipped) + 1 && *final(created) == *old(created) && *final(updated) == *old(updated),
        changed > 0 ==> *final(created) == *old(created) + changed && *final(updated) == *old(updated) + 1 && *final(skipped) == *old(skipped),
{
    if changed == 0 {
        *skipped = *skipped + 1;
    } else {
        *created = *created + changed;
        *updated = *updated + 1;
    }
}

/// How asking the AI for a memo's relations went: not asked, answered with
/// suggestions, answered with none, or failed with a message.
#[derive(Debug)]
pub enum AiAttempt {
    NotAsked,
    Used,
    Unused,
    Failed(String),
}

/// What rebuilding one memo's relations came to: whether its best local score was
/// too low to relate it at all, how the AI was asked, and how many relations were
/// written.
#[derive(Debug)]
pub struct MemoRebuild {
    pub low_score: bool,
    pub ai: AiAttempt,
    pub changed: usize,
}

/// A memo counts as updated when it was related and its relations changed.
pub open spec fn rebuild_updated(o: MemoRebuild) -> bool {
    !o.low_score && o.changed > 0
}

pub open spec fn count_updated(s: Seq<MemoRebuild>) -> nat
    decreases s.len(),
{
    if s.len() == 0 {
        0
    } else {
        count_updated(s.drop_last()) + if rebuild_updated(s.last()) { 1nat } else { 0nat }
    }
}

pub open spec fn count_skipped(s: Seq<MemoRebuild>) -> nat
    decreases s.len(),
{
    if s.len() == 0 {
        0
    } else {
        count_skipped(s.drop_last()) + if rebuild_updated(s.last()) { 0nat } else { 1nat }
    }
}

pub open spec fn count_created(s: Seq<MemoRebuild>) -> nat
    decreases s.len(),
{
    if s.len() == 0 {
        0
    } else {
        count_created(s.drop_last()) + if rebuild_updated(s.last()) { s.last().changed as nat } else { 0nat }
    }
}

pub open spec fn count_ai_used(s: Seq<MemoRebuild>) -> nat
    decreases s.len(),
{
    if s.len() == 0 {
        0
    } else {
        count_ai_used(s.drop_last()) + if !s.last().low_score && s.last().ai is Used { 1nat } else { 0nat }
    }
}

/// The AI failure messages of related memos, in order.
pub open spec fn ai_failures(s: Seq<MemoRebuild>) -> Seq<Seq<char>>
    decreases s.len(),
{
    if s.len() == 0 {
        Seq::empty()
    } else {
        ai_failures(s.drop_last()) + match s.last().ai {
            AiAttempt::Failed(m) => if !s.last().low_score { seq![m@] } else { Seq::empty() },
            _ => Seq::empty(),
        }
    }
}

/// The warnings a batch reports: its first three AI failure messages.
pub open spec fn rebuild_warnings(s: Seq<MemoRebuild>) -> Seq<Seq<char>> {
    let f = ai_failures(s);
    if f.len() <= 3 { f } else { f.take(3) }
}

/// Every memo of a batch is either updated or skipped.
pub proof fn lemma_rebuild_counts(s: Seq<MemoRebuild>)
    ensures
        count_updated(s) + count_skipped(s) == s.len(),
    decreases s.len(),
{
    if s.len() > 0 {
        lemma_rebuild_counts(s.drop_last());
    }
}

/// A relation rebuild batch as answered.
#[derive(Debug)]
pub struct RebuildProgress {
    pub total: i64,
    pub processed: i64,
    pub batch_processed: i64,
    pub created: usize,
    pub updated: usize,
    pub skipped: usize,
    pub next_cursor: Option<i64>,
    pub done: bool,
    pub source: String,
    pub warnings: Vec<String>,
}

/// The progress of a batch from what each of its memos came to: the counts, at
/// most three warnings (the first AI failures), `ai` as the source when the AI was
/// enabled and used for some memo (`local` otherwise), and where to resume.
pub fn rebuild_batch_progress(outcomes: &Vec<MemoRebuild>, total: i64, processed: i64, batch_size: i64, last_id: Option<i64>, use_ai: bool) -> (r: RebuildProgress)
    requires
        outcomes@.len() <= i64::MAX,
        count_created(outcomes@) <= usize::MAX,
    ensures
        r.total == total && r.processed == processed,
        r.batch_processed == outcomes@.len(),
        r.updated == count_updated(outcomes@),
        r.skipped == count_skipped(outcomes@),
        r.created == count_created(outcomes@),
        r.updated + r.skipped == r.batch_processed,
        r.created >= r.updated,
        r.warnings@.len() <= 3,
        strings_view(r.warnings@) == rebuild_warnings(outcomes@),
        r.source@ == if use_ai && count_ai_used(outcomes@) > 0 { "ai"@ } else { "local"@ },
        r.done == (outcomes@.len() < batch_size || processed >= total),
        r.next_cursor == if r.done { None } else { last_id },
{
    let mut created: usize = 0;
    let mut updated: usize = 0;
    let mut skipped: usize = 0;
    let mut ai_used: usize = 0;
    let mut warnings: Vec<String> = Vec::new();
    let ghost s = outcomes@;
    let mut i: usize = 0;
    while i < outcomes.len()
        invariant
            i <= s.len(),
            s == outcomes@,
            s.len() <= i64::MAX,
            count_created(s) <= usize::MAX,
            created == count_created(s.take(i as int)),
            updated == count_updated(s.take(i as int)),
            skipped == count_skipped(s.take(i as int)),
            ai_used == count_ai_used(s.take(i as int)),
            ai_used <= i,
            created >= updated,
            updated + skipped == i,
            strings_view(warnings@) == rebuild_warnings(s.take(i as int)),
        decreases s.len() - i,
    {
        let ghost t = s.take(i + 1);
        proof {
            assert(t.drop_last() =~= s.take(i as int));
            assert(t.last() == s[i as int]);
            lemma_count_created_prefix(s, i + 1);
        }
        let o = &outcomes[i];
        if o.low_score {
            skipped = skipped + 1;
        } else {
            match &o.ai {
                AiAttempt::Used => {
                    ai_used = ai_used + 1;
                },
                AiAttempt::Failed(m) => {
                    if warnings.len() < 3 {
                        let ghost before = warnings@;
                        warnings.push(m.clone());
                        proof {
                            assert(strings_view(warnings@) =~= strings_view(before).push(m@));
                        }
                    }
                },
                _ => {},
            }
            if o.changed == 0 {
                skipped = skipped + 1;
            } else {
                created = created + o.changed;
                updated = updated + 1;
            }
        }
        proof {
            let f0 = ai_failures(s.take(i as int));
            let f1 = ai_failures(t);
            assert(f1 == f0 + match t.last().ai {
                AiAttempt::Failed(m) => if !t.last().low_score { seq![m@] } else { Seq::<Seq<char>>::empty() },
                _ => Seq::<Seq<char>>::empty(),
            });
            if f0.len() >= 3 {
                assert(f1.take(3) =~= f0.take(3));
            }
            if f1.len() <= 3 {
                assert(f1 =~= rebuild_warnings(t));
            }
            assert(strings_view(warnings@) =~= rebuild_warnings(t));
        }
        i = i + 1;
    }
    proof {
        assert(s.take(i as int) =~= s);
    }
    let (done, next_cursor) = rebuild_step(i as i64, batch_size, processed, total, last_id);
    let source = if use_ai && ai_used > 0 { "ai".to_owned() } else { "local".to_owned() };
    RebuildProgress {
        total,
        processed,
        batch_processed: i as i64,
        created,
        updated,
        skipped,
        next_cursor,
        done,
        source,
        warnings,
    }
}

/// The created count of a prefix is at most that of the whole.
proof fn lemma_count_created_prefix(s: Seq<MemoRebuild>, n: int)
    requires
        0 <= n <= s.len(),
    ensures
        count_created(s.take(n)) <= count_created(s),
    decreases s.len() - n,
{
    if n < s.len() {
        lemma_count_created_prefix(s, n + 1);
        assert(s.take(n + 1).drop_last() =~= s.take(n));
    } else {
        assert(s.take(n) =~= s);
    }
}

} // verus!
