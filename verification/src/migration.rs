use vstd::prelude::*;
use crate::text::{
    chars_of, string_of, trim, trim_str, trim_chars, ascii_upper, ascii_upper_seq, has_prefix, occurs_at,
    occurs_at_exec, chars_eq_str, str_eq,
};
use crate::json::{Json, JsonView, ObjectBuilder, object_of, json_get, json_as_str, get_field, as_str, obj_insert, obj_get, obj_from, insert_field, json_object, json_array, items_view, fields_view, json_str};
use crate::events::clone_json;
use crate::domain::{content_tag_list, content_property, tags_json, content_tags, property_fields, str_array};
use crate::relations::strings_view;
use crate::models::DbMemo;
use crate::error::{AppError, is_error};
use crate::http::{url_parsed, url_scheme_of, url_without_query, url_without_fragment, RequestUrl, url_scheme, url_clear_query, url_clear_fragment, url_text, finish_http_url, url_with_query_pair, url_append_pair};

verus! {

fn ascii_upper_char(c: char) -> (r: char)
    ensures
        r == ascii_upper(c),
{
    if 'a' <= c && c <= 'z' {
        let b = c as u8;
        (b - 32) as char
    } else {
        c
    }
}

/// `str::to_ascii_uppercase` on characters.
pub fn to_ascii_upper(v: &[char]) -> (r: Vec<char>)
    ensures
        r@ == ascii_upper_seq(v@),
{
    let mut out: Vec<char> = Vec::new();
    let mut i: usize = 0;
    while i < v.len()
        invariant
            i <= v@.len(),
            out@ =~= ascii_upper_seq(v@.take(i as int)),
        decreases v.len() - i,
    {
        out.push(ascii_upper_char(v[i]));
        i = i + 1;
        proof {
            assert(out@ =~= ascii_upper_seq(v@.take(i as int)));
        }
    }
    proof {
        assert(v@.take(i as int) =~= v@);
    }
    out
}

/// `str::replace(pat, "")`: every occurrence of `pat`, leftmost first and without
/// overlap, removed.
pub open spec fn remove_all(s: Seq<char>, pat: Seq<char>) -> Seq<char>
    decreases s.len(),
{
    if s.len() == 0 {
        s
    } else if pat.len() > 0 && has_prefix(s, pat) {
        remove_all(s.skip(pat.len() as int), pat)
    } else {
        seq![s[0]] + remove_all(s.drop_first(), pat)
    }
}

pub fn remove_all_exec(v: &[char], pat: &[char]) -> (r: Vec<char>)
    requires
        pat@.len() > 0,
    ensures
        r@ == remove_all(v@, pat@),
{
    let mut out: Vec<char> = Vec::new();
    let mut i: usize = 0;
    proof {
        assert(v@.skip(0) =~= v@);
    }
    while i < v.len()
        invariant
            i <= v@.len(),
            pat@.len() > 0,
            remove_all(v@, pat@) == out@ + remove_all(v@.skip(i as int), pat@),
        decreases v.len() - i,
    {
        let ghost rest = v@.skip(i as int);
        if occurs_at_exec(v, pat, i) {
            proof {
                assert(rest.take(pat@.len() as int) =~= v@.subrange(i as int, i + pat@.len()));
                assert(rest.skip(pat@.len() as int) =~= v@.skip(i + pat@.len()));
            }
            i = i + pat.len();
        } else {
            proof {
                if pat@.len() <= rest.len() {
                    assert(rest.take(pat@.len() as int) =~= v@.subrange(i as int, i + pat@.len()));
                }
                assert(rest.drop_first() =~= v@.skip(i + 1));
                assert(rest[0] == v@[i as int]);
            }
            let ghost before = out@;
            out.push(v[i]);
            proof {
                assert(out@ + remove_all(v@.skip(i + 1), pat@) =~= before + (seq![v@[i as int]] + remove_all(v@.skip(i + 1), pat@)));
            }
            i = i + 1;
        }
    }
    proof {
        assert(v@.skip(i as int) =~= Seq::<char>::empty());
        assert(out@ + Seq::<char>::empty() =~= out@);
    }
    out
}

/// The row state a memo of the original server gets here: deleted and archived
/// memos are archived, everything else (including no state) is normal.
pub open spec fn original_state(value: Option<Seq<char>>) -> Seq<char> {
    let s = remove_all(ascii_upper_seq(match value {
        Some(v) => v,
        None => "NORMAL"@,
    }), "STATE_"@);
    if s == "DELETED"@ || s == "ARCHIVED"@ {
        "ARCHIVED"@
    } else {
        "NORMAL"@
    }
}

pub fn normalize_original_state(value: Option<&str>) -> (r: String)
    ensures
        r@ == original_state(crate::sse::opt_str_seq(value)),
{
    let raw = match value {
        Some(v) => chars_of(v),
        None => chars_of("NORMAL"),
    };
    let upper = to_ascii_upper(&raw);
    let pat = chars_of("STATE_");
    proof {
        reveal_strlit("STATE_");
    }
    let s = remove_all_exec(&upper, &pat);
    if chars_eq_str(&s, "DELETED") || chars_eq_str(&s, "ARCHIVED") {
        "ARCHIVED".to_owned()
    } else {
        "NORMAL".to_owned()
    }
}

/// The visibility a memo of the original server gets here: public, protected and
/// private carry over, anything else (including none) is private.
pub open spec fn original_visibility(value: Option<Seq<char>>) -> Seq<char> {
    let s = remove_all(ascii_upper_seq(match value {
        Some(v) => v,
        None => "PRIVATE"@,
    }), "VISIBILITY_"@);
    if s == "PUBLIC"@ || s == "PROTECTED"@ || s == "PRIVATE"@ {
        s
    } else {
        "PRIVATE"@
    }
}

pub fn normalize_original_visibility(value: Option<&str>) -> (r: String)
    ensures
        r@ == original_visibility(crate::sse::opt_str_seq(value)),
{
    let raw = match value {
        Some(v) => chars_of(v),
        None => chars_of("PRIVATE"),
    };
    let upper = to_ascii_upper(&raw);
    let pat = chars_of("VISIBILITY_");
    proof {
        reveal_strlit("VISIBILITY_");
    }
    let s = remove_all_exec(&upper, &pat);
    if chars_eq_str(&s, "PUBLIC") || chars_eq_str(&s, "PROTECTED") || chars_eq_str(&s, "PRIVATE") {
        string_of(&s)
    } else {
        "PRIVATE".to_owned()
    }
}

/// The content's tags followed by the original tags, trimmed, that are not blank
/// and not already listed.
pub open spec fn merged_tags(tags: Seq<Seq<char>>, extra: Seq<Seq<char>>) -> Seq<Seq<char>>
    decreases extra.len(),
{
    if extra.len() == 0 {
        tags
    } else {
        let prev = merged_tags(tags, extra.drop_last());
        let t = trim(extra.last());
        if t.len() > 0 && !prev.contains(t) {
            prev.push(t)
        } else {
            prev
        }
    }
}

pub open spec fn tags_for(content: Seq<char>, original: Option<Seq<Seq<char>>>) -> Seq<Seq<char>> {
    match original {
        Some(extra) => merged_tags(content_tags(content), extra),
        None => content_tags(content),
    }
}

pub open spec fn opt_strings(x: Option<&Vec<String>>) -> Option<Seq<Seq<char>>> {
    match x {
        Some(t) => Some(strings_view(t@)),
        None => None,
    }
}

/// The payload of an imported memo: as for any memo, with the original server's
/// tags added to those of the content.
pub open spec fn payload_with_tags(content: Seq<char>, original: Option<Seq<Seq<char>>>) -> JsonView {
    object_of(seq![
        ("tags"@, str_array(tags_for(content, original))),
        ("property"@, object_of(property_fields(content))),
    ])
}

fn listed(v: &Vec<String>, s: &str) -> (b: bool)
    ensures
        b == strings_view(v@).contains(s@),
{
    let mut i: usize = 0;
    while i < v.len()
        invariant
            i <= v@.len(),
            forall|j: int| 0 <= j < i ==> v@[j]@ != s@,
        decreases v.len() - i,
    {
        if str_eq(v[i].as_str(), s) {
            proof {
                assert(strings_view(v@)[i as int] == s@);
            }
            return true;
        }
        i = i + 1;
    }
    proof {
        if strings_view(v@).contains(s@) {
            let k = choose|k: int| 0 <= k < strings_view(v@).len() && strings_view(v@)[k] == s@;
            assert(v@[k]@ == s@);
        }
    }
    false
}

pub fn build_memo_payload_with_tags(content: &str, original_tags: Option<&Vec<String>>) -> (j: Json)
    ensures
        j@ == payload_with_tags(content@, opt_strings(original_tags)),
{
    let mut tags = content_tag_list(content);
    proof {
        assert(strings_view(tags@) =~= Seq::new(tags@.len(), |m: int| tags@[m]@));
    }
    let ghost base = strings_view(tags@);
    proof {
        assert(base == content_tags(content@));
    }
    match original_tags {
        Some(extra) => {
            let ghost ev = strings_view(extra@);
            let mut i: usize = 0;
            proof {
                assert(ev.take(0) =~= Seq::<Seq<char>>::empty());
            }
            while i < extra.len()
                invariant
                    i <= extra@.len(),
                    ev == strings_view(extra@),
                    strings_view(tags@) == merged_tags(base, ev.take(i as int)),
                decreases extra.len() - i,
            {
                proof {
                    assert(ev.take(i + 1).drop_last() =~= ev.take(i as int));
                    assert(ev.take(i + 1).last() == extra@[i as int]@);
                }
                let t = trim_str(extra[i].as_str());
                if t.as_str().unicode_len() > 0 && !listed(&tags, t.as_str()) {
                    let ghost prev = strings_view(tags@);
                    let ghost tv = t@;
                    tags.push(t);
                    proof {
                        assert(strings_view(tags@) =~= prev.push(tv));
                    }
                }
                i = i + 1;
            }
            proof {
                assert(ev.take(i as int) =~= ev);
                assert(strings_view(tags@) == merged_tags(content_tags(content@), strings_view(extra@)));
            }
        },
        None => {},
    }
    let ghost final_tags = strings_view(tags@);
    proof {
        assert(final_tags == tags_for(content@, opt_strings(original_tags)));
    }
    let tj = tags_json(&tags);
    let property = content_property(content);
    let mut b = ObjectBuilder::new();
    b.add("tags", tj);
    b.add("property", property);
    proof {
        assert(Seq::new(tags@.len(), |m: int| tags@[m]@) =~= final_tags);
        assert(b.pairs() =~= seq![
            ("tags"@, str_array(final_tags)),
            ("property"@, object_of(property_fields(content@))),
        ]);
    }
    b.build()
}

/// A memo as the original server's API lists it.
#[derive(Debug)]
pub struct OriginalMemo {
    pub name: Option<String>,
    pub state: Option<String>,
    pub creator: Option<String>,
    pub create_time: Option<Json>,
    pub update_time: Option<Json>,
    pub content: Option<String>,
    pub visibility: Option<String>,
    pub tags: Option<Vec<String>>,
    pub pinned: Option<bool>,
    pub attachments: Option<Vec<Json>>,
    pub relations: Option<Vec<Json>>,
    pub property: Option<Json>,
    pub parent: Option<String>,
    pub location: Option<Json>,
}

/// The trimmed resource name of an original memo; empty when it has none.
pub fn original_memo_name(memo: &OriginalMemo) -> (r: String)
    ensures
        r@ == trim(match memo.name {
            Some(n) => n@,
            None => Seq::empty(),
        }),
{
    match &memo.name {
        Some(n) => trim_str(n.as_str()),
        None => {
            proof {
                reveal_strlit("");
            }
            trim_str("")
        },
    }
}

/// What a migration preview reports.
#[derive(Debug, PartialEq)]
pub struct MigrationSummary {
    pub memo_count: usize,
    pub attachment_count: usize,
    pub relation_count: usize,
    pub archived_count: usize,
    pub truncated: bool,
}

pub open spec fn opt_len(x: Option<Vec<Json>>) -> nat {
    match x {
        Some(v) => v@.len(),
        None => 0,
    }
}

pub open spec fn opt_string_seq(x: Option<String>) -> Option<Seq<char>> {
    match x {
        Some(s) => Some(s@),
        None => None,
    }
}

/// Totals over a list of original memos: memos, attachments, relations, and
/// memos that arrive archived.
pub open spec fn summary_counts(memos: Seq<OriginalMemo>) -> (nat, nat, nat, nat)
    decreases memos.len(),
{
    if memos.len() == 0 {
        (0, 0, 0, 0)
    } else {
        let (m, a, r, archived) = summary_counts(memos.drop_last());
        let last = memos.last();
        (
            m + 1,
            a + opt_len(last.attachments),
            r + opt_len(last.relations),
            archived + if original_state(opt_string_seq(last.state)) == "ARCHIVED"@ {
                1nat
            } else {
                0nat
            },
        )
    }
}

proof fn lemma_summary_bounds(memos: Seq<OriginalMemo>)
    ensures
        summary_counts(memos).0 == memos.len(),
        summary_counts(memos).3 <= memos.len(),
    decreases memos.len(),
{
    if memos.len() > 0 {
        lemma_summary_bounds(memos.drop_last());
    }
}

pub fn summarize_original_memos(memos: &[OriginalMemo], truncated: bool) -> (s: MigrationSummary)
    requires
        summary_counts(memos@).1 <= usize::MAX,
        summary_counts(memos@).2 <= usize::MAX,
    ensures
        (s.memo_count as nat, s.attachment_count as nat, s.relation_count as nat, s.archived_count as nat)
            == summary_counts(memos@),
        s.truncated == truncated,
{
    let mut summary = MigrationSummary {
        memo_count: 0,
        attachment_count: 0,
        relation_count: 0,
        archived_count: 0,
        truncated,
    };
    let mut i: usize = 0;
    proof {
        assert(memos@.take(0) =~= Seq::<OriginalMemo>::empty());
    }
    while i < memos.len()
        invariant
            i <= memos@.len(),
            summary.truncated == truncated,
            summary_counts(memos@).1 <= usize::MAX,
            summary_counts(memos@).2 <= usize::MAX,
            (summary.memo_count as nat, summary.attachment_count as nat, summary.relation_count as nat,
                summary.archived_count as nat) == summary_counts(memos@.take(i as int)),
        decreases memos.len() - i,
    {
        let memo = &memos[i];
        proof {
            assert(memos@.take(i + 1).drop_last() =~= memos@.take(i as int));
            assert(memos@.take(i + 1).last() == memos@[i as int]);
            lemma_summary_bounds(memos@.take(i + 1));
            lemma_summary_monotone(memos@, i + 1);
        }
        let attachments: usize = match &memo.attachments {
            Some(v) => v.len(),
            None => 0,
        };
        let relations: usize = match &memo.relations {
            Some(v) => v.len(),
            None => 0,
        };
        let state = match &memo.state {
            Some(s) => normalize_original_state(Some(s.as_str())),
            None => normalize_original_state(None),
        };
        summary.memo_count = summary.memo_count + 1;
        summary.attachment_count = summary.attachment_count + attachments;
        summary.relation_count = summary.relation_count + relations;
        if str_eq(state.as_str(), "ARCHIVED") {
            summary.archived_count = summary.archived_count + 1;
        }
        i = i + 1;
    }
    proof {
        assert(memos@.take(i as int) =~= memos@);
    }
    summary
}

proof fn lemma_summary_monotone(memos: Seq<OriginalMemo>, k: int)
    requires
        0 <= k <= memos.len(),
    ensures
        summary_counts(memos.take(k)).1 <= summary_counts(memos).1,
        summary_counts(memos.take(k)).2 <= summary_counts(memos).2,
    decreases memos.len() - k,
{
    if k < memos.len() {
        lemma_summary_monotone(memos, k + 1);
        assert(memos.take(k + 1).drop_last() =~= memos.take(k));
    } else {
        assert(memos.take(k) =~= memos);
    }
}

/// Whether a local memo is left out when memos are pushed back to the original
/// server: blank memos, memos already pushed to this server (a sync record for the
/// same base URL with an original name or push time), and memos that came from
/// the original server.
pub open spec fn skip_original_backup(content: Seq<char>, payload: JsonView, base_url: Seq<char>) -> bool {
    let sync = match json_get(payload, "sync"@) {
        Some(s) => json_get(s, "usememos"@),
        None => None,
    };
    let pushed = match sync {
        Some(JsonView::Object(fields)) => {
            let same_base = json_as_str(json_get(JsonView::Object(fields), "baseUrl"@)) == Some(base_url);
            let name = trim(match json_as_str(json_get(JsonView::Object(fields), "originalName"@)) {
                Some(n) => n,
                None => Seq::empty(),
            });
            let at = trim(match json_as_str(json_get(JsonView::Object(fields), "pushedAt"@)) {
                Some(p) => p,
                None => Seq::empty(),
            });
            same_base && (name.len() > 0 || at.len() > 0)
        },
        _ => false,
    };
    let from_original = match json_get(payload, "source"@) {
        Some(s) => json_as_str(json_get(s, "type"@)) == Some("usememos"@),
        None => false,
    };
    trim(content).len() == 0 || pushed || from_original
}

fn nested<'a>(j: &'a Json, outer: &str, inner: &str) -> (r: Option<&'a Json>)
    ensures
        match r {
            Some(v) => match json_get(j@, outer@) {
                Some(o) => json_get(o, inner@) == Some(v@),
                None => false,
            },
            None => match json_get(j@, outer@) {
                Some(o) => json_get(o, inner@) is None,
                None => true,
            },
        },
{
    match get_field(j, outer) {
        Some(o) => get_field(o, inner),
        None => None,
    }
}

fn trimmed_field_nonblank(j: &Json, key: &str) -> (b: bool)
    ensures
        b == (trim(match json_as_str(json_get(j@, key@)) {
            Some(s) => s,
            None => Seq::empty(),
        }).len() > 0),
{
    match as_str(get_field(j, key)) {
        Some(s) => trim_str(s.as_str()).as_str().unicode_len() > 0,
        None => {
            let t = trim_str("");
            proof {
                reveal_strlit("");
            }
            t.as_str().unicode_len() > 0
        },
    }
}

pub fn should_skip_original_backup(memo: &DbMemo, base_url: &str) -> (b: bool)
    ensures
        b == skip_original_backup(memo.content@, memo.payload@, base_url@),
{
    let t = trim_str(memo.content.as_str());
    if t.as_str().unicode_len() == 0 {
        return true;
    }
    let payload = &memo.payload;
    let sync = nested(payload, "sync", "usememos");
    match sync {
        Some(s) => match s {
            Json::Object(_) => {
                let same_base = match as_str(get_field(s, "baseUrl")) {
                    Some(stored) => str_eq(stored.as_str(), base_url),
                    None => false,
                };
                let named = trimmed_field_nonblank(s, "originalName");
                let pushed = trimmed_field_nonblank(s, "pushedAt");
                if same_base && (named || pushed) {
                    return true;
                }
            },
            _ => {},
        },
        None => {},
    }
    match as_str(nested(payload, "source", "type")) {
        Some(kind) => str_eq(kind.as_str(), "usememos"),
        None => false,
    }
}


pub open spec fn opt_items(x: Option<Vec<Json>>) -> Seq<JsonView> {
    match x {
        Some(v) => items_view(v@),
        None => Seq::empty(),
    }
}

/// Where an imported memo came from: the original server, its name and creator,
/// and its attachments and relations as the original server listed them.
pub open spec fn import_source(memo: OriginalMemo) -> JsonView {
    object_of(seq![
        ("type"@, JsonView::Str("usememos"@)),
        ("originalName"@, JsonView::Str(trim(match memo.name {
            Some(n) => n@,
            None => Seq::empty(),
        }))),
        ("creator"@, JsonView::Str(match memo.creator {
            Some(c) => c@,
            None => Seq::empty(),
        })),
        ("attachmentCount"@, JsonView::Int(opt_len(memo.attachments) as int)),
        ("relationCount"@, JsonView::Int(opt_len(memo.relations) as int)),
        ("attachments"@, JsonView::Array(opt_items(memo.attachments))),
        ("relations"@, JsonView::Array(opt_items(memo.relations))),
    ])
}

/// The payload of a memo imported from the original server: the usual payload
/// with the original tags, its source, and the original property, parent and
/// location when it has them.
pub open spec fn original_payload(memo: OriginalMemo, content: Seq<char>) -> JsonView {
    let base = payload_with_tags(content, match memo.tags {
        Some(t) => Some(strings_view(t@)),
        None => None,
    });
    let f1 = obj_insert(base->Object_0, "source"@, import_source(memo));
    let f2 = match memo.property {
        Some(p) => obj_insert(f1, "originalProperty"@, p@),
        None => f1,
    };
    let f3 = match memo.parent {
        Some(p) => obj_insert(f2, "originalParent"@, JsonView::Str(p@)),
        None => f2,
    };
    let f4 = match memo.location {
        Some(l) => obj_insert(f3, "originalLocation"@, l@),
        None => f3,
    };
    JsonView::Object(f4)
}

fn clone_items(x: &Option<Vec<Json>>) -> (r: Vec<Json>)
    ensures
        items_view(r@) == opt_items(*x),
{
    match x {
        Some(v) => {
            let mut out: Vec<Json> = Vec::new();
            let mut i: usize = 0;
            while i < v.len()
                invariant
                    i <= v@.len(),
                    out@.len() == i,
                    forall|k: int| 0 <= k < i ==> (#[trigger] out@[k])@ == v@[k]@,
                decreases v.len() - i,
            {
                out.push(clone_json(&v[i]));
                i = i + 1;
            }
            proof {
                assert(items_view(out@) =~= items_view(v@));
            }
            out
        },
        None => {
            let out: Vec<Json> = Vec::new();
            proof {
                assert(items_view(out@) =~= Seq::<JsonView>::empty());
            }
            out
        },
    }
}

fn source_object(memo: &OriginalMemo) -> (j: Json)
    ensures
        j@ == import_source(*memo),
{
    let name = original_memo_name(memo);
    let creator = match &memo.creator {
        Some(c) => c.clone(),
        None => {
            let e = String::new();
            proof {
                assert(e@ =~= Seq::<char>::empty());
            }
            e
        },
    };
    let attachments = clone_items(&memo.attachments);
    let relations = clone_items(&memo.relations);
    let mut b = ObjectBuilder::new();
    b.add("type", json_str("usememos"));
    b.add("originalName", Json::Str(name));
    b.add("creator", Json::Str(creator));
    b.add("attachmentCount", Json::Int(attachments.len() as i128));
    b.add("relationCount", Json::Int(relations.len() as i128));
    b.add("attachments", json_array(attachments));
    b.add("relations", json_array(relations));
    proof {
        assert(items_view(attachments@).len() == attachments@.len());
        assert(items_view(relations@).len() == relations@.len());
        assert(b.pairs() =~= seq![
            ("type"@, JsonView::Str("usememos"@)),
            ("originalName"@, JsonView::Str(trim(match memo.name {
                Some(n) => n@,
                None => Seq::empty(),
            }))),
            ("creator"@, JsonView::Str(match memo.creator {
                Some(c) => c@,
                None => Seq::empty(),
            })),
            ("attachmentCount"@, JsonView::Int(opt_len(memo.attachments) as int)),
            ("relationCount"@, JsonView::Int(opt_len(memo.relations) as int)),
            ("attachments"@, JsonView::Array(opt_items(memo.attachments))),
            ("relations"@, JsonView::Array(opt_items(memo.relations))),
        ]);
    }
    b.build()
}

/// A memo of the original server as it is stored here.
#[derive(Debug)]
pub struct OriginalImportRow {
    pub content: String,
    pub row_status: String,
    pub visibility: String,
    pub pinned: i64,
    pub payload: Json,
}

pub open spec fn original_content(memo: OriginalMemo) -> Seq<char> {
    trim(match memo.content {
        Some(c) => c@,
        None => Seq::empty(),
    })
}

/// The row an original memo is stored as; nothing for blank memos and for memos
/// imported before.
pub fn original_import_row(memo: &OriginalMemo, already_imported: bool) -> (r: Option<OriginalImportRow>)
    ensures
        (original_content(*memo).len() == 0 || already_imported) <==> r is None,
        r matches Some(row) ==> {
            &&& row.content@ == original_content(*memo)
            &&& row.row_status@ == original_state(opt_string_seq(memo.state))
            &&& row.visibility@ == original_visibility(opt_string_seq(memo.visibility))
            &&& row.pinned == if memo.pinned == Some(true) {
                1int
            } else {
                0int
            }
            &&& row.payload@ == original_payload(*memo, original_content(*memo))
        },
{
    let content = match &memo.content {
        Some(c) => trim_str(c.as_str()),
        None => {
            proof {
                reveal_strlit("");
            }
            trim_str("")
        },
    };
    if content.as_str().unicode_len() == 0 || already_imported {
        return None;
    }
    let payload = build_memo_payload_with_tags(content.as_str(), match &memo.tags {
        Some(t) => Some(t),
        None => None,
    });
    let ghost base = payload@;
    let payload = match payload {
        Json::Object(fields) => {
            let mut fields = fields;
            proof {
                assert(base->Object_0 =~= fields_view(fields@));
            }
            insert_field(&mut fields, "source".to_owned(), source_object(memo));
            match &memo.property {
                Some(p) => insert_field(&mut fields, "originalProperty".to_owned(), clone_json(p)),
                None => {},
            }
            match &memo.parent {
                Some(p) => insert_field(&mut fields, "originalParent".to_owned(), Json::Str(p.clone())),
                None => {},
            }
            match &memo.location {
                Some(l) => insert_field(&mut fields, "originalLocation".to_owned(), clone_json(l)),
                None => {},
            }
            json_object(fields)
        },
        other => {
            proof {
                assert(base is Object);
            }
            other
        },
    };
    let state = match &memo.state {
        Some(s) => normalize_original_state(Some(s.as_str())),
        None => normalize_original_state(None),
    };
    let visibility = match &memo.visibility {
        Some(v) => normalize_original_visibility(Some(v.as_str())),
        None => normalize_original_visibility(None),
    };
    let pinned: i64 = match memo.pinned {
        Some(true) => 1,
        _ => 0,
    };
    Some(OriginalImportRow { content, row_status: state, visibility, pinned, payload })
}

/// Where and how to read memos from the original server.
#[derive(Debug)]
pub struct MigrationOptions {
    pub base_url: String,
    pub access_token: String,
    pub include_archived: bool,
}

/// A request field that may be absent, `null` or a string.
pub open spec fn optional_text(v: Option<JsonView>) -> bool {
    v is None || v == Some(JsonView::Null) || v matches Some(JsonView::Str(_))
}

/// A request field that may be absent, `null` or a boolean.
pub open spec fn optional_flag(v: Option<JsonView>) -> bool {
    v is None || v == Some(JsonView::Null) || v matches Some(JsonView::Bool(_))
}

/// A migration request reads: an object whose `baseUrl` and `accessToken` are
/// strings and whose `includeArchived` is a boolean, each where present.
pub open spec fn migration_request_reads(body: JsonView) -> bool {
    &&& body is Object
    &&& optional_text(json_get(body, "baseUrl"@))
    &&& optional_text(json_get(body, "accessToken"@))
    &&& optional_flag(json_get(body, "includeArchived"@))
}

pub open spec fn text_or_empty(v: Option<JsonView>) -> Seq<char> {
    match v {
        Some(JsonView::Str(s)) => s,
        _ => Seq::empty(),
    }
}

pub open spec fn flag_or_false(v: Option<JsonView>) -> bool {
    match v {
        Some(JsonView::Bool(b)) => b,
        _ => false,
    }
}

fn field_text(body: &Json, key: &str) -> (r: Result<String, ()>)
    ensures
        r is Ok <==> optional_text(json_get(body@, key@)),
        r matches Ok(s) ==> s@ == text_or_empty(json_get(body@, key@)),
{
    match get_field(body, key) {
        None => Ok(String::new()),
        Some(Json::Null) => Ok(String::new()),
        Some(Json::Str(s)) => Ok(s.clone()),
        Some(_) => Err(()),
    }
}

/// The base URL of a migration request when its trimmed text parses with an
/// `http` or `https` scheme: query, fragment and trailing `/` dropped.
pub open spec fn migration_base(ser: Seq<char>) -> Seq<char> {
    crate::text::strip_trailing(url_without_fragment(url_without_query(ser)), '/')
}

/// Reads a migration request: 400 `Invalid JSON` when it does not read, 400
/// `Invalid Memos URL` when the trimmed base URL does not parse, 400 for a scheme
/// other than `http` or `https`, and 400 when the trimmed token is empty. The base
/// URL loses its query, fragment and trailing `/`.
pub fn read_migration_request(body: &Json) -> (r: Result<MigrationOptions, AppError>)
    ensures
        ({
            let base = trim(text_or_empty(json_get(body@, "baseUrl"@)));
            let token = trim(text_or_empty(json_get(body@, "accessToken"@)));
            if !migration_request_reads(body@) {
                r matches Err(e) && is_error(e, 400, "Invalid JSON"@)
            } else {
                match url_parsed(base) {
                    None => r matches Err(e) && is_error(e, 400, "Invalid Memos URL"@),
                    Some(ser) => if !(url_scheme_of(ser) == "http"@ || url_scheme_of(ser) == "https"@) {
                        r matches Err(e) && is_error(e, 400, "Only http and https URLs are supported"@)
                    } else if token.len() == 0 {
                        r matches Err(e) && is_error(e, 400, "Access token is required"@)
                    } else {
                        r matches Ok(o) && o.base_url@ == migration_base(ser) && o.access_token@ == token
                            && o.include_archived == flag_or_false(json_get(body@, "includeArchived"@))
                    },
                }
            }
        }),
{
    let reads = match body {
        Json::Object(_) => true,
        _ => false,
    };
    if !reads {
        return Err(AppError::new(400, "Invalid JSON"));
    }
    let raw = match field_text(body, "baseUrl") {
        Ok(s) => s,
        Err(_) => return Err(AppError::new(400, "Invalid JSON")),
    };
    let token = match field_text(body, "accessToken") {
        Ok(s) => s,
        Err(_) => return Err(AppError::new(400, "Invalid JSON")),
    };
    let include_archived = match get_field(body, "includeArchived") {
        None => false,
        Some(Json::Null) => false,
        Some(Json::Bool(b)) => *b,
        Some(_) => return Err(AppError::new(400, "Invalid JSON")),
    };
    let trimmed = trim_str(raw.as_str());
    let mut url = match RequestUrl::parse(trimmed.as_str()) {
        Some(u) => u,
        None => return Err(AppError::new(400, "Invalid Memos URL")),
    };
    let scheme = url_scheme(&url);
    if !(str_eq(scheme.as_str(), "http") || str_eq(scheme.as_str(), "https")) {
        return Err(AppError::new(400, "Only http and https URLs are supported"));
    }
    url_clear_query(&mut url);
    url_clear_fragment(&mut url);
    let text = url_text(&url);
    let base_url = match finish_http_url(scheme.as_str(), text.as_str(), "Only http and https URLs are supported") {
        Ok(b) => b,
        Err(e) => return Err(e),
    };
    let access_token = trim_str(token.as_str());
    if access_token.as_str().unicode_len() == 0 {
        return Err(AppError::new(400, "Access token is required"));
    }
    Ok(MigrationOptions { base_url, access_token, include_archived })
}

/// The fields a memo is created with on the original server when it is backed up
/// there; `created_at` and `updated_at` are its times as ISO 8601 text.
pub open spec fn original_backup_fields(memo: DbMemo, created_at: Seq<char>, updated_at: Seq<char>) -> Seq<(Seq<char>, JsonView)> {
    seq![
        ("state"@, JsonView::Str(memo.row_status@)),
        ("content"@, JsonView::Str(memo.content@)),
        ("visibility"@, JsonView::Str(memo.visibility@)),
        ("pinned"@, JsonView::Bool(memo.pinned != 0)),
        ("createTime"@, JsonView::Str(created_at)),
        ("updateTime"@, JsonView::Str(updated_at)),
        ("displayTime"@, JsonView::Str(created_at)),
    ]
}

pub fn original_backup_payload(memo: &DbMemo, created_at: &str, updated_at: &str) -> (j: Json)
    ensures
        j@ == object_of(original_backup_fields(*memo, created_at@, updated_at@)),
{
    let mut b = ObjectBuilder::new();
    b.add("state", Json::Str(memo.row_status.clone()));
    b.add("content", Json::Str(memo.content.clone()));
    b.add("visibility", Json::Str(memo.visibility.clone()));
    b.add("pinned", Json::Bool(memo.pinned != 0));
    b.add("createTime", json_str(created_at));
    b.add("updateTime", json_str(updated_at));
    b.add("displayTime", json_str(created_at));
    proof {
        assert(b.pairs() =~= original_backup_fields(*memo, created_at@, updated_at@));
    }
    b.build()
}

/// Where memos are created on the original server.
pub fn original_memos_endpoint(base_url: &str) -> (r: String)
    ensures
        r@ == base_url@ + "/api/v1/memos"@,
{
    let mut v = chars_of(base_url);
    crate::text::push_str(&mut v, "/api/v1/memos");
    string_of(&v)
}

/// What the original server's answer to a backed-up memo gives: the created
/// memo's `name` (empty when it has none) on a 2xx status, else 400.
pub fn create_original_backup_memo(status: u16, data: &Json) -> (r: Result<String, AppError>)
    ensures
        r is Ok <==> 200 <= status < 300,
        r matches Ok(name) ==> name@ == match json_as_str(json_get(data@, "name"@)) {
            Some(n) => n,
            None => Seq::empty(),
        },
        r matches Err(e) ==> is_error(e, 400, "Original Memos API returned HTTP "@ + crate::text::int_text(status as int) + " while backing up"@),
{
    if status < 200 || status >= 300 {
        let mut v: Vec<char> = Vec::new();
        crate::text::push_str(&mut v, "Original Memos API returned HTTP ");
        crate::text::push_int(&mut v, status as i128);
        crate::text::push_str(&mut v, " while backing up");
        let msg = string_of(&v);
        return Err(AppError::new(400, msg.as_str()));
    }
    match as_str(get_field(data, "name")) {
        Some(n) => Ok(n.clone()),
        None => {
            let e = String::new();
            proof {
                assert(e@ =~= Seq::<char>::empty());
            }
            Ok(e)
        },
    }
}

/// The fields of an object value; none for other values.
pub open spec fn fields_of(j: JsonView) -> Seq<(Seq<char>, JsonView)> {
    match j {
        JsonView::Object(f) => f,
        _ => Seq::empty(),
    }
}

fn object_fields(j: &Json) -> (r: Vec<(String, Json)>)
    ensures
        fields_view(r@) == fields_of(j@),
{
    match clone_json(j) {
        Json::Object(f) => {
            proof {
                assert(fields_view(f@) =~= fields_of(j@));
            }
            f
        },
        _ => {
            let f: Vec<(String, Json)> = Vec::new();
            proof {
                assert(fields_view(f@) =~= Seq::<(Seq<char>, JsonView)>::empty());
            }
            f
        },
    }
}

/// What a memo's payload records of its copy on the original server.
pub open spec fn backup_marker_fields(base_url: Seq<char>, original_name: Seq<char>, local_updated_ts: int, pushed_at: Seq<char>) -> Seq<(Seq<char>, JsonView)> {
    seq![
        ("baseUrl"@, JsonView::Str(base_url)),
        ("originalName"@, JsonView::Str(original_name)),
        ("localUpdatedTs"@, JsonView::Int(local_updated_ts)),
        ("pushedAt"@, JsonView::Str(pushed_at)),
    ]
}

/// A payload with its `sync.usememos` entry set to the marker (a payload or a
/// `sync` that is not an object starts over empty); the rest is kept.
pub open spec fn marked_payload(payload: JsonView, marker: JsonView) -> JsonView {
    let top = fields_of(payload);
    let sync = match obj_get(top, "sync"@) {
        Some(v) => fields_of(v),
        None => Seq::empty(),
    };
    JsonView::Object(obj_insert(top, "sync"@, JsonView::Object(obj_insert(sync, "usememos"@, marker))))
}

fn sync_fields(top: &Vec<(String, Json)>) -> (r: Vec<(String, Json)>)
    ensures
        fields_view(r@) == match obj_get(fields_view(top@), "sync"@) {
            Some(v) => fields_of(v),
            None => Seq::<(Seq<char>, JsonView)>::empty(),
        },
{
    let ghost tv = fields_view(top@);
    let mut i: usize = 0;
    proof {
        assert(tv.skip(0) =~= tv);
    }
    while i < top.len()
        invariant
            i <= top@.len(),
            tv == fields_view(top@),
            obj_get(tv, "sync"@) == obj_get(tv.skip(i as int), "sync"@),
        decreases top@.len() - i,
    {
        proof {
            assert(tv.skip(i as int)[0] == tv[i as int]);
            assert(tv.skip(i as int).drop_first() =~= tv.skip(i + 1));
        }
        if crate::text::str_eq(top[i].0.as_str(), "sync") {
            return object_fields(&top[i].1);
        }
        i = i + 1;
    }
    proof {
        assert(tv.skip(i as int) =~= Seq::<(Seq<char>, JsonView)>::empty());
    }
    let f: Vec<(String, Json)> = Vec::new();
    proof {
        assert(fields_view(f@) =~= Seq::<(Seq<char>, JsonView)>::empty());
    }
    f
}

/// The payload that records a memo's backup to the original server at `pushed_at`.
pub fn store_original_backup_marker(memo: &DbMemo, base_url: &str, original_name: &str, pushed_at: &str) -> (j: Json)
    ensures
        j@ == marked_payload(memo.payload@, object_of(backup_marker_fields(base_url@, original_name@, memo.updated_ts as int, pushed_at@))),
{
    let mut top = object_fields(&memo.payload);
    let mut sync = sync_fields(&top);
    let mut m = ObjectBuilder::new();
    m.add("baseUrl", json_str(base_url));
    m.add("originalName", json_str(original_name));
    m.add("localUpdatedTs", Json::Int(memo.updated_ts as i128));
    m.add("pushedAt", json_str(pushed_at));
    proof {
        assert(m.pairs() =~= backup_marker_fields(base_url@, original_name@, memo.updated_ts as int, pushed_at@));
    }
    let marker = m.build();
    insert_field(&mut sync, "usememos".to_string(), marker);
    insert_field(&mut top, "sync".to_string(), json_object(sync));
    json_object(top)
}

/// How a backup to the original server went: memos looked at, pushed, skipped and
/// archived, and whether the memo list was cut at the migration limit.
#[derive(Debug)]
pub struct OriginalBackupResult {
    pub memo_count: usize,
    pub pushed: usize,
    pub skipped: usize,
    pub archived_count: usize,
    pub truncated: bool,
}

impl OriginalBackupResult {
    /// Every memo looked at is either pushed or skipped.
    pub open spec fn wf(&self) -> bool {
        &&& self.pushed + self.skipped == self.memo_count
        &&& self.archived_count <= self.memo_count
    }

    /// A backup of `row_count` listed memos, before any is looked at.
    pub fn new(row_count: usize) -> (r: OriginalBackupResult)
        ensures
            r.wf(),
            r.memo_count == 0 && r.pushed == 0 && r.skipped == 0 && r.archived_count == 0,
            r.truncated == (row_count > crate::workflow::MIGRATION_MAX_MEMOS),
    {
        OriginalBackupResult { memo_count: 0, pushed: 0, skipped: 0, archived_count: 0, truncated: row_count > crate::workflow::MIGRATION_MAX_MEMOS }
    }

    /// Counts a memo and says whether it is to be pushed (see
    /// `should_skip_original_backup`).
    pub fn record_memo(&mut self, memo: &DbMemo, base_url: &str) -> (push: bool)
        requires
            old(self).wf(),
            old(self).memo_count < usize::MAX,
        ensures
            final(self).wf(),
            push == !skip_original_backup(memo.content@, memo.payload@, base_url@),
            final(self).memo_count == old(self).memo_count + 1,
            final(self).pushed == old(self).pushed + if push { 1usize } else { 0usize },
            final(self).skipped == old(self).skipped + if push { 0usize } else { 1usize },
            final(self).archived_count == old(self).archived_count + if memo.row_status@ == "ARCHIVED"@ { 1usize } else { 0usize },
            final(self).truncated == old(self).truncated,
    {
        self.memo_count = self.memo_count + 1;
        if str_eq(memo.row_status.as_str(), "ARCHIVED") {
            self.archived_count = self.archived_count + 1;
        }
        if should_skip_original_backup(memo, base_url) {
            self.skipped = self.skipped + 1;
            false
        } else {
            self.pushed = self.pushed + 1;
            true
        }
    }
}

/// The statement that lists a user's memos for a backup to the original server:
/// oldest first, archived ones too where asked, one more than the limit.
pub fn list_local_memos_for_original_backup(viewer_id: i64, include_archived: bool) -> (r: crate::listing::Statement)
    ensures
        r.sql@ == if include_archived {
            "SELECT memo.*, \"user\".username AS creator_username, \"user\".nickname AS creator_nickname FROM memo JOIN \"user\" ON \"user\".id = memo.creator_id WHERE memo.creator_id = ? ORDER BY memo.created_ts, memo.id LIMIT ?"@
        } else {
            "SELECT memo.*, \"user\".username AS creator_username, \"user\".nickname AS creator_nickname FROM memo JOIN \"user\" ON \"user\".id = memo.creator_id WHERE memo.creator_id = ? AND memo.row_status = 'NORMAL' ORDER BY memo.created_ts, memo.id LIMIT ?"@
        },
        crate::listing::binds_view(r.binds@) == seq![
            crate::listing::SqlValueView::Int(viewer_id as int),
            crate::listing::SqlValueView::Int(crate::workflow::MIGRATION_MAX_MEMOS + 1),
        ],
{
    let sql = if include_archived {
        "SELECT memo.*, \"user\".username AS creator_username, \"user\".nickname AS creator_nickname FROM memo JOIN \"user\" ON \"user\".id = memo.creator_id WHERE memo.creator_id = ? ORDER BY memo.created_ts, memo.id LIMIT ?"
    } else {
        "SELECT memo.*, \"user\".username AS creator_username, \"user\".nickname AS creator_nickname FROM memo JOIN \"user\" ON \"user\".id = memo.creator_id WHERE memo.creator_id = ? AND memo.row_status = 'NORMAL' ORDER BY memo.created_ts, memo.id LIMIT ?"
    };
    let mut binds: Vec<crate::listing::SqlValue> = Vec::new();
    binds.push(crate::listing::SqlValue::Int(viewer_id));
    binds.push(crate::listing::SqlValue::Int((crate::workflow::MIGRATION_MAX_MEMOS + 1) as i64));
    proof {
        assert(crate::listing::binds_view(binds@) =~= seq![
            crate::listing::SqlValueView::Int(viewer_id as int),
            crate::listing::SqlValueView::Int(crate::workflow::MIGRATION_MAX_MEMOS + 1),
        ]);
    }
    crate::listing::Statement { sql: sql.to_string(), binds }
}

/// A memo whose payload records a backup to a server is skipped by the next backup
/// to that same server, once the copy has a name or a push time.
pub proof fn lemma_marked_memo_is_skipped(
    content: Seq<char>,
    payload: JsonView,
    base_url: Seq<char>,
    original_name: Seq<char>,
    local_updated_ts: int,
    pushed_at: Seq<char>,
)
    requires
        trim(original_name).len() > 0 || trim(pushed_at).len() > 0,
    ensures
        skip_original_backup(
            content,
            marked_payload(payload, object_of(backup_marker_fields(base_url, original_name, local_updated_ts, pushed_at))),
            base_url,
        ),
{
    reveal_strlit("baseUrl");
    reveal_strlit("originalName");
    reveal_strlit("localUpdatedTs");
    reveal_strlit("pushedAt");
    let pairs = backup_marker_fields(base_url, original_name, local_updated_ts, pushed_at);
    let marker = object_of(pairs);
    let top = fields_of(payload);
    let sync = match obj_get(top, "sync"@) {
        Some(v) => fields_of(v),
        None => Seq::empty(),
    };
    let inner = obj_insert(sync, "usememos"@, marker);
    crate::json::lemma_obj_get_insert_same(top, "sync"@, JsonView::Object(inner));
    crate::json::lemma_obj_get_insert_same(sync, "usememos"@, marker);
    let f0 = obj_from(pairs.take(1));
    let f1 = obj_from(pairs.take(2));
    let f2 = obj_from(pairs.take(3));
    let f3 = obj_from(pairs);
    assert(pairs.take(1).drop_last() =~= Seq::<(Seq<char>, JsonView)>::empty());
    assert(pairs.take(2).drop_last() =~= pairs.take(1));
    assert(pairs.take(3).drop_last() =~= pairs.take(2));
    assert(pairs.drop_last() =~= pairs.take(3));
    assert(obj_from(Seq::<(Seq<char>, JsonView)>::empty()) == Seq::<(Seq<char>, JsonView)>::empty());
    assert(pairs.take(1).last() == pairs[0]);
    assert(pairs.take(2).last() == pairs[1]);
    assert(pairs.take(3).last() == pairs[2]);
    assert(f0 == obj_insert(Seq::empty(), "baseUrl"@, JsonView::Str(base_url)));
    assert(f1 == obj_insert(f0, "originalName"@, JsonView::Str(original_name)));
    assert(f2 == obj_insert(f1, "localUpdatedTs"@, JsonView::Int(local_updated_ts)));
    assert(f3 == obj_insert(f2, "pushedAt"@, JsonView::Str(pushed_at)));
    crate::json::lemma_obj_get_insert_same(Seq::empty(), "baseUrl"@, JsonView::Str(base_url));
    crate::json::lemma_obj_get_insert_other(f0, "originalName"@, JsonView::Str(original_name), "baseUrl"@);
    crate::json::lemma_obj_get_insert_other(f1, "localUpdatedTs"@, JsonView::Int(local_updated_ts), "baseUrl"@);
    crate::json::lemma_obj_get_insert_other(f2, "pushedAt"@, JsonView::Str(pushed_at), "baseUrl"@);
    crate::json::lemma_obj_get_insert_same(f0, "originalName"@, JsonView::Str(original_name));
    crate::json::lemma_obj_get_insert_other(f1, "localUpdatedTs"@, JsonView::Int(local_updated_ts), "originalName"@);
    crate::json::lemma_obj_get_insert_other(f2, "pushedAt"@, JsonView::Str(pushed_at), "originalName"@);
    crate::json::lemma_obj_get_insert_same(f2, "pushedAt"@, JsonView::Str(pushed_at));
    assert(obj_get(f3, "baseUrl"@) == Some(JsonView::Str(base_url)));
    assert(obj_get(f3, "originalName"@) == Some(JsonView::Str(original_name)));
    assert(obj_get(f3, "pushedAt"@) == Some(JsonView::Str(pushed_at)));
}

/// Memos imported from the original server are never pushed back to it.
pub proof fn lemma_imported_memo_is_never_pushed_back(memo: OriginalMemo, content: Seq<char>, base_url: Seq<char>)
    ensures
        skip_original_backup(content, original_payload(memo, content), base_url),
{
    reveal_strlit("type");
    reveal_strlit("originalName");
    reveal_strlit("creator");
    reveal_strlit("attachmentCount");
    reveal_strlit("relationCount");
    reveal_strlit("attachments");
    reveal_strlit("relations");
    reveal_strlit("source");
    reveal_strlit("originalProperty");
    reveal_strlit("originalParent");
    reveal_strlit("originalLocation");
    let base = payload_with_tags(content, match memo.tags {
        Some(t) => Some(strings_view(t@)),
        None => None,
    });
    let src = import_source(memo);
    let f1 = obj_insert(base->Object_0, "source"@, src);
    crate::json::lemma_obj_get_insert_same(base->Object_0, "source"@, src);
    let f2 = match memo.property {
        Some(p) => obj_insert(f1, "originalProperty"@, p@),
        None => f1,
    };
    if let Some(p) = memo.property {
        crate::json::lemma_obj_get_insert_other(f1, "originalProperty"@, p@, "source"@);
    }
    let f3 = match memo.parent {
        Some(p) => obj_insert(f2, "originalParent"@, JsonView::Str(p@)),
        None => f2,
    };
    if let Some(p) = memo.parent {
        crate::json::lemma_obj_get_insert_other(f2, "originalParent"@, JsonView::Str(p@), "source"@);
    }
    if let Some(l) = memo.location {
        crate::json::lemma_obj_get_insert_other(f3, "originalLocation"@, l@, "source"@);
    }
    assert(json_get(original_payload(memo, content), "source"@) == Some(src));
    let pairs = seq![
        ("type"@, JsonView::Str("usememos"@)),
        ("originalName"@, JsonView::Str(trim(match memo.name {
            Some(n) => n@,
            None => Seq::empty(),
        }))),
        ("creator"@, JsonView::Str(match memo.creator {
            Some(c) => c@,
            None => Seq::empty(),
        })),
        ("attachmentCount"@, JsonView::Int(opt_len(memo.attachments) as int)),
        ("relationCount"@, JsonView::Int(opt_len(memo.relations) as int)),
        ("attachments"@, JsonView::Array(opt_items(memo.attachments))),
        ("relations"@, JsonView::Array(opt_items(memo.relations))),
    ];
    assert(src == object_of(pairs));
    assert forall|k: int| 0 < k < pairs.len() implies (#[trigger] pairs[k]).0 != pairs[0].0 by {
        assert(pairs[0].0.len() == 4);
        if k == 1 { assert(pairs[k].0.len() == 12); }
        if k == 2 { assert(pairs[k].0.len() == 7); }
        if k == 3 { assert(pairs[k].0.len() == 15); }
        if k == 4 { assert(pairs[k].0.len() == 13); }
        if k == 5 { assert(pairs[k].0.len() == 11); }
        if k == 6 { assert(pairs[k].0.len() == 9); }
    }
    crate::json::lemma_obj_from_first(pairs);
}

/// How many values one `IN (...)` list of a query takes at most.
pub const SQL_IN_CHUNK_SIZE: usize = 50;

pub open spec fn original_name_of(memo: OriginalMemo) -> Seq<char> {
    trim(match memo.name {
        Some(n) => n@,
        None => Seq::empty(),
    })
}

/// The non-blank names of original memos.
pub open spec fn original_names(memos: Seq<OriginalMemo>) -> Set<Seq<char>>
    decreases memos.len(),
{
    if memos.len() == 0 {
        Set::empty()
    } else {
        let rest = original_names(memos.drop_last());
        let n = original_name_of(memos.last());
        if n.len() > 0 {
            rest.insert(n)
        } else {
            rest
        }
    }
}

pub open spec fn imported_names_sql(count: nat) -> Seq<char> {
    "SELECT json_extract(payload, '$.source.originalName') AS original_name FROM memo WHERE creator_id = ? AND json_extract(payload, '$.source.type') = 'usememos' AND json_extract(payload, '$.source.originalName') IN ("@
        + crate::http::placeholders_text(count) + ")"@
}

/// The `k`-th group of at most fifty names.
pub open spec fn name_chunk(names: Seq<Seq<char>>, k: int) -> Seq<Seq<char>> {
    let start = 50 * k;
    let end = if start + 50 < names.len() {
        start + 50
    } else {
        names.len() as int
    };
    names.subrange(start, end)
}

/// The queries that find which of `names` a user has already imported, fifty
/// names at a time.
pub open spec fn imported_name_queries(creator_id: int, names: Seq<Seq<char>>) -> Seq<(Seq<char>, Seq<crate::listing::SqlValueView>)> {
    Seq::new(
        ((names.len() + 49) / 50) as nat,
        |k: int|
            {
                let chunk = name_chunk(names, k);
                (
                    imported_names_sql(chunk.len()),
                    seq![crate::listing::SqlValueView::Int(creator_id)] + Seq::new(
                        chunk.len(),
                        |j: int| crate::listing::SqlValueView::Text(chunk[j]),
                    ),
                )
            },
    )
}

/// The queries that look up which original memos a user has imported before: the
/// distinct non-blank names, in ascending order, fifty to a query.
pub fn existing_imported_original_names(creator_id: i64, memos: &[OriginalMemo]) -> (r: Vec<crate::listing::Statement>)
    ensures
        exists|names: Seq<Seq<char>>|
            crate::keywords::strictly_sorted(names) && names.to_set() == original_names(memos@)
                && crate::bulk::statements_view(r@) == imported_name_queries(creator_id as int, names),
{
    let mut names: Vec<String> = Vec::new();
    let mut i: usize = 0;
    proof {
        assert(strings_view(names@).to_set() =~= Set::<Seq<char>>::empty());
        assert(memos@.take(0) =~= Seq::<OriginalMemo>::empty());
    }
    while i < memos.len()
        invariant
            i <= memos@.len(),
            crate::keywords::strictly_sorted(strings_view(names@)),
            strings_view(names@).to_set() == original_names(memos@.take(i as int)),
        decreases memos@.len() - i,
    {
        proof {
            assert(memos@.take(i + 1).drop_last() =~= memos@.take(i as int));
            assert(memos@.take(i + 1).last() == memos@[i as int]);
        }
        let n = original_memo_name(&memos[i]);
        if n.as_str().unicode_len() > 0 {
            crate::keywords::insert_word(&mut names, n);
        }
        i = i + 1;
    }
    proof {
        assert(memos@.take(i as int) =~= memos@);
    }
    let ghost nv = strings_view(names@);
    let ghost expected = imported_name_queries(creator_id as int, nv);
    let mut out: Vec<crate::listing::Statement> = Vec::new();
    let mut start: usize = 0;
    let total = names.len();
    while start < total
        invariant
            total == names@.len(),
            nv == strings_view(names@),
            expected == imported_name_queries(creator_id as int, nv),
            start <= total,
            start < total ==> start == 50 * out@.len() && out@.len() < (total + 49) / 50,
            start == total ==> out@.len() == (total + 49) / 50,
            crate::bulk::statements_view(out@) == expected.take(out@.len() as int),
        decreases total + 50 - start,
    {
        let end: usize = if total - start > SQL_IN_CHUNK_SIZE { start + SQL_IN_CHUNK_SIZE } else { total };
        let ghost k = out@.len() as int;
        let ghost chunk = name_chunk(nv, k);
        let mut binds: Vec<crate::listing::SqlValue> = Vec::new();
        binds.push(crate::listing::SqlValue::Int(creator_id));
        let mut j: usize = start;
        while j < end
            invariant
                start <= j <= end <= total,
                total == names@.len(),
                nv == strings_view(names@),
                chunk == nv.subrange(start as int, end as int),
                binds@.len() == j - start + 1,
                crate::listing::sql_value_view(binds@[0]) == crate::listing::SqlValueView::Int(creator_id as int),
                forall|q: int| 0 <= q < j - start ==> crate::listing::sql_value_view(#[trigger] binds@[q + 1]) == crate::listing::SqlValueView::Text(chunk[q]),
            decreases end - j,
        {
            binds.push(crate::listing::SqlValue::Text(names[j].clone()));
            proof {
                assert(chunk[j - start] == nv[j as int]);
            }
            j = j + 1;
        }
        let ghost want = seq![crate::listing::SqlValueView::Int(creator_id as int)] + Seq::new(
            chunk.len(),
            |q: int| crate::listing::SqlValueView::Text(chunk[q]),
        );
        proof {
            assert forall|q: int| 0 <= q < binds@.len() implies crate::listing::binds_view(binds@)[q] == want[q] by {
                if q > 0 {
                    assert(crate::listing::sql_value_view(binds@[(q - 1) + 1]) == crate::listing::SqlValueView::Text(chunk[q - 1]));
                }
            }
            assert(crate::listing::binds_view(binds@) =~= want);
        }
        let mut sql: Vec<char> = Vec::new();
        push_chars(&mut sql, "SELECT json_extract(payload, '$.source.originalName') AS original_name FROM memo WHERE creator_id = ? AND json_extract(payload, '$.source.type') = 'usememos' AND json_extract(payload, '$.source.originalName') IN (");
        let p = crate::http::placeholders(end - start);
        push_chars(&mut sql, p.as_str());
        push_chars(&mut sql, ")");
        let ghost prev = out@;
        out.push(crate::listing::Statement { sql: string_of(&sql), binds });
        proof {
            let e = expected[k];
            assert(chunk.len() == end - start);
            assert(sql@ =~= imported_names_sql(chunk.len()));
            assert(e.1 == want);
            assert(crate::bulk::statements_view(out@) =~= crate::bulk::statements_view(prev).push(e));
            assert(expected.take(k + 1) =~= expected.take(k).push(e));
        }
        start = end;
    }
    proof {
        assert(expected.take(out@.len() as int) =~= expected);
    }
    out
}

fn push_chars(v: &mut Vec<char>, s: &str)
    ensures
        final(v)@ == old(v)@ + s@,
{
    crate::text::push_str(v, s);
}

/// A page of the original server's memo list: on a 2xx status, its `memos` items
/// (none where there is no list) and its next page token (empty where there is
/// none); any other status answers 400.
pub fn fetch_original_memos_page(status: u16, data: &Json) -> (r: Result<(Vec<Json>, String), AppError>)
    ensures
        r is Ok <==> 200 <= status < 300,
        r matches Ok((items, next)) ==> {
            &&& items_view(items@) == match json_get(data@, "memos"@) {
                Some(JsonView::Array(v)) => v,
                _ => Seq::<JsonView>::empty(),
            }
            &&& next@ == match json_as_str(json_get(data@, "nextPageToken"@)) {
                Some(t) => t,
                None => Seq::<char>::empty(),
            }
        },
        r matches Err(e) ==> is_error(e, 400, "Original Memos API returned HTTP "@ + crate::text::int_text(status as int)),
{
    if status < 200 || status >= 300 {
        let mut v: Vec<char> = Vec::new();
        crate::text::push_str(&mut v, "Original Memos API returned HTTP ");
        crate::text::push_int(&mut v, status as i128);
        let msg = string_of(&v);
        return Err(AppError::new(400, msg.as_str()));
    }
    let field = get_field(data, "memos");
    let items = match field {
        Some(j) => match clone_json(j) {
            Json::Array(v) => {
                proof {
                    assert(items_view(v@) =~= j@->Array_0);
                }
                v
            },
            _ => {
                let v: Vec<Json> = Vec::new();
                proof {
                    assert(items_view(v@) =~= Seq::<JsonView>::empty());
                }
                v
            },
        },
        None => {
            let v: Vec<Json> = Vec::new();
            proof {
                assert(items_view(v@) =~= Seq::<JsonView>::empty());
            }
            v
        },
    };
    let next = match as_str(get_field(data, "nextPageToken")) {
        Some(t) => t.clone(),
        None => {
            let e = String::new();
            proof {
                assert(e@ =~= Seq::<char>::empty());
            }
            e
        },
    };
    Ok((items, next))
}

/// Adds a fetched page to the memos read so far, up to the migration limit; says
/// whether the page did not fit.
pub fn collect_page(all: &mut Vec<OriginalMemo>, fetched: Vec<OriginalMemo>) -> (truncated: bool)
    requires
        old(all)@.len() <= crate::workflow::MIGRATION_MAX_MEMOS,
    ensures
        truncated == (old(all)@.len() + fetched@.len() > crate::workflow::MIGRATION_MAX_MEMOS),
        final(all)@ == old(all)@ + if truncated {
            fetched@.take(crate::workflow::MIGRATION_MAX_MEMOS - old(all)@.len())
        } else {
            fetched@
        },
        final(all)@.len() <= crate::workflow::MIGRATION_MAX_MEMOS,
{
    let room = crate::workflow::MIGRATION_MAX_MEMOS - all.len();
    let truncated = fetched.len() > room;
    let mut page = fetched;
    page.truncate(room);
    proof {
        if !truncated {
            assert(page@ =~= fetched@);
        }
    }
    all.append(&mut page);
    truncated
}

/// The serialization of the address of one page of the original server's memo
/// list, from the serialization of its `/api/v1/memos` URL: page size and state,
/// then the page token when there is one.
pub open spec fn memos_page_serialization(list: Seq<char>, state: Seq<char>, page_token: Seq<char>) -> Seq<char> {
    let sized = url_with_query_pair(list, "pageSize"@, crate::text::int_text(crate::workflow::MIGRATION_PAGE_SIZE as int));
    let stated = url_with_query_pair(sized, "state"@, state);
    if page_token.len() == 0 {
        stated
    } else {
        url_with_query_pair(stated, "pageToken"@, page_token)
    }
}

/// The address of one page of the original server's memo list; 400 when the base
/// URL with `/api/v1/memos` does not parse.
pub fn original_memos_page_url(base_url: &str, state: &str, page_token: &str) -> (r: Result<String, AppError>)
    ensures
        match url_parsed(base_url@ + "/api/v1/memos"@) {
            None => r matches Err(e) && is_error(e, 400, "Invalid Memos URL"@),
            Some(list) => r matches Ok(s) && s@ == memos_page_serialization(list, state@, page_token@),
        },
{
    let mut v = chars_of(base_url);
    crate::text::push_str(&mut v, "/api/v1/memos");
    let text = string_of(&v);
    let mut url = match RequestUrl::parse(text.as_str()) {
        Some(u) => u,
        None => return Err(AppError::new(400, "Invalid Memos URL")),
    };
    let size = crate::text::int_to_string(crate::workflow::MIGRATION_PAGE_SIZE as i64);
    url_append_pair(&mut url, "pageSize", size.as_str());
    url_append_pair(&mut url, "state", state);
    if page_token.unicode_len() > 0 {
        url_append_pair(&mut url, "pageToken", page_token);
    }
    Ok(url_text(&url))
}

} // verus!
