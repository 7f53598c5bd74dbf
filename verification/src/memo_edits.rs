use vstd::prelude::*;
use crate::text::{chars_of, string_of, push_str, trim, trim_str, str_eq};
use crate::json::{Json, JsonView, json_get, json_as_str, get_field, as_str};
use crate::access::{normalize_state, normalize_visibility, is_row_state, is_visibility};
use crate::unicode::unicode_uppercase;
use crate::domain::{build_memo_payload, memo_payload, normalize_tag_name, normalized_tag, replace_tag_in_content, content_with_renamed_tag};
use crate::imports::field_either;
use crate::models::DbMemo;
use crate::error::{AppError, is_error};

verus! {

fn str_field_or<'a>(body: &'a Json, key: &str, fallback: &'a str) -> (r: &'a str)
    ensures
        r@ == match json_as_str(json_get(body@, key@)) {
            Some(s) => s,
            None => fallback@,
        },
{
    match as_str(get_field(body, key)) {
        Some(s) => s.as_str(),
        None => fallback,
    }
}

/// The trimmed `content` of a request (empty when it has none).
pub open spec fn body_content(body: JsonView) -> Seq<char> {
    trim(match json_as_str(json_get(body, "content"@)) {
        Some(c) => c,
        None => Seq::empty(),
    })
}

/// The content of a new memo or comment: refused with 400 when blank.
pub fn required_content(body: &Json) -> (r: Result<String, AppError>)
    ensures
        match r {
            Ok(c) => c@ == body_content(body@) && c@.len() > 0,
            Err(e) => body_content(body@).len() == 0 && is_error(e, 400, "Content is required"@),
        },
{
    proof {
        reveal_strlit("");
    }
    let content = trim_str(str_field_or(body, "content", ""));
    if content.as_str().unicode_len() == 0 {
        return Err(AppError::new(400, "Content is required"));
    }
    Ok(content)
}

/// The visibility of a new memo: the one asked for (private when none), checked.
pub fn new_memo_visibility(body: &Json) -> (r: Result<String, AppError>)
    ensures
        match r {
            Ok(v) => v@ == unicode_uppercase(match json_as_str(json_get(body@, "visibility"@)) {
                Some(s) => s,
                None => "PRIVATE"@,
            }) && is_visibility(v@),
            Err(e) => is_error(e, 400, "Invalid visibility"@),
        },
{
    normalize_visibility(str_field_or(body, "visibility", "PRIVATE"))
}

/// A memo edit: what the request gives, the memo's current values elsewhere.
#[derive(Debug)]
pub struct MemoUpdate {
    pub content: String,
    pub visibility: String,
    pub row_status: String,
    pub pinned: i64,
    pub payload: Json,
}

pub open spec fn edited_content(body: JsonView, memo: DbMemo) -> Seq<char> {
    trim(match json_as_str(json_get(body, "content"@)) {
        Some(c) => c,
        None => memo.content@,
    })
}

pub open spec fn edited_visibility(body: JsonView, memo: DbMemo) -> Seq<char> {
    unicode_uppercase(match json_as_str(json_get(body, "visibility"@)) {
        Some(v) => v,
        None => memo.visibility@,
    })
}

pub open spec fn edited_state(body: JsonView, memo: DbMemo) -> Seq<char> {
    unicode_uppercase(match json_as_str(field_either(body, "rowStatus"@, "row_status"@)) {
        Some(s) => s,
        None => memo.row_status@,
    })
}

pub open spec fn edited_pinned(body: JsonView, memo: DbMemo) -> int {
    match json_get(body, "pinned"@) {
        Some(JsonView::Bool(b)) => if b {
            1
        } else {
            0
        },
        _ => memo.pinned as int,
    }
}

/// Applies an edit request to a memo; an invalid visibility (checked first) or
/// state answers 400.
pub fn memo_update(body: &Json, memo: &DbMemo) -> (r: Result<MemoUpdate, AppError>)
    ensures
        match r {
            Ok(u) => {
                &&& u.content@ == edited_content(body@, *memo)
                &&& u.visibility@ == edited_visibility(body@, *memo)
                &&& is_visibility(u.visibility@)
                &&& u.row_status@ == edited_state(body@, *memo)
                &&& is_row_state(u.row_status@)
                &&& u.pinned == edited_pinned(body@, *memo)
                &&& u.payload@ == memo_payload(edited_content(body@, *memo))
            },
            Err(e) => if !is_visibility(edited_visibility(body@, *memo)) {
                is_error(e, 400, "Invalid visibility"@)
            } else {
                !is_row_state(edited_state(body@, *memo)) && is_error(e, 400, "Invalid row status"@)
            },
        },
{
    let content = trim_str(str_field_or(body, "content", memo.content.as_str()));
    let visibility = normalize_visibility(str_field_or(body, "visibility", memo.visibility.as_str()))?;
    let state_field = match get_field(body, "rowStatus") {
        Some(v) => Some(v),
        None => get_field(body, "row_status"),
    };
    let state_text = match as_str(state_field) {
        Some(s) => s.as_str(),
        None => memo.row_status.as_str(),
    };
    let row_status = normalize_state(state_text)?;
    let pinned = match get_field(body, "pinned") {
        Some(Json::Bool(b)) => if *b {
            1
        } else {
            0
        },
        _ => memo.pinned,
    };
    let payload = build_memo_payload(content.as_str());
    Ok(MemoUpdate { content, visibility, row_status, pinned, payload })
}

/// The event an edit emits: archived or restored when the state changed, else
/// updated.
pub open spec fn edit_event(before: Seq<char>, after: Seq<char>) -> Seq<char> {
    if before != after {
        if after == "ARCHIVED"@ {
            "memo.archived"@
        } else {
            "memo.restored"@
        }
    } else {
        "memo.updated"@
    }
}

pub fn update_event_type(before: &str, after: &str) -> (r: &'static str)
    ensures
        r@ == edit_event(before@, after@),
{
    if !str_eq(before, after) {
        if str_eq(after, "ARCHIVED") {
            "memo.archived"
        } else {
            "memo.restored"
        }
    } else {
        "memo.updated"
    }
}

/// A tag rename request: both names normalized, neither may end up empty (400).
pub fn rename_request(body: &Json) -> (r: Result<(String, String), AppError>)
    ensures
        match r {
            Ok((from, to)) => from@ == normalized_tag(match json_as_str(json_get(body@, "from"@)) {
                Some(s) => s,
                None => Seq::empty(),
            }) && to@ == normalized_tag(match json_as_str(json_get(body@, "to"@)) {
                Some(s) => s,
                None => Seq::empty(),
            }) && from@.len() > 0 && to@.len() > 0,
            Err(e) => is_error(e, 400, "from and to are required"@),
        },
{
    proof {
        reveal_strlit("");
    }
    let from = normalize_tag_name(str_field_or(body, "from", ""));
    let to = normalize_tag_name(str_field_or(body, "to", ""));
    if from.as_str().unicode_len() == 0 || to.as_str().unicode_len() == 0 {
        return Err(AppError::new(400, "from and to are required"));
    }
    Ok((from, to))
}

/// The search pattern for memos that may hold a tag: `%#{tag}%`.
pub fn tag_search_pattern(tag: &str) -> (r: String)
    ensures
        r@ == "%#"@ + tag@ + "%"@,
{
    let mut v: Vec<char> = Vec::new();
    push_str(&mut v, "%#");
    push_str(&mut v, tag);
    push_str(&mut v, "%");
    proof {
        assert(v@ =~= "%#"@ + tag@ + "%"@);
    }
    string_of(&v)
}

/// The content a tag rename gives a memo, or nothing when it does not change.
pub fn renamed_content(content: &str, from: &str, to: &str) -> (r: Option<String>)
    ensures
        match r {
            Some(c) => c@ == content_with_renamed_tag(content@, from@, to@) && c@ != content@,
            None => content_with_renamed_tag(content@, from@, to@) == content@,
        },
{
    let next = replace_tag_in_content(content, from, to);
    if str_eq(next.as_str(), content) {
        None
    } else {
        Some(next)
    }
}

} // verus!
