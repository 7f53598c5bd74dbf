use vstd::prelude::*;
use crate::text::{chars_of, string_of, trim, trim_chars, trim_str, push_str, push_int, int_text, strip_trailing, strip_trailing_char, str_eq};
use crate::json::{Json, JsonView, ObjectBuilder, object_of, json_get, json_as_str, get_field, as_str, json_str, json_array, items_view, json_text, to_json_string};
use crate::access::{truncate, truncated};
use crate::relations::{strip_memo_prefixes, strings_view};
use crate::events::memo_name;
use crate::models::AiSettings;
use crate::error::{AppError, is_error};
use crate::http::normalize_http_url;

verus! {

/// What the API shows of the AI settings: never the key, only whether one is set.
pub open spec fn public_ai_fields(s: AiSettings) -> Seq<(Seq<char>, JsonView)> {
    seq![
        ("baseUrl"@, JsonView::Str(s.base_url@)),
        ("model"@, JsonView::Str(s.model@)),
        ("configured"@, JsonView::Bool(trim(s.api_key@).len() > 0)),
    ]
}

pub fn public_ai_settings(settings: &AiSettings) -> (j: Json)
    ensures
        j@ == object_of(public_ai_fields(*settings)),
{
    let key = trim_chars(&chars_of(settings.api_key.as_str()));
    let mut b = ObjectBuilder::new();
    b.add("baseUrl", json_str(settings.base_url.as_str()));
    b.add("model", json_str(settings.model.as_str()));
    b.add("configured", Json::Bool(key.len() > 0));
    proof {
        assert(b.pairs() =~= public_ai_fields(*settings));
    }
    b.build()
}

pub open spec fn str_or(x: Option<Seq<char>>, d: Seq<char>) -> Seq<char> {
    match x {
        Some(s) => s,
        None => d,
    }
}

/// The model an update asks for: the given or previous name, trimmed; the default
/// model where that is empty.
pub open spec fn merged_model(previous: AiSettings, update: JsonView) -> Seq<char> {
    let m = trim(str_or(json_as_str(json_get(update, "model"@)), previous.model@));
    if m.len() == 0 {
        "gpt-4o-mini"@
    } else {
        m
    }
}

/// The key an update asks for: a non-blank given key, trimmed; else the previous key.
pub open spec fn merged_api_key(previous: AiSettings, update: JsonView) -> Seq<char> {
    match json_as_str(json_get(update, "apiKey"@)) {
        Some(k) => if trim(k).len() > 0 {
            trim(k)
        } else {
            previous.api_key@
        },
        None => previous.api_key@,
    }
}

/// The base URL an update asks for, before normalization.
pub open spec fn merged_base_url(previous: AiSettings, update: JsonView) -> Seq<char> {
    str_or(json_as_str(json_get(update, "baseUrl"@)), previous.base_url@)
}

/// Applies a settings update (`baseUrl`, `model`, `apiKey`) to the previous settings.
pub fn merge_ai_settings(previous: &AiSettings, update: &Json) -> (r: Result<AiSettings, AppError>)
    ensures
        match crate::http::http_base_url(merged_base_url(*previous, update@)) {
            Some(b) => r matches Ok(s) && s.base_url@ == b && s.model@ == merged_model(*previous, update@)
                && s.api_key@ == merged_api_key(*previous, update@),
            None => r matches Err(e) && is_error(e, 400, "Invalid AI Base URL"@),
        },
{
    let base_in = match as_str(get_field(update, "baseUrl")) {
        Some(s) => s.as_str(),
        None => previous.base_url.as_str(),
    };
    let model_in = match as_str(get_field(update, "model")) {
        Some(s) => s.as_str(),
        None => previous.model.as_str(),
    };
    let model_t = trim_str(model_in);
    let model = if model_t.as_str().unicode_len() == 0 {
        "gpt-4o-mini".to_owned()
    } else {
        model_t
    };
    let api_key = match as_str(get_field(update, "apiKey")) {
        Some(k) => {
            let t = trim_str(k.as_str());
            if t.as_str().unicode_len() > 0 {
                t
            } else {
                previous.api_key.clone()
            }
        },
        None => previous.api_key.clone(),
    };
    let base_url = match normalize_http_url(base_in, "Invalid AI Base URL") {
        Ok(u) => u,
        Err(e) => return Err(e),
    };
    Ok(AiSettings { base_url, model, api_key })
}


/// The base URL text that settings resolve from: the stored one, else the
/// configured one, else the OpenAI endpoint.
pub open spec fn resolved_base_input(stored: AiSettings, env_base_url: Option<Seq<char>>) -> Seq<char> {
    if stored.base_url@.len() == 0 {
        str_or(env_base_url, "https://api.openai.com/v1"@)
    } else {
        stored.base_url@
    }
}

/// The settings in force: the stored ones, with what is not stored taken from the
/// configuration (then the defaults: the OpenAI endpoint, `gpt-4o-mini`, no key);
/// the base URL is checked (400 when invalid).
pub fn resolve_ai_settings(stored: AiSettings, env_base_url: Option<String>, env_model: Option<String>, env_api_key: Option<String>) -> (r: Result<AiSettings, AppError>)
    ensures
        match r {
            Ok(s) => {
                &&& s.model@ == if stored.model@.len() == 0 {
                    str_or(crate::json::opt_string(env_model), "gpt-4o-mini"@)
                } else {
                    stored.model@
                }
                &&& s.api_key@ == if stored.api_key@.len() == 0 {
                    str_or(crate::json::opt_string(env_api_key), Seq::empty())
                } else {
                    stored.api_key@
                }
                &&& crate::http::http_base_url(resolved_base_input(stored, crate::json::opt_string(env_base_url)))
                    == Some(s.base_url@)
            },
            Err(e) => is_error(e, 400, "Invalid AI Base URL"@)
                && crate::http::http_base_url(resolved_base_input(stored, crate::json::opt_string(env_base_url))) is None,
        },
{
    let base_in = if stored.base_url.as_str().unicode_len() == 0 {
        match env_base_url {
            Some(b) => b,
            None => "https://api.openai.com/v1".to_owned(),
        }
    } else {
        stored.base_url
    };
    let base_url = normalize_http_url(base_in.as_str(), "Invalid AI Base URL")?;
    let model = if stored.model.as_str().unicode_len() == 0 {
        match env_model {
            Some(m) => m,
            None => "gpt-4o-mini".to_owned(),
        }
    } else {
        stored.model
    };
    let api_key = if stored.api_key.as_str().unicode_len() == 0 {
        match env_api_key {
            Some(k) => k,
            None => {
                let e = String::new();
                proof {
                    assert(e@ =~= Seq::<char>::empty());
                }
                e
            },
        }
    } else {
        stored.api_key
    };
    Ok(AiSettings { base_url, model, api_key })
}

/// The stored settings, or the defaults when none are stored (or they do not read).
pub fn stored_ai_settings(stored: Option<AiSettings>) -> (r: AiSettings)
    ensures
        match stored {
            Some(s) => r == s,
            None => r.base_url@ == "https://api.openai.com/v1"@ && r.model@ == "gpt-4o-mini"@ && r.api_key@.len() == 0,
        },
{
    match stored {
        Some(s) => s,
        None => {
            let key = String::new();
            proof {
                assert(key@ =~= Seq::<char>::empty());
            }
            AiSettings { base_url: "https://api.openai.com/v1".to_owned(), model: "gpt-4o-mini".to_owned(), api_key: key }
        },
    }
}

/// A settings test needs a key (400 otherwise).
pub fn require_api_key(settings: &AiSettings) -> (r: Result<(), AppError>)
    ensures
        r is Ok <==> trim(settings.api_key@).len() > 0,
        r matches Err(e) ==> is_error(e, 400, "AI API Key is required"@),
{
    let t = trim_str(settings.api_key.as_str());
    if t.as_str().unicode_len() == 0 {
        return Err(AppError::new(400, "AI API Key is required"));
    }
    Ok(())
}

/// The chat completions endpoint under a base URL.
pub fn chat_completions_url(base_url: &str) -> (r: String)
    ensures
        r@ == strip_trailing(base_url@, '/') + "/chat/completions"@,
{
    let mut v = strip_trailing_char(&chars_of(base_url), '/');
    push_str(&mut v, "/chat/completions");
    string_of(&v)
}

/// The `Authorization` value for a key.
pub fn bearer(api_key: &str) -> (r: String)
    ensures
        r@ == "Bearer "@ + api_key@,
{
    let mut v: Vec<char> = Vec::new();
    push_str(&mut v, "Bearer ");
    push_str(&mut v, api_key);
    string_of(&v)
}

pub open spec fn message_view(role: Seq<char>, content: Seq<char>) -> JsonView {
    object_of(seq![("role"@, JsonView::Str(role)), ("content"@, JsonView::Str(content))])
}

fn message(role: &str, content: &str) -> (j: Json)
    ensures
        j@ == message_view(role@, content@),
{
    let mut b = ObjectBuilder::new();
    b.add("role", json_str(role));
    b.add("content", json_str(content));
    proof {
        assert(b.pairs() =~= seq![("role"@, JsonView::Str(role@)), ("content"@, JsonView::Str(content@))]);
    }
    b.build()
}

/// The request a settings test sends: a two-message ping at temperature 0, at
/// most 8 tokens back.
pub open spec fn ping_payload(model: Seq<char>) -> JsonView {
    object_of(seq![
        ("model"@, JsonView::Str(model)),
        ("temperature"@, JsonView::Int(0)),
        ("messages"@, JsonView::Array(seq![message_view("system"@, "Return ok."@), message_view("user"@, "ping"@)])),
        ("max_tokens"@, JsonView::Int(8)),
    ])
}

pub fn ai_ping_payload(model: &str) -> (j: Json)
    ensures
        j@ == ping_payload(model@),
{
    let mut messages: Vec<Json> = Vec::new();
    messages.push(message("system", "Return ok."));
    messages.push(message("user", "ping"));
    let list = json_array(messages);
    proof {
        assert(items_view(messages@) =~= seq![message_view("system"@, "Return ok."@), message_view("user"@, "ping"@)]);
    }
    let mut b = ObjectBuilder::new();
    b.add("model", json_str(model));
    b.add("temperature", Json::Int(0));
    b.add("messages", list);
    b.add("max_tokens", Json::Int(8));
    proof {
        assert(b.pairs() =~= seq![
            ("model"@, JsonView::Str(model@)),
            ("temperature"@, JsonView::Int(0)),
            ("messages"@, JsonView::Array(seq![message_view("system"@, "Return ok."@), message_view("user"@, "ping"@)])),
            ("max_tokens"@, JsonView::Int(8)),
        ]);
    }
    b.build()
}

/// An AI service answer other than 2xx is reported as 502.
pub fn ai_status_check(status: u16) -> (r: Result<(), AppError>)
    ensures
        r is Ok <==> 200 <= status < 300,
        r matches Err(e) ==> is_error(e, 502, "AI API returned HTTP "@ + int_text(status as int)),
{
    if status < 200 || status >= 300 {
        let mut v: Vec<char> = Vec::new();
        push_str(&mut v, "AI API returned HTTP ");
        push_int(&mut v, status as i128);
        let msg = string_of(&v);
        return Err(AppError::new(502, msg.as_str()));
    }
    Ok(())
}

/// The text of the first choice of a chat completion; empty when there is none.
pub open spec fn first_choice_text(data: JsonView) -> Seq<char> {
    match json_get(data, "choices"@) {
        Some(JsonView::Array(choices)) => if choices.len() > 0 {
            match json_get(choices[0], "message"@) {
                Some(m) => match json_as_str(json_get(m, "content"@)) {
                    Some(c) => c,
                    None => Seq::empty(),
                },
                None => Seq::empty(),
            }
        } else {
            Seq::empty()
        },
        _ => Seq::empty(),
    }
}

pub fn first_choice_content(data: &Json) -> (r: String)
    ensures
        r@ == first_choice_text(data@),
{
    let empty = String::new();
    proof {
        assert(empty@ =~= Seq::<char>::empty());
    }
    let field = get_field(data, "choices");
    match field {
        Some(j) => match j {
            Json::Array(choices) => {
                proof {
                    assert(j@->Array_0 =~= items_view(choices@));
                }
                if choices.len() > 0 {
                    proof {
                        assert(items_view(choices@)[0] == choices@[0]@);
                    }
                    match get_field(&choices[0], "message") {
                        Some(m) => match as_str(get_field(m, "content")) {
                            Some(c) => c.clone(),
                            None => empty,
                        },
                        None => empty,
                    }
                } else {
                    empty
                }
            },
            _ => empty,
        },
        None => empty,
    }
}

/// An AI suggestion kept: which item of the answer it came from, the memo uid,
/// the candidate's content and the reason (at most 160 characters).
#[derive(Debug)]
pub struct AiSuggestion {
    pub index: usize,
    pub uid: String,
    pub content: String,
    pub reason: String,
}

pub open spec fn candidate_text(table: Seq<(Seq<char>, Seq<char>)>, uid: Seq<char>) -> Option<Seq<char>>
    decreases table.len(),
{
    if table.len() == 0 {
        None
    } else if table[0].0 == uid {
        Some(table[0].1)
    } else {
        candidate_text(table.drop_first(), uid)
    }
}

pub open spec fn suggestion_item_uid(item: JsonView) -> Seq<char> {
    trim(strip_memo_prefixes(match json_as_str(json_get(item, "memo"@)) {
        Some(m) => m,
        None => Seq::empty(),
    }))
}

pub open spec fn suggestion_reason(item: JsonView) -> Seq<char> {
    truncated(match json_as_str(json_get(item, "reason"@)) {
        Some(r) => r,
        None => "内容相关"@,
    }, 160)
}

/// The suggestions kept from an AI answer, in order: items naming a candidate
/// memo, each memo once, at most eight. Each is (item index, uid, content, reason).
pub open spec fn kept_suggestions(items: Seq<JsonView>, table: Seq<(Seq<char>, Seq<char>)>) -> Seq<(int, Seq<char>, Seq<char>, Seq<char>)>
    decreases items.len(),
{
    if items.len() == 0 {
        Seq::empty()
    } else {
        let prev = kept_suggestions(items.drop_last(), table);
        let i = items.len() - 1;
        let uid = suggestion_item_uid(items.last());
        if prev.len() >= 8 {
            prev
        } else {
            match candidate_text(table, uid) {
                Some(content) => if uid.len() == 0 || exists|k: int| 0 <= k < prev.len() && prev[k].1 == uid {
                    prev
                } else {
                    prev.push((i, uid, content, suggestion_reason(items.last())))
                },
                None => prev,
            }
        }
    }
}

pub open spec fn suggestions_view(v: Seq<AiSuggestion>) -> Seq<(int, Seq<char>, Seq<char>, Seq<char>)> {
    Seq::new(v.len(), |i: int| (v[i].index as int, v[i].uid@, v[i].content@, v[i].reason@))
}

pub open spec fn table_view(t: Seq<(String, String)>) -> Seq<(Seq<char>, Seq<char>)> {
    Seq::new(t.len(), |i: int| (t[i].0@, t[i].1@))
}

fn lookup_text(table: &Vec<(String, String)>, uid: &str) -> (r: Option<String>)
    ensures
        crate::json::opt_string(r) == candidate_text(table_view(table@), uid@),
{
    let ghost tv = table_view(table@);
    let mut i: usize = 0;
    proof {
        assert(tv.skip(0) =~= tv);
    }
    while i < table.len()
        invariant
            i <= table@.len(),
            tv == table_view(table@),
            candidate_text(tv, uid@) == candidate_text(tv.skip(i as int), uid@),
        decreases table.len() - i,
    {
        proof {
            assert(tv.skip(i as int)[0] == (table@[i as int].0@, table@[i as int].1@));
            assert(tv.skip(i as int).drop_first() =~= tv.skip(i + 1));
        }
        if str_eq(table[i].0.as_str(), uid) {
            return Some(table[i].1.clone());
        }
        i = i + 1;
    }
    None
}

fn kept_uid(kept: &Vec<AiSuggestion>, uid: &str) -> (b: bool)
    ensures
        b == exists|k: int| 0 <= k < kept@.len() && suggestions_view(kept@)[k].1 == uid@,
{
    let mut i: usize = 0;
    while i < kept.len()
        invariant
            i <= kept@.len(),
            forall|j: int| 0 <= j < i ==> kept@[j].uid@ != uid@,
        decreases kept.len() - i,
    {
        if str_eq(kept[i].uid.as_str(), uid) {
            proof {
                assert(suggestions_view(kept@)[i as int].1 == uid@);
            }
            return true;
        }
        i = i + 1;
    }
    proof {
        assert forall|k: int| 0 <= k < kept@.len() implies suggestions_view(kept@)[k].1 != uid@ by {
            assert(suggestions_view(kept@)[k].1 == kept@[k].uid@);
        }
    }
    false
}

fn suggestion_uid_exec(item: &Json) -> (r: String)
    ensures
        r@ == suggestion_item_uid(item@),
{
    proof {
        reveal_strlit("");
    }
    let raw = match as_str(get_field(item, "memo")) {
        Some(m) => chars_of(m.as_str()),
        None => chars_of(""),
    };
    let stripped = crate::relations::strip_memo_prefixes_exec(&raw);
    string_of(&trim_chars(&stripped))
}

pub fn select_ai_suggestions(items: &Vec<Json>, candidates: &Vec<(String, String)>) -> (r: Vec<AiSuggestion>)
    ensures
        suggestions_view(r@) == kept_suggestions(items_view(items@), table_view(candidates@)),
{
    let ghost iv = items_view(items@);
    let ghost tv = table_view(candidates@);
    let mut kept: Vec<AiSuggestion> = Vec::new();
    let mut i: usize = 0;
    proof {
        assert(iv.take(0) =~= Seq::<JsonView>::empty());
        assert(suggestions_view(kept@) =~= Seq::<(int, Seq<char>, Seq<char>, Seq<char>)>::empty());
    }
    while i < items.len()
        invariant
            i <= items@.len(),
            iv == items_view(items@),
            tv == table_view(candidates@),
            suggestions_view(kept@) == kept_suggestions(iv.take(i as int), tv),
            kept@.len() <= 8,
        decreases items.len() - i,
    {
        proof {
            assert(iv.take(i + 1).drop_last() =~= iv.take(i as int));
            assert(iv.take(i + 1).last() == items@[i as int]@);
            assert(iv.take(i + 1).len() - 1 == i);
        }
        if kept.len() < 8 {
            let uid = suggestion_uid_exec(&items[i]);
            match lookup_text(candidates, uid.as_str()) {
                Some(content) => {
                    if uid.as_str().unicode_len() > 0 && !kept_uid(&kept, uid.as_str()) {
                        let reason = match as_str(get_field(&items[i], "reason")) {
                            Some(r) => truncate(r.as_str(), 160),
                            None => truncate("内容相关", 160),
                        };
                        let ghost prev = suggestions_view(kept@);
                        let s = AiSuggestion { index: i, uid, content, reason };
                        let ghost sv = (s.index as int, s.uid@, s.content@, s.reason@);
                        kept.push(s);
                        proof {
                            assert(suggestions_view(kept@) =~= prev.push(sv));
                        }
                    }
                },
                None => {},
            }
        }
        i = i + 1;
    }
    proof {
        assert(iv.take(i as int) =~= iv);
    }
    kept
}

} // verus!
