use vstd::prelude::*;
use crate::json::{Json, JsonView, ObjectBuilder, object_of, obj_insert, json_text, to_json_string, json_object, insert_field};
use crate::models::DbMemoEvent;
use crate::error::AppError;
use crate::events::clone_json;
use crate::http::{query_param, RequestUrl};
use crate::text::{push_str, push_int, string_of, chars_of, trim, trim_str, int_text, parse_i64, parse_i64_spec, int_to_string, nat_text, is_ascii_digit, trim_start, trim_end};

verus! {

/// One named server-sent event carrying `data`.
pub open spec fn sse_event_text(event: Seq<char>, data: Seq<char>) -> Seq<char> {
    "event: "@ + event + "\ndata: "@ + data + "\n\n"@
}

/// An event-stream frame: optional `id` and `event` lines, then the data line.
pub open spec fn sse_frame(id: Option<int>, event: Option<Seq<char>>, data: Seq<char>) -> Seq<char> {
    (match id {
        Some(n) => "id: "@ + int_text(n) + "\n"@,
        None => Seq::empty(),
    }) + (match event {
        Some(e) => "event: "@ + e + "\n"@,
        None => Seq::empty(),
    }) + "data: "@ + data + "\n\n"@
}

/// A named event whose data is the compact JSON text of `data`. Writing JSON text
/// cannot fail, so the result is always `Ok`.
pub fn sse_event(event: &str, data: &Json) -> (r: Result<String, AppError>)
    ensures
        r matches Ok(s) && s@ == sse_event_text(event@, json_text(data@)),
{
    let text = to_json_string(data);
    let mut v: Vec<char> = Vec::new();
    push_str(&mut v, "event: ");
    push_str(&mut v, event);
    push_str(&mut v, "\ndata: ");
    push_str(&mut v, text.as_str());
    push_str(&mut v, "\n\n");
    proof {
        assert(v@ =~= sse_event_text(event@, json_text(data@)));
    }
    Ok(string_of(&v))
}

/// The first chunk of a connection: a reconnect delay of five seconds, then a
/// `ready` event naming the user.
pub open spec fn ready_payload_text(user_id: int) -> Seq<char> {
    "retry: 5000\n"@ + sse_event_text("ready"@, json_text(object_of(seq![("userId"@, JsonView::Int(user_id))])))
}

pub fn sse_ready_payload(user_id: i64) -> (r: Result<String, AppError>)
    ensures
        r matches Ok(s) && s@ == ready_payload_text(user_id as int),
{
    let mut b = ObjectBuilder::new();
    b.add("userId", Json::Int(user_id as i128));
    proof {
        assert(b.pairs() =~= seq![("userId"@, JsonView::Int(user_id as int))]);
    }
    let data = b.build();
    let event = sse_event("ready", &data)?;
    let mut v: Vec<char> = Vec::new();
    push_str(&mut v, "retry: 5000\n");
    push_str(&mut v, event.as_str());
    proof {
        assert(v@ =~= ready_payload_text(user_id as int));
    }
    Ok(string_of(&v))
}

pub open spec fn opt_str_seq(x: Option<&str>) -> Option<Seq<char>> {
    match x {
        Some(s) => Some(s@),
        None => None,
    }
}

/// An event-stream frame for `data`, with the optional `id` and `event` lines.
/// Always `Ok`.
pub fn format_sse_event(id: Option<i64>, event: Option<&str>, data: &Json) -> (r: Result<String, AppError>)
    ensures
        r matches Ok(s) && s@ == sse_frame(
            match id {
                Some(n) => Some(n as int),
                None => None,
            },
            opt_str_seq(event),
            json_text(data@),
        ),
{
    let mut v: Vec<char> = Vec::new();
    match id {
        Some(n) => {
            push_str(&mut v, "id: ");
            push_int(&mut v, n as i128);
            push_str(&mut v, "\n");
        },
        None => {},
    }
    let ghost after_id = v@;
    match event {
        Some(e) => {
            push_str(&mut v, "event: ");
            push_str(&mut v, e);
            push_str(&mut v, "\n");
        },
        None => {},
    }
    let ghost after_event = v@;
    let text = to_json_string(data);
    push_str(&mut v, "data: ");
    push_str(&mut v, text.as_str());
    push_str(&mut v, "\n\n");
    proof {
        let idp = match id {
            Some(n) => "id: "@ + int_text(n as int) + "\n"@,
            None => Seq::<char>::empty(),
        };
        let evp = match event {
            Some(e) => "event: "@ + e@ + "\n"@,
            None => Seq::<char>::empty(),
        };
        assert(after_id =~= idp);
        assert(after_event =~= idp + evp);
        assert(v@ =~= idp + evp + "data: "@ + json_text(data@) + "\n\n"@);
    }
    Ok(string_of(&v))
}

/// The document a stored event is streamed with: its stored payload, when that is
/// an object, with the row's id (as text), type, name, visibility and author set
/// over it; any other stored payload is sent as it is.
pub open spec fn event_stream_payload(e: DbMemoEvent) -> JsonView {
    match e.payload@ {
        JsonView::Object(f) => JsonView::Object(
            obj_insert(
                obj_insert(
                    obj_insert(
                        obj_insert(
                            obj_insert(f, "id"@, JsonView::Str(int_text(e.id as int))),
                            "type"@,
                            JsonView::Str(e.event_type@),
                        ),
                        "name"@,
                        JsonView::Str(e.name@),
                    ),
                    "visibility"@,
                    JsonView::Str(e.visibility@),
                ),
                "creatorId"@,
                JsonView::Int(e.creator_id as int),
            ),
        ),
        other => other,
    }
}

/// The frame that streams a stored memo event: its id, its type as the event
/// name, and its payload. Always `Ok`.
pub fn memo_event_sse(event: &DbMemoEvent) -> (r: Result<String, AppError>)
    ensures
        r matches Ok(s) && s@ == sse_frame(
            Some(event.id as int),
            Some(event.event_type@),
            json_text(event_stream_payload(*event)),
        ),
{
    let payload = clone_json(&event.payload);
    let payload = match payload {
        Json::Object(fields) => {
            let mut fields = fields;
            let ghost f0 = crate::json::fields_view(fields@);
            proof {
                assert(event.payload@->Object_0 =~= f0);
            }
            insert_field(&mut fields, "id".to_owned(), Json::Str(int_to_string(event.id)));
            insert_field(&mut fields, "type".to_owned(), Json::Str(event.event_type.clone()));
            insert_field(&mut fields, "name".to_owned(), Json::Str(event.name.clone()));
            insert_field(&mut fields, "visibility".to_owned(), Json::Str(event.visibility.clone()));
            insert_field(&mut fields, "creatorId".to_owned(), Json::Int(event.creator_id as i128));
            json_object(fields)
        },
        other => other,
    };
    format_sse_event(Some(event.id), Some(event.event_type.as_str()), &payload)
}

/// Where a reconnecting stream resumes: the trimmed `Last-Event-ID` header when it
/// parses as an `i64`, else the `since` query value when it parses; only positive
/// ids count.
pub open spec fn since_id(last_event_id: Option<Seq<char>>, since: Option<Seq<char>>) -> Option<int> {
    let from_header = match last_event_id {
        Some(v) => parse_i64_spec(trim(v)),
        None => None,
    };
    let chosen = if from_header is Some {
        from_header
    } else {
        match since {
            Some(s) => parse_i64_spec(s),
            None => None,
        }
    };
    match chosen {
        Some(n) => if n > 0 {
            Some(n)
        } else {
            None
        },
        None => None,
    }
}

fn parse_i64_str(s: &str) -> (r: Option<i64>)
    ensures
        match r {
            Some(x) => parse_i64_spec(s@) == Some(x as int),
            None => parse_i64_spec(s@) is None,
        },
{
    let v = chars_of(s);
    parse_i64(&v)
}

pub fn sse_since_id_from(last_event_id: Option<&str>, since: Option<String>) -> (r: Option<i64>)
    ensures
        crate::json::opt_i64(r) == since_id(opt_str_seq(last_event_id), crate::json::opt_string(since)),
{
    let from_header = match last_event_id {
        Some(value) => {
            let t = trim_str(value);
            parse_i64_str(t.as_str())
        },
        None => None,
    };
    let chosen = match from_header {
        Some(n) => Some(n),
        None => match since {
            Some(s) => parse_i64_str(s.as_str()),
            None => None,
        },
    };
    match chosen {
        Some(n) => if n > 0 {
            Some(n)
        } else {
            None
        },
        None => None,
    }
}

/// The stream position a reconnecting client asks for, from its `Last-Event-ID`
/// header or the URL's `since` query value.
pub fn sse_since_id(last_event_id: Option<&str>, url: &RequestUrl) -> (r: Option<i64>)
    ensures
        crate::json::opt_i64(r) == since_id(
            opt_str_seq(last_event_id),
            crate::http::query_text_param(crate::http::url_query_text(url@), "since"@),
        ),
{
    let since = query_param(url, "since");
    sse_since_id_from(last_event_id, since)
}

/// A client that reconnects with the id of the last event it received (the `id:`
/// line of `sse_frame`) as its `Last-Event-ID` resumes after exactly that event,
/// whatever its `since` query says.
pub proof fn lemma_resume_after_streamed_id(id: i64, since: Option<Seq<char>>)
    requires
        id > 0,
    ensures
        since_id(Some(int_text(id as int)), since) == Some(id as int),
{
    let t = nat_text(id as nat);
    crate::text::lemma_nat_text_parses(id as nat);
    assert(int_text(id as int) == t);
    assert(is_ascii_digit(t[0]));
    assert(is_ascii_digit(t.last()));
    assert(trim_start(t) == t);
    assert(trim_end(t) == t);
    assert(trim(t) == t);
    assert(t.len() > 0 && t[0] != '-' && t[0] != '+');
    assert(parse_i64_spec(t) == Some(id as int));
}

} // verus!
