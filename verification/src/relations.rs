use vstd::prelude::*;
use crate::text::{
    chars_of, string_of, trim, trim_chars, trim_str, is_ws, is_whitespace, has_prefix, first_occurrence,
    find_chars, starts_with, sub_chars, str_eq, chars_eq,
};
use crate::json::{
    Json, JsonView, ObjectBuilder, object_of, json_get, json_as_str, get_field, as_str, json_array,
    items_view, json_str,
};

verus! {

/// Characters that end a memo uid inside a reference.
pub open spec fn uid_stop(c: char) -> bool {
    is_ws(c) || c == '?' || c == '#' || c == ',' || c == '/'
}

/// Position of the first uid-ending character, or the length.
pub open spec fn stop_index(s: Seq<char>) -> int
    decreases s.len(),
{
    if s.len() == 0 {
        0
    } else if uid_stop(s[0]) {
        0
    } else {
        1 + stop_index(s.drop_first())
    }
}

proof fn lemma_stop_index(s: Seq<char>, i: int)
    requires
        0 <= i <= s.len(),
        forall|j: int| 0 <= j < i ==> !uid_stop(s[j]),
        i == s.len() || uid_stop(s[i]),
    ensures
        stop_index(s) == i,
    decreases i,
{
    if i > 0 {
        assert forall|j: int| 0 <= j < i - 1 implies !uid_stop(s.drop_first()[j]) by {
            assert(s.drop_first()[j] == s[j + 1]);
        }
        if i < s.len() {
            assert(s.drop_first()[i - 1] == s[i]);
        }
        lemma_stop_index(s.drop_first(), i - 1);
    }
}

/// The memo uid a relation reference names: after `/memos/` when the reference
/// holds it (a URL), else after a leading `memos/`, up to the first white space,
/// `?`, `#`, `,` or `/`.
pub open spec fn uid_from_ref(value: Seq<char>) -> Seq<char> {
    let t = trim(value);
    let raw = match first_occurrence(t, "/memos/"@) {
        Some(i) => t.skip(i + 7),
        None => if has_prefix(t, "memos/"@) {
            t.skip(6)
        } else {
            t
        },
    };
    trim(raw.take(stop_index(raw)))
}

proof fn lemma_trim_keeps(s: Seq<char>)
    requires
        s.len() > 0 ==> !is_ws(s[0]) && !is_ws(s.last()),
    ensures
        trim(s) == s,
{
    assert(crate::text::trim_start(s) == s);
    assert(crate::text::trim_end(s) == s);
}

/// `first_occurrence` is the one position where the needle occurs first.
proof fn lemma_first_occurrence_at(s: Seq<char>, needle: Seq<char>, k: int)
    requires
        crate::text::occurs_at(s, needle, k),
        forall|j: int| 0 <= j < k ==> !crate::text::occurs_at(s, needle, j),
    ensures
        first_occurrence(s, needle) == Some(k),
{
    let c = choose|i: int| crate::text::occurs_at(s, needle, i) && forall|j: int| 0 <= j < i ==> !crate::text::occurs_at(s, needle, j);
    assert(crate::text::occurs_at(s, needle, c));
    if c < k {
        assert(!crate::text::occurs_at(s, needle, c));
    }
    if c > k {
        assert(!crate::text::occurs_at(s, needle, k));
    }
}

proof fn lemma_uid_then_tail(u: Seq<char>, tail: Seq<char>)
    requires
        forall|i: int| 0 <= i < u.len() ==> !uid_stop(#[trigger] u[i]),
        tail.len() == 0 || uid_stop(tail[0]),
    ensures
        trim((u + tail).take(stop_index(u + tail))) == u,
{
    let r = u + tail;
    assert forall|j: int| 0 <= j < u.len() implies !uid_stop(r[j]) by {
        assert(r[j] == u[j]);
    }
    if tail.len() > 0 {
        assert(r[u.len() as int] == tail[0]);
    }
    lemma_stop_index(r, u.len() as int);
    assert(r.take(u.len() as int) =~= u);
    if u.len() > 0 {
        assert(!uid_stop(u[0]) && !uid_stop(u[u.len() - 1]));
    }
    lemma_trim_keeps(u);
}

proof fn lemma_uid_tail_plain(u: Seq<char>, tail: Seq<char>)
    requires
        forall|i: int| 0 <= i < u.len() ==> !uid_stop(#[trigger] u[i]),
        tail.len() == 0 || (uid_stop(tail[0]) && !is_ws(tail.last())),
        forall|i: int| 0 <= i < tail.len() ==> #[trigger] tail[i] != '/',
    ensures
        forall|i: int| 0 <= i < (u + tail).len() ==> #[trigger] (u + tail)[i] != '/',
        (u + tail).len() > 0 ==> !is_ws((u + tail).last()),
{
    let ut = u + tail;
    assert forall|i: int| 0 <= i < ut.len() implies #[trigger] ut[i] != '/' by {
        if i < u.len() {
            assert(ut[i] == u[i]);
        } else {
            assert(ut[i] == tail[i - u.len()]);
        }
    }
    if ut.len() > 0 {
        if tail.len() > 0 {
            assert(ut.last() == tail.last());
        } else {
            assert(ut.last() == u[u.len() - 1]);
        }
    }
}

proof fn lemma_bare_reference(u: Seq<char>, tail: Seq<char>)
    requires
        forall|i: int| 0 <= i < u.len() ==> !uid_stop(#[trigger] u[i]),
        tail.len() == 0 || (uid_stop(tail[0]) && !is_ws(tail.last())),
        forall|i: int| 0 <= i < tail.len() ==> #[trigger] tail[i] != '/',
    ensures
        uid_from_ref("memos/"@ + u + tail) == u,
{
    reveal_strlit("memos/");
    reveal_strlit("/memos/");
    let needle = "/memos/"@;
    lemma_uid_tail_plain(u, tail);
    let ut = u + tail;
    let t = "memos/"@ + ut;
    assert(t =~= "memos/"@ + u + tail);
    assert(t[0] == 'm');
    if ut.len() > 0 {
        assert(t.last() == ut.last());
    } else {
        assert(t.last() == '/');
    }
    lemma_trim_keeps(t);
    assert forall|i: int| !crate::text::occurs_at(t, needle, i) by {
        if crate::text::occurs_at(t, needle, i) {
            assert(t.subrange(i, i + 7)[0] == t[i]);
            assert(t.subrange(i, i + 7)[6] == t[i + 6]);
            if i < 6 {
                assert(t[i] == "memos/"@[i]);
            } else {
                assert(t[i] == ut[i - 6]);
            }
            assert(t[i + 6] == ut[i]);
        }
    }
    assert(first_occurrence(t, needle) is None);
    assert(t.take(6) =~= "memos/"@);
    assert(t.skip(6) =~= ut);
    lemma_uid_then_tail(u, tail);
}

/// In `https://<host>/memos/...` with a host that holds no `/` and is not
/// `memos`, `/memos/` first occurs after the host.
#[verifier::rlimit(30)]
proof fn lemma_no_early_marker(host: Seq<char>, ut: Seq<char>)
    requires
        forall|i: int| 0 <= i < host.len() ==> host[i] != '/' && !is_ws(#[trigger] host[i]),
        host != "memos"@,
    ensures
        forall|j: int| 0 <= j < 8 + host.len() ==> !crate::text::occurs_at(
            "https://"@ + host + "/memos/"@ + ut, "/memos/"@, j),
{
    reveal_strlit("/memos/");
    reveal_strlit("https://");
    reveal_strlit("memos");
    let needle = "/memos/"@;
    let v = "https://"@ + host + "/memos/"@ + ut;
    let k: int = 8 + host.len() as int;
    assert forall|j: int| 0 <= j < k implies !crate::text::occurs_at(v, needle, j) by {
        if crate::text::occurs_at(v, needle, j) {
            assert(v.subrange(j, j + 7)[0] == v[j]);
            assert(v[j] == '/');
            if j < 6 {
                assert(v[j] == "https://"@[j]);
            } else if j >= 8 {
                assert(v[j] == host[j - 8]);
            } else if j == 6 {
                assert(v.subrange(j, j + 7)[1] == v[7]);
                assert(v[7] == '/');
            } else {
                // j == 7: the host would have to read `memos`.
                let m: int = host.len() as int;
                if m < 5 {
                    assert(v.subrange(7, 14)[1 + m] == v[8 + m]);
                    assert(v[8 + m] == '/');
                } else if m > 5 {
                    assert(v.subrange(7, 14)[6] == v[13]);
                    assert(v[13] == host[5]);
                } else {
                    assert forall|i: int| 0 <= i < 5 implies host[i] == "memos"@[i] by {
                        assert(v.subrange(7, 14)[1 + i] == v[8 + i]);
                        assert(v[8 + i] == host[i]);
                    }
                    assert(host =~= "memos"@);
                }
            }
        }
    }
}

#[verifier::rlimit(50)]
proof fn lemma_url_reference(u: Seq<char>, host: Seq<char>, tail: Seq<char>)
    requires
        forall|i: int| 0 <= i < u.len() ==> !uid_stop(#[trigger] u[i]),
        forall|i: int| 0 <= i < host.len() ==> host[i] != '/' && !is_ws(#[trigger] host[i]),
        host != "memos"@,
        tail.len() == 0 || (uid_stop(tail[0]) && !is_ws(tail.last())),
        forall|i: int| 0 <= i < tail.len() ==> #[trigger] tail[i] != '/',
    ensures
        uid_from_ref("https://"@ + host + "/memos/"@ + u + tail) == u,
{
    reveal_strlit("/memos/");
    reveal_strlit("https://");
    reveal_strlit("memos");
    let needle = "/memos/"@;
    lemma_uid_tail_plain(u, tail);
    let ut = u + tail;
    let v = "https://"@ + host + "/memos/"@ + ut;
    assert(v =~= "https://"@ + host + "/memos/"@ + u + tail);
    let k: int = 8 + host.len() as int;
    assert(v[0] == 'h');
    if ut.len() > 0 {
        assert(v.last() == ut.last());
    } else {
        assert(v.last() == '/');
    }
    lemma_trim_keeps(v);
    assert(v.subrange(k, k + 7) =~= needle);
    lemma_no_early_marker(host, ut);
    lemma_first_occurrence_at(v, needle, k);
    assert(v.skip(k + 7) =~= ut);
    lemma_uid_then_tail(u, tail);
    assert(trim(v) == v);
    assert(first_occurrence(trim(v), "/memos/"@) == Some(k));
    assert(uid_from_ref(v) == trim(ut.take(stop_index(ut))));
}

/// The uid read from a reference `memos/<uid>`, or from a URL
/// `https://<host>/memos/<uid>`, is the uid itself, for every uid without white
/// space, `?`, `#`, `,` or `/` (and a host without `/` or white space that is not
/// itself `memos`), also when a query, fragment or list continues the reference
/// after the uid (a tail that starts with one of those characters and holds no `/`).
pub proof fn lemma_reference_names_uid(u: Seq<char>, host: Seq<char>, tail: Seq<char>)
    requires
        forall|i: int| 0 <= i < u.len() ==> !uid_stop(#[trigger] u[i]),
        forall|i: int| 0 <= i < host.len() ==> host[i] != '/' && !is_ws(#[trigger] host[i]),
        host != "memos"@,
        tail.len() == 0 || (uid_stop(tail[0]) && !is_ws(tail.last())),
        forall|i: int| 0 <= i < tail.len() ==> #[trigger] tail[i] != '/',
    ensures
        uid_from_ref("memos/"@ + u + tail) == u,
        uid_from_ref("https://"@ + host + "/memos/"@ + u + tail) == u,
{
    lemma_bare_reference(u, tail);
    lemma_url_reference(u, host, tail);
}

pub fn relation_uid_from_ref(value: &str) -> (r: String)
    ensures
        r@ == uid_from_ref(value@),
{
    let v = chars_of(value);
    let t = trim_chars(&v);
    let marker = chars_of("/memos/");
    let prefix = chars_of("memos/");
    proof {
        reveal_strlit("/memos/");
        reveal_strlit("memos/");
    }
    let raw = match find_chars(&t, &marker) {
        Some(i) => {
            let n = t.len();
            proof {
                assert(marker@.len() == 7);
                assert(crate::text::occurs_at(t@, marker@, i as int));
            }
            let r = sub_chars(&t, i + 7, n);
            proof {
                assert(r@ =~= t@.skip(i + 7));
            }
            r
        },
        None => if starts_with(&t, &prefix) {
            let r = sub_chars(&t, 6, t.len());
            proof {
                assert(r@ =~= t@.skip(6));
            }
            r
        } else {
            t
        },
    };
    let mut i: usize = 0;
    while i < raw.len() && !(is_whitespace(raw[i]) || raw[i] == '?' || raw[i] == '#' || raw[i]
        == ',' || raw[i] == '/')
        invariant
            i <= raw@.len(),
            forall|j: int| 0 <= j < i ==> !uid_stop(raw@[j]),
        decreases raw.len() - i,
    {
        i = i + 1;
    }
    proof {
        lemma_stop_index(raw@, i as int);
    }
    let piece = sub_chars(&raw, 0, i);
    proof {
        assert(piece@ =~= raw@.take(i as int));
    }
    let out = trim_chars(&piece);
    string_of(&out)
}

/// The uid a relation entry names through its `memo` field; empty when it has none.
pub open spec fn entry_uid(entry: JsonView) -> Seq<char> {
    match json_as_str(json_get(entry, "memo"@)) {
        Some(m) => uid_from_ref(m),
        None => Seq::empty(),
    }
}

/// The uids to relate, in request order: non-empty, not the memo itself, each once.
pub open spec fn requested_uids(entries: Seq<JsonView>, current: Seq<char>) -> Seq<Seq<char>>
    decreases entries.len(),
{
    if entries.len() == 0 {
        Seq::empty()
    } else {
        let prev = requested_uids(entries.drop_last(), current);
        let uid = entry_uid(entries.last());
        if uid.len() == 0 || uid == current || prev.contains(uid) {
            prev
        } else {
            prev.push(uid)
        }
    }
}

/// The entries of the request's `relations` array; none when it has no such array.
pub open spec fn relation_entries(body: JsonView) -> Seq<JsonView> {
    match json_get(body, "relations"@) {
        Some(JsonView::Array(items)) => items,
        _ => Seq::empty(),
    }
}

pub open spec fn strings_view(v: Seq<String>) -> Seq<Seq<char>> {
    Seq::new(v.len(), |i: int| v[i]@)
}

fn listed(v: &Vec<String>, s: &str) -> (b: bool)
    ensures
        b == strings_view(v@).contains(s@),
{
    let mut i: usize = 0;
    while i < v.len()
        invariant
            i <= v@.len(),
            forall|j: int| 0 <= j < i ==> v@[j]@ != s@,
        decreases v.len() - i,
    {
        if str_eq(v[i].as_str(), s) {
            proof {
                assert(strings_view(v@)[i as int] == s@);
            }
            return true;
        }
        i = i + 1;
    }
    proof {
        if strings_view(v@).contains(s@) {
            let k = choose|k: int| 0 <= k < strings_view(v@).len() && strings_view(v@)[k] == s@;
            assert(v@[k]@ == s@);
        }
    }
    false
}

pub fn requested_relation_uids(body: &Json, current_uid: &str) -> (r: Vec<String>)
    ensures
        strings_view(r@) == requested_uids(relation_entries(body@), current_uid@),
{
    let mut uids: Vec<String> = Vec::new();
    let relations = match get_field(body, "relations") {
        Some(Json::Array(items)) => items,
        _ => {
            proof {
                assert(strings_view(uids@) =~= Seq::<Seq<char>>::empty());
            }
            return uids;
        },
    };
    let ghost entries = items_view(relations@);
    proof {
        assert(relation_entries(body@) == entries);
        assert(entries.take(0) =~= Seq::<JsonView>::empty());
        assert(strings_view(uids@) =~= Seq::<Seq<char>>::empty());
    }
    let mut i: usize = 0;
    while i < relations.len()
        invariant
            i <= relations@.len(),
            entries == items_view(relations@),
            strings_view(uids@) == requested_uids(entries.take(i as int), current_uid@),
        decreases relations.len() - i,
    {
        proof {
            assert(entries.take(i + 1).drop_last() =~= entries.take(i as int));
            assert(entries.take(i + 1).last() == relations@[i as int]@);
        }
        let memo = as_str(get_field(&relations[i], "memo"));
        let uid = match memo {
            Some(m) => relation_uid_from_ref(m.as_str()),
            None => {
                let e = String::new();
                proof {
                    assert(e@ =~= Seq::<char>::empty());
                }
                e
            },
        };
        if uid.as_str().unicode_len() > 0 && !str_eq(uid.as_str(), current_uid) && !listed(&uids, uid.as_str()) {
            let ghost prev = strings_view(uids@);
            let ghost u = uid@;
            uids.push(uid);
            proof {
                assert(strings_view(uids@) =~= prev.push(u));
            }
        }
        i = i + 1;
    }
    proof {
        assert(entries.take(i as int) =~= entries);
    }
    uids
}

/// A leading `memos/` removed as many times as it repeats.
pub open spec fn strip_memo_prefixes(s: Seq<char>) -> Seq<char>
    decreases s.len(),
{
    if has_prefix(s, "memos/"@) && s.len() >= 6 {
        strip_memo_prefixes(s.skip(6))
    } else {
        s
    }
}

/// The uid a suggestion names through its `memo` field.
pub open spec fn suggestion_uid(entry: JsonView) -> Seq<char> {
    match json_as_str(json_get(entry, "memo"@)) {
        Some(m) => trim(strip_memo_prefixes(m)),
        None => Seq::empty(),
    }
}

/// The id a candidate table gives `uid`: its first entry with that uid.
pub open spec fn candidate_lookup(table: Seq<(Seq<char>, i64)>, uid: Seq<char>) -> Option<i64>
    decreases table.len(),
{
    if table.len() == 0 {
        None
    } else if table[0].0 == uid {
        Some(table[0].1)
    } else {
        candidate_lookup(table.drop_first(), uid)
    }
}

/// The memo ids of the suggested memos, in suggestion order: each uid is looked
/// at once (empty uids and the memo itself are skipped), and uids that are not
/// candidates give nothing.
pub open spec fn suggested_ids(entries: Seq<JsonView>, table: Seq<(Seq<char>, i64)>, current: Seq<char>) -> (Seq<Seq<char>>, Seq<i64>)
    decreases entries.len(),
{
    if entries.len() == 0 {
        (Seq::empty(), Seq::empty())
    } else {
        let (seen, ids) = suggested_ids(entries.drop_last(), table, current);
        let uid = suggestion_uid(entries.last());
        if uid.len() == 0 || uid == current || seen.contains(uid) {
            (seen, ids)
        } else {
            (seen.push(uid), match candidate_lookup(table, uid) {
                Some(id) => ids.push(id),
                None => ids,
            })
        }
    }
}

pub open spec fn table_view(table: Seq<(String, i64)>) -> Seq<(Seq<char>, i64)> {
    Seq::new(table.len(), |i: int| (table[i].0@, table[i].1))
}

pub(crate) fn strip_memo_prefixes_exec(v: &[char]) -> (r: Vec<char>)
    ensures
        r@ == strip_memo_prefixes(v@),
{
    let prefix = chars_of("memos/");
    proof {
        reveal_strlit("memos/");
    }
    let mut start: usize = 0;
    proof {
        assert(v@.skip(0) =~= v@);
        assert(prefix@.len() == 6);
    }
    while v.len() - start >= 6 && crate::text::occurs_at_exec(v, &prefix, start)
        invariant
            start <= v@.len(),
            prefix@ == "memos/"@,
            prefix@.len() == 6,
            strip_memo_prefixes(v@) == strip_memo_prefixes(v@.skip(start as int)),
        decreases v.len() - start,
    {
        proof {
            let s = v@.skip(start as int);
            assert(s.take(6) =~= v@.subrange(start as int, start + 6));
            assert(s.skip(6) =~= v@.skip(start + 6));
        }
        start = start + 6;
    }
    proof {
        let s = v@.skip(start as int);
        if s.len() >= 6 {
            assert(s.take(6) =~= v@.subrange(start as int, start + 6));
        }
    }
    let r = sub_chars(v, start, v.len());
    proof {
        assert(r@ =~= v@.skip(start as int));
    }
    r
}

fn lookup_candidate(table: &Vec<(String, i64)>, uid: &str) -> (r: Option<i64>)
    ensures
        r == candidate_lookup(table_view(table@), uid@),
{
    let ghost tv = table_view(table@);
    let mut i: usize = 0;
    proof {
        assert(tv.skip(0) =~= tv);
    }
    while i < table.len()
        invariant
            i <= table@.len(),
            tv == table_view(table@),
            candidate_lookup(tv, uid@) == candidate_lookup(tv.skip(i as int), uid@),
        decreases table.len() - i,
    {
        proof {
            assert(tv.skip(i as int)[0] == (table@[i as int].0@, table@[i as int].1));
            assert(tv.skip(i as int).drop_first() =~= tv.skip(i + 1));
        }
        if str_eq(table[i].0.as_str(), uid) {
            return Some(table[i].1);
        }
        i = i + 1;
    }
    None
}

/// The ids of the memos a suggestion list names, for the relation rebuild: the
/// candidate table holds `(uid, id)` pairs.
pub fn suggestion_related_ids(suggestions: &[Json], candidate_ids: &Vec<(String, i64)>, current_uid: &str) -> (r: Vec<i64>)
    ensures
        r@ == suggested_ids(
            Seq::new(suggestions@.len(), |i: int| suggestions@[i]@),
            table_view(candidate_ids@),
            current_uid@,
        ).1,
{
    let ghost entries = Seq::new(suggestions@.len(), |i: int| suggestions@[i]@);
    let mut seen: Vec<String> = Vec::new();
    let mut ids: Vec<i64> = Vec::new();
    let mut i: usize = 0;
    proof {
        assert(entries.take(0) =~= Seq::<JsonView>::empty());
        assert(strings_view(seen@) =~= Seq::<Seq<char>>::empty());
        assert(ids@ =~= Seq::<i64>::empty());
    }
    while i < suggestions.len()
        invariant
            i <= suggestions@.len(),
            entries == Seq::new(suggestions@.len(), |i: int| suggestions@[i]@),
            (strings_view(seen@), ids@) == suggested_ids(
                entries.take(i as int),
                table_view(candidate_ids@),
                current_uid@,
            ),
        decreases suggestions.len() - i,
    {
        proof {
            assert(entries.take(i + 1).drop_last() =~= entries.take(i as int));
            assert(entries.take(i + 1).last() == suggestions@[i as int]@);
        }
        let memo = as_str(get_field(&suggestions[i], "memo"));
        let uid = match memo {
            Some(m) => {
                let v = chars_of(m.as_str());
                let stripped = strip_memo_prefixes_exec(&v);
                let t = trim_chars(&stripped);
                string_of(&t)
            },
            None => {
                let e = String::new();
                proof {
                    assert(e@ =~= Seq::<char>::empty());
                }
                e
            },
        };
        if uid.as_str().unicode_len() > 0 && !str_eq(uid.as_str(), current_uid) && !listed(&seen, uid.as_str()) {
            let found = lookup_candidate(candidate_ids, uid.as_str());
            let ghost prev = strings_view(seen@);
            let ghost u = uid@;
            seen.push(uid);
            proof {
                assert(strings_view(seen@) =~= prev.push(u));
            }
            match found {
                Some(id) => ids.push(id),
                None => {},
            }
        }
        i = i + 1;
    }
    proof {
        assert(entries.take(i as int) =~= entries);
    }
    ids
}

/// Where relation suggestions came from.
pub enum RelationSuggestionSource {
    Ai,
    Local,
    LocalFallback { warning: Option<String> },
}

/// The suggestions answer: the suggestions, their source (`ai` or `local`), and,
/// for a local fallback, the warning when it is not blank.
pub open spec fn suggestions_view(suggestions: Seq<JsonView>, source: RelationSuggestionSource) -> JsonView {
    let base = seq![
        ("suggestions"@, JsonView::Array(suggestions)),
        ("source"@, JsonView::Str(if source is Ai { "ai"@ } else { "local"@ })),
    ];
    match source {
        RelationSuggestionSource::LocalFallback { warning: Some(w) } => if trim(w@).len() > 0 {
            object_of(base.push(("warning"@, JsonView::Str(w@))))
        } else {
            object_of(base)
        },
        _ => object_of(base),
    }
}

pub fn relation_suggestions_payload(suggestions: Vec<Json>, source: RelationSuggestionSource) -> (j: Json)
    ensures
        j@ == suggestions_view(items_view(suggestions@), source),
{
    let ghost sv = items_view(suggestions@);
    let ghost src = source;
    let is_ai = match source {
        RelationSuggestionSource::Ai => true,
        _ => false,
    };
    let mut b = ObjectBuilder::new();
    b.add("suggestions", json_array(suggestions));
    b.add("source", json_str(if is_ai { "ai" } else { "local" }));
    let ghost base = b.pairs();
    proof {
        assert(base =~= seq![
            ("suggestions"@, JsonView::Array(sv)),
            ("source"@, JsonView::Str(if src is Ai { "ai"@ } else { "local"@ })),
        ]);
    }
    match source {
        RelationSuggestionSource::LocalFallback { warning: Some(w) } => {
            let t = trim_str(w.as_str());
            if t.as_str().unicode_len() > 0 {
                b.add("warning", Json::Str(w));
            }
        },
        _ => {},
    }
    b.build()
}

/// The most relations a rebuild gives one memo.
pub const RELATION_REBUILD_MAX_RELATIONS_PER_MEMO: usize = 12;

/// How many different ids `s` holds.
pub open spec fn distinct_count(s: Seq<i64>) -> nat
    decreases s.len(),
{
    if s.len() == 0 {
        0
    } else {
        distinct_count(s.drop_last()) + if s.drop_last().contains(s.last()) {
            0nat
        } else {
            1nat
        }
    }
}

/// `ids` without those in `existing`, in order.
pub open spec fn new_ids(ids: Seq<i64>, existing: Seq<i64>) -> Seq<i64>
    decreases ids.len(),
{
    if ids.len() == 0 {
        ids
    } else if existing.contains(ids.last()) {
        new_ids(ids.drop_last(), existing)
    } else {
        new_ids(ids.drop_last(), existing).push(ids.last())
    }
}

pub open spec fn first_n(s: Seq<i64>, n: int) -> Seq<i64> {
    if s.len() > n {
        s.take(n)
    } else {
        s
    }
}

/// The relations a rebuild stores for a memo: a replacing rebuild keeps the first
/// twelve suggested; otherwise only suggestions not yet related are added, up to
/// twelve relations in all.
pub open spec fn relations_to_store(related: Seq<i64>, replace_existing: bool, existing: Seq<i64>) -> Seq<i64> {
    if replace_existing {
        first_n(related, 12)
    } else if distinct_count(existing) >= 12 {
        Seq::empty()
    } else {
        first_n(new_ids(related, existing), 12 - distinct_count(existing))
    }
}

pub open spec fn reference_insert(memo_id: int, related_id: int) -> (Seq<char>, Seq<crate::listing::SqlValueView>) {
    (
        "INSERT OR IGNORE INTO memo_relation (memo_id, related_memo_id, type) VALUES (?, ?, 'REFERENCE')"@,
        seq![crate::listing::SqlValueView::Int(memo_id), crate::listing::SqlValueView::Int(related_id)],
    )
}

/// The statements that store those relations: a replacing rebuild first drops the
/// memo's references.
pub open spec fn relation_statements(memo_id: int, stored: Seq<i64>, replace_existing: bool) -> Seq<(Seq<char>, Seq<crate::listing::SqlValueView>)> {
    let inserts = Seq::new(stored.len(), |i: int| reference_insert(memo_id, stored[i] as int));
    if replace_existing {
        seq![(
            "DELETE FROM memo_relation WHERE memo_id = ? AND type = 'REFERENCE'"@,
            seq![crate::listing::SqlValueView::Int(memo_id)],
        )] + inserts
    } else {
        inserts
    }
}

fn contains_id(v: &Vec<i64>, n: usize, x: i64) -> (b: bool)
    requires
        n <= v@.len(),
    ensures
        b == v@.take(n as int).contains(x),
{
    let mut i: usize = 0;
    while i < n
        invariant
            i <= n <= v@.len(),
            forall|k: int| 0 <= k < i ==> v@[k] != x,
        decreases n - i,
    {
        if v[i] == x {
            proof {
                assert(v@.take(n as int)[i as int] == x);
            }
            return true;
        }
        i = i + 1;
    }
    proof {
        assert forall|k: int| 0 <= k < n implies v@.take(n as int)[k] != x by {
            assert(v@.take(n as int)[k] == v@[k]);
        }
    }
    false
}

fn count_distinct(v: &Vec<i64>) -> (n: usize)
    ensures
        n == distinct_count(v@),
{
    let mut count: usize = 0;
    let mut i: usize = 0;
    while i < v.len()
        invariant
            i <= v@.len(),
            count == distinct_count(v@.take(i as int)),
            count <= i,
        decreases v@.len() - i,
    {
        proof {
            assert(v@.take(i + 1).drop_last() =~= v@.take(i as int));
            assert(v@.take(i + 1).last() == v@[i as int]);
        }
        if !contains_id(v, i, v[i]) {
            count = count + 1;
        }
        i = i + 1;
    }
    proof {
        assert(v@.take(i as int) =~= v@);
    }
    count
}

fn statement_of(sql: &str, binds: Vec<crate::listing::SqlValue>) -> (r: crate::listing::Statement)
    ensures
        r.sql@ == sql@,
        r.binds@ == binds@,
{
    crate::listing::Statement { sql: sql.to_string(), binds }
}

/// The relations a rebuild stores for memo `memo_id`, given the ids the rebuild
/// suggests and those the memo already references, and the statements that store
/// them; the count is how many relations are written.
pub fn apply_memo_relations(memo_id: i64, related_ids: &Vec<i64>, replace_existing: bool, existing: &Vec<i64>) -> (r: (Vec<crate::listing::Statement>, usize))
    ensures
        r.1 == relations_to_store(related_ids@, replace_existing, existing@).len(),
        crate::bulk::statements_view(r.0@) == if !replace_existing && r.1 == 0 {
            Seq::empty()
        } else {
            relation_statements(memo_id as int, relations_to_store(related_ids@, replace_existing, existing@), replace_existing)
        },
{
    let ghost want = relations_to_store(related_ids@, replace_existing, existing@);
    let mut kept: Vec<i64> = Vec::new();
    if replace_existing {
        let mut i: usize = 0;
        while i < related_ids.len() && i < RELATION_REBUILD_MAX_RELATIONS_PER_MEMO
            invariant
                i <= related_ids@.len(),
                i <= 12,
                kept@ == related_ids@.take(i as int),
            decreases related_ids@.len() - i,
        {
            kept.push(related_ids[i]);
            proof {
                assert(related_ids@.take(i + 1) =~= related_ids@.take(i as int).push(related_ids@[i as int]));
            }
            i = i + 1;
        }
        proof {
            if related_ids@.len() <= 12 {
                assert(related_ids@.take(i as int) =~= related_ids@);
            }
        }
    } else {
        let have = count_distinct(existing);
        if have >= RELATION_REBUILD_MAX_RELATIONS_PER_MEMO {
            let none: Vec<crate::listing::Statement> = Vec::new();
            proof {
                assert(crate::bulk::statements_view(none@) =~= Seq::<(Seq<char>, Seq<crate::listing::SqlValueView>)>::empty());
            }
            return (none, 0);
        }
        let room: usize = RELATION_REBUILD_MAX_RELATIONS_PER_MEMO - have;
        let mut fresh: Vec<i64> = Vec::new();
        let mut i: usize = 0;
        while i < related_ids.len()
            invariant
                i <= related_ids@.len(),
                fresh@ == new_ids(related_ids@.take(i as int), existing@),
            decreases related_ids@.len() - i,
        {
            proof {
                assert(related_ids@.take(i + 1).drop_last() =~= related_ids@.take(i as int));
                assert(related_ids@.take(i + 1).last() == related_ids@[i as int]);
                assert(existing@.take(existing@.len() as int) =~= existing@);
            }
            if !contains_id(existing, existing.len(), related_ids[i]) {
                fresh.push(related_ids[i]);
            }
            i = i + 1;
        }
        proof {
            assert(related_ids@.take(i as int) =~= related_ids@);
        }
        let mut j: usize = 0;
        while j < fresh.len() && j < room
            invariant
                j <= fresh@.len(),
                j <= room,
                kept@ == fresh@.take(j as int),
            decreases fresh@.len() - j,
        {
            kept.push(fresh[j]);
            proof {
                assert(fresh@.take(j + 1) =~= fresh@.take(j as int).push(fresh@[j as int]));
            }
            j = j + 1;
        }
        proof {
            if fresh@.len() <= room {
                assert(fresh@.take(j as int) =~= fresh@);
            }
        }
    }
    assert(kept@ == want);
    let mut out: Vec<crate::listing::Statement> = Vec::new();
    if replace_existing {
        let mut b: Vec<crate::listing::SqlValue> = Vec::new();
        b.push(crate::listing::SqlValue::Int(memo_id));
        proof {
            assert(crate::listing::binds_view(b@) =~= seq![crate::listing::SqlValueView::Int(memo_id as int)]);
        }
        out.push(statement_of("DELETE FROM memo_relation WHERE memo_id = ? AND type = 'REFERENCE'", b));
    }
    let ghost head = crate::bulk::statements_view(out@);
    let mut k: usize = 0;
    while k < kept.len()
        invariant
            k <= kept@.len(),
            crate::bulk::statements_view(out@) == head + Seq::new(k as nat, |i: int| reference_insert(memo_id as int, kept@[i] as int)),
        decreases kept@.len() - k,
    {
        let mut b: Vec<crate::listing::SqlValue> = Vec::new();
        b.push(crate::listing::SqlValue::Int(memo_id));
        b.push(crate::listing::SqlValue::Int(kept[k]));
        proof {
            assert(crate::listing::binds_view(b@) =~= reference_insert(memo_id as int, kept@[k as int] as int).1);
        }
        let ghost prev = out@;
        out.push(statement_of("INSERT OR IGNORE INTO memo_relation (memo_id, related_memo_id, type) VALUES (?, ?, 'REFERENCE')", b));
        proof {
            assert(crate::bulk::statements_view(out@) =~= crate::bulk::statements_view(prev).push(reference_insert(memo_id as int, kept@[k as int] as int)));
            assert(Seq::new((k + 1) as nat, |i: int| reference_insert(memo_id as int, kept@[i] as int))
                =~= Seq::new(k as nat, |i: int| reference_insert(memo_id as int, kept@[i] as int)).push(reference_insert(memo_id as int, kept@[k as int] as int)));
        }
        k = k + 1;
    }
    proof {
        let inserts = Seq::new(kept@.len(), |i: int| reference_insert(memo_id as int, kept@[i] as int));
        if replace_existing {
            assert(crate::bulk::statements_view(out@) =~= relation_statements(memo_id as int, want, replace_existing));
        } else {
            assert(head =~= Seq::<(Seq<char>, Seq<crate::listing::SqlValueView>)>::empty());
            assert(crate::bulk::statements_view(out@) =~= relation_statements(memo_id as int, want, replace_existing));
            if kept@.len() == 0 {
                assert(crate::bulk::statements_view(out@) =~= Seq::<(Seq<char>, Seq<crate::listing::SqlValueView>)>::empty());
            }
        }
    }
    let n = kept.len();
    (out, n)
}

proof fn lemma_new_ids_are_new(ids: Seq<i64>, existing: Seq<i64>)
    ensures
        forall|i: int| 0 <= i < new_ids(ids, existing).len() ==> !existing.contains(#[trigger] new_ids(ids, existing)[i]),
    decreases ids.len(),
{
    if ids.len() > 0 {
        lemma_new_ids_are_new(ids.drop_last(), existing);
        let prev = new_ids(ids.drop_last(), existing);
        let cur = new_ids(ids, existing);
        assert forall|i: int| 0 <= i < cur.len() implies !existing.contains(#[trigger] cur[i]) by {
            if i < prev.len() {
                assert(cur[i] == prev[i]);
            } else {
                assert(cur[i] == ids.last());
            }
        }
    }
}

/// A relation rebuild never leaves a memo with more than twelve references of its
/// own making: a replacing rebuild stores at most twelve, and an adding rebuild
/// stores only ids the memo does not reference yet, no more than the room left.
pub proof fn lemma_rebuild_respects_relation_cap(related: Seq<i64>, replace_existing: bool, existing: Seq<i64>)
    ensures
        replace_existing ==> relations_to_store(related, replace_existing, existing).len() <= 12,
        !replace_existing ==> relations_to_store(related, replace_existing, existing).len() == 0
            || relations_to_store(related, replace_existing, existing).len() + distinct_count(existing) <= 12,
        !replace_existing ==> forall|i: int| 0 <= i < relations_to_store(related, replace_existing, existing).len()
            ==> !existing.contains(#[trigger] relations_to_store(related, replace_existing, existing)[i]),
{
    if !replace_existing && distinct_count(existing) < 12 {
        let fresh = new_ids(related, existing);
        lemma_new_ids_are_new(related, existing);
        let stored = relations_to_store(related, replace_existing, existing);
        assert forall|i: int| 0 <= i < stored.len() implies !existing.contains(#[trigger] stored[i]) by {
            assert(stored[i] == fresh[i]);
        }
    }
}

} // verus!
