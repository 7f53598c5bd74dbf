use vstd::prelude::*;
use crate::text::{chars_of, string_of, push_str, push_int, int_text, trim, trim_chars, sub_chars, char_index, find_char};
use crate::json::{Json, JsonView, ObjectBuilder, object_of};

verus! {

/// The name of the cookie that carries the access token.
pub const ACCESS_COOKIE: &'static str = "memos_access";

/// The name of the cookie that carries the refresh token.
pub const REFRESH_COOKIE: &'static str = "memos_refresh";

/// `str::split` on one separator character: the pieces between separators, at least one.
pub open spec fn split_char(s: Seq<char>, sep: char) -> Seq<Seq<char>>
    decreases s.len(),
{
    if s.len() == 0 {
        seq![Seq::empty()]
    } else {
        let init = split_char(s.drop_last(), sep);
        if s.last() == sep {
            init.push(Seq::empty())
        } else {
            init.update(init.len() - 1, init.last().push(s.last()))
        }
    }
}

pub proof fn lemma_split_char_nonempty(s: Seq<char>, sep: char)
    ensures
        split_char(s, sep).len() >= 1,
    decreases s.len(),
{
    if s.len() > 0 {
        lemma_split_char_nonempty(s.drop_last(), sep);
    }
}

/// Text without the separator splits into itself alone.
pub proof fn lemma_split_char_no_sep(w: Seq<char>, sep: char)
    requires
        forall|i: int| 0 <= i < w.len() ==> w[i] != sep,
    ensures
        split_char(w, sep) == seq![w],
    decreases w.len(),
{
    if w.len() > 0 {
        lemma_split_char_no_sep(w.drop_last(), sep);
        assert(w.drop_last().push(w.last()) =~= w);
        assert(seq![w.drop_last()].update(0, w.drop_last().push(w.last())) =~= seq![w]);
    } else {
        assert(w =~= Seq::<char>::empty());
    }
}

/// Appending a separator and a separator-free piece appends that piece to the split.
pub proof fn lemma_split_char_append(x: Seq<char>, w: Seq<char>, sep: char)
    requires
        forall|i: int| 0 <= i < w.len() ==> w[i] != sep,
    ensures
        split_char(x + seq![sep] + w, sep) == split_char(x, sep).push(w),
    decreases w.len(),
{
    let s = x + seq![sep] + w;
    if w.len() == 0 {
        assert(s.drop_last() =~= x);
        assert(w =~= Seq::<char>::empty());
    } else {
        let w0 = w.drop_last();
        lemma_split_char_append(x, w0, sep);
        assert(s.drop_last() =~= x + seq![sep] + w0);
        let init = split_char(x, sep).push(w0);
        assert(w0.push(w.last()) =~= w);
        assert(init.update(init.len() - 1, init.last().push(w.last())) =~= split_char(x, sep).push(w));
    }
}

/// No piece of a split is longer than the text split.
pub proof fn lemma_split_char_part_len(s: Seq<char>, sep: char)
    ensures
        forall|i: int| 0 <= i < split_char(s, sep).len() ==> (#[trigger] split_char(s, sep)[i]).len() <= s.len(),
    decreases s.len(),
{
    if s.len() > 0 {
        lemma_split_char_part_len(s.drop_last(), sep);
        lemma_split_char_nonempty(s.drop_last(), sep);
    }
}

/// Splits `v` at every `sep`.
pub fn split_chars(v: &[char], sep: char) -> (r: Vec<Vec<char>>)
    ensures
        r@.len() == split_char(v@, sep).len(),
        forall|i: int| 0 <= i < r@.len() ==> (#[trigger] r@[i])@ == split_char(v@, sep)[i],
{
    let mut pieces: Vec<Vec<char>> = Vec::new();
    let mut current: Vec<char> = Vec::new();
    let mut i: usize = 0;
    proof {
        assert(v@.take(0) =~= Seq::<char>::empty());
    }
    while i < v.len()
        invariant
            i <= v@.len(),
            pieces@.len() + 1 == split_char(v@.take(i as int), sep).len(),
            forall|k: int| 0 <= k < pieces@.len() ==> (#[trigger] pieces@[k])@ == split_char(v@.take(i as int), sep)[k],
            current@ == split_char(v@.take(i as int), sep).last(),
        decreases v.len() - i,
    {
        let ghost prev = split_char(v@.take(i as int), sep);
        proof {
            lemma_split_char_nonempty(v@.take(i as int), sep);
            assert(v@.take(i + 1).drop_last() =~= v@.take(i as int));
            assert(v@.take(i + 1).last() == v@[i as int]);
        }
        if v[i] == sep {
            pieces.push(current);
            current = Vec::new();
            proof {
                assert(current@ =~= Seq::<char>::empty());
            }
        } else {
            current.push(v[i]);
        }
        i = i + 1;
    }
    proof {
        assert(v@.take(v@.len() as int) =~= v@);
        lemma_split_char_nonempty(v@, sep);
    }
    pieces.push(current);
    pieces
}

/// The name and value of one `name=value` cookie entry: the text around its first
/// `=`, an empty value where there is none.
pub open spec fn cookie_pair(part: Seq<char>) -> (Seq<char>, Seq<char>) {
    let t = trim(part);
    let i = char_index(t, '=');
    if i < t.len() {
        (t.take(i), t.skip(i + 1))
    } else {
        (t, Seq::empty())
    }
}

/// The entries of a `Cookie` header in order, one for each `;`-separated part.
pub open spec fn cookie_entries(header: Seq<char>) -> Seq<(Seq<char>, Seq<char>)> {
    let parts = split_char(header, ';');
    Seq::new(parts.len(), |i: int| cookie_pair(parts[i]))
}

fn cookie_pair_exec(part: &[char]) -> (r: (String, String))
    ensures
        (r.0@, r.1@) == cookie_pair(part@),
{
    let t = trim_chars(part);
    let i = find_char(&t, '=');
    if i < t.len() {
        let name = sub_chars(&t, 0, i);
        let value = sub_chars(&t, i + 1, t.len());
        proof {
            assert(name@ =~= t@.take(i as int));
            assert(value@ =~= t@.skip(i + 1));
        }
        (string_of(&name), string_of(&value))
    } else {
        let empty = String::new();
        proof {
            assert(empty@ =~= Seq::<char>::empty());
        }
        (string_of(&t), empty)
    }
}

/// Reads a `Cookie` header into its entries, in order.
pub fn parse_cookies(header: &str) -> (r: Vec<(String, String)>)
    ensures
        r@.len() == cookie_entries(header@).len(),
        forall|i: int| 0 <= i < r@.len() ==> ((#[trigger] r@[i]).0@, r@[i].1@) == cookie_entries(header@)[i],
{
    let v = chars_of(header);
    let parts = split_chars(&v, ';');
    let ghost spec_parts = split_char(header@, ';');
    let mut out: Vec<(String, String)> = Vec::new();
    let mut i: usize = 0;
    while i < parts.len()
        invariant
            i <= parts@.len(),
            parts@.len() == spec_parts.len(),
            spec_parts == split_char(header@, ';'),
            forall|k: int| 0 <= k < parts@.len() ==> (#[trigger] parts@[k])@ == spec_parts[k],
            out@.len() == i,
            forall|k: int| 0 <= k < i ==> ((#[trigger] out@[k]).0@, out@[k].1@) == cookie_pair(spec_parts[k]),
        decreases parts.len() - i,
    {
        let pair = cookie_pair_exec(&parts[i]);
        out.push(pair);
        i = i + 1;
    }
    out
}

/// The value a cookie header gives `name`: its last entry wins, as when the entries
/// are gathered into a map.
pub open spec fn cookie_lookup(entries: Seq<(Seq<char>, Seq<char>)>, name: Seq<char>) -> Option<Seq<char>>
    decreases entries.len(),
{
    if entries.len() == 0 {
        None
    } else if entries.last().0 == name {
        Some(entries.last().1)
    } else {
        cookie_lookup(entries.drop_last(), name)
    }
}

pub open spec fn entries_view(cookies: Seq<(String, String)>) -> Seq<(Seq<char>, Seq<char>)> {
    Seq::new(cookies.len(), |i: int| (cookies[i].0@, cookies[i].1@))
}

/// The value of cookie `name` among parsed entries.
pub fn cookie_value(cookies: &Vec<(String, String)>, name: &str) -> (r: Option<String>)
    ensures
        match r {
            Some(v) => cookie_lookup(entries_view(cookies@), name@) == Some(v@),
            None => cookie_lookup(entries_view(cookies@), name@) is None,
        },
{
    let mut i: usize = cookies.len();
    let ghost ev = entries_view(cookies@);
    proof {
        assert(ev.take(ev.len() as int) =~= ev);
    }
    while i > 0
        invariant
            i <= cookies@.len(),
            ev == entries_view(cookies@),
            cookie_lookup(ev, name@) == cookie_lookup(ev.take(i as int), name@),
        decreases i,
    {
        let ghost t = ev.take(i as int);
        proof {
            assert(t.drop_last() =~= ev.take(i - 1));
            assert(t.last() == (cookies@[i - 1].0@, cookies@[i - 1].1@));
        }
        if crate::text::str_eq(cookies[i - 1].0.as_str(), name) {
            return Some(cookies[i - 1].1.clone());
        }
        i = i - 1;
    }
    None
}

/// A `Set-Cookie` value.
pub open spec fn cookie_text(name: Seq<char>, value: Seq<char>, max_age: int, http_only: bool, path: Seq<char>) -> Seq<char> {
    name + "="@ + value + "; Path="@ + path + "; Max-Age="@ + int_text(max_age) + "; SameSite=Lax; Secure"@ + (
    if http_only {
        "; HttpOnly"@
    } else {
        Seq::empty()
    })
}

/// A `Set-Cookie` value for `path`.
pub fn cookie_at_path(name: &str, value: &str, max_age: i64, http_only: bool, path: &str) -> (r: String)
    ensures
        r@ == cookie_text(name@, value@, max_age as int, http_only, path@),
{
    let mut v = chars_of(name);
    push_str(&mut v, "=");
    push_str(&mut v, value);
    push_str(&mut v, "; Path=");
    push_str(&mut v, path);
    push_str(&mut v, "; Max-Age=");
    push_int(&mut v, max_age as i128);
    push_str(&mut v, "; SameSite=Lax; Secure");
    let ghost base = v@;
    if http_only {
        push_str(&mut v, "; HttpOnly");
    } else {
        proof {
            assert(v@ =~= base + Seq::<char>::empty());
        }
    }
    string_of(&v)
}

/// A `Set-Cookie` value for the API path `/api/v1`.
pub fn cookie(name: &str, value: &str, max_age: i64, http_only: bool) -> (r: String)
    ensures
        r@ == cookie_text(name@, value@, max_age as int, http_only, "/api/v1"@),
{
    cookie_at_path(name, value, max_age, http_only, "/api/v1")
}

/// A `Set-Cookie` value that removes a cookie.
pub open spec fn clear_cookie_text(name: Seq<char>, path: Seq<char>, http_only: bool) -> Seq<char> {
    name + "=; Path="@ + path + "; Max-Age=0; SameSite=Lax; Secure"@ + (
    if http_only {
        "; HttpOnly"@
    } else {
        Seq::empty()
    })
}

/// A `Set-Cookie` value that removes cookie `name` at `path`.
pub fn clear_cookie_at_path(name: &str, path: &str, http_only: bool) -> (r: String)
    ensures
        r@ == clear_cookie_text(name@, path@, http_only),
{
    let mut v = chars_of(name);
    push_str(&mut v, "=; Path=");
    push_str(&mut v, path);
    push_str(&mut v, "; Max-Age=0; SameSite=Lax; Secure");
    let ghost base = v@;
    if http_only {
        push_str(&mut v, "; HttpOnly");
    } else {
        proof {
            assert(v@ =~= base + Seq::<char>::empty());
        }
    }
    string_of(&v)
}

/// A `Set-Cookie` value that removes an HTTP-only API cookie.
pub fn clear_cookie(name: &str) -> (r: String)
    ensures
        r@ == clear_cookie_text(name@, "/api/v1"@, true),
{
    clear_cookie_at_path(name, "/api/v1", true)
}

/// Signing out: the body `{"ok": true}` and the cookies that drop both tokens.
pub fn sign_out() -> (r: (Json, Vec<String>))
    ensures
        r.0@ == object_of(seq![("ok"@, JsonView::Bool(true))]),
        r.1@.len() == 2,
        r.1@[0]@ == clear_cookie_text(REFRESH_COOKIE@, "/api/v1"@, true),
        r.1@[1]@ == clear_cookie_text(ACCESS_COOKIE@, "/api/v1"@, true),
{
    let mut b = ObjectBuilder::new();
    b.add("ok", Json::Bool(true));
    proof {
        assert(b.pairs() =~= seq![("ok"@, JsonView::Bool(true))]);
    }
    let body = b.build();
    let mut cookies: Vec<String> = Vec::new();
    cookies.push(clear_cookie(REFRESH_COOKIE));
    cookies.push(clear_cookie(ACCESS_COOKIE));
    (body, cookies)
}

/// The first piece of a split is the text before the first separator.
pub proof fn lemma_split_char_first(x: Seq<char>, y: Seq<char>, sep: char)
    requires
        forall|i: int| 0 <= i < x.len() ==> x[i] != sep,
    ensures
        split_char(x + seq![sep] + y, sep).len() >= 2,
        split_char(x + seq![sep] + y, sep)[0] == x,
    decreases y.len(),
{
    let s = x + seq![sep] + y;
    if y.len() == 0 {
        lemma_split_char_no_sep(x, sep);
        assert(s.drop_last() =~= x);
    } else {
        let y0 = y.drop_last();
        lemma_split_char_first(x, y0, sep);
        assert(s.drop_last() =~= x + seq![sep] + y0);
    }
}

/// The `name=value` part of a cookie set by this service, sent back by the browser
/// in a `Cookie` header, reads as `value` under `name`: for names that are not
/// blank at the start and hold no `=` or `;`, and values that hold no `;` and do not
/// end in white space.
pub proof fn lemma_cookie_read_back(name: Seq<char>, value: Seq<char>, max_age: int, http_only: bool, path: Seq<char>)
    requires
        name.len() > 0,
        !crate::text::is_ws(name[0]),
        forall|i: int| 0 <= i < name.len() ==> name[i] != '=' && name[i] != ';',
        forall|i: int| 0 <= i < value.len() ==> value[i] != ';',
        value.len() > 0 ==> !crate::text::is_ws(value.last()),
    ensures
        cookie_lookup(cookie_entries(split_char(cookie_text(name, value, max_age, http_only, path), ';')[0]), name) == Some(value),
{
    reveal_strlit("=");
    reveal_strlit("; Path=");
    let pair = name + "="@ + value;
    let rest = " Path="@ + path + "; Max-Age="@ + int_text(max_age) + "; SameSite=Lax; Secure"@ + (if http_only {
        "; HttpOnly"@
    } else {
        Seq::empty()
    });
    assert forall|i: int| 0 <= i < pair.len() implies pair[i] != ';' by {
        if i < name.len() {
            assert(pair[i] == name[i]);
        } else if i > name.len() {
            assert(pair[i] == value[i - name.len() - 1]);
        }
    }
    reveal_strlit(" Path=");
    assert("; Path="@ =~= seq![';'] + " Path="@);
    assert(cookie_text(name, value, max_age, http_only, path) =~= pair + seq![';'] + rest);
    lemma_split_char_first(pair, rest, ';');
    lemma_split_char_no_sep(pair, ';');
    assert(cookie_entries(pair) =~= seq![cookie_pair(pair)]);
    assert(pair[0] == name[0]);
    assert(crate::text::trim_start(pair) == pair);
    if value.len() > 0 {
        assert(pair.last() == value.last());
    } else {
        assert(pair.last() == '=');
    }
    assert(crate::text::trim_end(pair) == pair);
    assert(crate::text::trim(pair) == pair);
    assert forall|j: int| 0 <= j < name.len() implies pair[j] != '=' by {
        assert(pair[j] == name[j]);
    }
    crate::text::lemma_char_index(pair, '=', name.len() as int);
    assert(pair.take(name.len() as int) =~= name);
    assert(pair.skip(name.len() as int + 1) =~= value);
    let entries = cookie_entries(pair);
    assert(entries.last() == (name, value));
}

} // verus!
