use vstd::prelude::*;
use url::Url;
use crate::text::{occurs_at, chars_of, string_of, push_str, push_all, trim, trim_chars, trim_str, str_eq, chars_eq, chars_eq_str, find_chars, first_occurrence, has_prefix, starts_with, sub_chars};
use crate::cookies::split_char;
use crate::error::{AppError, is_error};

verus! {

#[verifier::external_type_specification]
#[verifier::external_body]
pub struct ExUrl(url::Url);

/// The `Content-Security-Policy` every response carries.
pub open spec fn content_policy_text() -> Seq<char> {
    "default-src 'self'; script-src 'self'; style-src 'self' 'unsafe-inline'; img-src 'self' data: blob: https:; font-src 'self' data:; connect-src 'self' https:; object-src 'none'; base-uri 'self'; frame-ancestors 'none'; form-action 'self'; manifest-src 'self'"@
}

pub fn security_content_policy() -> (r: &'static str)
    ensures
        r@ == content_policy_text(),
{
    "default-src 'self'; script-src 'self'; style-src 'self' 'unsafe-inline'; img-src 'self' data: blob: https:; font-src 'self' data:; connect-src 'self' https:; object-src 'none'; base-uri 'self'; frame-ancestors 'none'; form-action 'self'; manifest-src 'self'"
}

/// Requests for `/api/...` and `/file/...` go to the backend; everything else is a
/// static asset of the web UI.
pub open spec fn backend_path(path: Seq<char>) -> bool {
    has_prefix(path, "/api/"@) || has_prefix(path, "/file/"@)
}

pub fn is_backend_request_path(path: &str) -> (b: bool)
    ensures
        b == backend_path(path@),
{
    let p = chars_of(path);
    let api = chars_of("/api/");
    let file = chars_of("/file/");
    starts_with(&p, &api) || starts_with(&p, &file)
}

/// The CORS origin a response may allow: the request's own origin, or one listed
/// (or `*`) in the comma-separated configuration.
pub open spec fn allowed_origin(origin: Option<Seq<char>>, self_origin: Option<Seq<char>>, configured: Option<Seq<char>>) -> Option<Seq<char>> {
    if origin is None {
        None
    } else {
        let o = trim(origin.unwrap());
        if o.len() == 0 {
            None
        } else if self_origin is Some && trim(self_origin.unwrap()) == o {
            Some(o)
        } else if origin_listed(split_char(or_empty(configured), ','), o) {
            Some(o)
        } else {
            None
        }
    }
}

pub open spec fn or_empty(x: Option<Seq<char>>) -> Seq<char> {
    match x {
        Some(c) => c,
        None => Seq::empty(),
    }
}

/// A non-empty entry of the list is `*` or the origin itself.
pub open spec fn origin_listed(parts: Seq<Seq<char>>, o: Seq<char>) -> bool {
    exists|i: int| 0 <= i < parts.len() && listed_entry(#[trigger] parts[i], o)
}

pub open spec fn listed_entry(part: Seq<char>, o: Seq<char>) -> bool {
    trim(part).len() > 0 && (trim(part) == "*"@ || trim(part) == o)
}

pub open spec fn opt_view(x: Option<&str>) -> Option<Seq<char>> {
    match x {
        Some(s) => Some(s@),
        None => None,
    }
}

pub fn allowed_cors_origin(origin: Option<&str>, self_origin: Option<&str>, configured: Option<&str>) -> (r: Option<String>)
    ensures
        match r {
            Some(s) => allowed_origin(opt_view(origin), opt_view(self_origin), opt_view(configured)) == Some(s@),
            None => allowed_origin(opt_view(origin), opt_view(self_origin), opt_view(configured)) is None,
        },
{
    let raw = match origin {
        Some(o) => o,
        None => return None,
    };
    let o = trim_chars(&chars_of(raw));
    if o.len() == 0 {
        return None;
    }
    if let Some(s) = self_origin {
        let t = trim_chars(&chars_of(s));
        if chars_eq(&t, &o) {
            return Some(string_of(&o));
        }
    }
    proof {
        reveal_strlit("");
    }
    let conf = match configured {
        Some(c) => c,
        None => "",
    };
    let cv = chars_of(conf);
    let ghost conf_view = or_empty(opt_view(configured));
    proof {
        assert(cv@ =~= conf_view);
    }
    let parts = crate::cookies::split_chars(&cv, ',');
    let star = chars_of("*");
    let mut i: usize = 0;
    while i < parts.len()
        invariant
            i <= parts@.len(),
            parts@.len() == split_char(conf_view, ',').len(),
            forall|k: int| 0 <= k < parts@.len() ==> (#[trigger] parts@[k])@ == split_char(conf_view, ',')[k],
            star@ == "*"@,
            origin == Some(raw),
            o@ == trim(raw@),
            o@.len() > 0,
            conf_view == or_empty(opt_view(configured)),
            !(self_origin is Some && trim(self_origin.unwrap()@) == o@),
            forall|k: int| 0 <= k < i ==> !listed_entry(#[trigger] split_char(conf_view, ',')[k], o@),
        decreases parts.len() - i,
    {
        let p = trim_chars(&parts[i]);
        if p.len() > 0 && (chars_eq(&p, &star) || chars_eq(&p, &o)) {
            proof {
                let sp = split_char(conf_view, ',');
                assert(trim(sp[i as int]) == p@);
                assert(listed_entry(sp[i as int], o@));
                assert(opt_view(origin) == Some(raw@));
                assert(trim(opt_view(origin).unwrap()) == o@);
                assert(allowed_origin(opt_view(origin), opt_view(self_origin), opt_view(configured)) == Some(o@));
            }
            return Some(string_of(&o));
        }
        i = i + 1;
    }
    proof {
        assert(!origin_listed(split_char(conf_view, ','), o@));
    }
    None
}

/// How a SQL `LIKE` pattern writes one character of a literal.
pub open spec fn like_escape_char(c: char) -> Seq<char> {
    if c == '\\' {
        seq!['\\', '\\']
    } else if c == '%' {
        seq!['\\', '%']
    } else if c == '_' {
        seq!['\\', '_']
    } else {
        seq![c]
    }
}

/// A literal for a SQL `LIKE` pattern with `ESCAPE '\'`.
pub open spec fn like_escaped(s: Seq<char>) -> Seq<char>
    decreases s.len(),
{
    if s.len() == 0 {
        Seq::empty()
    } else {
        like_escaped(s.drop_last()) + like_escape_char(s.last())
    }
}

/// Escapes `\`, `%` and `_` for a `LIKE` pattern.
pub fn escape_like(value: &str) -> (r: String)
    ensures
        r@ == like_escaped(value@),
{
    let v = chars_of(value);
    let mut out: Vec<char> = Vec::new();
    let mut i: usize = 0;
    proof {
        assert(v@.take(0) =~= Seq::<char>::empty());
    }
    while i < v.len()
        invariant
            i <= v@.len(),
            out@ == like_escaped(v@.take(i as int)),
        decreases v.len() - i,
    {
        let c = v[i];
        if c == '\\' {
            out.push('\\');
            out.push('\\');
        } else if c == '%' {
            out.push('\\');
            out.push('%');
        } else if c == '_' {
            out.push('\\');
            out.push('_');
        } else {
            out.push(c);
        }
        proof {
            assert(v@.take(i + 1).drop_last() =~= v@.take(i as int));
            assert(out@ =~= like_escaped(v@.take(i as int)) + like_escape_char(c));
        }
        i = i + 1;
    }
    proof {
        assert(v@.take(v@.len() as int) =~= v@);
    }
    string_of(&out)
}

/// `count` SQL placeholders separated by commas.
pub open spec fn placeholders_text(count: nat) -> Seq<char>
    decreases count,
{
    if count == 0 {
        Seq::empty()
    } else if count == 1 {
        seq!['?']
    } else {
        placeholders_text((count - 1) as nat) + seq![',', '?']
    }
}

pub fn placeholders(count: usize) -> (r: String)
    ensures
        r@ == placeholders_text(count as nat),
{
    let mut out: Vec<char> = Vec::new();
    let mut i: usize = 0;
    while i < count
        invariant
            i <= count,
            out@ == placeholders_text(i as nat),
        decreases count - i,
    {
        if i > 0 {
            out.push(',');
        }
        out.push('?');
        proof {
            if i > 0 {
                assert(out@ =~= placeholders_text(i as nat) + seq![',', '?']);
            } else {
                assert(out@ =~= seq!['?']);
            }
        }
        i = i + 1;
    }
    string_of(&out)
}

/// The value of the first query pair named `field`.
pub open spec fn query_lookup(pairs: Seq<(Seq<char>, Seq<char>)>, field: Seq<char>) -> Option<Seq<char>>
    decreases pairs.len(),
{
    if pairs.len() == 0 {
        None
    } else if pairs[0].0 == field {
        Some(pairs[0].1)
    } else {
        query_lookup(pairs.drop_first(), field)
    }
}

pub open spec fn pairs_view(pairs: Seq<(String, String)>) -> Seq<(Seq<char>, Seq<char>)> {
    Seq::new(pairs.len(), |i: int| (pairs[i].0@, pairs[i].1@))
}

/// The value of the first decoded query pair named `field`.
pub fn query_value(pairs: &Vec<(String, String)>, field: &str) -> (r: Option<String>)
    ensures
        match r {
            Some(v) => query_lookup(pairs_view(pairs@), field@) == Some(v@),
            None => query_lookup(pairs_view(pairs@), field@) is None,
        },
{
    let ghost pv = pairs_view(pairs@);
    let mut i: usize = 0;
    proof {
        assert(pv.skip(0) =~= pv);
    }
    while i < pairs.len()
        invariant
            i <= pairs@.len(),
            pv == pairs_view(pairs@),
            query_lookup(pv, field@) == query_lookup(pv.skip(i as int), field@),
        decreases pairs.len() - i,
    {
        proof {
            assert(pv.skip(i as int)[0] == (pairs@[i as int].0@, pairs@[i as int].1@));
            assert(pv.skip(i as int).drop_first() =~= pv.skip(i + 1));
        }
        if str_eq(pairs[i].0.as_str(), field) {
            return Some(pairs[i].1.clone());
        }
        i = i + 1;
    }
    None
}

/// What `form_urlencoded::parse` makes of a query text: its `name=value` pairs,
/// percent-decoded, in order.
pub uninterp spec fn decoded_query_pairs(query: Seq<char>) -> Seq<(Seq<char>, Seq<char>)>;

/// Calls `form_urlencoded::parse` (the decoder behind `Url::query_pairs`) on the
/// UTF-8 bytes of a query text; the pairs are named, as a function of the text.
#[verifier::external_body]
fn decode_query(query: &str) -> (r: Vec<(String, String)>)
    ensures
        pairs_view(r@) == decoded_query_pairs(query@),
{
    url::form_urlencoded::parse(query.as_bytes()).map(|(k, v)| (k.into_owned(), v.into_owned())).collect()
}

/// A parsed URL, seen as its serialization (the text `Url::as_str` gives). The
/// `url` crate compares URLs by their serializations, and its own invariant check
/// holds every `Url` to the parse of its serialization, so what its accessors
/// return is a function of that text.
pub struct RequestUrl {
    url: Url,
    text: Ghost<Seq<char>>,
}

impl View for RequestUrl {
    type V = Seq<char>;

    closed spec fn view(&self) -> Seq<char> {
        self.text@
    }
}

/// What `Url::parse` makes of a text: the serialization of the URL it accepts, or
/// nothing when it refuses the text.
pub uninterp spec fn url_parsed(input: Seq<char>) -> Option<Seq<char>>;

/// What `Url::query` returns for a URL with this serialization.
pub uninterp spec fn url_query_of(serialization: Seq<char>) -> Option<Seq<char>>;

/// What `Url::scheme` returns for a URL with this serialization.
pub uninterp spec fn url_scheme_of(serialization: Seq<char>) -> Seq<char>;

/// The serialization after `Url::set_query(None)`.
pub uninterp spec fn url_without_query(serialization: Seq<char>) -> Seq<char>;

/// The serialization after `Url::set_fragment(None)`.
pub uninterp spec fn url_without_fragment(serialization: Seq<char>) -> Seq<char>;

/// Whether `Url::parse` accepts a text.
pub open spec fn url_parse_accepts(input: Seq<char>) -> bool {
    url_parsed(input) is Some
}

/// Calls `Url::parse`; the URL it gives is named by its serialization, as a
/// function of the text.
#[verifier::external_body]
fn parse_url(input: &str) -> (r: Option<RequestUrl>)
    ensures
        match r {
            Some(u) => url_parsed(input@) == Some(u@),
            None => url_parsed(input@) is None,
        },
{
    match Url::parse(input) {
        Ok(url) => Some(RequestUrl { url, text: Ghost(url_parsed(input@).unwrap()) }),
        Err(_) => None,
    }
}

/// Calls `Url::query`: the query text, named as a function of the serialization.
#[verifier::external_body]
fn url_query(url: &RequestUrl) -> (r: Option<String>)
    ensures
        crate::json::opt_string(r) == url_query_of(url@),
{
    url.url.query().map(|q| q.to_owned())
}

/// Calls `Url::scheme`, named as a function of the serialization.
#[verifier::external_body]
pub(crate) fn url_scheme(url: &RequestUrl) -> (r: String)
    ensures
        r@ == url_scheme_of(url@),
{
    url.url.scheme().to_owned()
}

/// Calls `Url::set_query(None)`: the serialization becomes the named one.
#[verifier::external_body]
pub(crate) fn url_clear_query(url: &mut RequestUrl)
    ensures
        final(url)@ == url_without_query(old(url)@),
{
    url.url.set_query(None);
    url.text = Ghost(url_without_query(url.text@));
}

/// Calls `Url::set_fragment(None)`: the serialization becomes the named one.
#[verifier::external_body]
pub(crate) fn url_clear_fragment(url: &mut RequestUrl)
    ensures
        final(url)@ == url_without_fragment(old(url)@),
{
    url.url.set_fragment(None);
    url.text = Ghost(url_without_fragment(url.text@));
}

/// The serialization after `Url::query_pairs_mut().append_pair(name, value)`.
pub uninterp spec fn url_with_query_pair(serialization: Seq<char>, name: Seq<char>, value: Seq<char>) -> Seq<char>;

/// Calls `Url::query_pairs_mut().append_pair`: the serialization becomes the named one.
#[verifier::external_body]
pub(crate) fn url_append_pair(url: &mut RequestUrl, name: &str, value: &str)
    ensures
        final(url)@ == url_with_query_pair(old(url)@, name@, value@),
{
    url.url.query_pairs_mut().append_pair(name, value);
    url.text = Ghost(url_with_query_pair(url.text@, name@, value@));
}

/// Calls `Url`'s `to_string`, which writes the serialization itself.
#[verifier::external_body]
pub(crate) fn url_text(url: &RequestUrl) -> (r: String)
    ensures
        r@ == url@,
{
    url.url.to_string()
}

impl RequestUrl {
    /// Parses a URL text; nothing when `Url::parse` refuses it.
    pub fn parse(input: &str) -> (r: Option<RequestUrl>)
        ensures
            r is Some <==> url_parse_accepts(input@),
            r matches Some(u) ==> url_parsed(input@) == Some(u@),
    {
        parse_url(input)
    }

    /// The query text of the URL, empty when it has none.
    pub fn query_text(&self) -> (r: String)
        ensures
            r@ == url_query_text(self@),
    {
        match url_query(self) {
            Some(q) => q,
            None => String::new(),
        }
    }
}

/// The query text of a URL with this serialization, empty when it has none.
pub open spec fn url_query_text(serialization: Seq<char>) -> Seq<char> {
    match url_query_of(serialization) {
        Some(q) => q,
        None => Seq::empty(),
    }
}

/// The decoded pairs of a query text.
pub fn query_pairs_of(query: &str) -> (r: Vec<(String, String)>)
    ensures
        pairs_view(r@) == decoded_query_pairs(query@),
{
    decode_query(query)
}

/// The first decoded value named `field` of a query text.
pub fn query_param_in(query: &str, field: &str) -> (r: Option<String>)
    ensures
        match r {
            Some(v) => query_lookup(decoded_query_pairs(query@), field@) == Some(v@),
            None => query_lookup(decoded_query_pairs(query@), field@) is None,
        },
{
    let pairs = decode_query(query);
    query_value(&pairs, field)
}

/// The first decoded value named `field` among the pairs of a query text.
pub open spec fn query_text_param(query: Seq<char>, field: Seq<char>) -> Option<Seq<char>> {
    query_lookup(decoded_query_pairs(query), field)
}

/// The first decoded query value named `field` of a URL: what `query_param_in`
/// gives for its query text (empty when it has none).
pub fn query_param(url: &RequestUrl, field: &str) -> (r: Option<String>)
    ensures
        crate::json::opt_string(r) == query_text_param(url_query_text(url@), field@),
{
    let query = url.query_text();
    query_param_in(query.as_str(), field)
}

/// The quoted value that follows `field == "` in a filter expression.
pub open spec fn filter_value(filter: Seq<char>, field: Seq<char>) -> Option<Seq<char>> {
    let needle = field + " == \""@;
    match first_occurrence(filter, needle) {
        None => None,
        Some(i) => {
            let rest = filter.skip(i + needle.len());
            match first_occurrence(rest, "\""@) {
                None => None,
                Some(e) => Some(rest.take(e)),
            }
        },
    }
}

/// Reads `field == "value"` out of a filter expression.
pub fn extract_filter_value_from(filter: &str, field: &str) -> (r: Option<String>)
    ensures
        match r {
            Some(v) => filter_value(filter@, field@) == Some(v@),
            None => filter_value(filter@, field@) is None,
        },
{
    let f = chars_of(filter);
    let mut needle = chars_of(field);
    push_str(&mut needle, " == \"");
    let found = find_chars(&f, &needle);
    if found.is_none() {
        return None;
    }
    let i = found.unwrap();
    proof {
        assert(occurs_at(f@, needle@, i as int));
    }
    let nl = needle.len();
    let flen = f.len();
    proof {
        assert(i + nl <= flen);
    }
    let start = i + nl;
    let rest = sub_chars(&f, start, f.len());
    proof {
        assert(rest@ =~= f@.skip(start as int));
    }
    let quote = chars_of("\"");
    match find_chars(&rest, &quote) {
        Some(e) => {
            let value = sub_chars(&rest, 0, e);
            proof {
                assert(value@ =~= rest@.take(e as int));
            }
            Some(string_of(&value))
        },
        None => None,
    }
}

/// What `field == "..."` holds in the `filter` parameter of a query text.
pub open spec fn query_filter_value(query: Seq<char>, field: Seq<char>) -> Option<Seq<char>> {
    match query_text_param(query, "filter"@) {
        Some(filter) => filter_value(filter, field),
        None => None,
    }
}

/// The value of `field == "..."` in the query's `filter` parameter.
pub fn extract_filter_value(url: &RequestUrl, field: &str) -> (r: Option<String>)
    ensures
        crate::json::opt_string(r) == query_filter_value(url_query_text(url@), field@),
{
    let param = query_param(url, "filter");
    let ghost query = url_query_text(url@);
    let r = match param {
        Some(filter) => extract_filter_value_from(filter.as_str(), field),
        None => None,
    };
    assert(crate::json::opt_string(r) == query_filter_value(query, field@));
    r
}

/// The text of a string literal after its opening quote: backslash escapes the next
/// character, an unescaped `"` ends it. Nothing when it does not end.
pub open spec fn unescape_literal(s: Seq<char>) -> Option<Seq<char>>
    decreases s.len(),
{
    if s.len() == 0 {
        None
    } else if s[0] == '\\' {
        if s.len() == 1 {
            None
        } else {
            match unescape_literal(s.skip(2)) {
                Some(v) => Some(seq![s[1]] + v),
                None => None,
            }
        }
    } else if s[0] == '"' {
        Some(Seq::empty())
    } else {
        match unescape_literal(s.drop_first()) {
            Some(v) => Some(seq![s[0]] + v),
            None => None,
        }
    }
}

pub open spec fn prepend(p: Seq<char>, r: Option<Seq<char>>) -> Option<Seq<char>> {
    match r {
        Some(v) => Some(p + v),
        None => None,
    }
}

/// The argument of `content.contains("...")` in a filter expression.
pub open spec fn content_contains_value(filter: Seq<char>) -> Option<Seq<char>> {
    let needle = "content.contains(\""@;
    match first_occurrence(filter, needle) {
        None => None,
        Some(i) => unescape_literal(filter.skip(i + needle.len())),
    }
}

fn unescape_from(s: &[char]) -> (r: Option<Vec<char>>)
    ensures
        match r {
            Some(v) => unescape_literal(s@) == Some(v@),
            None => unescape_literal(s@) is None,
        },
{
    let mut value: Vec<char> = Vec::new();
    let mut i: usize = 0;
    proof {
        assert(s@.skip(0) =~= s@);
        assert(value@ + Seq::<char>::empty() =~= value@);
    }
    while i < s.len()
        invariant
            i <= s@.len(),
            unescape_literal(s@) == prepend(value@, unescape_literal(s@.skip(i as int))),
        decreases s.len() - i,
    {
        let c = s[i];
        let ghost rest = s@.skip(i as int);
        proof {
            assert(rest[0] == c);
        }
        if c == '\\' {
            if i + 1 == s.len() {
                return None;
            }
            value.push(s[i + 1]);
            proof {
                assert(rest[1] == s@[i + 1]);
                assert(rest.skip(2) =~= s@.skip(i + 2));
                let tail = unescape_literal(s@.skip(i + 2));
                match tail {
                    Some(t) => {
                        assert(value@ + t =~= old_value_plus(value@, t));
                    },
                    None => {},
                }
                assert(prepend(value@.drop_last(), prepend(seq![s@[i + 1]], tail)) == prepend(value@, tail)) by {
                    match tail {
                        Some(t) => {
                            assert(value@.drop_last() + (seq![s@[i + 1]] + t) =~= value@ + t);
                        },
                        None => {},
                    }
                }
            }
            i = i + 2;
        } else if c == '"' {
            proof {
                assert(value@ + Seq::<char>::empty() =~= value@);
            }
            return Some(value);
        } else {
            value.push(c);
            proof {
                assert(rest.drop_first() =~= s@.skip(i + 1));
                let tail = unescape_literal(s@.skip(i + 1));
                assert(prepend(value@.drop_last(), prepend(seq![c], tail)) == prepend(value@, tail)) by {
                    match tail {
                        Some(t) => {
                            assert(value@.drop_last() + (seq![c] + t) =~= value@ + t);
                        },
                        None => {},
                    }
                }
            }
            i = i + 1;
        }
    }
    None
}

pub open spec fn old_value_plus(v: Seq<char>, t: Seq<char>) -> Seq<char> {
    v + t
}

/// Reads the argument of `content.contains("...")` out of a filter expression.
pub fn extract_content_contains_from(filter: &str) -> (r: Option<String>)
    ensures
        match r {
            Some(v) => content_contains_value(filter@) == Some(v@),
            None => content_contains_value(filter@) is None,
        },
{
    let f = chars_of(filter);
    let needle = chars_of("content.contains(\"");
    let found = find_chars(&f, &needle);
    if found.is_none() {
        return None;
    }
    let i = found.unwrap();
    proof {
        assert(occurs_at(f@, needle@, i as int));
    }
    let nl = needle.len();
    let flen = f.len();
    proof {
        assert(i + nl <= flen);
    }
    let start = i + nl;
    let rest = sub_chars(&f, start, f.len());
    proof {
        assert(rest@ =~= f@.skip(start as int));
    }
    match unescape_from(&rest) {
        Some(v) => Some(string_of(&v)),
        None => None,
    }
}

/// The `content.contains("...")` argument in the `filter` parameter of a query text.
pub open spec fn query_content_contains(query: Seq<char>) -> Option<Seq<char>> {
    match query_text_param(query, "filter"@) {
        Some(filter) => content_contains_value(filter),
        None => None,
    }
}

/// The `content.contains("...")` argument of the query's `filter` parameter.
pub fn extract_content_contains_filter(url: &RequestUrl) -> (r: Option<String>)
    ensures
        crate::json::opt_string(r) == query_content_contains(url_query_text(url@)),
{
    let param = query_param(url, "filter");
    let ghost query = url_query_text(url@);
    let r = match param {
        Some(filter) => extract_content_contains_from(filter.as_str()),
        None => None,
    };
    assert(crate::json::opt_string(r) == query_content_contains(query));
    r
}


/// What an accepted base URL becomes: `http` and `https` URLs keep their serialized
/// form without trailing `/`; other schemes are refused with `message`.
pub fn finish_http_url(scheme: &str, serialized: &str, message: &str) -> (r: Result<String, AppError>)
    ensures
        r is Ok <==> (scheme@ == "http"@ || scheme@ == "https"@),
        r matches Ok(s) ==> s@ == crate::text::strip_trailing(serialized@, '/'),
        r matches Err(e) ==> is_error(e, 400, message@),
{
    if !(str_eq(scheme, "http") || str_eq(scheme, "https")) {
        return Err(AppError::new(400, message));
    }
    let v = chars_of(serialized);
    let t = crate::text::strip_trailing_char(&v, '/');
    Ok(string_of(&t))
}

/// The base URL a text names: trimmed, parsed, `http` or `https`, with query and
/// fragment dropped and no trailing `/`; nothing when the text is blank, does not
/// parse, or has another scheme.
pub open spec fn http_base_url(input: Seq<char>) -> Option<Seq<char>> {
    let t = trim(input);
    if t.len() == 0 {
        None
    } else {
        match url_parsed(t) {
            None => None,
            Some(ser) => if url_scheme_of(ser) == "http"@ || url_scheme_of(ser) == "https"@ {
                Some(crate::text::strip_trailing(url_without_fragment(url_without_query(ser)), '/'))
            } else {
                None
            },
        }
    }
}

/// Checks and normalizes an HTTP(S) base URL: trimmed, parsed, query and fragment
/// dropped, trailing `/` removed. Refusals answer 400 with `message`.
pub fn normalize_http_url(value: &str, message: &str) -> (r: Result<String, AppError>)
    ensures
        match http_base_url(value@) {
            Some(b) => r matches Ok(s) && s@ == b,
            None => r matches Err(e) && is_error(e, 400, message@),
        },
{
    let raw = trim_str(value);
    if raw.as_str().unicode_len() == 0 {
        return Err(AppError::new(400, message));
    }
    let parsed = parse_url(raw.as_str());
    let mut url = match parsed {
        Some(u) => u,
        None => return Err(AppError::new(400, message)),
    };
    let scheme = url_scheme(&url);
    url_clear_query(&mut url);
    url_clear_fragment(&mut url);
    let text = url_text(&url);
    finish_http_url(scheme.as_str(), text.as_str(), message)
}

} // verus!
