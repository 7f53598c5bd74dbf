use vstd::prelude::*;
use crate::text::{chars_of, string_of, push_str, trim, trim_str, str_eq, parse_i64, parse_i64_spec, join_with, join_chars, int_text};
use crate::http::{
    pairs_view, query_lookup, query_value, filter_value, extract_filter_value_from, content_contains_value,
    extract_content_contains_from, like_escaped, escape_like,
};
use crate::access::{normalize_state, normalize_visibility, is_row_state, is_visibility};
use crate::unicode::unicode_uppercase;
use crate::models::Viewer;
use crate::error::{AppError, is_error};

verus! {

/// A value bound to a `?` of a SQL statement.
#[derive(Debug, PartialEq)]
pub enum SqlValue {
    Null,
    Text(String),
    Int(i64),
    /// A number outside `i64` or with a fraction, in its decimal text; it is bound
    /// as a number.
    Number(String),
}

pub enum SqlValueView {
    Null,
    Text(Seq<char>),
    Int(int),
    Number(Seq<char>),
}

pub open spec fn sql_value_view(v: SqlValue) -> SqlValueView {
    match v {
        SqlValue::Null => SqlValueView::Null,
        SqlValue::Text(s) => SqlValueView::Text(s@),
        SqlValue::Int(n) => SqlValueView::Int(n as int),
        SqlValue::Number(t) => SqlValueView::Number(t@),
    }
}

pub open spec fn binds_view(v: Seq<SqlValue>) -> Seq<SqlValueView> {
    Seq::new(v.len(), |i: int| sql_value_view(v[i]))
}

/// A statement to run and its values.
#[derive(Debug)]
pub struct Statement {
    pub sql: String,
    pub binds: Vec<SqlValue>,
}

/// A memo listing query: the statement, its bound values, and the page asked for.
#[derive(Debug)]
pub struct MemoListQuery {
    pub sql: String,
    pub binds: Vec<SqlValue>,
    pub limit: i64,
    pub offset: i64,
}

/// The value of the first query pair named `a` or `b`.
pub open spec fn lookup_either(pairs: Seq<(Seq<char>, Seq<char>)>, a: Seq<char>, b: Seq<char>) -> Option<Seq<char>>
    decreases pairs.len(),
{
    if pairs.len() == 0 {
        None
    } else if pairs[0].0 == a || pairs[0].0 == b {
        Some(pairs[0].1)
    } else {
        lookup_either(pairs.drop_first(), a, b)
    }
}

/// Page size: `page_size` or `pageSize` (whichever comes first), 20 when absent or
/// not a number, kept within 1 to 200.
pub open spec fn page_size(pairs: Seq<(Seq<char>, Seq<char>)>) -> int {
    let n = match lookup_either(pairs, "page_size"@, "pageSize"@) {
        Some(v) => match parse_i64_spec(v) {
            Some(n) => n,
            None => 20,
        },
        None => 20,
    };
    if n < 1 {
        1
    } else if n > 200 {
        200
    } else {
        n
    }
}

/// Offset: `page_token`, else `pageToken`, as a number (0 when it is not one),
/// never negative.
pub open spec fn page_offset(pairs: Seq<(Seq<char>, Seq<char>)>) -> int {
    let raw = match query_lookup(pairs, "page_token"@) {
        Some(v) => Some(v),
        None => query_lookup(pairs, "pageToken"@),
    };
    let n = match raw {
        Some(v) => match parse_i64_spec(v) {
            Some(n) => n,
            None => 0,
        },
        None => 0,
    };
    if n < 0 {
        0
    } else {
        n
    }
}

/// A filter field value taken from the `filter` query value.
pub open spec fn filter_field(pairs: Seq<(Seq<char>, Seq<char>)>, field: Seq<char>) -> Option<Seq<char>> {
    match query_lookup(pairs, "filter"@) {
        Some(f) => filter_value(f, field),
        None => None,
    }
}

/// The row state asked for: `state`, else the filter's `rowStatus` or
/// `row_status`, else `NORMAL`.
pub open spec fn state_asked(pairs: Seq<(Seq<char>, Seq<char>)>) -> Seq<char> {
    match query_lookup(pairs, "state"@) {
        Some(s) => s,
        None => match filter_field(pairs, "rowStatus"@) {
            Some(s) => s,
            None => match filter_field(pairs, "row_status"@) {
                Some(s) => s,
                None => "NORMAL"@,
            },
        },
    }
}

/// A query value that is present and not blank.
pub open spec fn nonblank_value(x: Option<Seq<char>>) -> Option<Seq<char>> {
    match x {
        Some(v) => if trim(v).len() > 0 {
            Some(v)
        } else {
            None
        },
        None => None,
    }
}

/// The text searched for: the `content.contains("...")` of the filter, when not blank.
pub open spec fn search_asked(pairs: Seq<(Seq<char>, Seq<char>)>) -> Option<Seq<char>> {
    nonblank_value(
        match query_lookup(pairs, "filter"@) {
            Some(f) => content_contains_value(f),
            None => None,
        },
    )
}

pub open spec fn admin(viewer: Viewer) -> bool {
    viewer.role@ == "ADMIN"@
}

/// The conditions of the listing, in order: the row state; for non-admins, memos
/// they may read; then the visibility, tag and content search asked for.
pub open spec fn list_clauses(pairs: Seq<(Seq<char>, Seq<char>)>, viewer: Viewer) -> Seq<Seq<char>> {
    let c0 = seq!["memo.row_status = ?"@];
    let c1 = if !admin(viewer) {
        c0.push("(memo.visibility != 'PRIVATE' OR memo.creator_id = ?)"@)
    } else {
        c0
    };
    let c2 = if nonblank_value(query_lookup(pairs, "visibility"@)) is Some {
        c1.push("memo.visibility = ?"@)
    } else {
        c1
    };
    let c3 = if nonblank_value(query_lookup(pairs, "tag"@)) is Some {
        c2.push("EXISTS (SELECT 1 FROM json_each(memo.payload, '$.tags') WHERE value = ?)"@)
    } else {
        c2
    };
    if search_asked(pairs) is Some {
        c3.push("memo.content LIKE ? ESCAPE '\\'"@)
    } else {
        c3
    }
}

/// The values bound to the conditions, then the row count (one more than the
/// page, to see whether more follow) and the offset.
pub open spec fn list_binds(pairs: Seq<(Seq<char>, Seq<char>)>, viewer: Viewer) -> Seq<SqlValueView> {
    let b0 = seq![SqlValueView::Text(unicode_uppercase(state_asked(pairs)))];
    let b1 = if !admin(viewer) {
        b0.push(SqlValueView::Int(viewer.id as int))
    } else {
        b0
    };
    let b2 = match nonblank_value(query_lookup(pairs, "visibility"@)) {
        Some(v) => b1.push(SqlValueView::Text(unicode_uppercase(v))),
        None => b1,
    };
    let b3 = match nonblank_value(query_lookup(pairs, "tag"@)) {
        Some(t) => b2.push(SqlValueView::Text(t)),
        None => b2,
    };
    let b4 = match search_asked(pairs) {
        Some(s) => b3.push(SqlValueView::Text("%"@ + like_escaped(s) + "%"@)),
        None => b3,
    };
    b4.push(SqlValueView::Int(page_size(pairs) + 1)).push(SqlValueView::Int(page_offset(pairs)))
}

pub open spec fn list_sql(pairs: Seq<(Seq<char>, Seq<char>)>, viewer: Viewer) -> Seq<char> {
    "SELECT memo.*, \"user\".username AS creator_username, \"user\".nickname AS creator_nickname FROM memo JOIN \"user\" ON \"user\".id = memo.creator_id WHERE "@
        + join_with(list_clauses(pairs, viewer), " AND "@)
        + " ORDER BY memo.pinned DESC, memo.created_ts DESC, memo.id DESC LIMIT ? OFFSET ?"@
}

/// A listing is refused when the state asked for is not a row state (checked
/// first) or the visibility asked for is not one.
pub open spec fn list_state_ok(pairs: Seq<(Seq<char>, Seq<char>)>) -> bool {
    is_row_state(unicode_uppercase(state_asked(pairs)))
}

pub open spec fn list_visibility_ok(pairs: Seq<(Seq<char>, Seq<char>)>) -> bool {
    match nonblank_value(query_lookup(pairs, "visibility"@)) {
        Some(v) => is_visibility(unicode_uppercase(v)),
        None => true,
    }
}

fn lookup_page_size(pairs: &Vec<(String, String)>) -> (r: Option<String>)
    ensures
        match r {
            Some(v) => lookup_either(pairs_view(pairs@), "page_size"@, "pageSize"@) == Some(v@),
            None => lookup_either(pairs_view(pairs@), "page_size"@, "pageSize"@) is None,
        },
{
    let ghost pv = pairs_view(pairs@);
    let mut i: usize = 0;
    proof {
        assert(pv.skip(0) =~= pv);
    }
    while i < pairs.len()
        invariant
            i <= pairs@.len(),
            pv == pairs_view(pairs@),
            lookup_either(pv, "page_size"@, "pageSize"@) == lookup_either(pv.skip(i as int), "page_size"@, "pageSize"@),
        decreases pairs.len() - i,
    {
        proof {
            assert(pv.skip(i as int)[0] == (pairs@[i as int].0@, pairs@[i as int].1@));
            assert(pv.skip(i as int).drop_first() =~= pv.skip(i + 1));
        }
        if str_eq(pairs[i].0.as_str(), "page_size") || str_eq(pairs[i].0.as_str(), "pageSize") {
            return Some(pairs[i].1.clone());
        }
        i = i + 1;
    }
    None
}

fn parse_or(v: &Option<String>, fallback: i64) -> (n: i64)
    ensures
        n == match v {
            Some(s) => match parse_i64_spec(s@) {
                Some(x) => x,
                None => fallback as int,
            },
            None => fallback as int,
        },
{
    match v {
        Some(s) => match parse_i64(&chars_of(s.as_str())) {
            Some(x) => x,
            None => fallback,
        },
        None => fallback,
    }
}

fn nonblank_opt(x: Option<String>) -> (r: Option<String>)
    ensures
        match r {
            Some(v) => crate::json::opt_string(x) == Some(v@) && nonblank_value(Some(v@)) == Some(v@),
            None => nonblank_value(crate::json::opt_string(x)) is None,
        },
{
    match x {
        Some(v) => {
            let t = trim_str(v.as_str());
            if t.as_str().unicode_len() > 0 {
                Some(v)
            } else {
                None
            }
        },
        None => None,
    }
}

pub open spec fn clauses_view(v: Seq<Vec<char>>) -> Seq<Seq<char>> {
    Seq::new(v.len(), |i: int| v[i]@)
}

fn push_clause(clauses: &mut Vec<Vec<char>>, binds: &mut Vec<SqlValue>, clause: &str, value: SqlValue)
    ensures
        clauses_view(final(clauses)@) == clauses_view(old(clauses)@).push(clause@),
        binds_view(final(binds)@) == binds_view(old(binds)@).push(sql_value_view(value)),
{
    let ghost vv = sql_value_view(value);
    clauses.push(chars_of(clause));
    binds.push(value);
    proof {
        assert(clauses_view(clauses@) =~= clauses_view(old(clauses)@).push(clause@));
        assert(binds_view(binds@) =~= binds_view(old(binds)@).push(vv));
    }
}

fn list_page(pairs: &Vec<(String, String)>) -> (r: (i64, i64))
    ensures
        r.0 == page_size(pairs_view(pairs@)),
        r.1 == page_offset(pairs_view(pairs@)),
{
    let size_raw = lookup_page_size(pairs);
    let size = parse_or(&size_raw, 20);
    let limit: i64 = if size < 1 {
        1
    } else if size > 200 {
        200
    } else {
        size
    };
    let token = match query_value(pairs, "page_token") {
        Some(v) => Some(v),
        None => query_value(pairs, "pageToken"),
    };
    let start = parse_or(&token, 0);
    let offset: i64 = if start < 0 {
        0
    } else {
        start
    };
    (limit, offset)
}

fn filter_field_exec(filter: &Option<String>, field: &str) -> (r: Option<String>)
    ensures
        match r {
            Some(v) => match *filter {
                Some(f) => filter_value(f@, field@) == Some(v@),
                None => false,
            },
            None => match *filter {
                Some(f) => filter_value(f@, field@) is None,
                None => true,
            },
        },
{
    match filter {
        Some(f) => extract_filter_value_from(f.as_str(), field),
        None => None,
    }
}

fn list_state_text(pairs: &Vec<(String, String)>, filter: &Option<String>) -> (r: String)
    requires
        crate::json::opt_string(*filter) == query_lookup(pairs_view(pairs@), "filter"@),
    ensures
        r@ == state_asked(pairs_view(pairs@)),
{
    match query_value(pairs, "state") {
        Some(s) => s,
        None => match filter_field_exec(filter, "rowStatus") {
            Some(s) => s,
            None => match filter_field_exec(filter, "row_status") {
                Some(s) => s,
                None => "NORMAL".to_owned(),
            },
        },
    }
}

fn search_text(pairs: &Vec<(String, String)>, filter: &Option<String>) -> (r: Option<String>)
    requires
        crate::json::opt_string(*filter) == query_lookup(pairs_view(pairs@), "filter"@),
    ensures
        crate::json::opt_string(r) == search_asked(pairs_view(pairs@)),
{
    let found = match filter {
        Some(f) => extract_content_contains_from(f.as_str()),
        None => None,
    };
    match nonblank_opt(found) {
        Some(s) => Some(s),
        None => None,
    }
}

fn like_pattern(s: &str) -> (r: String)
    ensures
        r@ == "%"@ + like_escaped(s@) + "%"@,
{
    let mut pattern: Vec<char> = Vec::new();
    push_str(&mut pattern, "%");
    let escaped = escape_like(s);
    push_str(&mut pattern, escaped.as_str());
    push_str(&mut pattern, "%");
    string_of(&pattern)
}

/// The statement, values and page of a memo listing, from the decoded query pairs
/// of the request and the viewer.
#[verifier::rlimit(40)]
pub fn memo_list_query(pairs: &Vec<(String, String)>, viewer: &Viewer) -> (r: Result<MemoListQuery, AppError>)
    ensures
        match r {
            Ok(q) => list_state_ok(pairs_view(pairs@)) && list_visibility_ok(pairs_view(pairs@))
                && q.sql@ == list_sql(pairs_view(pairs@), *viewer)
                && binds_view(q.binds@) == list_binds(pairs_view(pairs@), *viewer)
                && q.limit == page_size(pairs_view(pairs@))
                && q.offset == page_offset(pairs_view(pairs@)),
            Err(e) => if !list_state_ok(pairs_view(pairs@)) {
                is_error(e, 400, "Invalid row status"@)
            } else {
                !list_visibility_ok(pairs_view(pairs@)) && is_error(e, 400, "Invalid visibility"@)
            },
        },
{
    let ghost pv = pairs_view(pairs@);
    let (limit, offset) = list_page(pairs);
    let filter = query_value(pairs, "filter");
    let state_raw = list_state_text(pairs, &filter);
    let state = normalize_state(state_raw.as_str())?;
    let mut clauses: Vec<Vec<char>> = Vec::new();
    let mut binds: Vec<SqlValue> = Vec::new();
    proof {
        assert(clauses_view(clauses@) =~= Seq::<Seq<char>>::empty());
        assert(binds_view(binds@) =~= Seq::<SqlValueView>::empty());
    }
    push_clause(&mut clauses, &mut binds, "memo.row_status = ?", SqlValue::Text(state));
    if !str_eq(viewer.role.as_str(), "ADMIN") {
        push_clause(&mut clauses, &mut binds, "(memo.visibility != 'PRIVATE' OR memo.creator_id = ?)", SqlValue::Int(viewer.id));
    }
    match nonblank_opt(query_value(pairs, "visibility")) {
        Some(v) => {
            let normalized = normalize_visibility(v.as_str())?;
            push_clause(&mut clauses, &mut binds, "memo.visibility = ?", SqlValue::Text(normalized));
        },
        None => {},
    }
    match nonblank_opt(query_value(pairs, "tag")) {
        Some(t) => {
            push_clause(&mut clauses, &mut binds, "EXISTS (SELECT 1 FROM json_each(memo.payload, '$.tags') WHERE value = ?)", SqlValue::Text(t));
        },
        None => {},
    }
    match search_text(pairs, &filter) {
        Some(s) => {
            let pattern = like_pattern(s.as_str());
            push_clause(&mut clauses, &mut binds, "memo.content LIKE ? ESCAPE '\\'", SqlValue::Text(pattern));
        },
        None => {},
    }
    let ghost cv = clauses_view(clauses@);
    proof {
        assert(cv =~= list_clauses(pv, *viewer));
    }
    binds.push(SqlValue::Int(limit + 1));
    binds.push(SqlValue::Int(offset));
    let joined = join_chars(&clauses, &chars_of(" AND "));
    let mut sql: Vec<char> = Vec::new();
    push_str(&mut sql, "SELECT memo.*, \"user\".username AS creator_username, \"user\".nickname AS creator_nickname FROM memo JOIN \"user\" ON \"user\".id = memo.creator_id WHERE ");
    crate::text::push_all(&mut sql, &joined);
    push_str(&mut sql, " ORDER BY memo.pinned DESC, memo.created_ts DESC, memo.id DESC LIMIT ? OFFSET ?");
    proof {
        assert(Seq::new(clauses@.len(), |i: int| clauses@[i]@) =~= cv);
        assert(binds_view(binds@) =~= list_binds(pv, *viewer));
        assert(sql@ =~= list_sql(pv, *viewer));
    }
    Ok(MemoListQuery { sql: string_of(&sql), binds, limit, offset })
}

/// The token of the next page: the offset after this page when more memos
/// follow, else empty.
pub open spec fn next_token(offset: int, limit: int, has_more: bool) -> Seq<char> {
    if has_more {
        int_text(offset + limit)
    } else {
        Seq::empty()
    }
}

pub fn next_page_token(offset: i64, limit: i64, has_more: bool) -> (r: String)
    requires
        has_more ==> i64::MIN <= offset + limit <= i64::MAX,
    ensures
        r@ == next_token(offset as int, limit as int, has_more),
{
    if has_more {
        crate::text::int_to_string(offset + limit)
    } else {
        let e = String::new();
        proof {
            assert(e@ =~= Seq::<char>::empty());
        }
        e
    }
}

/// The values bound to `? , ?, ...` when the first placeholder takes `first` and the
/// rest take `ids` in order.
pub fn bind_with_first(first: i64, ids: &[i64]) -> (r: Vec<SqlValue>)
    ensures
        r@.len() == ids@.len() + 1,
        binds_view(r@)[0] == SqlValueView::Int(first as int),
        forall|i: int| 0 <= i < ids@.len() ==> binds_view(r@)[i + 1] == SqlValueView::Int(ids@[i] as int),
{
    let mut values: Vec<SqlValue> = Vec::new();
    values.push(SqlValue::Int(first));
    let mut i: usize = 0;
    while i < ids.len()
        invariant
            i <= ids@.len(),
            values@.len() == i + 1,
            sql_value_view(values@[0]) == SqlValueView::Int(first as int),
            forall|k: int| 0 <= k < i ==> sql_value_view(#[trigger] values@[k + 1]) == SqlValueView::Int(ids@[k] as int),
        decreases ids@.len() - i,
    {
        values.push(SqlValue::Int(ids[i]));
        i = i + 1;
    }
    values
}

/// The token a full page hands out, sent back as `pageToken`, makes the next list
/// start right after that page.
pub proof fn lemma_next_page_starts_after(pairs: Seq<(Seq<char>, Seq<char>)>, offset: int, limit: int)
    requires
        0 <= offset,
        1 <= limit,
        offset + limit <= i64::MAX,
        query_lookup(pairs, "page_token"@) is None,
        query_lookup(pairs, "pageToken"@) == Some(next_token(offset, limit, true)),
    ensures
        page_offset(pairs) == offset + limit,
{
    crate::text::lemma_parse_int_text(offset + limit);
}

/// One page of a listing read with `LIMIT limit + 1`: at most `limit` rows, in
/// order, and the token of the next page, which is given only when more rows were
/// read than the page holds.
pub fn listing_page<T>(rows: Vec<T>, offset: i64, limit: i64) -> (r: (Vec<T>, String))
    requires
        0 <= limit,
        rows@.len() > limit ==> offset + limit <= i64::MAX,
        rows@.len() > limit ==> offset + limit >= i64::MIN,
    ensures
        r.0@ == if rows@.len() > limit { rows@.take(limit as int) } else { rows@ },
        r.0@.len() <= limit,
        r.1@ == next_token(offset as int, limit as int, rows@.len() > limit),
{
    let has_more = rows.len() as u64 > limit as u64;
    let mut page = rows;
    if has_more {
        page.truncate(limit as usize);
    }
    let token = next_page_token(offset, limit, has_more);
    (page, token)
}

} // verus!
