use vstd::prelude::*;
use vstd::string::StringSliceAdditionalSpecFns;
use crate::text::{
    chars_of, string_of, push_str, trim, trim_str, trim_chars, has_prefix, starts_with, sub_chars, str_eq,
    take_chars, take_chars_exec, int_text, int_to_string, parse_i64, parse_i64_spec,
};
use crate::http::{pairs_view, query_lookup, query_value};
use crate::cookies::{cookie_entries, cookie_lookup, entries_view, parse_cookies, cookie_value};
use crate::crypto::{base64url, base64url_encoded, sha256_hex, sha256_digest, hex_text};
use crate::jwt::{Claims, sign_jwt, claims_text, signed_token};
use crate::json::{Json, JsonView, json_get, get_field, opt_i64};
use crate::imports::{as_i64, opt_json};
use crate::error::{AppError, is_error};
use crate::listing::{SqlValue, SqlValueView, Statement, binds_view};

verus! {

/// Seconds an access token lives.
pub const ACCESS_TTL: i64 = 900;

/// Seconds a refresh token (and its session) lives.
pub const REFRESH_TTL: i64 = 2592000;

/// The token a request carries: a `Bearer` authorization (trimmed), else the
/// `access_token` or `token` query value, else the access cookie.
pub open spec fn token_of(authorization: Option<Seq<char>>, pairs: Seq<(Seq<char>, Seq<char>)>, cookie_header: Seq<char>) -> Option<Seq<char>> {
    let bearer = match authorization {
        Some(a) => if has_prefix(a, "Bearer "@) {
            Some(trim(a.skip(7)))
        } else {
            None
        },
        None => None,
    };
    if bearer is Some {
        bearer
    } else {
        let from_query = match query_lookup(pairs, "access_token"@) {
            Some(t) => Some(t),
            None => query_lookup(pairs, "token"@),
        };
        if from_query is Some {
            from_query
        } else {
            cookie_lookup(cookie_entries(cookie_header), "memos_access"@)
        }
    }
}

pub fn request_token(authorization: Option<&str>, pairs: &Vec<(String, String)>, cookie_header: &str) -> (r: Option<String>)
    ensures
        crate::json::opt_string(r) == token_of(crate::sse::opt_str_seq(authorization), pairs_view(pairs@), cookie_header@),
{
    let bearer = match authorization {
        Some(a) => {
            let v = chars_of(a);
            let p = chars_of("Bearer ");
            proof {
                reveal_strlit("Bearer ");
            }
            if starts_with(&v, &p) {
                let rest = sub_chars(&v, 7, v.len());
                proof {
                    assert(rest@ =~= v@.skip(7));
                }
                let t = trim_chars(&rest);
                Some(string_of(&t))
            } else {
                None
            }
        },
        None => None,
    };
    if bearer.is_some() {
        return bearer;
    }
    let from_query = match query_value(pairs, "access_token") {
        Some(t) => Some(t),
        None => query_value(pairs, "token"),
    };
    if from_query.is_some() {
        return from_query;
    }
    let cookies = parse_cookies(cookie_header);
    proof {
        assert(entries_view(cookies@) =~= cookie_entries(cookie_header@));
    }
    cookie_value(&cookies, "memos_access")
}

/// Personal access tokens start with `memos_pat_`; other tokens are session tokens.
pub fn is_personal_access_token(token: &str) -> (b: bool)
    ensures
        b == has_prefix(token@, "memos_pat_"@),
{
    starts_with(&chars_of(token), &chars_of("memos_pat_"))
}

/// The user an access session token is for: its type must be `access` and its
/// subject a user id; otherwise 401.
pub fn access_claims_user(claims: &Claims) -> (r: Result<i64, AppError>)
    ensures
        match r {
            Ok(id) => claims.token_type@ == "access"@ && parse_i64_spec(claims.sub@) == Some(id as int),
            Err(e) => (claims.token_type@ != "access"@ || parse_i64_spec(claims.sub@) is None)
                && is_error(e, 401, "Unauthorized"@),
        },
{
    if !str_eq(claims.token_type.as_str(), "access") {
        return Err(AppError::new(401, "Unauthorized"));
    }
    match parse_i64(&chars_of(claims.sub.as_str())) {
        Some(id) => Ok(id),
        None => Err(AppError::new(401, "Unauthorized")),
    }
}

/// The claims of a session token for `user_id`, issued at `now`: refresh tokens
/// live thirty days, access tokens fifteen minutes.
pub open spec fn session_claims_ok(c: Claims, user_id: int, now: int, session_id: Seq<char>, refresh: bool) -> bool {
    &&& c.iss@ == "memos-worker"@
    &&& c.sub@ == int_text(user_id)
    &&& c.iat == now
    &&& c.exp == now + if refresh { REFRESH_TTL } else { ACCESS_TTL }
    &&& c.token_type@ == if refresh { "refresh"@ } else { "access"@ }
    &&& c.tid matches Some(t) && t@ == session_id
}

pub fn session_claims(user_id: i64, now: i64, session_id: &str, refresh: bool) -> (c: Claims)
    requires
        now + REFRESH_TTL <= i64::MAX,
    ensures
        session_claims_ok(c, user_id as int, now as int, session_id@, refresh),
{
    Claims {
        iss: "memos-worker".to_owned(),
        sub: int_to_string(user_id),
        exp: now + if refresh {
            REFRESH_TTL
        } else {
            ACCESS_TTL
        },
        iat: now,
        token_type: (if refresh {
            "refresh"
        } else {
            "access"
        }).to_owned(),
        tid: Some(session_id.to_owned()),
    }
}

/// A session's access token names its user, and its refresh token is never taken
/// for an access token.
pub proof fn lemma_session_tokens_name_their_user(c: Claims, user_id: i64, now: int, session_id: Seq<char>, refresh: bool)
    requires
        session_claims_ok(c, user_id as int, now, session_id, refresh),
    ensures
        parse_i64_spec(c.sub@) == Some(user_id as int),
        (c.token_type@ == "access"@) == !refresh,
{
    crate::text::lemma_parse_int_text(user_id as int);
    reveal_strlit("access");
    reveal_strlit("refresh");
    assert("access"@.len() != "refresh"@.len());
}

/// A new personal access token: `memos_pat_` and the random bytes in URL-safe
/// base64; stored by its first twenty characters and its SHA-256, under its name
/// (trimmed; `Unnamed Token` when blank or absent).
#[derive(Debug)]
pub struct NewAccessToken {
    pub token: String,
    pub prefix: String,
    pub hash: String,
    pub name: String,
}

pub open spec fn token_name(name: Option<Seq<char>>) -> Seq<char> {
    let t = trim(match name {
        Some(n) => n,
        None => "Unnamed Token"@,
    });
    if t.len() == 0 {
        "Unnamed Token"@
    } else {
        t
    }
}

pub fn new_access_token(name: Option<&str>, random: &[u8]) -> (r: NewAccessToken)
    requires
        random@.len() <= 0x3fff_ffff,
    ensures
        r.token@ == "memos_pat_"@ + base64url_encoded(random@),
        r.prefix@ == take_chars(r.token@, 20),
        r.hash@ == hex_text(sha256_digest(vstd::utf8::encode_utf8(r.token@))),
        r.name@ == token_name(crate::sse::opt_str_seq(name)),
{
    let encoded = base64url(random);
    let mut v: Vec<char> = Vec::new();
    push_str(&mut v, "memos_pat_");
    push_str(&mut v, encoded.as_str());
    let token = string_of(&v);
    let prefix = string_of(&take_chars_exec(&v, 20));
    let hash = sha256_hex(token.as_str());
    let given = match name {
        Some(n) => trim_str(n),
        None => trim_str("Unnamed Token"),
    };
    let name = if given.as_str().unicode_len() == 0 {
        "Unnamed Token".to_owned()
    } else {
        given
    };
    proof {
        assert(v@ =~= "memos_pat_"@ + base64url_encoded(random@));
    }
    NewAccessToken { token, prefix, hash, name }
}

/// How a personal access token is looked up: its first twenty characters.
pub fn access_token_prefix(token: &str) -> (r: String)
    ensures
        r@ == take_chars(token@, 20),
{
    string_of(&take_chars_exec(&chars_of(token), 20))
}

/// The user id of a token row: `user_id`, else `USER_ID`, as an integer.
pub open spec fn row_user_id(row: JsonView) -> Option<int> {
    match as_i64(json_get(row, "user_id"@)) {
        Some(id) => Some(id),
        None => as_i64(json_get(row, "USER_ID"@)),
    }
}

pub fn access_token_user_id(row: &Json) -> (r: Option<i64>)
    ensures
        opt_i64(r) == row_user_id(row@),
{
    let first = match get_field(row, "user_id") {
        Some(Json::Int(n)) => if i64::MIN as i128 <= *n && *n <= i64::MAX as i128 {
            Some(*n as i64)
        } else {
            None
        },
        _ => None,
    };
    match first {
        Some(id) => Some(id),
        None => match get_field(row, "USER_ID") {
            Some(Json::Int(n)) => if i64::MIN as i128 <= *n && *n <= i64::MAX as i128 {
                Some(*n as i64)
            } else {
                None
            },
            _ => None,
        },
    }
}

/// The refresh token a request carries in its `memos_refresh` cookie; 401 when
/// there is none.
pub fn refresh_cookie_token(cookie_header: &str) -> (r: Result<String, AppError>)
    ensures
        match r {
            Ok(t) => cookie_lookup(cookie_entries(cookie_header@), "memos_refresh"@) == Some(t@),
            Err(e) => cookie_lookup(cookie_entries(cookie_header@), "memos_refresh"@) is None
                && is_error(e, 401, "Missing refresh token"@),
        },
{
    let cookies = parse_cookies(cookie_header);
    proof {
        assert(entries_view(cookies@) =~= cookie_entries(cookie_header@));
    }
    match cookie_value(&cookies, "memos_refresh") {
        Some(t) => Ok(t),
        None => Err(AppError::new(401, "Missing refresh token")),
    }
}

/// The user a refresh token is for: its type must be `refresh` (else 401 "Invalid
/// refresh token") and its subject a user id (else 401 "Invalid token subject").
pub fn refresh_claims_user(claims: &Claims) -> (r: Result<i64, AppError>)
    ensures
        r is Ok <==> (claims.token_type@ == "refresh"@ && parse_i64_spec(claims.sub@) is Some),
        r matches Ok(id) ==> parse_i64_spec(claims.sub@) == Some(id as int),
        r matches Err(e) ==> if claims.token_type@ != "refresh"@ {
            is_error(e, 401, "Invalid refresh token"@)
        } else {
            is_error(e, 401, "Invalid token subject"@)
        },
{
    if !str_eq(claims.token_type.as_str(), "refresh") {
        return Err(AppError::new(401, "Invalid refresh token"));
    }
    match parse_i64(&chars_of(claims.sub.as_str())) {
        Some(id) => Ok(id),
        None => Err(AppError::new(401, "Invalid token subject")),
    }
}

/// The statement that looks up the live session a refresh token names: its id,
/// its user and the digest of the token, not yet expired at `now`.
pub open spec fn live_session_query(session_id: Seq<char>, user_id: int, token_hash: Seq<char>, now: int) -> (Seq<char>, Seq<SqlValueView>) {
    (
        "SELECT id FROM user_session WHERE id = ? AND user_id = ? AND refresh_token_hash = ? AND expires_ts > ?"@,
        seq![SqlValueView::Text(session_id), SqlValueView::Int(user_id), SqlValueView::Text(token_hash), SqlValueView::Int(now)],
    )
}

pub fn live_session_statement(session_id: &str, user_id: i64, token_hash: &str, now: i64) -> (r: Statement)
    ensures
        (r.sql@, binds_view(r.binds@)) == live_session_query(session_id@, user_id as int, token_hash@, now as int),
{
    let mut binds: Vec<SqlValue> = Vec::new();
    binds.push(SqlValue::Text(session_id.to_owned()));
    binds.push(SqlValue::Int(user_id));
    binds.push(SqlValue::Text(token_hash.to_owned()));
    binds.push(SqlValue::Int(now));
    let r = Statement {
        sql: "SELECT id FROM user_session WHERE id = ? AND user_id = ? AND refresh_token_hash = ? AND expires_ts > ?".to_owned(),
        binds,
    };
    proof {
        assert(binds_view(r.binds@) =~= live_session_query(session_id@, user_id as int, token_hash@, now as int).1);
    }
    r
}

/// The statement that revokes every session of a user.
pub open spec fn revoke_sessions_query(user_id: int) -> (Seq<char>, Seq<SqlValueView>) {
    ("DELETE FROM user_session WHERE user_id = ?"@, seq![SqlValueView::Int(user_id)])
}

pub fn revoke_sessions_statement(user_id: i64) -> (r: Statement)
    ensures
        (r.sql@, binds_view(r.binds@)) == revoke_sessions_query(user_id as int),
{
    let mut binds: Vec<SqlValue> = Vec::new();
    binds.push(SqlValue::Int(user_id));
    let r = Statement { sql: "DELETE FROM user_session WHERE user_id = ?".to_owned(), binds };
    proof {
        assert(binds_view(r.binds@) =~= revoke_sessions_query(user_id as int).1);
    }
    r
}

/// What a refresh request decides once its token's claims are read and the live
/// session it names has been looked up: the user to issue a new session for, or
/// 401. A token without a session id, or whose session is gone (revoked by a
/// password change, or expired), is refused as an invalid refresh token.
pub fn refresh_user(claims: &Claims, session_live: bool) -> (r: Result<i64, AppError>)
    ensures
        r is Ok <==> (claims.token_type@ == "refresh"@ && parse_i64_spec(claims.sub@) is Some
            && claims.tid is Some && session_live),
        r matches Ok(id) ==> parse_i64_spec(claims.sub@) == Some(id as int),
        r matches Err(e) ==> if claims.token_type@ == "refresh"@ && parse_i64_spec(claims.sub@) is None {
            is_error(e, 401, "Invalid token subject"@)
        } else {
            is_error(e, 401, "Invalid refresh token"@)
        },
{
    let id = match refresh_claims_user(claims) {
        Ok(id) => id,
        Err(e) => return Err(e),
    };
    if claims.tid.is_none() || !session_live {
        return Err(AppError::new(401, "Invalid refresh token"));
    }
    Ok(id)
}

/// The credential a request is authenticated by once no public route has taken
/// it: none for paths outside `/api/` and `/file/` (the static frontend); for
/// backend paths the token `token_of` finds, and 401 `Unauthorized` when the
/// request carries none.
pub fn backend_credential(path: &str, authorization: Option<&str>, pairs: &Vec<(String, String)>, cookie_header: &str) -> (r: Result<Option<String>, AppError>)
    ensures
        !crate::http::backend_path(path@) ==> r matches Ok(None),
        crate::http::backend_path(path@) ==> match token_of(crate::sse::opt_str_seq(authorization), pairs_view(pairs@), cookie_header@) {
            Some(t) => r matches Ok(Some(s)) && s@ == t,
            None => r matches Err(e) && is_error(e, 401, "Unauthorized"@),
        },
{
    if !crate::http::is_backend_request_path(path) {
        return Ok(None);
    }
    match request_token(authorization, pairs, cookie_header) {
        Some(t) => Ok(Some(t)),
        None => Err(AppError::new(401, "Unauthorized")),
    }
}

} // verus!
