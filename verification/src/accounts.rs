use vstd::prelude::*;
use vstd::string::StringSliceAdditionalSpecFns;
use crate::text::{chars_of, string_of, trim, trim_str, str_eq, parse_i64, parse_i64_spec};
use crate::json::{Json, JsonView, json_get, json_as_str, get_field, as_str};
use crate::access::{normalize_username, assert_password, valid_username, username_candidate, opt_str};
use crate::http::normalize_http_url;
use crate::models::{DbUser, DbWebhook, Viewer};
use crate::error::{AppError, is_error};
use crate::listing::{SqlValue, SqlValueView, Statement, binds_view};

verus! {

fn str_field<'a>(body: &'a Json, key: &str) -> (r: Option<&'a str>)
    ensures
        crate::sse::opt_str_seq(r) == json_as_str(json_get(body@, key@)),
{
    match as_str(get_field(body, key)) {
        Some(s) => Some(s.as_str()),
        None => None,
    }
}

fn str_field_or<'a>(body: &'a Json, key: &str, fallback: &'a str) -> (r: &'a str)
    ensures
        r@ == match json_as_str(json_get(body@, key@)) {
            Some(s) => s,
            None => fallback@,
        },
{
    match str_field(body, key) {
        Some(s) => s,
        None => fallback,
    }
}

/// A new account as a sign-up or first-run setup request gives it.
#[derive(Debug)]
pub struct NewAccount {
    pub username: String,
    pub password: String,
    pub email: String,
    pub nickname: String,
}

/// Reads a sign-up: the username (normalized and checked), a password of at least
/// eight bytes, the email (empty when none), and the nickname (the username when
/// none). Errors come in that order, each with 400.
pub fn account_form(body: &Json) -> (r: Result<NewAccount, AppError>)
    ensures
        match r {
            Ok(a) => {
                let password = json_as_str(json_get(body@, "password"@));
                &&& valid_username(username_candidate(json_as_str(json_get(body@, "username"@))))
                &&& a.username@ == username_candidate(json_as_str(json_get(body@, "username"@)))
                &&& password == Some(a.password@)
                &&& vstd::utf8::encode_utf8(a.password@).len() >= 8
                &&& a.email@ == match json_as_str(json_get(body@, "email"@)) {
                    Some(e) => e,
                    None => Seq::empty(),
                }
                &&& a.nickname@ == match json_as_str(json_get(body@, "nickname"@)) {
                    Some(n) => n,
                    None => a.username@,
                }
            },
            Err(e) => e.status == 400 && if !valid_username(username_candidate(json_as_str(json_get(body@, "username"@)))) {
                e.message@ == "Username must be 3-32 lowercase letters, numbers, _ or -"@
            } else if json_as_str(json_get(body@, "password"@)) is None {
                e.message@ == "Password is required"@
            } else {
                e.message@ == "Password must be at least 8 characters"@
            },
        },
{
    proof {
        reveal_strlit("");
    }
    let username = normalize_username(str_field(body, "username"))?;
    let password = match str_field(body, "password") {
        Some(p) => p,
        None => return Err(AppError::new(400, "Password is required")),
    };
    assert_password(password)?;
    let email = str_field_or(body, "email", "").to_owned();
    let nickname = str_field_or(body, "nickname", username.as_str()).to_owned();
    Ok(NewAccount { username, password: password.to_owned(), email, nickname })
}

/// The first account of an instance is its admin; later sign-ups are users.
pub fn signup_role(user_count: Option<i64>) -> (r: &'static str)
    ensures
        r@ == if (match user_count {
            Some(n) => n,
            None => 0,
        }) == 0 {
            "ADMIN"@
        } else {
            "USER"@
        },
{
    let n = match user_count {
        Some(n) => n,
        None => 0,
    };
    if n == 0 {
        "ADMIN"
    } else {
        "USER"
    }
}

/// First-run setup is open only while no account exists (409 afterwards).
pub fn setup_allowed(user_count: Option<i64>) -> (r: Result<(), AppError>)
    ensures
        r is Ok <==> (match user_count {
            Some(n) => n,
            None => 0,
        }) <= 0,
        r matches Err(e) ==> is_error(e, 409, "Instance already initialized"@),
{
    let n = match user_count {
        Some(n) => n,
        None => 0,
    };
    if n > 0 {
        return Err(AppError::new(409, "Instance already initialized"));
    }
    Ok(())
}

/// A password change: the current password and a new one of at least eight bytes.
pub fn password_change(body: &Json) -> (r: Result<(String, String), AppError>)
    ensures
        match r {
            Ok((current, new_password)) => json_as_str(json_get(body@, "currentPassword"@)) == Some(current@)
                && json_as_str(json_get(body@, "newPassword"@)) == Some(new_password@)
                && vstd::utf8::encode_utf8(new_password@).len() >= 8,
            Err(e) => e.status == 400 && if json_as_str(json_get(body@, "currentPassword"@)) is None {
                e.message@ == "Current password is required"@
            } else if json_as_str(json_get(body@, "newPassword"@)) is None {
                e.message@ == "Password is required"@
            } else {
                e.message@ == "Password must be at least 8 characters"@
            },
        },
{
    let current = match str_field(body, "currentPassword") {
        Some(c) => c,
        None => return Err(AppError::new(400, "Current password is required")),
    };
    let new_password = match str_field(body, "newPassword") {
        Some(p) => p,
        None => return Err(AppError::new(400, "Password is required")),
    };
    assert_password(new_password)?;
    Ok((current.to_owned(), new_password.to_owned()))
}

/// The statements that store a new password hash for `user_id` at `now` and
/// revoke every session the user had, so that no token issued before the change
/// can be refreshed.
pub open spec fn password_change_queries(user_id: int, password_hash: Seq<char>, now: int) -> Seq<(Seq<char>, Seq<SqlValueView>)> {
    seq![
        ("UPDATE \"user\" SET password_hash = ?, updated_ts = ? WHERE id = ?"@,
            seq![SqlValueView::Text(password_hash), SqlValueView::Int(now), SqlValueView::Int(user_id)]),
        crate::session::revoke_sessions_query(user_id),
    ]
}

pub fn password_change_statements(user_id: i64, password_hash: &str, now: i64) -> (r: Vec<Statement>)
    ensures
        r@.len() == 2,
        forall|i: int| 0 <= i < 2 ==> ((#[trigger] r@[i]).sql@, binds_view(r@[i].binds@)) == password_change_queries(user_id as int, password_hash@, now as int)[i],
{
    let mut binds: Vec<SqlValue> = Vec::new();
    binds.push(SqlValue::Text(password_hash.to_owned()));
    binds.push(SqlValue::Int(now));
    binds.push(SqlValue::Int(user_id));
    let update = Statement { sql: "UPDATE \"user\" SET password_hash = ?, updated_ts = ? WHERE id = ?".to_owned(), binds };
    proof {
        assert(binds_view(update.binds@) =~= password_change_queries(user_id as int, password_hash@, now as int)[0].1);
    }
    let revoke = crate::session::revoke_sessions_statement(user_id);
    let mut r: Vec<Statement> = Vec::new();
    r.push(update);
    r.push(revoke);
    r
}

/// Profile fields of a user edit.
#[derive(Debug)]
pub struct ProfileEdit {
    pub email: String,
    pub nickname: String,
    pub description: String,
    pub avatar_url: String,
    pub role: String,
    pub row_status: String,
}

pub open spec fn trimmed_or(body: JsonView, key: Seq<char>, fallback: Seq<char>) -> Seq<char> {
    trim(match json_as_str(json_get(body, key)) {
        Some(s) => s,
        None => fallback,
    })
}

/// What a user edits of their own profile: each field trimmed, empty when absent.
pub fn own_profile_edit(body: &Json) -> (r: (String, String, String, String))
    ensures
        r.0@ == trimmed_or(body@, "email"@, Seq::empty()),
        r.1@ == trimmed_or(body@, "nickname"@, Seq::empty()),
        r.2@ == trimmed_or(body@, "description"@, Seq::empty()),
        r.3@ == trimmed_or(body@, "avatarUrl"@, Seq::empty()),
{
    proof {
        reveal_strlit("");
    }
    (
        trim_str(str_field_or(body, "email", "")),
        trim_str(str_field_or(body, "nickname", "")),
        trim_str(str_field_or(body, "description", "")),
        trim_str(str_field_or(body, "avatarUrl", "")),
    )
}

/// The role a user edit gives: only an admin changes roles, and only to `ADMIN`
/// or `USER`.
pub open spec fn edited_role(body: JsonView, viewer_admin: bool, current: Seq<char>) -> Seq<char> {
    if viewer_admin {
        match json_as_str(json_get(body, "role"@)) {
            Some(r) => if r == "ADMIN"@ || r == "USER"@ {
                r
            } else {
                current
            },
            None => current,
        }
    } else {
        current
    }
}

/// The row state a user edit gives: `NORMAL` or `ARCHIVED` when asked, else the
/// current one.
pub open spec fn edited_row_status(body: JsonView, current: Seq<char>) -> Seq<char> {
    match json_as_str(json_get(body, "rowStatus"@)) {
        Some(s) => if s == "NORMAL"@ || s == "ARCHIVED"@ {
            s
        } else {
            current
        },
        None => current,
    }
}

/// An edit of a user by an admin or by the user: the profile fields given
/// (trimmed) or kept, the role (admins only) and the row state.
pub fn user_edit(body: &Json, viewer: &Viewer, user: &DbUser) -> (r: ProfileEdit)
    ensures
        r.email@ == trimmed_or(body@, "email"@, user.email@),
        r.nickname@ == trimmed_or(body@, "nickname"@, user.nickname@),
        r.description@ == trimmed_or(body@, "description"@, user.description@),
        r.avatar_url@ == trimmed_or(body@, "avatarUrl"@, user.avatar_url@),
        r.role@ == edited_role(body@, viewer.role@ == "ADMIN"@, user.role@),
        r.row_status@ == edited_row_status(body@, user.row_status@),
{
    let admin = str_eq(viewer.role.as_str(), "ADMIN");
    let role = if admin {
        match str_field(body, "role") {
            Some(r) => if str_eq(r, "ADMIN") || str_eq(r, "USER") {
                r.to_owned()
            } else {
                user.role.clone()
            },
            None => user.role.clone(),
        }
    } else {
        user.role.clone()
    };
    let row_status = match str_field(body, "rowStatus") {
        Some(s) => if str_eq(s, "NORMAL") || str_eq(s, "ARCHIVED") {
            s.to_owned()
        } else {
            user.row_status.clone()
        },
        None => user.row_status.clone(),
    };
    ProfileEdit {
        email: trim_str(str_field_or(body, "email", user.email.as_str())),
        nickname: trim_str(str_field_or(body, "nickname", user.nickname.as_str())),
        description: trim_str(str_field_or(body, "description", user.description.as_str())),
        avatar_url: trim_str(str_field_or(body, "avatarUrl", user.avatar_url.as_str())),
        role,
        row_status,
    }
}

/// Only admins and the user themself may manage a user (403 otherwise).
pub fn require_self_or_admin(viewer: &Viewer, user_id: i64) -> (r: Result<(), AppError>)
    ensures
        r is Ok <==> (viewer.role@ == "ADMIN"@ || viewer.id == user_id),
        r matches Err(e) ==> is_error(e, 403, "Forbidden"@),
{
    if !str_eq(viewer.role.as_str(), "ADMIN") && viewer.id != user_id {
        return Err(AppError::new(403, "Forbidden"));
    }
    Ok(())
}

/// A numeric id from a path, refused with 400 and `message` when it is not one.
pub fn parse_id(text: &str, message: &str) -> (r: Result<i64, AppError>)
    ensures
        match r {
            Ok(id) => parse_i64_spec(text@) == Some(id as int),
            Err(e) => parse_i64_spec(text@) is None && is_error(e, 400, message@),
        },
{
    match parse_i64(&chars_of(text)) {
        Some(id) => Ok(id),
        None => Err(AppError::new(400, message)),
    }
}

/// A new webhook: its name (trimmed) and URL (checked, without trailing `/`). A
/// bad URL is reported before a blank name.
pub fn webhook_form(body: &Json) -> (r: Result<(String, String), AppError>)
    ensures
        match crate::http::http_base_url(crate::ai::str_or(json_as_str(json_get(body@, "url"@)), Seq::empty())) {
            None => r matches Err(e) && is_error(e, 400, "Invalid webhook URL"@),
            Some(b) => if trimmed_or(body@, "name"@, Seq::empty()).len() == 0 {
                r matches Err(e) && is_error(e, 400, "Name is required"@)
            } else {
                r matches Ok((name, url)) && name@ == trimmed_or(body@, "name"@, Seq::empty()) && url@ == b
            },
        },
{
    proof {
        reveal_strlit("");
    }
    let name = trim_str(str_field_or(body, "name", ""));
    let url = normalize_http_url(str_field_or(body, "url", ""), "Invalid webhook URL")?;
    if name.as_str().unicode_len() == 0 {
        return Err(AppError::new(400, "Name is required"));
    }
    Ok((name, url))
}

/// An edit of a webhook: a new name when given and not blank, a new URL when given
/// (checked), a new state when `NORMAL` or `ARCHIVED`; the current values otherwise.
pub fn webhook_edit(body: &Json, existing: &DbWebhook) -> (r: Result<(String, String, String), AppError>)
    ensures
        match r {
            Ok((name, url, status)) => {
                &&& name@ == match json_as_str(json_get(body@, "name"@)) {
                    Some(n) => if trim(n).len() > 0 {
                        trim(n)
                    } else {
                        existing.name@
                    },
                    None => existing.name@,
                }
                &&& url@ == match json_as_str(json_get(body@, "url"@)) {
                    Some(u) => crate::http::http_base_url(u).unwrap(),
                    None => existing.url@,
                }
                &&& status@ == edited_row_status(body@, existing.row_status@)
            },
            Err(e) => is_error(e, 400, "Invalid webhook URL"@),
        },
        r is Err <==> (json_as_str(json_get(body@, "url"@)) matches Some(u) && crate::http::http_base_url(u) is None),
{
    let name = match str_field(body, "name") {
        Some(n) => {
            let t = trim_str(n);
            if t.as_str().unicode_len() > 0 {
                t
            } else {
                existing.name.clone()
            }
        },
        None => existing.name.clone(),
    };
    let url = match str_field(body, "url") {
        Some(u) => normalize_http_url(u, "Invalid webhook URL")?,
        None => existing.url.clone(),
    };
    let status = match str_field(body, "rowStatus") {
        Some(s) => if str_eq(s, "NORMAL") || str_eq(s, "ARCHIVED") {
            s.to_owned()
        } else {
            existing.row_status.clone()
        },
        None => existing.row_status.clone(),
    };
    Ok((name, url, status))
}

/// Reads a sign-in: the username (normalized and checked, 400 otherwise) and the
/// password, which must be given as a string (400 otherwise).
pub fn sign_in_request(body: &Json) -> (r: Result<(String, String), AppError>)
    ensures
        match r {
            Ok((u, p)) => {
                &&& valid_username(username_candidate(json_as_str(json_get(body@, "username"@))))
                &&& u@ == username_candidate(json_as_str(json_get(body@, "username"@)))
                &&& json_as_str(json_get(body@, "password"@)) == Some(p@)
            },
            Err(e) => e.status == 400 && (!valid_username(username_candidate(json_as_str(json_get(body@, "username"@))))
                || (json_as_str(json_get(body@, "password"@)) is None && is_error(e, 400, "Password is required"@))),
        },
{
    let username = match normalize_username(str_field(body, "username")) {
        Ok(u) => u,
        Err(e) => return Err(e),
    };
    let password = match str_field(body, "password") {
        Some(p) => p.to_string(),
        None => return Err(AppError::new(400, "Password is required")),
    };
    Ok((username, password))
}

/// Signs a user in: an unknown user, a user that is not active, or a wrong
/// password all answer 401 with the same message.
pub fn sign_in(user: Option<&DbUser>, password: &str) -> (r: Result<(), AppError>)
    requires
        user matches Some(u) ==> u.password_hash@.len() <= 0xffff_ffff,
    ensures
        r is Ok <==> (user matches Some(u) && u.row_status@ == "NORMAL"@
            && crate::crypto::password_matches(password.spec_bytes(), u.password_hash@)),
        r matches Err(e) ==> is_error(e, 401, "Invalid username or password"@),
{
    match user {
        None => Err(AppError::new(401, "Invalid username or password")),
        Some(u) => {
            if !str_eq(u.row_status.as_str(), "NORMAL") || !crate::crypto::verify_password(password, u.password_hash.as_str()) {
                return Err(AppError::new(401, "Invalid username or password"));
            }
            Ok(())
        },
    }
}

/// Reads a reaction: its `reactionType`, trimmed, must not be empty (400).
pub fn reaction_request(body: &Json) -> (r: Result<String, AppError>)
    ensures
        match r {
            Ok(t) => t@ == trim(match json_as_str(json_get(body@, "reactionType"@)) {
                Some(s) => s,
                None => Seq::empty(),
            }) && t@.len() > 0,
            Err(e) => trim(match json_as_str(json_get(body@, "reactionType"@)) {
                Some(s) => s,
                None => Seq::empty(),
            }).len() == 0 && is_error(e, 400, "reactionType is required"@),
        },
{
    proof {
        reveal_strlit("");
    }
    let t = trim_str(str_field_or(body, "reactionType", ""));
    if t.as_str().unicode_len() == 0 {
        return Err(AppError::new(400, "reactionType is required"));
    }
    Ok(t)
}

} // verus!
