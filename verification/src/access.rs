use vstd::prelude::*;
use crate::text::{chars_of, string_of, str_eq, trim, trim_str, is_ascii_lower, is_ascii_digit};
use crate::models::{DbMemo, DbUser, PublicUser, Viewer};
use crate::error::{AppError, is_error};
use crate::unicode::{unicode_lowercase, unicode_uppercase, to_lowercase, to_uppercase};

verus! {

pub open spec fn is_admin(viewer: Viewer) -> bool {
    viewer.role@ == "ADMIN"@
}

/// Whether `viewer` may read `memo`: admins read all, everyone reads memos that are
/// not private, authors read their own.
pub open spec fn may_read(memo: DbMemo, viewer: Viewer) -> bool {
    is_admin(viewer) || memo.visibility@ != "PRIVATE"@ || memo.creator_id == viewer.id
}

/// Whether `viewer` may change `memo`: admins and the author.
pub open spec fn may_write(memo: DbMemo, viewer: Viewer) -> bool {
    is_admin(viewer) || memo.creator_id == viewer.id
}

/// Whoever may change a memo may also read it.
pub proof fn lemma_writers_can_read(memo: DbMemo, viewer: Viewer)
    requires
        may_write(memo, viewer),
    ensures
        may_read(memo, viewer),
{
}

pub fn can_read(memo: &DbMemo, viewer: &Viewer) -> (b: bool)
    ensures
        b == may_read(*memo, *viewer),
{
    str_eq(viewer.role.as_str(), "ADMIN") || !str_eq(memo.visibility.as_str(), "PRIVATE")
        || memo.creator_id == viewer.id
}

pub fn can_write(memo: &DbMemo, viewer: &Viewer) -> (b: bool)
    ensures
        b == may_write(*memo, *viewer),
{
    str_eq(viewer.role.as_str(), "ADMIN") || memo.creator_id == viewer.id
}

/// Only admins pass; everyone else gets 403.
pub fn require_admin(viewer: &Viewer) -> (r: Result<(), AppError>)
    ensures
        r is Ok <==> is_admin(*viewer),
        r matches Err(e) ==> is_error(e, 403, "Forbidden"@),
{
    if str_eq(viewer.role.as_str(), "ADMIN") {
        Ok(())
    } else {
        Err(AppError::new(403, "Forbidden"))
    }
}

/// What the API shows of a user: everything but the password hash and row status.
pub fn public_user(user: DbUser) -> (p: PublicUser)
    ensures
        p.id == user.id,
        p.username == user.username,
        p.role == user.role,
        p.nickname == user.nickname,
        p.email == user.email,
        p.avatar_url == user.avatar_url,
        p.description == user.description,
{
    PublicUser {
        id: user.id,
        username: user.username,
        role: user.role,
        nickname: user.nickname,
        email: user.email,
        avatar_url: user.avatar_url,
        description: user.description,
    }
}

/// The first `max_chars` characters, with `...` added when text was cut.
pub open spec fn truncated(s: Seq<char>, max_chars: int) -> Seq<char> {
    if s.len() > max_chars {
        s.take(max_chars) + "..."@
    } else {
        s
    }
}

/// Cuts `value` to `max_chars` characters, marking the cut with `...`.
pub fn truncate(value: &str, max_chars: usize) -> (r: String)
    ensures
        r@ == truncated(value@, max_chars as int),
{
    let v = chars_of(value);
    if v.len() > max_chars {
        let mut head = crate::text::sub_chars(&v, 0, max_chars);
        crate::text::push_str(&mut head, "...");
        proof {
            assert(v@.subrange(0, max_chars as int) =~= v@.take(max_chars as int));
        }
        string_of(&head)
    } else {
        string_of(&v)
    }
}

/// The characters a username may hold.
pub open spec fn username_char(c: char) -> bool {
    is_ascii_lower(c) || is_ascii_digit(c) || c == '_' || c == '-'
}

/// Whether a (lowercased) username is acceptable: 3 to 32 bytes of lowercase ASCII
/// letters, digits, `_` and `-`, not starting with `-`.
pub open spec fn valid_username(u: Seq<char>) -> bool {
    let n = vstd::utf8::encode_utf8(u).len();
    &&& 3 <= n <= 32
    &&& forall|i: int| 0 <= i < u.len() ==> username_char(#[trigger] u[i])
    &&& u.len() > 0 && (is_ascii_lower(u[0]) || is_ascii_digit(u[0]) || u[0] == '_')
}

pub open spec fn username_candidate(value: Option<Seq<char>>) -> Seq<char> {
    unicode_lowercase(trim(
        match value {
            Some(v) => v,
            None => Seq::empty(),
        },
    ))
}

pub open spec fn opt_str(value: Option<&str>) -> Option<Seq<char>> {
    match value {
        Some(v) => Some(v@),
        None => None,
    }
}

/// Trims and lowercases a username, then checks it.
pub fn normalize_username(value: Option<&str>) -> (r: Result<String, AppError>)
    ensures
        r is Ok <==> valid_username(username_candidate(opt_str(value))),
        r matches Ok(u) ==> u@ == username_candidate(opt_str(value)),
        r matches Err(e) ==> is_error(e, 400, "Username must be 3-32 lowercase letters, numbers, _ or -"@),
{
    proof {
        reveal_strlit("");
    }
    let raw = match value {
        Some(v) => v,
        None => "",
    };
    proof {
        assert(raw@ =~= match opt_str(value) {
            Some(v) => v,
            None => Seq::<char>::empty(),
        });
    }
    let trimmed = trim_str(raw);
    let username = to_lowercase(trimmed.as_str());
    let v = chars_of(username.as_str());
    let n = v.len();
    let mut ok = 3 <= n && n <= 32;
    if ok {
        let c = v[0];
        ok = ('a' <= c && c <= 'z') || ('0' <= c && c <= '9') || c == '_';
    }
    let mut all = true;
    let mut i: usize = 0;
    while i < v.len()
        invariant
            i <= v@.len(),
            all == forall|k: int| 0 <= k < i ==> username_char(#[trigger] v@[k]),
        decreases v.len() - i,
    {
        let c = v[i];
        if !(('a' <= c && c <= 'z') || ('0' <= c && c <= '9') || c == '_' || c == '-') {
            all = false;
        }
        i = i + 1;
    }
    proof {
        let u = v@;
        if all {
            assert(vstd::utf8::is_ascii_chars(u));
            vstd::utf8::is_ascii_chars_encode_utf8(u);
        }
    }
    if ok && all {
        Ok(username)
    } else {
        Err(AppError::new(400, "Username must be 3-32 lowercase letters, numbers, _ or -"))
    }
}

/// Passwords need at least 8 bytes.
pub fn assert_password(value: &str) -> (r: Result<(), AppError>)
    ensures
        r is Ok <==> value.len() >= 8,
        r matches Err(e) ==> is_error(e, 400, "Password must be at least 8 characters"@),
{
    if value.len() >= 8 {
        Ok(())
    } else {
        Err(AppError::new(400, "Password must be at least 8 characters"))
    }
}

/// The memo visibilities.
pub open spec fn is_visibility(s: Seq<char>) -> bool {
    s == "PUBLIC"@ || s == "PROTECTED"@ || s == "PRIVATE"@
}

/// Uppercases a visibility and checks it.
pub fn normalize_visibility(value: &str) -> (r: Result<String, AppError>)
    ensures
        r is Ok <==> is_visibility(unicode_uppercase(value@)),
        r matches Ok(v) ==> v@ == unicode_uppercase(value@),
        r matches Err(e) ==> is_error(e, 400, "Invalid visibility"@),
{
    let visibility = to_uppercase(value);
    if str_eq(visibility.as_str(), "PUBLIC") || str_eq(visibility.as_str(), "PROTECTED") || str_eq(
        visibility.as_str(),
        "PRIVATE",
    ) {
        Ok(visibility)
    } else {
        Err(AppError::new(400, "Invalid visibility"))
    }
}

/// The memo row states.
pub open spec fn is_row_state(s: Seq<char>) -> bool {
    s == "NORMAL"@ || s == "ARCHIVED"@
}

/// Uppercases a row status and checks it.
pub fn normalize_state(value: &str) -> (r: Result<String, AppError>)
    ensures
        r is Ok <==> is_row_state(unicode_uppercase(value@)),
        r matches Ok(v) ==> v@ == unicode_uppercase(value@),
        r matches Err(e) ==> is_error(e, 400, "Invalid row status"@),
{
    let state = to_uppercase(value);
    if str_eq(state.as_str(), "NORMAL") || str_eq(state.as_str(), "ARCHIVED") {
        Ok(state)
    } else {
        Err(AppError::new(400, "Invalid row status"))
    }
}

} // verus!
