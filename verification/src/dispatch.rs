use vstd::prelude::*;
use crate::text::{
    chars_of, string_of, sub_chars, chars_eq_str, starts_with, ends_with, find_chars, has_prefix,
    has_suffix, contains_seq, first_occurrence, occurs_at, strip_prefixes, strip_suffixes,
    strip_prefixes_exec, strip_suffixes_exec, strip_trailing, strip_trailing_char,
};
use crate::cookies::{split_char, split_chars, lemma_split_char_nonempty};
use crate::routes::Method;

verus! {

/// The handlers an authenticated request can reach.
#[derive(Debug, Clone, Copy, PartialEq, Eq, Structural)]
pub enum AuthedTarget {
    AuthUser,
    UpdateMe,
    ChangePassword,
    ListSessions,
    RevokeSession,
    ListUsers,
    ListMemos,
    CreateMemo,
    BulkMemos,
    ExportData,
    ImportData,
    MigrationPreview,
    MigrationImport,
    MigrationImportStream,
    BackupToOriginal,
    ListTags,
    RenameTag,
    Timeline,
    CalendarCountries,
    CalendarHolidays,
    ListAttachments,
    UploadAttachment,
    BatchDeleteAttachments,
    DeleteAttachment,
    DownloadAttachment,
    ListBackups,
    CreateBackup,
    DownloadBackup,
    PreviewBackup,
    RestoreBackup,
    SystemHealth,
    RebuildMemoIndex,
    RebuildRelations,
    GetAiSettings,
    UpdateAiSettings,
    TestAiSettings,
    ListAuditLogs,
    UserStats,
    ListAccessTokens,
    CreateAccessToken,
    DeleteAccessToken,
    Sse,
    MemoSubroute,
    UserSubroute,
    NotFound,
}

/// A routed request: its target and the path parameters it carries.
#[derive(Debug)]
pub struct AuthedRoute {
    pub target: AuthedTarget,
    pub first: String,
    pub second: String,
}

fn routed(target: AuthedTarget, first: String, second: String) -> (r: AuthedRoute)
    ensures
        r.target == target,
        r.first == first,
        r.second == second,
{
    AuthedRoute { target, first, second }
}

/// The user identifier of `/api/v1/users/{identifier}{suffix}`: the prefix and the
/// suffix removed (each as often as it repeats), then trailing `/`.
pub open spec fn user_part(p: Seq<char>, suffix: Seq<char>) -> Seq<char> {
    strip_trailing(strip_suffixes(strip_prefixes(p, "/api/v1/users/"@), suffix), '/')
}

fn user_part_exec(v: &[char], suffix: &str) -> (r: String)
    ensures
        r@ == user_part(v@, suffix@),
{
    let a = strip_prefixes_exec(v, &chars_of("/api/v1/users/"));
    let b = strip_suffixes_exec(&a, &chars_of(suffix));
    let c = strip_trailing_char(&b, '/');
    string_of(&c)
}

/// Where an authenticated request goes, from its path and method: the target and
/// up to two path parameters (empty where the target takes none). Checks run in
/// order; the first that matches decides.
pub open spec fn authed_target(p: Seq<char>, m: Method) -> (AuthedTarget, Seq<char>, Seq<char>) {
    let e = Seq::<char>::empty();
    if p == "/api/v1/auth/user"@ && m == Method::Get {
        (AuthedTarget::AuthUser, e, e)
    } else if p == "/api/v1/users/me"@ && m == Method::Patch {
        (AuthedTarget::UpdateMe, e, e)
    } else if p == "/api/v1/auth/change-password"@ && m == Method::Post {
        (AuthedTarget::ChangePassword, e, e)
    } else if p == "/api/v1/auth/sessions"@ && m == Method::Get {
        (AuthedTarget::ListSessions, e, e)
    } else if has_prefix(p, "/api/v1/auth/sessions/"@) && m == Method::Delete {
        (AuthedTarget::RevokeSession, strip_prefixes(p, "/api/v1/auth/sessions/"@), e)
    } else if p == "/api/v1/users"@ && m == Method::Get {
        (AuthedTarget::ListUsers, e, e)
    } else if p == "/api/v1/memos"@ && m == Method::Get {
        (AuthedTarget::ListMemos, e, e)
    } else if p == "/api/v1/memos"@ && m == Method::Post {
        (AuthedTarget::CreateMemo, e, e)
    } else if p == "/api/v1/memos/batch"@ && m == Method::Post {
        (AuthedTarget::BulkMemos, e, e)
    } else if p == "/api/v1/export/memos"@ && m == Method::Get {
        (AuthedTarget::ExportData, e, e)
    } else if p == "/api/v1/import/memos"@ && m == Method::Post {
        (AuthedTarget::ImportData, e, e)
    } else if p == "/api/v1/migration/memos/preview"@ && m == Method::Post {
        (AuthedTarget::MigrationPreview, e, e)
    } else if p == "/api/v1/migration/memos/import"@ && m == Method::Post {
        (AuthedTarget::MigrationImport, e, e)
    } else if p == "/api/v1/migration/memos/import-stream"@ && m == Method::Post {
        (AuthedTarget::MigrationImportStream, e, e)
    } else if p == "/api/v1/migration/memos/backup-to-original"@ && m == Method::Post {
        (AuthedTarget::BackupToOriginal, e, e)
    } else if p == "/api/v1/tags"@ && m == Method::Get {
        (AuthedTarget::ListTags, e, e)
    } else if p == "/api/v1/tags/rename"@ && m == Method::Post {
        (AuthedTarget::RenameTag, e, e)
    } else if p == "/api/v1/timeline"@ && m == Method::Get {
        (AuthedTarget::Timeline, e, e)
    } else if p == "/api/v1/calendar/countries"@ && m == Method::Get {
        (AuthedTarget::CalendarCountries, e, e)
    } else if p == "/api/v1/calendar/holidays"@ && m == Method::Get {
        (AuthedTarget::CalendarHolidays, e, e)
    } else if p == "/api/v1/attachments"@ && m == Method::Get {
        (AuthedTarget::ListAttachments, e, e)
    } else if p == "/api/v1/attachments"@ && m == Method::Post {
        (AuthedTarget::UploadAttachment, e, e)
    } else if p == "/api/v1/attachments/batch-delete"@ && m == Method::Post {
        (AuthedTarget::BatchDeleteAttachments, e, e)
    } else if has_prefix(p, "/api/v1/attachments/"@) && m == Method::Delete {
        (AuthedTarget::DeleteAttachment, strip_prefixes(p, "/api/v1/attachments/"@), e)
    } else if has_prefix(p, "/file/attachments/"@) && m == Method::Get {
        (AuthedTarget::DownloadAttachment, split_char(strip_prefixes(p, "/file/attachments/"@), '/')[0], e)
    } else if p == "/api/v1/backups"@ && m == Method::Get {
        (AuthedTarget::ListBackups, e, e)
    } else if p == "/api/v1/backups"@ && m == Method::Post {
        (AuthedTarget::CreateBackup, e, e)
    } else if p == "/api/v1/backups/download"@ && m == Method::Get {
        (AuthedTarget::DownloadBackup, e, e)
    } else if p == "/api/v1/backups/preview"@ && m == Method::Post {
        (AuthedTarget::PreviewBackup, e, e)
    } else if p == "/api/v1/backups/restore"@ && m == Method::Post {
        (AuthedTarget::RestoreBackup, e, e)
    } else if p == "/api/v1/system/health"@ && m == Method::Get {
        (AuthedTarget::SystemHealth, e, e)
    } else if p == "/api/v1/memo-index/rebuild"@ && m == Method::Post {
        (AuthedTarget::RebuildMemoIndex, e, e)
    } else if p == "/api/v1/relations/rebuild"@ && m == Method::Post {
        (AuthedTarget::RebuildRelations, e, e)
    } else if p == "/api/v1/ai/settings"@ && m == Method::Get {
        (AuthedTarget::GetAiSettings, e, e)
    } else if p == "/api/v1/ai/settings"@ && m == Method::Patch {
        (AuthedTarget::UpdateAiSettings, e, e)
    } else if p == "/api/v1/ai/settings/test"@ && m == Method::Post {
        (AuthedTarget::TestAiSettings, e, e)
    } else if p == "/api/v1/audit-logs"@ && m == Method::Get {
        (AuthedTarget::ListAuditLogs, e, e)
    } else if has_prefix(p, "/api/v1/users/"@) && has_suffix(p, "/stats"@) && m == Method::Get {
        (AuthedTarget::UserStats, user_part(p, "/stats"@), e)
    } else if has_prefix(p, "/api/v1/users/"@) && has_suffix(p, "/access-tokens"@) && m == Method::Get {
        (AuthedTarget::ListAccessTokens, user_part(p, "/access-tokens"@), e)
    } else if has_prefix(p, "/api/v1/users/"@) && has_suffix(p, "/access-tokens"@) && m == Method::Post {
        (AuthedTarget::CreateAccessToken, user_part(p, "/access-tokens"@), e)
    } else if has_prefix(p, "/api/v1/users/"@) && contains_seq(p, "/access-tokens/"@) && m == Method::Delete
        && first_occurrence(strip_prefixes(p, "/api/v1/users/"@), "/access-tokens/"@) is Some {
        let rest = strip_prefixes(p, "/api/v1/users/"@);
        let i = first_occurrence(rest, "/access-tokens/"@)->0;
        (AuthedTarget::DeleteAccessToken, rest.take(i), rest.skip(i + 15))
    } else if p == "/api/v1/sse"@ && m == Method::Get {
        (AuthedTarget::Sse, e, e)
    } else if has_prefix(p, "/api/v1/memos/"@) {
        (AuthedTarget::MemoSubroute, p.skip(14), e)
    } else if has_prefix(p, "/api/v1/users/"@) {
        (AuthedTarget::UserSubroute, p.skip(14), e)
    } else {
        (AuthedTarget::NotFound, e, e)
    }
}

/// Routes an authenticated request by path and method.
pub fn authed_route_target(path: &str, method: Method) -> (r: AuthedRoute)
    ensures
        (r.target, r.first@, r.second@) == authed_target(path@, method),
{
    let v = chars_of(path);
    proof {
        reveal_strlit("");
    }
    if chars_eq_str(&v, "/api/v1/auth/user") && method == Method::Get {
        return routed(AuthedTarget::AuthUser, String::new(), String::new());
    }
    if chars_eq_str(&v, "/api/v1/users/me") && method == Method::Patch {
        return routed(AuthedTarget::UpdateMe, String::new(), String::new());
    }
    if chars_eq_str(&v, "/api/v1/auth/change-password") && method == Method::Post {
        return routed(AuthedTarget::ChangePassword, String::new(), String::new());
    }
    if chars_eq_str(&v, "/api/v1/auth/sessions") && method == Method::Get {
        return routed(AuthedTarget::ListSessions, String::new(), String::new());
    }
    if starts_with(&v, &chars_of("/api/v1/auth/sessions/")) && method == Method::Delete {
        let id = strip_prefixes_exec(&v, &chars_of("/api/v1/auth/sessions/"));
        return routed(AuthedTarget::RevokeSession, string_of(&id), String::new());
    }
    if chars_eq_str(&v, "/api/v1/users") && method == Method::Get {
        return routed(AuthedTarget::ListUsers, String::new(), String::new());
    }
    if chars_eq_str(&v, "/api/v1/memos") && method == Method::Get {
        return routed(AuthedTarget::ListMemos, String::new(), String::new());
    }
    if chars_eq_str(&v, "/api/v1/memos") && method == Method::Post {
        return routed(AuthedTarget::CreateMemo, String::new(), String::new());
    }
    if chars_eq_str(&v, "/api/v1/memos/batch") && method == Method::Post {
        return routed(AuthedTarget::BulkMemos, String::new(), String::new());
    }
    if chars_eq_str(&v, "/api/v1/export/memos") && method == Method::Get {
        return routed(AuthedTarget::ExportData, String::new(), String::new());
    }
    if chars_eq_str(&v, "/api/v1/import/memos") && method == Method::Post {
        return routed(AuthedTarget::ImportData, String::new(), String::new());
    }
    if chars_eq_str(&v, "/api/v1/migration/memos/preview") && method == Method::Post {
        return routed(AuthedTarget::MigrationPreview, String::new(), String::new());
    }
    if chars_eq_str(&v, "/api/v1/migration/memos/import") && method == Method::Post {
        return routed(AuthedTarget::MigrationImport, String::new(), String::new());
    }
    if chars_eq_str(&v, "/api/v1/migration/memos/import-stream") && method == Method::Post {
        return routed(AuthedTarget::MigrationImportStream, String::new(), String::new());
    }
    if chars_eq_str(&v, "/api/v1/migration/memos/backup-to-original") && method == Method::Post {
        return routed(AuthedTarget::BackupToOriginal, String::new(), String::new());
    }
    if chars_eq_str(&v, "/api/v1/tags") && method == Method::Get {
        return routed(AuthedTarget::ListTags, String::new(), String::new());
    }
    if chars_eq_str(&v, "/api/v1/tags/rename") && method == Method::Post {
        return routed(AuthedTarget::RenameTag, String::new(), String::new());
    }
    if chars_eq_str(&v, "/api/v1/timeline") && method == Method::Get {
        return routed(AuthedTarget::Timeline, String::new(), String::new());
    }
    if chars_eq_str(&v, "/api/v1/calendar/countries") && method == Method::Get {
        return routed(AuthedTarget::CalendarCountries, String::new(), String::new());
    }
    if chars_eq_str(&v, "/api/v1/calendar/holidays") && method == Method::Get {
        return routed(AuthedTarget::CalendarHolidays, String::new(), String::new());
    }
    if chars_eq_str(&v, "/api/v1/attachments") && method == Method::Get {
        return routed(AuthedTarget::ListAttachments, String::new(), String::new());
    }
    if chars_eq_str(&v, "/api/v1/attachments") && method == Method::Post {
        return routed(AuthedTarget::UploadAttachment, String::new(), String::new());
    }
    if chars_eq_str(&v, "/api/v1/attachments/batch-delete") && method == Method::Post {
        return routed(AuthedTarget::BatchDeleteAttachments, String::new(), String::new());
    }
    if starts_with(&v, &chars_of("/api/v1/attachments/")) && method == Method::Delete {
        let uid = strip_prefixes_exec(&v, &chars_of("/api/v1/attachments/"));
        return routed(AuthedTarget::DeleteAttachment, string_of(&uid), String::new());
    }
    if starts_with(&v, &chars_of("/file/attachments/")) && method == Method::Get {
        let rest = strip_prefixes_exec(&v, &chars_of("/file/attachments/"));
        let pieces = split_chars(&rest, '/');
        proof {
            lemma_split_char_nonempty(rest@, '/');
        }
        return routed(AuthedTarget::DownloadAttachment, string_of(&pieces[0]), String::new());
    }
    if chars_eq_str(&v, "/api/v1/backups") && method == Method::Get {
        return routed(AuthedTarget::ListBackups, String::new(), String::new());
    }
    if chars_eq_str(&v, "/api/v1/backups") && method == Method::Post {
        return routed(AuthedTarget::CreateBackup, String::new(), String::new());
    }
    if chars_eq_str(&v, "/api/v1/backups/download") && method == Method::Get {
        return routed(AuthedTarget::DownloadBackup, String::new(), String::new());
    }
    if chars_eq_str(&v, "/api/v1/backups/preview") && method == Method::Post {
        return routed(AuthedTarget::PreviewBackup, String::new(), String::new());
    }
    if chars_eq_str(&v, "/api/v1/backups/restore") && method == Method::Post {
        return routed(AuthedTarget::RestoreBackup, String::new(), String::new());
    }
    if chars_eq_str(&v, "/api/v1/system/health") && method == Method::Get {
        return routed(AuthedTarget::SystemHealth, String::new(), String::new());
    }
    if chars_eq_str(&v, "/api/v1/memo-index/rebuild") && method == Method::Post {
        return routed(AuthedTarget::RebuildMemoIndex, String::new(), String::new());
    }
    if chars_eq_str(&v, "/api/v1/relations/rebuild") && method == Method::Post {
        return routed(AuthedTarget::RebuildRelations, String::new(), String::new());
    }
    if chars_eq_str(&v, "/api/v1/ai/settings") && method == Method::Get {
        return routed(AuthedTarget::GetAiSettings, String::new(), String::new());
    }
    if chars_eq_str(&v, "/api/v1/ai/settings") && method == Method::Patch {
        return routed(AuthedTarget::UpdateAiSettings, String::new(), String::new());
    }
    if chars_eq_str(&v, "/api/v1/ai/settings/test") && method == Method::Post {
        return routed(AuthedTarget::TestAiSettings, String::new(), String::new());
    }
    if chars_eq_str(&v, "/api/v1/audit-logs") && method == Method::Get {
        return routed(AuthedTarget::ListAuditLogs, String::new(), String::new());
    }
    let users = starts_with(&v, &chars_of("/api/v1/users/"));
    if users && ends_with(&v, &chars_of("/stats")) && method == Method::Get {
        return routed(AuthedTarget::UserStats, user_part_exec(&v, "/stats"), String::new());
    }
    if users && ends_with(&v, &chars_of("/access-tokens")) && method == Method::Get {
        return routed(AuthedTarget::ListAccessTokens, user_part_exec(&v, "/access-tokens"), String::new());
    }
    if users && ends_with(&v, &chars_of("/access-tokens")) && method == Method::Post {
        return routed(AuthedTarget::CreateAccessToken, user_part_exec(&v, "/access-tokens"), String::new());
    }
    if users && find_chars(&v, &chars_of("/access-tokens/")).is_some() && method == Method::Delete {
        let rest = strip_prefixes_exec(&v, &chars_of("/api/v1/users/"));
        let marker = chars_of("/access-tokens/");
        proof {
            reveal_strlit("/access-tokens/");
        }
        match find_chars(&rest, &marker) {
            Some(i) => {
                let n = rest.len();
                proof {
                    assert(occurs_at(rest@, marker@, i as int));
                }
                let identifier = sub_chars(&rest, 0, i);
                let token = sub_chars(&rest, i + 15, n);
                proof {
                    assert(identifier@ =~= rest@.take(i as int));
                    assert(token@ =~= rest@.skip(i + 15));
                }
                return routed(AuthedTarget::DeleteAccessToken, string_of(&identifier), string_of(&token));
            },
            None => {},
        }
    }
    if chars_eq_str(&v, "/api/v1/sse") && method == Method::Get {
        return routed(AuthedTarget::Sse, String::new(), String::new());
    }
    let memos = chars_of("/api/v1/memos/");
    proof {
        reveal_strlit("/api/v1/memos/");
        reveal_strlit("/api/v1/users/");
    }
    if starts_with(&v, &memos) {
        let uid = sub_chars(&v, 14, v.len());
        proof {
            assert(uid@ =~= v@.skip(14));
        }
        return routed(AuthedTarget::MemoSubroute, string_of(&uid), String::new());
    }
    if users {
        let identifier = sub_chars(&v, 14, v.len());
        proof {
            assert(identifier@ =~= v@.skip(14));
        }
        return routed(AuthedTarget::UserSubroute, string_of(&identifier), String::new());
    }
    routed(AuthedTarget::NotFound, String::new(), String::new())
}


/// Where any request goes before authentication.
#[derive(Debug, Clone, Copy, PartialEq, Eq, Structural)]
pub enum PublicTarget {
    Preflight,
    Instance,
    Setup,
    SignUp,
    SignIn,
    Refresh,
    SignOut,
    ExploreRss,
    UserRss,
    SharedAttachment,
    PublicShare,
    Authed,
    Asset,
}

/// A request routed before authentication, with its path parameters.
#[derive(Debug)]
pub struct PublicRoute {
    pub target: PublicTarget,
    pub first: String,
    pub second: String,
}

/// Where a request goes: preflight for `OPTIONS`, the public endpoints, share
/// links (an attachment of a share when the rest holds `/attachments/`), then
/// every other `/api/` or `/file/` path behind authentication, else the static
/// assets.
pub open spec fn public_target(p: Seq<char>, m: Method) -> (PublicTarget, Seq<char>, Seq<char>) {
    let e = Seq::<char>::empty();
    if m == Method::Options {
        (PublicTarget::Preflight, e, e)
    } else if p == "/api/v1/instance"@ && m == Method::Get {
        (PublicTarget::Instance, e, e)
    } else if p == "/api/v1/setup"@ && m == Method::Post {
        (PublicTarget::Setup, e, e)
    } else if p == "/api/v1/auth/signup"@ && m == Method::Post {
        (PublicTarget::SignUp, e, e)
    } else if p == "/api/v1/auth/signin"@ && m == Method::Post {
        (PublicTarget::SignIn, e, e)
    } else if p == "/api/v1/auth/refresh"@ && m == Method::Post {
        (PublicTarget::Refresh, e, e)
    } else if p == "/api/v1/auth/signout"@ && m == Method::Post {
        (PublicTarget::SignOut, e, e)
    } else if p == "/api/v1/explore/rss.xml"@ && m == Method::Get {
        (PublicTarget::ExploreRss, e, e)
    } else if has_prefix(p, "/api/v1/u/"@) && has_suffix(p, "/rss.xml"@) && m == Method::Get {
        (
            PublicTarget::UserRss,
            strip_trailing(strip_suffixes(strip_prefixes(p, "/api/v1/u/"@), "/rss.xml"@), '/'),
            e,
        )
    } else if has_prefix(p, "/api/v1/shares/"@) && m == Method::Get {
        let rest = strip_prefixes(p, "/api/v1/shares/"@);
        match first_occurrence(rest, "/attachments/"@) {
            Some(i) => (
                PublicTarget::SharedAttachment,
                rest.take(i),
                split_char(rest.skip(i + 13), '/')[0],
            ),
            None => (PublicTarget::PublicShare, rest, e),
        }
    } else if has_prefix(p, "/api/"@) || has_prefix(p, "/file/"@) {
        (PublicTarget::Authed, e, e)
    } else {
        (PublicTarget::Asset, e, e)
    }
}

fn public_routed(target: PublicTarget, first: String, second: String) -> (r: PublicRoute)
    ensures
        r.target == target,
        r.first == first,
        r.second == second,
{
    PublicRoute { target, first, second }
}

/// Routes a request by path and method, before authentication.
pub fn public_route_target(path: &str, method: Method) -> (r: PublicRoute)
    ensures
        (r.target, r.first@, r.second@) == public_target(path@, method),
{
    let v = chars_of(path);
    proof {
        reveal_strlit("");
    }
    if method == Method::Options {
        return public_routed(PublicTarget::Preflight, String::new(), String::new());
    }
    if chars_eq_str(&v, "/api/v1/instance") && method == Method::Get {
        return public_routed(PublicTarget::Instance, String::new(), String::new());
    }
    if chars_eq_str(&v, "/api/v1/setup") && method == Method::Post {
        return public_routed(PublicTarget::Setup, String::new(), String::new());
    }
    if chars_eq_str(&v, "/api/v1/auth/signup") && method == Method::Post {
        return public_routed(PublicTarget::SignUp, String::new(), String::new());
    }
    if chars_eq_str(&v, "/api/v1/auth/signin") && method == Method::Post {
        return public_routed(PublicTarget::SignIn, String::new(), String::new());
    }
    if chars_eq_str(&v, "/api/v1/auth/refresh") && method == Method::Post {
        return public_routed(PublicTarget::Refresh, String::new(), String::new());
    }
    if chars_eq_str(&v, "/api/v1/auth/signout") && method == Method::Post {
        return public_routed(PublicTarget::SignOut, String::new(), String::new());
    }
    if chars_eq_str(&v, "/api/v1/explore/rss.xml") && method == Method::Get {
        return public_routed(PublicTarget::ExploreRss, String::new(), String::new());
    }
    if starts_with(&v, &chars_of("/api/v1/u/")) && ends_with(&v, &chars_of("/rss.xml")) && method
        == Method::Get {
        let a = strip_prefixes_exec(&v, &chars_of("/api/v1/u/"));
        let b = strip_suffixes_exec(&a, &chars_of("/rss.xml"));
        let c = strip_trailing_char(&b, '/');
        return public_routed(PublicTarget::UserRss, string_of(&c), String::new());
    }
    if starts_with(&v, &chars_of("/api/v1/shares/")) && method == Method::Get {
        let rest = strip_prefixes_exec(&v, &chars_of("/api/v1/shares/"));
        let marker = chars_of("/attachments/");
        proof {
            reveal_strlit("/attachments/");
        }
        match find_chars(&rest, &marker) {
            Some(i) => {
                let n = rest.len();
                proof {
                    assert(occurs_at(rest@, marker@, i as int));
                }
                let share = sub_chars(&rest, 0, i);
                let tail = sub_chars(&rest, i + 13, n);
                let pieces = split_chars(&tail, '/');
                proof {
                    assert(share@ =~= rest@.take(i as int));
                    assert(tail@ =~= rest@.skip(i + 13));
                    lemma_split_char_nonempty(tail@, '/');
                }
                return public_routed(PublicTarget::SharedAttachment, string_of(&share), string_of(&pieces[0]));
            },
            None => {
                return public_routed(PublicTarget::PublicShare, string_of(&rest), String::new());
            },
        }
    }
    if starts_with(&v, &chars_of("/api/")) || starts_with(&v, &chars_of("/file/")) {
        return public_routed(PublicTarget::Authed, String::new(), String::new());
    }
    public_routed(PublicTarget::Asset, String::new(), String::new())
}

/// What a request on `/api/v1/memos/{rest}` asks of the memo itself.
#[derive(Debug, Clone, Copy, PartialEq, Eq, Structural)]
pub enum MemoTarget {
    Child,
    Get,
    Update,
    Delete,
    MethodNotAllowed,
}

/// Paths with more than one segment go to the memo's child routes; the memo itself
/// is read, updated or deleted by GET, PATCH and DELETE; other methods are refused.
pub open spec fn memo_target(rest: Seq<char>, m: Method) -> MemoTarget {
    if split_char(rest, '/').len() > 1 {
        MemoTarget::Child
    } else if m == Method::Get {
        MemoTarget::Get
    } else if m == Method::Patch {
        MemoTarget::Update
    } else if m == Method::Delete {
        MemoTarget::Delete
    } else {
        MemoTarget::MethodNotAllowed
    }
}

pub fn memo_subroute_target(rest: &str, method: Method) -> (r: MemoTarget)
    ensures
        r == memo_target(rest@, method),
{
    let v = chars_of(rest);
    let parts = split_chars(&v, '/');
    if parts.len() > 1 {
        MemoTarget::Child
    } else {
        match method {
            Method::Get => MemoTarget::Get,
            Method::Patch => MemoTarget::Update,
            Method::Delete => MemoTarget::Delete,
            _ => MemoTarget::MethodNotAllowed,
        }
    }
}

/// Whether a delete asks for purging: some query pair `purge=true`.
pub open spec fn purge_asked(pairs: Seq<(Seq<char>, Seq<char>)>) -> bool {
    exists|i: int| 0 <= i < pairs.len() && pairs[i].0 == "purge"@ && pairs[i].1 == "true"@
}

pub fn purge_requested(pairs: &Vec<(String, String)>) -> (b: bool)
    ensures
        b == purge_asked(crate::http::pairs_view(pairs@)),
{
    let ghost pv = crate::http::pairs_view(pairs@);
    let mut i: usize = 0;
    while i < pairs.len()
        invariant
            i <= pairs@.len(),
            pv == crate::http::pairs_view(pairs@),
            forall|j: int| 0 <= j < i ==> !(pv[j].0 == "purge"@ && pv[j].1 == "true"@),
        decreases pairs.len() - i,
    {
        proof {
            assert(pv[i as int] == (pairs@[i as int].0@, pairs@[i as int].1@));
        }
        if crate::text::str_eq(pairs[i].0.as_str(), "purge") && crate::text::str_eq(pairs[i].1.as_str(), "true") {
            return true;
        }
        i = i + 1;
    }
    false
}

/// What a request on `/api/v1/users/{rest}` asks for.
#[derive(Debug, Clone, Copy, PartialEq, Eq, Structural)]
pub enum UserTarget {
    ListSettings,
    GetSetting,
    UpdateSetting,
    GetUser,
    UpdateUser,
    DeleteUser,
    MethodNotAllowed,
}

/// Settings paths list (GET), read (GET) and write (PATCH) settings; other paths
/// read, update or delete the user; anything else is refused.
pub open spec fn user_target(rest: Seq<char>, m: Method) -> UserTarget {
    match crate::routes::settings_path(rest) {
        Some((_, None)) => if m == Method::Get {
            UserTarget::ListSettings
        } else {
            UserTarget::MethodNotAllowed
        },
        Some((_, Some(_))) => if m == Method::Get {
            UserTarget::GetSetting
        } else if m == Method::Patch {
            UserTarget::UpdateSetting
        } else {
            UserTarget::MethodNotAllowed
        },
        None => if m == Method::Get {
            UserTarget::GetUser
        } else if m == Method::Patch {
            UserTarget::UpdateUser
        } else if m == Method::Delete {
            UserTarget::DeleteUser
        } else {
            UserTarget::MethodNotAllowed
        },
    }
}

pub fn user_subroute_target(rest: &str, method: Method) -> (r: UserTarget)
    ensures
        r == user_target(rest@, method),
{
    match crate::routes::parse_user_settings_path(rest) {
        Some((_, None)) => match method {
            Method::Get => UserTarget::ListSettings,
            _ => UserTarget::MethodNotAllowed,
        },
        Some((_, Some(_))) => match method {
            Method::Get => UserTarget::GetSetting,
            Method::Patch => UserTarget::UpdateSetting,
            _ => UserTarget::MethodNotAllowed,
        },
        None => match method {
            Method::Get => UserTarget::GetUser,
            Method::Patch => UserTarget::UpdateUser,
            Method::Delete => UserTarget::DeleteUser,
            _ => UserTarget::MethodNotAllowed,
        },
    }
}

/// The targets only an admin reaches: user listing, data export and import,
/// migrations, backups, system health, index and relation rebuilds, AI settings and
/// audit logs.
pub open spec fn admin_only(t: AuthedTarget) -> bool {
    match t {
        AuthedTarget::ListUsers => true,
        AuthedTarget::ExportData => true,
        AuthedTarget::ImportData => true,
        AuthedTarget::MigrationPreview => true,
        AuthedTarget::MigrationImport => true,
        AuthedTarget::MigrationImportStream => true,
        AuthedTarget::BackupToOriginal => true,
        AuthedTarget::ListBackups => true,
        AuthedTarget::CreateBackup => true,
        AuthedTarget::DownloadBackup => true,
        AuthedTarget::PreviewBackup => true,
        AuthedTarget::RestoreBackup => true,
        AuthedTarget::SystemHealth => true,
        AuthedTarget::RebuildMemoIndex => true,
        AuthedTarget::RebuildRelations => true,
        AuthedTarget::GetAiSettings => true,
        AuthedTarget::UpdateAiSettings => true,
        AuthedTarget::TestAiSettings => true,
        AuthedTarget::ListAuditLogs => true,
        _ => false,
    }
}

pub fn is_admin_only(t: &AuthedTarget) -> (b: bool)
    ensures
        b == admin_only(*t),
{
    match t {
        AuthedTarget::ListUsers => true,
        AuthedTarget::ExportData => true,
        AuthedTarget::ImportData => true,
        AuthedTarget::MigrationPreview => true,
        AuthedTarget::MigrationImport => true,
        AuthedTarget::MigrationImportStream => true,
        AuthedTarget::BackupToOriginal => true,
        AuthedTarget::ListBackups => true,
        AuthedTarget::CreateBackup => true,
        AuthedTarget::DownloadBackup => true,
        AuthedTarget::PreviewBackup => true,
        AuthedTarget::RestoreBackup => true,
        AuthedTarget::SystemHealth => true,
        AuthedTarget::RebuildMemoIndex => true,
        AuthedTarget::RebuildRelations => true,
        AuthedTarget::GetAiSettings => true,
        AuthedTarget::UpdateAiSettings => true,
        AuthedTarget::TestAiSettings => true,
        AuthedTarget::ListAuditLogs => true,
        _ => false,
    }
}

/// Whether a routed request may go on to its handler: a path that matches no route
/// answers 404 `Not found`; an admin-only target answers 403 `Forbidden` to anyone
/// but an admin, before its handler reads or writes anything.
pub fn authed_access(target: &AuthedTarget, viewer: &crate::models::Viewer) -> (r: Result<(), crate::error::AppError>)
    ensures
        *target == AuthedTarget::NotFound ==> (r matches Err(e) && crate::error::is_error(e, 404, "Not found"@)),
        *target != AuthedTarget::NotFound ==> (r is Ok <==> (!admin_only(*target) || viewer.role@ == "ADMIN"@)),
        *target != AuthedTarget::NotFound ==> (r matches Err(e) ==> crate::error::is_error(e, 403, "Forbidden"@)),
{
    if let AuthedTarget::NotFound = target {
        return Err(crate::error::AppError::new(404, "Not found"));
    }
    if is_admin_only(target) && !crate::text::str_eq(viewer.role.as_str(), "ADMIN") {
        return Err(crate::error::AppError::new(403, "Forbidden"));
    }
    Ok(())
}

/// A memo request whose method the memo itself does not take answers 405.
pub fn memo_method_check(target: MemoTarget) -> (r: Result<(), crate::error::AppError>)
    ensures
        r is Err <==> target == MemoTarget::MethodNotAllowed,
        r matches Err(e) ==> crate::error::is_error(e, 405, "Method not allowed"@),
{
    match target {
        MemoTarget::MethodNotAllowed => Err(crate::error::AppError::new(405, "Method not allowed")),
        _ => Ok(()),
    }
}

/// What deleting a memo does: purge it (no statement here; the purge statements
/// remove it) or archive it by the statement given; the event to emit and the memo
/// it carries; the answer `{"ok": true}`.
#[derive(Debug)]
pub struct MemoDeletion {
    pub archive: Option<crate::listing::Statement>,
    pub event_type: String,
    pub event_memo: crate::models::DbMemo,
    pub answer: crate::json::Json,
}

/// `e` is memo `m` as archived at `now`: every field kept but the state and the
/// update time.
pub open spec fn archived_copy(e: crate::models::DbMemo, m: crate::models::DbMemo, now: i64) -> bool {
    &&& e.id == m.id && e.uid@ == m.uid@ && e.creator_id == m.creator_id
    &&& e.creator_username@ == m.creator_username@ && e.creator_nickname@ == m.creator_nickname@
    &&& e.created_ts == m.created_ts && e.updated_ts == now
    &&& e.row_status@ == "ARCHIVED"@
    &&& e.content@ == m.content@ && e.visibility@ == m.visibility@ && e.pinned == m.pinned
    &&& e.payload@ == m.payload@
}

/// The statement that archives memo `id` at `now`.
pub open spec fn archive_query(id: i64, now: i64) -> (Seq<char>, Seq<crate::listing::SqlValueView>) {
    (
        "UPDATE memo SET row_status = 'ARCHIVED', updated_ts = ? WHERE id = ?"@,
        seq![crate::listing::SqlValueView::Int(now as int), crate::listing::SqlValueView::Int(id as int)],
    )
}

/// Deleting a memo once it has been looked up: 404 when there is none, 403 unless
/// the viewer may change it; a delete asking for a purge removes it for good and
/// emits `memo.deleted`; any other delete archives it (it is kept, with state
/// `ARCHIVED`) and emits `memo.archived` with the archived memo. Either way the
/// answer is `{"ok": true}`.
pub fn memo_delete_plan(found: Option<crate::models::DbMemo>, viewer: &crate::models::Viewer, purge: bool, now: i64) -> (r: Result<MemoDeletion, crate::error::AppError>)
    ensures
        found is None ==> (r matches Err(e) && crate::error::is_error(e, 404, "Memo not found"@)),
        found matches Some(m) ==> {
            &&& (r is Ok <==> crate::access::may_write(m, *viewer))
            &&& (r matches Err(e) ==> crate::error::is_error(e, 403, "Forbidden"@))
            &&& (r matches Ok(d) ==> {
                &&& d.answer@ == crate::json::object_of(seq![("ok"@, crate::json::JsonView::Bool(true))])
                &&& if purge {
                    &&& d.archive is None
                    &&& d.event_type@ == "memo.deleted"@
                    &&& d.event_memo == m
                } else {
                    &&& d.archive matches Some(st) && (st.sql@, crate::listing::binds_view(st.binds@)) == archive_query(m.id, now)
                    &&& d.event_type@ == "memo.archived"@
                    &&& archived_copy(d.event_memo, m, now)
                }
            })
        },
{
    let m = match found {
        Some(m) => m,
        None => return Err(crate::error::AppError::new(404, "Memo not found")),
    };
    if !crate::access::can_write(&m, viewer) {
        return Err(crate::error::AppError::new(403, "Forbidden"));
    }
    let mut b = crate::json::ObjectBuilder::new();
    b.add("ok", crate::json::Json::Bool(true));
    proof {
        assert(b.pairs() =~= seq![("ok"@, crate::json::JsonView::Bool(true))]);
    }
    let answer = b.build();
    if purge {
        return Ok(MemoDeletion { archive: None, event_type: "memo.deleted".to_owned(), event_memo: m, answer });
    }
    let mut binds: Vec<crate::listing::SqlValue> = Vec::new();
    binds.push(crate::listing::SqlValue::Int(now));
    binds.push(crate::listing::SqlValue::Int(m.id));
    let st = crate::listing::Statement {
        sql: "UPDATE memo SET row_status = 'ARCHIVED', updated_ts = ? WHERE id = ?".to_owned(),
        binds,
    };
    proof {
        assert(crate::listing::binds_view(st.binds@) =~= archive_query(m.id, now).1);
    }
    let archived = crate::models::DbMemo { row_status: "ARCHIVED".to_owned(), updated_ts: now, ..m };
    Ok(MemoDeletion { archive: Some(st), event_type: "memo.archived".to_owned(), event_memo: archived, answer })
}

} // verus!
