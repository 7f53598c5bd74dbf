use vstd::prelude::*;
use crate::text::{chars_of, find_chars, first_occurrence, str_eq};

verus! {

/// The HTTP methods a request can carry.
#[derive(Debug, Clone, Copy, PartialEq, Eq, Structural)]
pub enum Method {
    Head,
    Get,
    Post,
    Put,
    Patch,
    Delete,
    Options,
    Connect,
    Trace,
}

/// What a request under `/api/v1/memos/{uid}/...` asks for.
#[derive(Debug, PartialEq, Eq)]
pub enum MemoChildRoute<'a> {
    ListComments,
    CreateComment,
    ListReactions,
    UpsertReaction,
    DeleteReaction(&'a str),
    GetRelations,
    SuggestRelations,
    SetRelations,
    ListShares,
    CreateShare,
    DeleteShare(&'a str),
    Unsupported,
}

/// A memo child route, with the ids it carries as text.
pub enum RouteView {
    ListComments,
    CreateComment,
    ListReactions,
    UpsertReaction,
    DeleteReaction(Seq<char>),
    GetRelations,
    SuggestRelations,
    SetRelations,
    ListShares,
    CreateShare,
    DeleteShare(Seq<char>),
    Unsupported,
}

impl<'a> MemoChildRoute<'a> {
    pub open spec fn route_view(self) -> RouteView {
        match self {
            MemoChildRoute::ListComments => RouteView::ListComments,
            MemoChildRoute::CreateComment => RouteView::CreateComment,
            MemoChildRoute::ListReactions => RouteView::ListReactions,
            MemoChildRoute::UpsertReaction => RouteView::UpsertReaction,
            MemoChildRoute::DeleteReaction(id) => RouteView::DeleteReaction(id@),
            MemoChildRoute::GetRelations => RouteView::GetRelations,
            MemoChildRoute::SuggestRelations => RouteView::SuggestRelations,
            MemoChildRoute::SetRelations => RouteView::SetRelations,
            MemoChildRoute::ListShares => RouteView::ListShares,
            MemoChildRoute::CreateShare => RouteView::CreateShare,
            MemoChildRoute::DeleteShare(id) => RouteView::DeleteShare(id@),
            MemoChildRoute::Unsupported => RouteView::Unsupported,
        }
    }
}

/// The path segments as text.
pub open spec fn segments(parts: Seq<&str>) -> Seq<Seq<char>> {
    Seq::new(parts.len(), |i: int| parts[i]@)
}

/// The route for path segments `parts` (`parts[0]` is the memo uid) and `method`.
pub open spec fn child_route(parts: Seq<Seq<char>>, method: Method) -> RouteView {
    if parts.len() < 2 {
        RouteView::Unsupported
    } else {
        let seg = parts[1];
        if seg == "comments"@ && method == Method::Get {
            RouteView::ListComments
        } else if seg == "comments"@ && method == Method::Post {
            RouteView::CreateComment
        } else if seg == "reactions"@ && method == Method::Get {
            RouteView::ListReactions
        } else if seg == "reactions"@ && method == Method::Post {
            RouteView::UpsertReaction
        } else if seg == "reactions"@ && method == Method::Delete && parts.len() > 2 {
            RouteView::DeleteReaction(parts[2])
        } else if seg == "relations"@ && method == Method::Get && parts.len() == 2 {
            RouteView::GetRelations
        } else if seg == "relations"@ && method == Method::Post && parts.len() > 2 && parts[2]
            == "suggest"@ {
            RouteView::SuggestRelations
        } else if seg == "relations"@ && method == Method::Patch && parts.len() == 2 {
            RouteView::SetRelations
        } else if seg == "shares"@ && method == Method::Get {
            RouteView::ListShares
        } else if seg == "shares"@ && method == Method::Post {
            RouteView::CreateShare
        } else if seg == "shares"@ && method == Method::Delete && parts.len() > 2 {
            RouteView::DeleteShare(parts[2])
        } else {
            RouteView::Unsupported
        }
    }
}

pub fn memo_child_route<'a>(parts: &'a [&'a str], method: &Method) -> (r: MemoChildRoute<'a>)
    ensures
        r.route_view() == child_route(segments(parts@), *method),
{
    let ghost segs = segments(parts@);
    let n = parts.len();
    if n < 2 {
        return MemoChildRoute::Unsupported;
    }
    let seg = parts[1];
    proof {
        assert(segs[1] == seg@);
        reveal_strlit("comments");
        reveal_strlit("reactions");
        reveal_strlit("relations");
        reveal_strlit("shares");
        reveal_strlit("suggest");
        assert("reactions"@[2] != "relations"@[2]);
    }
    if str_eq(seg, "comments") {
        match method {
            Method::Get => MemoChildRoute::ListComments,
            Method::Post => MemoChildRoute::CreateComment,
            _ => MemoChildRoute::Unsupported,
        }
    } else if str_eq(seg, "reactions") {
        match method {
            Method::Get => MemoChildRoute::ListReactions,
            Method::Post => MemoChildRoute::UpsertReaction,
            Method::Delete => if n > 2 {
                proof {
                    assert(segs[2] == parts@[2]@);
                }
                MemoChildRoute::DeleteReaction(parts[2])
            } else {
                MemoChildRoute::Unsupported
            },
            _ => MemoChildRoute::Unsupported,
        }
    } else if str_eq(seg, "relations") {
        match method {
            Method::Get => if n == 2 {
                MemoChildRoute::GetRelations
            } else {
                MemoChildRoute::Unsupported
            },
            Method::Post => if n > 2 && str_eq(parts[2], "suggest") {
                proof {
                    assert(segs[2] == parts@[2]@);
                }
                MemoChildRoute::SuggestRelations
            } else {
                proof {
                    if n > 2 {
                        assert(segs[2] == parts@[2]@);
                    }
                }
                MemoChildRoute::Unsupported
            },
            Method::Patch => if n == 2 {
                MemoChildRoute::SetRelations
            } else {
                MemoChildRoute::Unsupported
            },
            _ => MemoChildRoute::Unsupported,
        }
    } else if str_eq(seg, "shares") {
        match method {
            Method::Get => MemoChildRoute::ListShares,
            Method::Post => MemoChildRoute::CreateShare,
            Method::Delete => if n > 2 {
                proof {
                    assert(segs[2] == parts@[2]@);
                }
                MemoChildRoute::DeleteShare(parts[2])
            } else {
                MemoChildRoute::Unsupported
            },
            _ => MemoChildRoute::Unsupported,
        }
    } else {
        MemoChildRoute::Unsupported
    }
}

/// `{identifier}/settings` or `{identifier}/settings/{key}`: the text before the
/// first `/settings` must be non-empty, and what follows it must be nothing or a
/// `/` and a non-empty key.
pub open spec fn settings_path(path: Seq<char>) -> Option<(Seq<char>, Option<Seq<char>>)> {
    match first_occurrence(path, "/settings"@) {
        None => None,
        Some(i) => {
            let id = path.take(i);
            let rest = path.skip(i + 9);
            if id.len() == 0 {
                None
            } else if rest.len() == 0 {
                Some((id, None))
            } else if rest[0] == '/' && rest.len() > 1 {
                Some((id, Some(rest.skip(1))))
            } else {
                None
            }
        },
    }
}

pub open spec fn settings_path_view(r: Option<(&str, Option<&str>)>) -> Option<(Seq<char>, Option<Seq<char>>)> {
    match r {
        Some((id, key)) => Some((id@, match key {
            Some(k) => Some(k@),
            None => None,
        })),
        None => None,
    }
}

pub fn parse_user_settings_path(path: &str) -> (r: Option<(&str, Option<&str>)>)
    ensures
        settings_path_view(r) == settings_path(path@),
{
    let v = chars_of(path);
    let needle = chars_of("/settings");
    proof {
        reveal_strlit("/settings");
    }
    let found = find_chars(&v, &needle);
    let i = match found {
        Some(i) => i,
        None => return None,
    };
    if i == 0 {
        return None;
    }
    let n = v.len();
    let identifier = path.substring_char(0, i);
    let rest_start = i + 9;
    if rest_start == n {
        return Some((identifier, None));
    }
    if v[rest_start] == '/' && rest_start + 1 < n {
        let key = path.substring_char(rest_start + 1, n);
        proof {
            assert(path@.skip(rest_start as int).skip(1) =~= path@.subrange(rest_start + 1, n as int));
        }
        Some((identifier, Some(key)))
    } else {
        None
    }
}

} // verus!
