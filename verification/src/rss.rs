use vstd::prelude::*;
use crate::text::{chars_of, string_of, push_str, join_with, join_chars};
use crate::domain::{xml_escaped, escape_xml, memo_title, extract_title};
use crate::models::DbMemo;
use crate::listing::{SqlValue, SqlValueView, binds_view};

verus! {

/// The statement that reads the newest public memos for a feed: of one user when a
/// username is given, of everyone otherwise; at most fifty.
pub open spec fn feed_sql(by_user: bool) -> Seq<char> {
    if by_user {
        "SELECT memo.*, \"user\".username AS creator_username, \"user\".nickname AS creator_nickname FROM memo JOIN \"user\" ON \"user\".id = memo.creator_id WHERE memo.row_status = 'NORMAL' AND memo.visibility = 'PUBLIC' AND \"user\".username = ? ORDER BY memo.created_ts DESC LIMIT 50"@
    } else {
        "SELECT memo.*, \"user\".username AS creator_username, \"user\".nickname AS creator_nickname FROM memo JOIN \"user\" ON \"user\".id = memo.creator_id WHERE memo.row_status = 'NORMAL' AND memo.visibility = 'PUBLIC' ORDER BY memo.created_ts DESC LIMIT 50"@
    }
}

/// The feed's query and its values.
pub fn rss_query(username: Option<&str>) -> (r: (String, Vec<SqlValue>))
    ensures
        r.0@ == feed_sql(username is Some),
        binds_view(r.1@) == match username {
            Some(u) => seq![SqlValueView::Text(u@)],
            None => Seq::<SqlValueView>::empty(),
        },
{
    match username {
        Some(u) => {
            let sql = "SELECT memo.*, \"user\".username AS creator_username, \"user\".nickname AS creator_nickname FROM memo JOIN \"user\" ON \"user\".id = memo.creator_id WHERE memo.row_status = 'NORMAL' AND memo.visibility = 'PUBLIC' AND \"user\".username = ? ORDER BY memo.created_ts DESC LIMIT 50".to_string();
            let mut binds: Vec<SqlValue> = Vec::new();
            binds.push(SqlValue::Text(u.to_string()));
            proof {
                assert(binds_view(binds@) =~= seq![SqlValueView::Text(u@)]);
            }
            (sql, binds)
        },
        None => {
            let sql = "SELECT memo.*, \"user\".username AS creator_username, \"user\".nickname AS creator_nickname FROM memo JOIN \"user\" ON \"user\".id = memo.creator_id WHERE memo.row_status = 'NORMAL' AND memo.visibility = 'PUBLIC' ORDER BY memo.created_ts DESC LIMIT 50".to_string();
            let binds: Vec<SqlValue> = Vec::new();
            proof {
                assert(binds_view(binds@) =~= Seq::<SqlValueView>::empty());
            }
            (sql, binds)
        },
    }
}

/// One `<item>` of the feed for a memo published at `pub_date`.
pub open spec fn rss_item_text(uid: Seq<char>, author: Seq<char>, content: Seq<char>, pub_date: Seq<char>) -> Seq<char> {
    "    <item>\n      <title>"@ + xml_escaped(memo_title(content)) + "</title>\n      <link>/memos/"@
        + xml_escaped(uid) + "</link>\n      <guid isPermaLink=\"false\">memos/"@ + xml_escaped(uid)
        + "</guid>\n      <pubDate>"@ + pub_date + "</pubDate>\n      <author>"@ + xml_escaped(author)
        + "</author>\n      <description>"@ + xml_escaped(content) + "</description>\n    </item>"@
}

pub fn rss_item(memo: &DbMemo, pub_date: &str) -> (r: String)
    ensures
        r@ == rss_item_text(memo.uid@, memo.creator_username@, memo.content@, pub_date@),
{
    let title = escape_xml(extract_title(memo.content.as_str()).as_str());
    let uid = escape_xml(memo.uid.as_str());
    let author = escape_xml(memo.creator_username.as_str());
    let body = escape_xml(memo.content.as_str());
    let mut v: Vec<char> = Vec::new();
    push_str(&mut v, "    <item>\n      <title>");
    push_str(&mut v, title.as_str());
    push_str(&mut v, "</title>\n      <link>/memos/");
    push_str(&mut v, uid.as_str());
    push_str(&mut v, "</link>\n      <guid isPermaLink=\"false\">memos/");
    push_str(&mut v, uid.as_str());
    push_str(&mut v, "</guid>\n      <pubDate>");
    push_str(&mut v, pub_date);
    push_str(&mut v, "</pubDate>\n      <author>");
    push_str(&mut v, author.as_str());
    push_str(&mut v, "</author>\n      <description>");
    push_str(&mut v, body.as_str());
    push_str(&mut v, "</description>\n    </item>");
    proof {
        assert(v@ =~= rss_item_text(memo.uid@, memo.creator_username@, memo.content@, pub_date@));
    }
    string_of(&v)
}

/// The feed's own address: a user's feed or the public one.
pub open spec fn feed_path(username: Option<Seq<char>>) -> Seq<char> {
    match username {
        Some(u) => "/api/v1/u/"@ + u + "/rss.xml"@,
        None => "/api/v1/explore/rss.xml"@,
    }
}

/// The whole feed document around its items (one per line).
pub open spec fn rss_text(items: Seq<Seq<char>>, username: Option<Seq<char>>, build_date: Seq<char>) -> Seq<char> {
    "<?xml version=\"1.0\" encoding=\"UTF-8\"?>\n<rss version=\"2.0\" xmlns:atom=\"http://www.w3.org/2005/Atom\">\n  <channel>\n    <title>Memos Worker</title>\n    <link>/</link>\n    <description>A lightweight memo hub</description>\n    <lastBuildDate>"@
        + build_date + "</lastBuildDate>\n    <atom:link href=\""@ + xml_escaped(feed_path(username))
        + "\" rel=\"self\" type=\"application/rss+xml\"/>\n"@ + join_with(items, "\n"@) + "\n  </channel>\n</rss>"@
}

fn self_path(username: Option<&str>) -> (r: String)
    ensures
        r@ == feed_path(crate::sse::opt_str_seq(username)),
{
    match username {
        Some(u) => {
            let mut v: Vec<char> = Vec::new();
            push_str(&mut v, "/api/v1/u/");
            push_str(&mut v, u);
            push_str(&mut v, "/rss.xml");
            proof {
                assert(v@ =~= "/api/v1/u/"@ + u@ + "/rss.xml"@);
            }
            string_of(&v)
        },
        None => "/api/v1/explore/rss.xml".to_string(),
    }
}

/// The RSS document of a feed whose items were rendered by `rss_item`, built at
/// `build_date`.
pub fn generate_rss(items: &Vec<String>, username: Option<&str>, build_date: &str) -> (r: String)
    ensures
        r@ == rss_text(Seq::new(items@.len(), |i: int| items@[i]@), crate::sse::opt_str_seq(username), build_date@),
{
    let mut lines: Vec<Vec<char>> = Vec::new();
    let mut i: usize = 0;
    while i < items.len()
        invariant
            i <= items@.len(),
            lines@.len() == i,
            forall|k: int| 0 <= k < i ==> (#[trigger] lines@[k])@ == items@[k]@,
        decreases items@.len() - i,
    {
        lines.push(chars_of(items[i].as_str()));
        i = i + 1;
    }
    let body = join_chars(&lines, &chars_of("\n"));
    proof {
        assert(Seq::new(lines@.len(), |k: int| lines@[k]@) =~= Seq::new(items@.len(), |k: int| items@[k]@));
    }
    let path = escape_xml(self_path(username).as_str());
    let mut v: Vec<char> = Vec::new();
    push_str(&mut v, "<?xml version=\"1.0\" encoding=\"UTF-8\"?>\n<rss version=\"2.0\" xmlns:atom=\"http://www.w3.org/2005/Atom\">\n  <channel>\n    <title>Memos Worker</title>\n    <link>/</link>\n    <description>A lightweight memo hub</description>\n    <lastBuildDate>");
    push_str(&mut v, build_date);
    push_str(&mut v, "</lastBuildDate>\n    <atom:link href=\"");
    push_str(&mut v, path.as_str());
    push_str(&mut v, "\" rel=\"self\" type=\"application/rss+xml\"/>\n");
    crate::text::push_all(&mut v, body.as_slice());
    push_str(&mut v, "\n  </channel>\n</rss>");
    proof {
        assert(v@ =~= rss_text(Seq::new(items@.len(), |k: int| items@[k]@), crate::sse::opt_str_seq(username), build_date@));
    }
    string_of(&v)
}

} // verus!
