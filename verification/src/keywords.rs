use vstd::prelude::*;
use crate::text::{chars_of, string_of, trim, trim_str, str_eq};
use crate::json::{
    Json, JsonView, key_lt, key_less, lemma_key_lt_total, lemma_key_lt_irreflexive,
    lemma_key_lt_asymmetric, lemma_key_lt_transitive, json_get, get_field, items_view,
};
use crate::unicode::{unicode_alphanumeric, unicode_lowercase, is_alphanumeric, to_lowercase};
use crate::relations::strings_view;
use crate::models::DbMemo;
use crate::events::clone_json;

verus! {

/// Strictly ascending, hence without repeats.
pub open spec fn strictly_sorted(s: Seq<Seq<char>>) -> bool {
    forall|i: int, j: int| 0 <= i < j < s.len() ==> key_lt(#[trigger] s[i], #[trigger] s[j])
}

proof fn lemma_insert_to_set(s: Seq<Seq<char>>, p: int, x: Seq<char>)
    requires
        0 <= p <= s.len(),
    ensures
        s.insert(p, x).to_set() =~= s.to_set().insert(x),
{
    let t = s.insert(p, x);
    assert forall|y: Seq<char>| t.to_set().contains(y) <==> s.to_set().insert(x).contains(y) by {
        if t.to_set().contains(y) {
            let k = choose|k: int| 0 <= k < t.len() && t[k] == y;
            if k < p {
                assert(s[k] == y);
            } else if k > p {
                assert(s[k - 1] == y);
            }
        }
        if s.to_set().contains(y) {
            let k = choose|k: int| 0 <= k < s.len() && s[k] == y;
            if k < p {
                assert(t[k] == y);
            } else {
                assert(t[k + 1] == y);
            }
        }
        if y == x {
            assert(t[p] == x);
        }
    }
}

/// Adds `w` to the sorted word list, unless it is already there.
pub(crate) fn insert_word(words: &mut Vec<String>, w: String)
    requires
        strictly_sorted(strings_view(old(words)@)),
    ensures
        strictly_sorted(strings_view(final(words)@)),
        strings_view(final(words)@).to_set() == strings_view(old(words)@).to_set().insert(w@),
{
    let ghost before = strings_view(words@);
    let wc = chars_of(w.as_str());
    let mut p: usize = 0;
    while p < words.len() && key_less(&chars_of(words[p].as_str()), &wc)
        invariant
            p <= words@.len(),
            before == strings_view(words@),
            wc@ == w@,
            forall|q: int| 0 <= q < p ==> key_lt(#[trigger] before[q], w@),
        decreases words.len() - p,
    {
        proof {
            assert(before[p as int] == words@[p as int]@);
        }
        p = p + 1;
    }
    if p < words.len() && str_eq(words[p].as_str(), w.as_str()) {
        proof {
            assert(before[p as int] == w@);
            assert(before.to_set().contains(w@));
            assert(before.to_set().insert(w@) =~= before.to_set());
        }
        return;
    }
    proof {
        if p < words@.len() {
            assert(before[p as int] == words@[p as int]@);
            lemma_key_lt_total(before[p as int], w@);
        }
    }
    let ghost wv = w@;
    words.insert(p, w);
    proof {
        let after = strings_view(words@);
        assert(after =~= before.insert(p as int, wv));
        assert forall|i: int, j: int| 0 <= i < j < after.len() implies key_lt(#[trigger] after[i], #[trigger] after[j]) by {
            if j < p {
            } else if j == p {
            } else if i == p {
                if j - 1 > p {
                    assert(key_lt(before[p as int], before[j - 1]));
                    lemma_key_lt_transitive(wv, before[p as int], before[j - 1]);
                }
            } else if i < p {
                assert(key_lt(before[i], before[j - 1]));
            } else {
                assert(key_lt(before[i - 1], before[j - 1]));
            }
        }
        lemma_insert_to_set(before, p as int, wv);
    }
}

/// A finished run of word characters counts as a keyword when it is 2 to 32
/// characters long.
pub open spec fn keep_word(done: Set<Seq<char>>, current: Seq<char>) -> Set<Seq<char>> {
    if 2 <= current.len() <= 32 {
        done.insert(current)
    } else {
        done
    }
}

/// Ends the current run of word characters: keeps it when it counts as a
/// keyword, and starts a new one.
pub fn push_keyword(words: &mut Vec<String>, current: &mut Vec<char>)
    requires
        strictly_sorted(strings_view(old(words)@)),
    ensures
        strictly_sorted(strings_view(final(words)@)),
        strings_view(final(words)@).to_set() == keep_word(strings_view(old(words)@).to_set(), old(current)@),
        final(current)@.len() == 0,
{
    let len = current.len();
    if 2 <= len && len <= 32 {
        let w = string_of(current);
        insert_word(words, w);
    }
    current.clear();
}

/// Characters that belong to a keyword: Unicode letters and digits, `_` and `-`.
pub open spec fn word_char(c: char) -> bool {
    unicode_alphanumeric(c) || c == '_' || c == '-'
}

/// The keywords of the runs finished so far, and the run still open.
pub open spec fn scan_words(s: Seq<char>) -> (Set<Seq<char>>, Seq<char>)
    decreases s.len(),
{
    if s.len() == 0 {
        (Set::empty(), Seq::empty())
    } else {
        let (done, current) = scan_words(s.drop_last());
        let c = s.last();
        if word_char(c) {
            (done, current.push(c))
        } else {
            (keep_word(done, current), Seq::empty())
        }
    }
}

/// Every keyword of a text: its runs of word characters of 2 to 32 characters.
pub open spec fn keyword_set(s: Seq<char>) -> Set<Seq<char>> {
    keep_word(scan_words(s).0, scan_words(s).1)
}

/// After a start of text or a character outside words, a run of word characters
/// is the open run.
proof fn lemma_scan_run(p: Seq<char>, w: Seq<char>, k: int)
    requires
        p.len() == 0 || !word_char(p.last()),
        0 <= k <= w.len(),
        forall|i: int| 0 <= i < w.len() ==> word_char(#[trigger] w[i]),
    ensures
        scan_words(p + w.take(k)).1 == w.take(k),
    decreases k,
{
    if k == 0 {
        assert(p + w.take(0) =~= p);
        if p.len() > 0 {
            assert(scan_words(p).1 == Seq::<char>::empty());
        }
        assert(w.take(0) =~= Seq::<char>::empty());
    } else {
        lemma_scan_run(p, w, k - 1);
        assert((p + w.take(k)).drop_last() =~= p + w.take(k - 1));
        assert((p + w.take(k)).last() == w[k - 1]);
        assert(w.take(k - 1).push(w[k - 1]) =~= w.take(k));
    }
}

/// Finished keywords stay kept whatever follows.
proof fn lemma_scan_grows(x: Seq<char>, y: Seq<char>)
    ensures
        scan_words(x).0.subset_of(scan_words(x + y).0),
    decreases y.len(),
{
    if y.len() == 0 {
        assert(x + y =~= x);
    } else {
        lemma_scan_grows(x, y.drop_last());
        assert((x + y).drop_last() =~= x + y.drop_last());
    }
}

/// A character outside words ends the open run, which is kept when it counts.
proof fn lemma_scan_ends_run(x: Seq<char>, y: Seq<char>)
    requires
        y.len() > 0,
        !word_char(y[0]),
    ensures
        keep_word(scan_words(x).0, scan_words(x).1).subset_of(scan_words(x + y).0),
{
    let x1 = x.push(y[0]);
    assert(x1.drop_last() =~= x);
    assert(scan_words(x1).0 == keep_word(scan_words(x).0, scan_words(x).1));
    lemma_scan_grows(x1, y.drop_first());
    assert(x1 + y.drop_first() =~= x + y);
}

/// `x` stands in `s` at `i` as a whole run: no word character right before or
/// right after it.
pub open spec fn run_at(s: Seq<char>, x: Seq<char>, i: int) -> bool {
    &&& 0 <= i && i + x.len() <= s.len()
    &&& s.subrange(i, i + x.len()) == x
    &&& (i == 0 || !word_char(s[i - 1]))
    &&& (i + x.len() == s.len() || !word_char(s[i + x.len()]))
}

pub open spec fn all_word_chars(x: Seq<char>) -> bool {
    forall|i: int| 0 <= i < x.len() ==> word_char(#[trigger] x[i])
}

/// What scanning keeps are runs of 2 to 32 word characters that end before the
/// end of the text; the open run is the word characters that end the text.
proof fn lemma_scan_sound(s: Seq<char>)
    ensures
        forall|w: Seq<char>| #[trigger] scan_words(s).0.contains(w) ==> 2 <= w.len() <= 32
            && all_word_chars(w)
            && exists|i: int| run_at(s, w, i) && i + w.len() < s.len(),
        all_word_chars(scan_words(s).1),
        scan_words(s).1.len() <= s.len(),
        s.skip(s.len() - scan_words(s).1.len()) == scan_words(s).1,
        scan_words(s).1.len() == s.len() || !word_char(s[s.len() - scan_words(s).1.len() - 1]),
    decreases s.len(),
{
    if s.len() == 0 {
        assert(s.skip(0) =~= Seq::<char>::empty());
    } else {
        let p = s.drop_last();
        let c = s.last();
        lemma_scan_sound(p);
        let (done, current) = scan_words(p);
        let n = p.len();
        // Runs found before stay runs of the longer text.
        assert forall|w: Seq<char>| #[trigger] done.contains(w) implies exists|i: int| run_at(s, w, i) && i + w.len() < s.len() by {
            let i = choose|i: int| run_at(p, w, i) && i + w.len() < p.len();
            assert(s.subrange(i, i + w.len()) =~= p.subrange(i, i + w.len()));
            if i > 0 {
                assert(s[i - 1] == p[i - 1]);
            }
            assert(s[i + w.len()] == p[i + w.len()]);
            assert(run_at(s, w, i));
        }
        if word_char(c) {
            let cur = current.push(c);
            assert forall|i: int| 0 <= i < cur.len() implies word_char(#[trigger] cur[i]) by {
                if i < current.len() {
                    assert(cur[i] == current[i]);
                }
            }
            assert(s.skip(s.len() - cur.len()) =~= p.skip(n - current.len()).push(c));
            if cur.len() < s.len() {
                assert(s[s.len() - cur.len() - 1] == p[n - current.len() - 1]);
            }
        } else {
            assert(s.skip(s.len() as int) =~= Seq::<char>::empty());
            if 2 <= current.len() <= 32 {
                let i = n - current.len();
                assert(s.subrange(i, i + current.len()) =~= p.skip(i));
                if i > 0 {
                    assert(s[i - 1] == p[i - 1]);
                }
                assert(s[i + current.len()] == c);
                assert(run_at(s, current, i));
            }
        }
    }
}

/// The keywords of a text are exactly its whole runs of 2 to 32 word characters:
/// every such run that stands between the start of the text or a character
/// outside words and the end of the text or such a character is a keyword, the
/// last run of the text included; and every keyword is such a run of the text.
pub proof fn lemma_keyword_runs(p: Seq<char>, w: Seq<char>, q: Seq<char>)
    requires
        p.len() == 0 || !word_char(p.last()),
        q.len() == 0 || !word_char(q[0]),
        2 <= w.len() <= 32,
        all_word_chars(w),
    ensures
        keyword_set(p + w + q).contains(w),
{
    lemma_scan_run(p, w, w.len() as int);
    assert(w.take(w.len() as int) =~= w);
    let s = p + w + q;
    if q.len() == 0 {
        assert(s =~= p + w);
    } else {
        lemma_scan_ends_run(p + w, q);
        assert(scan_words(s).0.contains(w));
    }
}

/// Every keyword of a text is a whole run of 2 to 32 word characters of the text.
pub proof fn lemma_keywords_are_runs(s: Seq<char>)
    ensures
        forall|x: Seq<char>| #[trigger] keyword_set(s).contains(x) ==> 2 <= x.len() <= 32 && all_word_chars(x)
            && exists|i: int| run_at(s, x, i),
{
    lemma_scan_sound(s);
    let (done, current) = scan_words(s);
    assert forall|x: Seq<char>| #[trigger] keyword_set(s).contains(x) implies 2 <= x.len() <= 32 && all_word_chars(x)
        && exists|i: int| run_at(s, x, i) by {
        if done.contains(x) {
            let i = choose|i: int| run_at(s, x, i) && i + x.len() < s.len();
            assert(run_at(s, x, i));
        } else {
            assert(x == current);
            let i = s.len() - current.len();
            assert(s.subrange(i, i + current.len()) =~= s.skip(i));
            assert(run_at(s, x, i));
        }
    }
}

/// The first keywords in ascending order, at most eighty, of the lowercased text.
pub open spec fn first_keywords(content: Seq<char>, r: Seq<Seq<char>>) -> bool {
    exists|all: Seq<Seq<char>>|
        strictly_sorted(all) && all.to_set() == keyword_set(unicode_lowercase(content)) && r == all.take(
            if all.len() < 80 {
                all.len() as int
            } else {
                80
            },
        )
}

pub fn extract_keywords(content: &str) -> (r: Vec<String>)
    ensures
        first_keywords(content@, strings_view(r@)),
{
    let lower = to_lowercase(content);
    let v = chars_of(lower.as_str());
    let mut words: Vec<String> = Vec::new();
    let mut current: Vec<char> = Vec::new();
    let mut i: usize = 0;
    proof {
        assert(v@.take(0) =~= Seq::<char>::empty());
        assert(strings_view(words@) =~= Seq::<Seq<char>>::empty());
        assert(strings_view(words@).to_set() =~= Set::<Seq<char>>::empty());
        assert(current@ =~= Seq::<char>::empty());
    }
    while i < v.len()
        invariant
            i <= v@.len(),
            strictly_sorted(strings_view(words@)),
            strings_view(words@).to_set() == scan_words(v@.take(i as int)).0,
            current@ == scan_words(v@.take(i as int)).1,
        decreases v.len() - i,
    {
        let c = v[i];
        proof {
            assert(v@.take(i + 1).drop_last() =~= v@.take(i as int));
            assert(v@.take(i + 1).last() == c);
        }
        if is_alphanumeric(c) || c == '_' || c == '-' {
            current.push(c);
        } else {
            push_keyword(&mut words, &mut current);
            proof {
                assert(current@ =~= Seq::<char>::empty());
            }
        }
        i = i + 1;
    }
    push_keyword(&mut words, &mut current);
    proof {
        assert(v@.take(v@.len() as int) =~= v@);
    }
    let n = words.len();
    let limit: usize = if n < 80 {
        n
    } else {
        80
    };
    let mut out: Vec<String> = Vec::new();
    let mut k: usize = 0;
    while k < limit
        invariant
            k <= limit <= words@.len(),
            out@.len() == k,
            forall|j: int| 0 <= j < k ==> (#[trigger] out@[j])@ == words@[j]@,
        decreases limit - k,
    {
        out.push(words[k].clone());
        k = k + 1;
    }
    proof {
        let all = strings_view(words@);
        assert(strings_view(out@) =~= all.take(limit as int));
        assert(first_keywords(content@, strings_view(out@)));
    }
    out
}

/// The non-blank tags a memo payload lists under `tags`, trimmed, in order.
pub open spec fn payload_tags(payload: JsonView) -> Seq<Seq<char>> {
    match json_get(payload, "tags"@) {
        Some(JsonView::Array(items)) => tag_texts(items),
        _ => Seq::empty(),
    }
}

pub open spec fn tag_texts(items: Seq<JsonView>) -> Seq<Seq<char>>
    decreases items.len(),
{
    if items.len() == 0 {
        Seq::empty()
    } else {
        let prev = tag_texts(items.drop_last());
        match items.last() {
            JsonView::Str(s) => if trim(s).len() > 0 {
                prev.push(trim(s))
            } else {
                prev
            },
            _ => prev,
        }
    }
}

/// The string entries of `items`, trimmed, that are not blank, in order.
pub fn trimmed_texts(items: &Vec<Json>) -> (r: Vec<String>)
    ensures
        strings_view(r@) == tag_texts(items_view(items@)),
{
    let mut out: Vec<String> = Vec::new();
    let ghost iv = items_view(items@);
    let mut i: usize = 0;
    proof {
        assert(iv.take(0) =~= Seq::<JsonView>::empty());
        assert(strings_view(out@) =~= Seq::<Seq<char>>::empty());
    }
    while i < items.len()
        invariant
            i <= items@.len(),
            iv == items_view(items@),
            strings_view(out@) == tag_texts(iv.take(i as int)),
        decreases items.len() - i,
    {
        proof {
            assert(iv.take(i + 1).drop_last() =~= iv.take(i as int));
            assert(iv.take(i + 1).last() == items@[i as int]@);
        }
        match &items[i] {
            Json::Str(s) => {
                let t = trim_str(s.as_str());
                if t.as_str().unicode_len() > 0 {
                    let ghost prev = strings_view(out@);
                    let ghost tv = t@;
                    out.push(t);
                    proof {
                        assert(strings_view(out@) =~= prev.push(tv));
                    }
                }
            },
            _ => {},
        }
        i = i + 1;
    }
    proof {
        assert(iv.take(i as int) =~= iv);
    }
    out
}

pub fn extract_payload_tags(payload: &Json) -> (r: Vec<String>)
    ensures
        strings_view(r@) == payload_tags(payload@),
{
    let field = get_field(payload, "tags");
    match field {
        Some(j) => match j {
            Json::Array(items) => {
                proof {
                    assert(j@->Array_0 =~= items_view(items@));
                    assert(json_get(payload@, "tags"@) == Some(JsonView::Array(items_view(items@))));
                }
                trimmed_texts(items)
            },
            _ => {
                let out: Vec<String> = Vec::new();
                proof {
                    assert(strings_view(out@) =~= Seq::<Seq<char>>::empty());
                }
                out
            },
        },
        None => {
            let out: Vec<String> = Vec::new();
            proof {
                assert(strings_view(out@) =~= Seq::<Seq<char>>::empty());
            }
            out
        },
    }
}

/// The tags a memo payload lists, trimmed, non-blank, each once, in order.
pub open spec fn distinct_tags(tags: Seq<Seq<char>>) -> Seq<Seq<char>>
    decreases tags.len(),
{
    if tags.len() == 0 {
        Seq::empty()
    } else {
        let prev = distinct_tags(tags.drop_last());
        if prev.contains(tags.last()) {
            prev
        } else {
            prev.push(tags.last())
        }
    }
}

fn contains_text(v: &Vec<String>, s: &str) -> (b: bool)
    ensures
        b == strings_view(v@).contains(s@),
{
    let mut i: usize = 0;
    while i < v.len()
        invariant
            i <= v@.len(),
            forall|j: int| 0 <= j < i ==> v@[j]@ != s@,
        decreases v.len() - i,
    {
        if str_eq(v[i].as_str(), s) {
            proof {
                assert(strings_view(v@)[i as int] == s@);
            }
            return true;
        }
        i = i + 1;
    }
    proof {
        if strings_view(v@).contains(s@) {
            let k = choose|k: int| 0 <= k < strings_view(v@).len() && strings_view(v@)[k] == s@;
            assert(v@[k]@ == s@);
        }
    }
    false
}

/// `texts` with repeats dropped, first occurrences kept in order.
pub fn dedupe_texts(tags: &Vec<String>) -> (r: Vec<String>)
    ensures
        strings_view(r@) == distinct_tags(strings_view(tags@)),
{
    let ghost tv = strings_view(tags@);
    let mut out: Vec<String> = Vec::new();
    let mut i: usize = 0;
    proof {
        assert(tv.take(0) =~= Seq::<Seq<char>>::empty());
        assert(strings_view(out@) =~= Seq::<Seq<char>>::empty());
    }
    while i < tags.len()
        invariant
            i <= tags@.len(),
            tv == strings_view(tags@),
            strings_view(out@) == distinct_tags(tv.take(i as int)),
        decreases tags.len() - i,
    {
        proof {
            assert(tv.take(i + 1).drop_last() =~= tv.take(i as int));
            assert(tv.take(i + 1).last() == tags@[i as int]@);
        }
        if !contains_text(&out, tags[i].as_str()) {
            let ghost prev = strings_view(out@);
            out.push(tags[i].clone());
            proof {
                assert(strings_view(out@) =~= prev.push(tags@[i as int]@));
            }
        }
        i = i + 1;
    }
    proof {
        assert(tv.take(i as int) =~= tv);
    }
    out
}

/// The tags the memo search index stores for a payload.
pub fn memo_tags_from_payload(payload: &Json) -> (r: Vec<String>)
    ensures
        strings_view(r@) == distinct_tags(payload_tags(payload@)),
{
    let tags = extract_payload_tags(payload);
    dedupe_texts(&tags)
}

/// How many entries of `a` also occur in `b`.
pub open spec fn shared_count(a: Seq<Seq<char>>, b: Seq<Seq<char>>) -> nat
    decreases a.len(),
{
    if a.len() == 0 {
        0
    } else {
        shared_count(a.drop_last(), b) + if b.contains(a.last()) {
            1nat
        } else {
            0nat
        }
    }
}

pub fn count_shared(a: &Vec<String>, b: &Vec<String>) -> (n: usize)
    ensures
        n == shared_count(strings_view(a@), strings_view(b@)),
{
    let ghost av = strings_view(a@);
    let mut n: usize = 0;
    let mut i: usize = 0;
    proof {
        assert(av.take(0) =~= Seq::<Seq<char>>::empty());
    }
    while i < a.len()
        invariant
            i <= a@.len(),
            av == strings_view(a@),
            n == shared_count(av.take(i as int), strings_view(b@)),
            n <= i,
        decreases a.len() - i,
    {
        proof {
            assert(av.take(i + 1).drop_last() =~= av.take(i as int));
            assert(av.take(i + 1).last() == a@[i as int]@);
        }
        if contains_text(b, a[i].as_str()) {
            n = n + 1;
        }
        i = i + 1;
    }
    proof {
        assert(av.take(i as int) =~= av);
    }
    n
}

/// A memo as a relation candidate: its uid, content, payload and update time.
#[derive(Debug)]
pub struct RelationCandidate {
    pub uid: String,
    pub content: String,
    pub payload: Json,
    pub updated_ts: i64,
}

pub fn relation_candidate_from_memo(memo: &DbMemo) -> (c: RelationCandidate)
    ensures
        c.uid@ == memo.uid@,
        c.content@ == memo.content@,
        c.payload@ == memo.payload@,
        c.updated_ts == memo.updated_ts,
{
    RelationCandidate {
        uid: memo.uid.clone(),
        content: memo.content.clone(),
        payload: clone_json(&memo.payload),
        updated_ts: memo.updated_ts,
    }
}

/// How a candidate memo relates to the memo being related: `None` for the memo
/// itself and for blank memos; otherwise how many of its tags and of its keywords
/// the memo shares.
pub fn candidate_overlap(current_uid: &str, current_tags: &Vec<String>, current_keywords: &Vec<String>, candidate: &RelationCandidate) -> (r: Option<(usize, usize)>)
    ensures
        r is None <==> (candidate.uid@ == current_uid@ || trim(candidate.content@).len() == 0),
        r matches Some((t, k)) ==> {
            &&& t == shared_count(payload_tags(candidate.payload@), strings_view(current_tags@))
            &&& exists|kws: Seq<Seq<char>>| first_keywords(candidate.content@, kws) && k == shared_count(kws, strings_view(current_keywords@))
        },
{
    if str_eq(candidate.uid.as_str(), current_uid) {
        return None;
    }
    let t = trim_str(candidate.content.as_str());
    if t.as_str().unicode_len() == 0 {
        return None;
    }
    let tags = extract_payload_tags(&candidate.payload);
    let keywords = extract_keywords(candidate.content.as_str());
    let shared_tags = count_shared(&tags, current_tags);
    let shared_keywords = count_shared(&keywords, current_keywords);
    Some((shared_tags, shared_keywords))
}

} // verus!
