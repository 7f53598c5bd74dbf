use vstd::prelude::*;
use crate::text::{chars_of, string_of, sub_chars, find_chars, occurs_at, contains_seq, ws_words, split_whitespace, trim, trim_chars, trim_end, is_ws, is_whitespace, trim_start, lemma_char_index, join_with, join_chars, strip_leading, strip_leading_char, take_chars, take_chars_exec, push_all, push_str, char_index, find_char};
use crate::json::{Json, JsonView, ObjectBuilder, object_of, obj_from, obj_insert, obj_get, fields_view, items_view, insert_field, json_array};
use crate::unicode::{unicode_alphanumeric, is_alphanumeric};

verus! {

/// Characters a tag keeps at its ends.
pub open spec fn tag_char(c: char) -> bool {
    unicode_alphanumeric(c) || c == '_' || c == '-' || c == '/'
}

pub open spec fn strip_non_tag_start(s: Seq<char>) -> Seq<char>
    decreases s.len(),
{
    if s.len() > 0 && !tag_char(s[0]) {
        strip_non_tag_start(s.drop_first())
    } else {
        s
    }
}

pub open spec fn strip_non_tag_end(s: Seq<char>) -> Seq<char>
    decreases s.len(),
{
    if s.len() > 0 && !tag_char(s.last()) {
        strip_non_tag_end(s.drop_last())
    } else {
        s
    }
}

/// The tag a word names: a word `#name`, cut down to the tag characters at its ends.
pub open spec fn tag_of_word(w: Seq<char>) -> Option<Seq<char>> {
    if w.len() > 0 && w[0] == '#' {
        let t = strip_non_tag_end(strip_non_tag_start(w.skip(1)));
        if t.len() > 0 {
            Some(t)
        } else {
            None
        }
    } else {
        None
    }
}

/// The tags named by `words`, in order, repeats included.
pub open spec fn word_tags(words: Seq<Seq<char>>) -> Seq<Seq<char>>
    decreases words.len(),
{
    if words.len() == 0 {
        Seq::empty()
    } else {
        let t = word_tags(words.drop_last());
        match tag_of_word(words.last()) {
            Some(x) => t.push(x),
            None => t,
        }
    }
}

/// Tags sorted and without repeats, as a sorted set holds them.
pub open spec fn tag_set(tags: Seq<Seq<char>>) -> Seq<Seq<char>> {
    let o = obj_from(Seq::new(tags.len(), |i: int| (tags[i], JsonView::Null)));
    Seq::new(o.len(), |i: int| o[i].0)
}

/// The tags written in a memo.
pub open spec fn content_tags(content: Seq<char>) -> Seq<Seq<char>> {
    tag_set(word_tags(ws_words(content)))
}

proof fn lemma_obj_get_some(f: Seq<(Seq<char>, JsonView)>, x: Seq<char>)
    ensures
        obj_get(f, x) is Some <==> exists|i: int| 0 <= i < f.len() && f[i].0 == x,
    decreases f.len(),
{
    if f.len() > 0 {
        lemma_obj_get_some(f.drop_first(), x);
        if exists|i: int| 0 <= i < f.len() && f[i].0 == x {
            let i = choose|i: int| 0 <= i < f.len() && f[i].0 == x;
            if i > 0 {
                assert(f.drop_first()[i - 1] == f[i]);
            }
        }
        if exists|i: int| 0 <= i < f.drop_first().len() && f.drop_first()[i].0 == x {
            let i = choose|i: int| 0 <= i < f.drop_first().len() && f.drop_first()[i].0 == x;
            assert(f[i + 1] == f.drop_first()[i]);
        }
    }
}

proof fn lemma_obj_from_keys(pairs: Seq<(Seq<char>, JsonView)>, x: Seq<char>)
    ensures
        obj_get(obj_from(pairs), x) is Some <==> exists|i: int| 0 <= i < pairs.len() && pairs[i].0 == x,
    decreases pairs.len(),
{
    if pairs.len() > 0 {
        let prev = pairs.drop_last();
        lemma_obj_from_keys(prev, x);
        if x == pairs.last().0 {
            crate::json::lemma_obj_get_insert_same(obj_from(prev), x, pairs.last().1);
            assert(pairs[pairs.len() - 1].0 == x);
        } else {
            crate::json::lemma_obj_get_insert_other(obj_from(prev), pairs.last().0, pairs.last().1, x);
            if exists|i: int| 0 <= i < pairs.len() && pairs[i].0 == x {
                let i = choose|i: int| 0 <= i < pairs.len() && pairs[i].0 == x;
                assert(i < pairs.len() - 1);
                assert(prev[i] == pairs[i]);
            }
            if exists|i: int| 0 <= i < prev.len() && prev[i].0 == x {
                let i = choose|i: int| 0 <= i < prev.len() && prev[i].0 == x;
                assert(pairs[i] == prev[i]);
            }
        }
    }
}

proof fn lemma_word_tags_members(words: Seq<Seq<char>>, x: Seq<char>)
    ensures
        word_tags(words).contains(x) <==> exists|k: int| 0 <= k < words.len() && tag_of_word(words[k]) == Some(x),
    decreases words.len(),
{
    if words.len() > 0 {
        let prev = words.drop_last();
        lemma_word_tags_members(prev, x);
        let t = word_tags(prev);
        if word_tags(words).contains(x) {
            match tag_of_word(words.last()) {
                Some(y) => {
                    let i = choose|i: int| 0 <= i < word_tags(words).len() && word_tags(words)[i] == x;
                    if i < t.len() {
                        assert(t[i] == x);
                        let k = choose|k: int| 0 <= k < prev.len() && tag_of_word(prev[k]) == Some(x);
                        assert(words[k] == prev[k]);
                    } else {
                        assert(words[words.len() - 1] == words.last());
                    }
                },
                None => {
                    let k = choose|k: int| 0 <= k < prev.len() && tag_of_word(prev[k]) == Some(x);
                    assert(words[k] == prev[k]);
                },
            }
        }
        if exists|k: int| 0 <= k < words.len() && tag_of_word(words[k]) == Some(x) {
            let k = choose|k: int| 0 <= k < words.len() && tag_of_word(words[k]) == Some(x);
            if k < words.len() - 1 {
                assert(prev[k] == words[k]);
                assert(t.contains(x));
                let i = choose|i: int| 0 <= i < t.len() && t[i] == x;
                match tag_of_word(words.last()) {
                    Some(y) => {
                        assert(word_tags(words)[i] == x);
                    },
                    None => {},
                }
            } else {
                assert(words.last() == words[k]);
                assert(word_tags(words) == t.push(x));
                assert(word_tags(words)[t.len() as int] == x);
            }
        }
    }
}

/// A memo's tags are listed in ascending order, each once, and a text is one of
/// them exactly when some white-space-separated word of the content is `#`
/// followed by it (cut down to tag characters at its ends).
pub proof fn lemma_content_tags_sorted_set(content: Seq<char>)
    ensures
        forall|i: int, j: int| 0 <= i < j < content_tags(content).len()
            ==> crate::json::key_lt(#[trigger] content_tags(content)[i], #[trigger] content_tags(content)[j]),
        forall|x: Seq<char>| content_tags(content).contains(x) <==> exists|k: int|
            0 <= k < ws_words(content).len() && tag_of_word(#[trigger] ws_words(content)[k]) == Some(x),
{
    let tags = word_tags(ws_words(content));
    let pairs = Seq::new(tags.len(), |i: int| (tags[i], JsonView::Null));
    let o = obj_from(pairs);
    let ct = content_tags(content);
    crate::json::lemma_obj_from_sorted(pairs);
    assert forall|i: int, j: int| 0 <= i < j < ct.len() implies crate::json::key_lt(#[trigger] ct[i], #[trigger] ct[j]) by {
        assert(ct[i] == o[i].0 && ct[j] == o[j].0);
    }
    assert forall|x: Seq<char>| ct.contains(x) <==> exists|k: int|
        0 <= k < ws_words(content).len() && tag_of_word(#[trigger] ws_words(content)[k]) == Some(x) by {
        lemma_obj_get_some(o, x);
        lemma_obj_from_keys(pairs, x);
        lemma_word_tags_members(ws_words(content), x);
        if ct.contains(x) {
            let i = choose|i: int| 0 <= i < ct.len() && ct[i] == x;
            assert(o[i].0 == x);
            let j = choose|j: int| 0 <= j < pairs.len() && pairs[j].0 == x;
            assert(tags[j] == x);
        }
        if tags.contains(x) {
            let j = choose|j: int| 0 <= j < tags.len() && tags[j] == x;
            assert(pairs[j].0 == x);
            let i = choose|i: int| 0 <= i < o.len() && o[i].0 == x;
            assert(ct[i] == x);
        }
    }
}

pub open spec fn str_array(items: Seq<Seq<char>>) -> JsonView {
    JsonView::Array(Seq::new(items.len(), |i: int| JsonView::Str(items[i])))
}

/// The facts a memo's payload records about its content.
pub open spec fn property_fields(content: Seq<char>) -> Seq<(Seq<char>, JsonView)> {
    seq![
        ("hasTaskList"@, JsonView::Bool(contains_seq(content, "- ["@) || contains_seq(content, "* ["@))),
        ("hasLink"@, JsonView::Bool(contains_seq(content, "http://"@) || contains_seq(content, "https://"@))),
        ("hasCode"@, JsonView::Bool(contains_seq(content, "```"@) || contains_seq(content, "`"@))),
        ("hasIncompleteTasks"@, JsonView::Bool(contains_seq(content, "[ ]"@))),
    ]
}

/// The payload stored with a memo: its tags and content properties.
pub open spec fn memo_payload(content: Seq<char>) -> JsonView {
    object_of(
        seq![
            ("tags"@, str_array(content_tags(content))),
            ("property"@, object_of(property_fields(content))),
        ],
    )
}

fn strip_non_tag(v: &[char]) -> (r: Vec<char>)
    ensures
        r@ == strip_non_tag_end(strip_non_tag_start(v@)),
{
    let mut i: usize = 0;
    proof {
        assert(v@.skip(0) =~= v@);
    }
    while i < v.len() && !(is_alphanumeric(v[i]) || v[i] == '_' || v[i] == '-' || v[i] == '/')
        invariant
            i <= v@.len(),
            strip_non_tag_start(v@) == strip_non_tag_start(v@.skip(i as int)),
        decreases v.len() - i,
    {
        proof {
            assert(v@.skip(i as int).drop_first() =~= v@.skip(i + 1));
        }
        i = i + 1;
    }
    let ghost rest = v@.skip(i as int);
    let mut j: usize = v.len();
    proof {
        assert(rest.take(rest.len() as int) =~= rest);
    }
    while j > i && !(is_alphanumeric(v[j - 1]) || v[j - 1] == '_' || v[j - 1] == '-' || v[j - 1] == '/')
        invariant
            i <= j <= v@.len(),
            rest == v@.skip(i as int),
            strip_non_tag_end(rest) == strip_non_tag_end(rest.take(j - i)),
        decreases j,
    {
        proof {
            assert(rest.take(j - i).drop_last() =~= rest.take(j - i - 1));
            assert(rest[j - i - 1] == v@[j - 1]);
        }
        j = j - 1;
    }
    let r = sub_chars(v, i, j);
    proof {
        assert(r@ =~= rest.take(j - i));
    }
    r
}

fn tag_of_word_exec(w: &[char]) -> (r: Option<Vec<char>>)
    ensures
        match r {
            Some(t) => tag_of_word(w@) == Some(t@),
            None => tag_of_word(w@) is None,
        },
{
    if w.len() > 0 && w[0] == '#' {
        let body = sub_chars(w, 1, w.len());
        proof {
            assert(body@ =~= w@.skip(1));
        }
        let t = strip_non_tag(&body);
        if t.len() > 0 {
            Some(t)
        } else {
            None
        }
    } else {
        None
    }
}

proof fn lemma_obj_from_push(pairs: Seq<(Seq<char>, JsonView)>, k: Seq<char>, v: JsonView)
    ensures
        obj_from(pairs.push((k, v))) == obj_insert(obj_from(pairs), k, v),
{
    assert(pairs.push((k, v)).drop_last() =~= pairs);
}

/// The sorted, repeat-free set of `tags`.
fn sorted_tag_set(tags: &Vec<Vec<char>>) -> (r: Vec<String>)
    ensures
        r@.len() == tag_set(Seq::new(tags@.len(), |i: int| tags@[i]@)).len(),
        forall|i: int| 0 <= i < r@.len() ==> (#[trigger] r@[i])@ == tag_set(Seq::new(tags@.len(), |i: int| tags@[i]@))[i],
{
    let ghost ts = Seq::new(tags@.len(), |i: int| tags@[i]@);
    let ghost pairs = Seq::new(ts.len(), |i: int| (ts[i], JsonView::Null));
    let mut fields: Vec<(String, Json)> = Vec::new();
    let mut i: usize = 0;
    proof {
        assert(pairs.take(0) =~= Seq::<(Seq<char>, JsonView)>::empty());
        assert(fields_view(fields@) =~= obj_from(pairs.take(0)));
    }
    while i < tags.len()
        invariant
            i <= tags@.len(),
            ts == Seq::new(tags@.len(), |i: int| tags@[i]@),
            pairs == Seq::new(ts.len(), |i: int| (ts[i], JsonView::Null)),
            fields_view(fields@) == obj_from(pairs.take(i as int)),
        decreases tags.len() - i,
    {
        let key = string_of(&tags[i]);
        insert_field(&mut fields, key, Json::Null);
        proof {
            assert(pairs.take(i + 1) =~= pairs.take(i as int).push((ts[i as int], JsonView::Null)));
            lemma_obj_from_push(pairs.take(i as int), ts[i as int], JsonView::Null);
        }
        i = i + 1;
    }
    proof {
        assert(pairs.take(pairs.len() as int) =~= pairs);
    }
    let ghost o = fields_view(fields@);
    let mut out: Vec<String> = Vec::new();
    let mut k: usize = 0;
    while k < fields.len()
        invariant
            k <= fields@.len(),
            o == fields_view(fields@),
            o == obj_from(pairs),
            out@.len() == k,
            forall|m: int| 0 <= m < k ==> (#[trigger] out@[m])@ == o[m].0,
        decreases fields.len() - k,
    {
        out.push(fields[k].0.clone());
        k = k + 1;
    }
    out
}

fn contains_text(v: &[char], needle: &str) -> (b: bool)
    ensures
        b == contains_seq(v@, needle@),
{
    let n = chars_of(needle);
    let r = find_chars(v, &n);
    match r {
        Some(i) => {
            proof {
                assert(occurs_at(v@, needle@, i as int));
            }
            true
        },
        None => false,
    }
}

/// The tags of a memo's content, sorted, each once.
pub fn content_tag_list(content: &str) -> (r: Vec<String>)
    ensures
        Seq::new(r@.len(), |m: int| r@[m]@) == content_tags(content@),
{
    let v = chars_of(content);
    let words = split_whitespace(&v);
    let ghost wv = ws_words(v@);
    let mut tags: Vec<Vec<char>> = Vec::new();
    let mut i: usize = 0;
    proof {
        assert(wv.take(0) =~= Seq::<Seq<char>>::empty());
        assert(Seq::new(tags@.len(), |m: int| tags@[m]@) =~= word_tags(wv.take(0)));
    }
    while i < words.len()
        invariant
            i <= words@.len(),
            wv == ws_words(v@),
            words@.len() == wv.len(),
            forall|m: int| 0 <= m < words@.len() ==> (#[trigger] words@[m])@ == wv[m],
            Seq::new(tags@.len(), |m: int| tags@[m]@) == word_tags(wv.take(i as int)),
        decreases words.len() - i,
    {
        let t = tag_of_word_exec(&words[i]);
        proof {
            assert(wv.take(i + 1).drop_last() =~= wv.take(i as int));
            assert(wv.take(i + 1).last() == words@[i as int]@);
        }
        match t {
            Some(tag) => {
                tags.push(tag);
                proof {
                    assert(Seq::new(tags@.len(), |m: int| tags@[m]@) =~= word_tags(wv.take(i as int)).push(tags@.last()@));
                }
            },
            None => {},
        }
        i = i + 1;
    }
    proof {
        assert(wv.take(wv.len() as int) =~= wv);
    }
    let set = sorted_tag_set(&tags);
    proof {
        assert(Seq::new(set@.len(), |m: int| set@[m]@) =~= content_tags(content@));
    }
    set
}

/// A JSON array of the given texts.
pub fn tags_json(tags: &Vec<String>) -> (j: Json)
    ensures
        j@ == str_array(Seq::new(tags@.len(), |m: int| tags@[m]@)),
{
    let ghost tv = Seq::new(tags@.len(), |m: int| tags@[m]@);
    let mut items: Vec<Json> = Vec::new();
    let mut k: usize = 0;
    while k < tags.len()
        invariant
            k <= tags@.len(),
            tv == Seq::new(tags@.len(), |m: int| tags@[m]@),
            items@.len() == k,
            forall|m: int| 0 <= m < k ==> (#[trigger] items@[m])@ == JsonView::Str(tv[m]),
        decreases tags.len() - k,
    {
        items.push(Json::Str(tags[k].clone()));
        k = k + 1;
    }
    let j = json_array(items);
    proof {
        assert(items_view(items@) =~= Seq::new(tv.len(), |m: int| JsonView::Str(tv[m])));
    }
    j
}

/// The facts a memo payload records about its content.
pub fn content_property(content: &str) -> (j: Json)
    ensures
        j@ == object_of(property_fields(content@)),
{
    let v = chars_of(content);
    let task = contains_text(&v, "- [") || contains_text(&v, "* [");
    let link = contains_text(&v, "http://") || contains_text(&v, "https://");
    let code = contains_text(&v, "```") || contains_text(&v, "`");
    let incomplete = contains_text(&v, "[ ]");
    let mut p = ObjectBuilder::new();
    p.add("hasTaskList", Json::Bool(task));
    p.add("hasLink", Json::Bool(link));
    p.add("hasCode", Json::Bool(code));
    p.add("hasIncompleteTasks", Json::Bool(incomplete));
    proof {
        assert(p.pairs() =~= property_fields(content@));
    }
    p.build()
}

/// The payload of a memo: its sorted tags and what its content holds.
pub fn build_memo_payload(content: &str) -> (j: Json)
    ensures
        j@ == memo_payload(content@),
{
    let tags = content_tag_list(content);
    let property = content_property(content);
    let mut b = ObjectBuilder::new();
    b.add("tags", tags_json(&tags));
    b.add("property", property);
    proof {
        assert(b.pairs() =~= seq![
            ("tags"@, str_array(content_tags(content@))),
            ("property"@, object_of(property_fields(content@))),
        ]);
    }
    b.build()
}


/// A tag name as stored: trimmed, without leading `#`, words joined by `-`, at most
/// 64 characters.
pub open spec fn normalized_tag(value: Seq<char>) -> Seq<char> {
    take_chars(join_with(ws_words(strip_leading(trim(value), '#')), "-"@), 64)
}

pub fn normalize_tag_name(value: &str) -> (r: String)
    ensures
        r@ == normalized_tag(value@),
{
    let v = chars_of(value);
    let t = trim_chars(&v);
    let s = strip_leading_char(&t, '#');
    let words = split_whitespace(&s);
    let dash = chars_of("-");
    let joined = join_chars(&words, &dash);
    proof {
        assert(Seq::new(words@.len(), |i: int| words@[i]@) =~= ws_words(s@));
    }
    let cut = take_chars_exec(&joined, 64);
    string_of(&cut)
}

/// How XML text writes one character.
pub open spec fn xml_escape_char(c: char) -> Seq<char> {
    if c == '&' {
        "&amp;"@
    } else if c == '<' {
        "&lt;"@
    } else if c == '>' {
        "&gt;"@
    } else if c == '"' {
        "&quot;"@
    } else if c == '\'' {
        "&apos;"@
    } else {
        seq![c]
    }
}

/// Text escaped for XML.
pub open spec fn xml_escaped(s: Seq<char>) -> Seq<char>
    decreases s.len(),
{
    if s.len() == 0 {
        Seq::empty()
    } else {
        xml_escaped(s.drop_last()) + xml_escape_char(s.last())
    }
}

/// Escapes `&`, `<`, `>`, `"` and `'` for XML.
pub fn escape_xml(value: &str) -> (r: String)
    ensures
        r@ == xml_escaped(value@),
{
    let v = chars_of(value);
    let mut out: Vec<char> = Vec::new();
    let mut i: usize = 0;
    proof {
        assert(v@.take(0) =~= Seq::<char>::empty());
    }
    while i < v.len()
        invariant
            i <= v@.len(),
            out@ == xml_escaped(v@.take(i as int)),
        decreases v.len() - i,
    {
        let c = v[i];
        let ghost before = out@;
        if c == '&' {
            push_str(&mut out, "&amp;");
        } else if c == '<' {
            push_str(&mut out, "&lt;");
        } else if c == '>' {
            push_str(&mut out, "&gt;");
        } else if c == '"' {
            push_str(&mut out, "&quot;");
        } else if c == '\'' {
            push_str(&mut out, "&apos;");
        } else {
            out.push(c);
        }
        proof {
            assert(v@.take(i + 1).drop_last() =~= v@.take(i as int));
            assert(out@ =~= before + xml_escape_char(c));
        }
        i = i + 1;
    }
    proof {
        assert(v@.take(v@.len() as int) =~= v@);
    }
    string_of(&out)
}

/// The first line of a text, as `str::lines` yields it: up to the first `\n`, with a
/// `\r` before that `\n` dropped.
pub open spec fn first_line(s: Seq<char>) -> Seq<char> {
    let i = char_index(s, '\n');
    let l = s.take(i);
    if i < s.len() && l.len() > 0 && l.last() == '\r' {
        l.drop_last()
    } else {
        l
    }
}

pub open spec fn title_noise(c: char) -> bool {
    c == '*' || c == '_' || c == '`' || c == '~'
}

/// `s` without the characters `*`, `_`, `` ` `` and `~`.
pub open spec fn without_noise(s: Seq<char>) -> Seq<char>
    decreases s.len(),
{
    if s.len() == 0 {
        Seq::empty()
    } else if title_noise(s.last()) {
        without_noise(s.drop_last())
    } else {
        without_noise(s.drop_last()).push(s.last())
    }
}

/// A memo's title: its first line without heading marks and emphasis characters, at
/// most 120 characters (marked `...` when cut), or `Memo` when nothing is left.
pub open spec fn memo_title(content: Seq<char>) -> Seq<char> {
    let cleaned = without_noise(trim(strip_leading(trim(first_line(content)), '#')));
    if cleaned.len() == 0 {
        "Memo"@
    } else if cleaned.len() > 120 {
        cleaned.take(120) + "..."@
    } else {
        cleaned
    }
}

proof fn lemma_without_noise_clean(s: Seq<char>)
    ensures
        forall|i: int| 0 <= i < without_noise(s).len() ==> {
            let c = #[trigger] without_noise(s)[i];
            c != '*' && c != '_' && c != '`' && c != '~'
        },
    decreases s.len(),
{
    if s.len() > 0 {
        lemma_without_noise_clean(s.drop_last());
        let w = without_noise(s.drop_last());
        assert forall|i: int| 0 <= i < without_noise(s).len() implies {
            let c = #[trigger] without_noise(s)[i];
            c != '*' && c != '_' && c != '`' && c != '~'
        } by {
            if !title_noise(s.last()) {
                assert(without_noise(s) == w.push(s.last()));
                if i < w.len() {
                    assert(without_noise(s)[i] == w[i]);
                }
            }
        }
    }
}

/// A memo's title never shows the emphasis characters `*`, `_`, `` ` `` and `~`:
/// they are taken out of its first line, and the cut mark and the fallback title
/// hold none; a title is at most 120 characters and the cut mark.
pub proof fn lemma_title_without_emphasis(content: Seq<char>)
    ensures
        forall|i: int| 0 <= i < memo_title(content).len() ==> {
            let c = #[trigger] memo_title(content)[i];
            c != '*' && c != '_' && c != '`' && c != '~'
        },
        memo_title(content).len() <= 123,
{
    let cleaned = without_noise(trim(strip_leading(trim(first_line(content)), '#')));
    lemma_without_noise_clean(trim(strip_leading(trim(first_line(content)), '#')));
    reveal_strlit("Memo");
    reveal_strlit("...");
    if cleaned.len() > 120 {
        let t = memo_title(content);
        assert(t == cleaned.take(120) + "..."@);
        assert forall|i: int| 0 <= i < t.len() implies {
            let c = #[trigger] t[i];
            c != '*' && c != '_' && c != '`' && c != '~'
        } by {
            if i < 120 {
                assert(t[i] == cleaned[i]);
            } else {
                assert(t[i] == "..."@[i - 120]);
            }
        }
    }
}

proof fn lemma_without_noise_keeps(s: Seq<char>)
    requires
        forall|i: int| 0 <= i < s.len() ==> !title_noise(#[trigger] s[i]),
    ensures
        without_noise(s) == s,
    decreases s.len(),
{
    if s.len() > 0 {
        assert forall|i: int| 0 <= i < s.drop_last().len() implies !title_noise(#[trigger] s.drop_last()[i]) by {
            assert(s.drop_last()[i] == s[i]);
        }
        lemma_without_noise_keeps(s.drop_last());
        assert(!title_noise(s[s.len() - 1]));
        assert(s.drop_last().push(s.last()) =~= s);
    }
}

/// A first line that is already a plain title is the title as it stands: when it
/// starts with neither white space nor `#`, ends without white space, holds at
/// most 120 characters and none of `*`, `_`, `` ` `` and `~`, the memo made of that
/// line and a line break before anything else is titled by that line, and so is
/// the memo whose first line is that line as a Markdown heading (`# ` before it).
pub proof fn lemma_plain_title_kept(line: Seq<char>, rest: Seq<char>)
    requires
        0 < line.len() <= 120,
        !is_ws(line[0]) && line[0] != '#',
        !is_ws(line.last()) && line.last() != '\r',
        forall|i: int| 0 <= i < line.len() ==> (#[trigger] line[i]) != '\n' && line[i] != '*' && line[i] != '_'
            && line[i] != '`' && line[i] != '~',
    ensures
        memo_title(line + seq!['\n'] + rest) == line,
        memo_title(seq!['#', ' '] + line + seq!['\n'] + rest) == line,
{
    let heading = seq!['#', ' '] + line;
    let hc = heading + seq!['\n'] + rest;
    assert forall|j: int| 0 <= j < heading.len() implies hc[j] != '\n' by {
        assert(hc[j] == heading[j]);
        if j >= 2 {
            assert(heading[j] == line[j - 2]);
        }
    }
    assert(hc[heading.len() as int] == '\n');
    lemma_char_index(hc, '\n', heading.len() as int);
    assert(hc.take(heading.len() as int) =~= heading);
    assert(heading.last() == line.last());
    assert(first_line(hc) == heading);
    assert(trim_start(heading) == heading);
    assert(trim_end(heading) == heading);
    assert(heading.drop_first() =~= seq![' '] + line);
    assert((seq![' '] + line)[0] == ' ');
    assert(strip_leading(seq![' '] + line, '#') == seq![' '] + line);
    assert(strip_leading(heading, '#') == seq![' '] + line);
    assert((seq![' '] + line).drop_first() =~= line);
    assert(trim_start(seq![' '] + line) == trim_start(line));
    assert(trim_start(line) == line);
    assert((seq![' '] + line).last() == line.last());
    assert(trim_end(line) == line);
    assert(trim(seq![' '] + line) == line);
    let content = line + seq!['\n'] + rest;
    assert forall|j: int| 0 <= j < line.len() implies content[j] != '\n' by {
        assert(content[j] == line[j]);
    }
    assert(content[line.len() as int] == '\n');
    lemma_char_index(content, '\n', line.len() as int);
    assert(content.take(line.len() as int) =~= line);
    assert(first_line(content) == line);
    assert(trim_start(line) == line);
    assert(trim_end(line) == line);
    assert(trim(line) == line);
    assert(strip_leading(line, '#') == line);
    assert forall|i: int| 0 <= i < line.len() implies !title_noise(#[trigger] line[i]) by {}
    lemma_without_noise_keeps(line);
}

pub fn extract_title(content: &str) -> (r: String)
    ensures
        r@ == memo_title(content@),
{
    let v = chars_of(content);
    let i = find_char(&v, '\n');
    let mut line = sub_chars(&v, 0, i);
    proof {
        assert(line@ =~= v@.take(i as int));
    }
    if i < v.len() && line.len() > 0 && line[line.len() - 1] == '\r' {
        line = sub_chars(&line, 0, line.len() - 1);
        proof {
            assert(line@ =~= v@.take(i as int).drop_last());
        }
    }
    let t = trim_chars(&line);
    let s = strip_leading_char(&t, '#');
    let t2 = trim_chars(&s);
    let mut cleaned: Vec<char> = Vec::new();
    let mut k: usize = 0;
    proof {
        assert(t2@.take(0) =~= Seq::<char>::empty());
    }
    while k < t2.len()
        invariant
            k <= t2@.len(),
            cleaned@ == without_noise(t2@.take(k as int)),
        decreases t2.len() - k,
    {
        let c = t2[k];
        proof {
            assert(t2@.take(k + 1).drop_last() =~= t2@.take(k as int));
        }
        if !(c == '*' || c == '_' || c == '`' || c == '~') {
            cleaned.push(c);
        }
        k = k + 1;
    }
    proof {
        assert(t2@.take(t2@.len() as int) =~= t2@);
    }
    if cleaned.len() == 0 {
        "Memo".to_owned()
    } else if cleaned.len() > 120 {
        let mut head = sub_chars(&cleaned, 0, 120);
        push_str(&mut head, "...");
        proof {
            assert(cleaned@.subrange(0, 120) =~= cleaned@.take(120));
        }
        string_of(&head)
    } else {
        string_of(&cleaned)
    }
}


/// `str::split_inclusive` on white space: pieces that each end with one white-space
/// character, except perhaps the last.
pub open spec fn inclusive_tokens(s: Seq<char>) -> Seq<Seq<char>>
    decreases s.len(),
{
    if s.len() == 0 {
        Seq::empty()
    } else {
        let t = inclusive_tokens(s.drop_last());
        if t.len() > 0 && t.last().len() > 0 && !is_ws(t.last().last()) {
            t.update(t.len() - 1, t.last().push(s.last()))
        } else {
            t.push(seq![s.last()])
        }
    }
}

/// One token with the tag `#from` renamed to `#to`, keeping its trailing white space.
pub open spec fn rename_tag_token(tok: Seq<char>, from: Seq<char>, to: Seq<char>) -> Seq<char> {
    let trimmed = trim_end(tok);
    if trimmed == seq!['#'] + from {
        seq!['#'] + to + tok.skip(trimmed.len() as int)
    } else {
        tok
    }
}

pub open spec fn renamed_tokens(tokens: Seq<Seq<char>>, from: Seq<char>, to: Seq<char>) -> Seq<char>
    decreases tokens.len(),
{
    if tokens.len() == 0 {
        Seq::empty()
    } else {
        renamed_tokens(tokens.drop_last(), from, to) + rename_tag_token(tokens.last(), from, to)
    }
}

/// The content with every whole-word tag `#from` renamed to `#to`.
pub open spec fn content_with_renamed_tag(content: Seq<char>, from: Seq<char>, to: Seq<char>) -> Seq<char> {
    renamed_tokens(inclusive_tokens(content), from, to)
}

proof fn lemma_tokens_last(s: Seq<char>)
    requires
        s.len() > 0,
    ensures
        inclusive_tokens(s).len() > 0,
        inclusive_tokens(s).last().len() > 0,
        inclusive_tokens(s).last().last() == s.last(),
{
}

proof fn lemma_tokens_word(p: Seq<char>, w: Seq<char>, k: int)
    requires
        p.len() == 0 || is_ws(p.last()),
        1 <= k <= w.len(),
        forall|i: int| 0 <= i < w.len() ==> !is_ws(#[trigger] w[i]),
    ensures
        inclusive_tokens(p + w.take(k)) == inclusive_tokens(p).push(w.take(k)),
    decreases k,
{
    let s = p + w.take(k);
    assert(s.drop_last() =~= p + w.take(k - 1));
    assert(s.last() == w[k - 1]);
    if k == 1 {
        assert(p + w.take(0) =~= p);
        if p.len() > 0 {
            lemma_tokens_last(p);
        }
        assert(seq![w[0]] =~= w.take(1));
    } else {
        lemma_tokens_word(p, w, k - 1);
        let t = inclusive_tokens(p).push(w.take(k - 1));
        assert(t.last() == w.take(k - 1));
        assert(!is_ws(w[k - 2]));
        assert(w.take(k - 1).push(w[k - 1]) =~= w.take(k));
        assert(t.update(t.len() - 1, t.last().push(w[k - 1])) =~= inclusive_tokens(p).push(w.take(k)));
    }
}

/// Renaming reaches a tag that ends the text: whatever text `p` comes before it
/// (empty or ending in white space), renaming `#from` to `#to` in `p` followed by
/// the word `#from` gives the renamed `p` followed by `#to`, so a tag is renamed
/// whether or not white space follows it. Any other word that ends the text is
/// kept as it is.
pub proof fn lemma_rename_final_tag(p: Seq<char>, from: Seq<char>, to: Seq<char>)
    requires
        p.len() == 0 || is_ws(p.last()),
        forall|i: int| 0 <= i < from.len() ==> !is_ws(#[trigger] from[i]),
    ensures
        content_with_renamed_tag(p + seq!['#'] + from, from, to) == content_with_renamed_tag(p, from, to) + seq!['#'] + to,
{
    let w = seq!['#'] + from;
    assert forall|i: int| 0 <= i < w.len() implies !is_ws(#[trigger] w[i]) by {
        if i > 0 {
            assert(w[i] == from[i - 1]);
        }
    }
    lemma_rename_final_word(p, w, from, to);
    assert(p + seq!['#'] + from =~= p + w);
}

/// The last word of a text: `#from` becomes `#to`, any other word is kept.
pub proof fn lemma_rename_final_word(p: Seq<char>, w: Seq<char>, from: Seq<char>, to: Seq<char>)
    requires
        p.len() == 0 || is_ws(p.last()),
        w.len() > 0,
        forall|i: int| 0 <= i < w.len() ==> !is_ws(#[trigger] w[i]),
    ensures
        w == seq!['#'] + from ==> content_with_renamed_tag(p + w, from, to) == content_with_renamed_tag(p, from, to) + seq!['#'] + to,
        w != seq!['#'] + from ==> content_with_renamed_tag(p + w, from, to) == content_with_renamed_tag(p, from, to) + w,
{
    lemma_tokens_word(p, w, w.len() as int);
    assert(w.take(w.len() as int) =~= w);
    let t = inclusive_tokens(p).push(w);
    assert(t.drop_last() =~= inclusive_tokens(p));
    assert(trim_end(w) == w);
    assert(w.skip(w.len() as int) =~= Seq::<char>::empty());
    if w == seq!['#'] + from {
        assert(rename_tag_token(w, from, to) =~= seq!['#'] + to);
    }
}

/// White space on its own is kept as it is.
pub proof fn lemma_rename_keeps_space(c: char, from: Seq<char>, to: Seq<char>)
    requires
        is_ws(c),
    ensures
        content_with_renamed_tag(seq![c], from, to) == seq![c],
{
    assert(seq![c].drop_last() =~= Seq::<char>::empty());
    assert(inclusive_tokens(Seq::<char>::empty()) == Seq::<Seq<char>>::empty());
    assert(seq![c].last() == c);
    assert(Seq::<Seq<char>>::empty().push(seq![c]) =~= seq![seq![c]]);
    assert(inclusive_tokens(seq![c]) =~= seq![seq![c]]);
    assert(seq![seq![c]].drop_last() =~= Seq::<Seq<char>>::empty());
    assert(trim_end(seq![c].drop_last()) == Seq::<char>::empty());
    assert(trim_end(seq![c]) == Seq::<char>::empty());
    assert((seq!['#'] + from).len() > 0);
    assert(rename_tag_token(seq![c], from, to) == seq![c]);
    assert(renamed_tokens(seq![seq![c]], from, to) == renamed_tokens(Seq::<Seq<char>>::empty(), from, to) + seq![c]);
    assert(Seq::<char>::empty() + seq![c] =~= seq![c]);
}

proof fn lemma_tokens_concat(p: Seq<char>, q: Seq<char>)
    requires
        p.len() == 0 || is_ws(p.last()),
    ensures
        inclusive_tokens(p + q) == inclusive_tokens(p) + inclusive_tokens(q),
    decreases q.len(),
{
    if q.len() == 0 {
        assert(p + q =~= p);
        assert(inclusive_tokens(p) + inclusive_tokens(q) =~= inclusive_tokens(p));
    } else {
        let q0 = q.drop_last();
        lemma_tokens_concat(p, q0);
        assert((p + q).drop_last() =~= p + q0);
        assert((p + q).last() == q.last());
        let a = inclusive_tokens(p);
        let b = inclusive_tokens(q0);
        let t = a + b;
        if q0.len() == 0 {
            assert(b.len() == 0);
            assert(t =~= a);
            if p.len() > 0 {
                lemma_tokens_last(p);
            }
            assert(inclusive_tokens(q) =~= seq![seq![q.last()]]);
            assert(t.push(seq![q.last()]) =~= a + inclusive_tokens(q));
        } else {
            lemma_tokens_last(q0);
            assert(t.last() == b.last());
            if b.last().len() > 0 && !is_ws(b.last().last()) {
                assert(t.update(t.len() - 1, t.last().push(q.last())) =~= a + b.update(b.len() - 1, b.last().push(q.last())));
            } else {
                assert(t.push(seq![q.last()]) =~= a + b.push(seq![q.last()]));
            }
        }
    }
}

proof fn lemma_renamed_concat(a: Seq<Seq<char>>, b: Seq<Seq<char>>, from: Seq<char>, to: Seq<char>)
    ensures
        renamed_tokens(a + b, from, to) == renamed_tokens(a, from, to) + renamed_tokens(b, from, to),
    decreases b.len(),
{
    if b.len() == 0 {
        assert(a + b =~= a);
        assert(renamed_tokens(a, from, to) + renamed_tokens(b, from, to) =~= renamed_tokens(a, from, to));
    } else {
        lemma_renamed_concat(a, b.drop_last(), from, to);
        assert((a + b).drop_last() =~= a + b.drop_last());
        assert((a + b).last() == b.last());
        assert(renamed_tokens(a, from, to) + renamed_tokens(b.drop_last(), from, to) + rename_tag_token(b.last(), from, to)
            =~= renamed_tokens(a, from, to) + (renamed_tokens(b.drop_last(), from, to) + rename_tag_token(b.last(), from, to)));
    }
}

/// Renaming works word by word: a text cut after white space (or at its start) is
/// renamed as its two parts are, one after the other.
pub proof fn lemma_rename_splits(p: Seq<char>, q: Seq<char>, from: Seq<char>, to: Seq<char>)
    requires
        p.len() == 0 || is_ws(p.last()),
    ensures
        content_with_renamed_tag(p + q, from, to) == content_with_renamed_tag(p, from, to) + content_with_renamed_tag(q, from, to),
{
    lemma_tokens_concat(p, q);
    lemma_renamed_concat(inclusive_tokens(p), inclusive_tokens(q), from, to);
}

/// A single word followed by one white-space character: the tag `#from` becomes
/// `#to` and keeps the white space; any other word stays as it is.
pub proof fn lemma_rename_word(w: Seq<char>, c: char, from: Seq<char>, to: Seq<char>)
    requires
        w.len() > 0,
        forall|i: int| 0 <= i < w.len() ==> !is_ws(#[trigger] w[i]),
        is_ws(c),
    ensures
        w == seq!['#'] + from ==> content_with_renamed_tag(w.push(c), from, to) == seq!['#'] + to + seq![c],
        w != seq!['#'] + from ==> content_with_renamed_tag(w.push(c), from, to) == w.push(c),
{
    lemma_tokens_word(Seq::<char>::empty(), w, w.len() as int);
    assert(Seq::<char>::empty() + w.take(w.len() as int) =~= w);
    let t = inclusive_tokens(w);
    assert(t =~= seq![w]);
    assert(w.push(c).drop_last() =~= w);
    assert(inclusive_tokens(w.push(c)) =~= seq![w.push(c)]);
    let tok = w.push(c);
    assert(tok.drop_last() =~= w);
    assert(trim_end(tok) == trim_end(w));
    assert(trim_end(w) == w);
    assert(tok.skip(w.len() as int) =~= seq![c]);
    assert(seq![w.push(c)].drop_last() =~= Seq::<Seq<char>>::empty());
    assert(renamed_tokens(Seq::<Seq<char>>::empty(), from, to) == Seq::<char>::empty());
    if w == seq!['#'] + from {
        assert(rename_tag_token(tok, from, to) =~= seq!['#'] + to + seq![c]);
        assert(Seq::<char>::empty() + rename_tag_token(tok, from, to) =~= seq!['#'] + to + seq![c]);
    } else {
        assert(Seq::<char>::empty() + tok =~= tok);
    }
}

proof fn lemma_trim_end_prefix(tok: Seq<char>)
    ensures
        trim_end(tok).len() <= tok.len(),
        trim_end(tok) == tok.take(trim_end(tok).len() as int),
    decreases tok.len(),
{
    if tok.len() > 0 && is_ws(tok.last()) {
        lemma_trim_end_prefix(tok.drop_last());
        assert(tok.drop_last().take(trim_end(tok).len() as int) =~= tok.take(trim_end(tok).len() as int));
    } else {
        assert(tok.take(tok.len() as int) =~= tok);
    }
}

fn rename_tag_token_exec(out: &mut Vec<char>, tok: &[char], tag: &[char], to: &[char])
    requires
        tag@.len() > 0 && tag@[0] == '#',
    ensures
        final(out)@ == old(out)@ + rename_tag_token(tok@, tag@.skip(1), to@),
{
    let trimmed = crate::text::trim_end_chars(tok);
    proof {
        lemma_trim_end_prefix(tok@);
        assert(seq!['#'] + tag@.skip(1) =~= tag@);
    }
    if crate::text::chars_eq(&trimmed, tag) {
        out.push('#');
        push_all(out, to);
        let suffix = sub_chars(tok, trimmed.len(), tok.len());
        push_all(out, &suffix);
        proof {
            assert(suffix@ =~= tok@.skip(trimmed@.len() as int));
            assert(final_eq(out@, old(out)@, seq!['#'] + to@ + tok@.skip(trimmed@.len() as int)));
        }
    } else {
        push_all(out, tok);
    }
}

spec fn final_eq(a: Seq<char>, b: Seq<char>, c: Seq<char>) -> bool {
    a =~= b + c
}

/// Renames the whole-word tag `#from` to `#to` throughout `content`.
pub fn replace_tag_in_content(content: &str, from: &str, to: &str) -> (r: String)
    ensures
        r@ == content_with_renamed_tag(content@, from@, to@),
{
    let v = chars_of(content);
    let mut tag: Vec<char> = Vec::new();
    tag.push('#');
    push_str(&mut tag, from);
    proof {
        assert(tag@.skip(1) =~= from@);
    }
    let tov = chars_of(to);
    let mut out: Vec<char> = Vec::new();
    let mut cur: Vec<char> = Vec::new();
    let ghost mut done: Seq<Seq<char>> = Seq::empty();
    let mut i: usize = 0;
    proof {
        assert(v@.take(0) =~= Seq::<char>::empty());
    }
    while i < v.len()
        invariant
            i <= v@.len(),
            tag@.len() > 0 && tag@[0] == '#',
            tag@.skip(1) == from@,
            tov@ == to@,
            out@ == renamed_tokens(done, from@, to@),
            done.len() > 0 ==> done.last().len() > 0 && is_ws(done.last().last()),
            cur@.len() > 0 ==> !is_ws(cur@.last()),
            inclusive_tokens(v@.take(i as int)) == if cur@.len() > 0 {
                done.push(cur@)
            } else {
                done
            },
        decreases v.len() - i,
    {
        let c = v[i];
        proof {
            assert(v@.take(i + 1).drop_last() =~= v@.take(i as int));
            assert(v@.take(i + 1).last() == c);
        }
        let ghost had = cur@;
        cur.push(c);
        proof {
            if had.len() > 0 {
                assert(done.push(had).update(done.len() as int, had.push(c)) =~= done.push(cur@));
            } else {
                assert(cur@ =~= seq![c]);
            }
        }
        if is_whitespace(c) {
            rename_tag_token_exec(&mut out, &cur, &tag, &tov);
            proof {
                let d = done.push(cur@);
                assert(d.drop_last() =~= done);
                done = d;
            }
            cur = Vec::new();
        }
        i = i + 1;
    }
    if cur.len() > 0 {
        rename_tag_token_exec(&mut out, &cur, &tag, &tov);
        proof {
            let d = done.push(cur@);
            assert(d.drop_last() =~= done);
            done = d;
        }
    }
    proof {
        assert(v@.take(v@.len() as int) =~= v@);
    }
    string_of(&out)
}

/// The label an audit-log entry shows for an action; unknown actions show as they are.
pub open spec fn action_label(action: Seq<char>) -> Seq<char> {
    if action == "memo.delete"@ {
        "删除备忘录"@
    } else if action == "memo.purge"@ {
        "彻底删除备忘录"@
    } else if action == "attachment.delete"@ {
        "删除附件"@
    } else if action == "backup.create"@ {
        "创建备份"@
    } else if action == "backup.restore"@ {
        "恢复备份"@
    } else if action == "backup.restore_failed"@ {
        "恢复备份失败"@
    } else if action == "memo_index.rebuild"@ {
        "重建 Memo 索引"@
    } else if action == "migration.usememos.start"@ {
        "开始迁移原版 Memos"@
    } else if action == "migration.usememos.import"@ {
        "迁移原版 Memos"@
    } else if action == "migration.usememos.error"@ {
        "迁移原版 Memos 失败"@
    } else if action == "tag.rename"@ {
        "重命名标签"@
    } else {
        action
    }
}

pub fn audit_action_label<'a>(action: &'a str) -> (r: &'a str)
    ensures
        r@ == action_label(action@),
{
    if crate::text::str_eq(action, "memo.delete") {
        "删除备忘录"
    } else if crate::text::str_eq(action, "memo.purge") {
        "彻底删除备忘录"
    } else if crate::text::str_eq(action, "attachment.delete") {
        "删除附件"
    } else if crate::text::str_eq(action, "backup.create") {
        "创建备份"
    } else if crate::text::str_eq(action, "backup.restore") {
        "恢复备份"
    } else if crate::text::str_eq(action, "backup.restore_failed") {
        "恢复备份失败"
    } else if crate::text::str_eq(action, "memo_index.rebuild") {
        "重建 Memo 索引"
    } else if crate::text::str_eq(action, "migration.usememos.start") {
        "开始迁移原版 Memos"
    } else if crate::text::str_eq(action, "migration.usememos.import") {
        "迁移原版 Memos"
    } else if crate::text::str_eq(action, "migration.usememos.error") {
        "迁移原版 Memos 失败"
    } else if crate::text::str_eq(action, "tag.rename") {
        "重命名标签"
    } else {
        action
    }
}

} // verus!
