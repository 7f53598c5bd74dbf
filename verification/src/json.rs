use vstd::prelude::*;
use crate::text::{chars_of, push_int, push_char, int_text, string_of};

verus! {

/// A JSON document as the server's payloads use it. Objects keep their keys in
/// ascending order, each key once, as a sorted map does.
#[derive(Debug, PartialEq)]
pub enum Json {
    Null,
    Bool(bool),
    Int(i128),
    /// A number that is not an integer, kept as the text that writes it: the
    /// server passes such numbers on and never computes with them.
    Num(String),
    Str(String),
    Array(Vec<Json>),
    Object(Vec<(String, Json)>),
}

/// The mathematical value of a JSON document.
pub enum JsonView {
    Null,
    Bool(bool),
    Int(int),
    Num(Seq<char>),
    Str(Seq<char>),
    Array(Seq<JsonView>),
    Object(Seq<(Seq<char>, JsonView)>),
}

impl Json {
    pub open spec fn view_of(self) -> JsonView
        decreases self,
    {
        match self {
            Json::Null => JsonView::Null,
            Json::Bool(b) => JsonView::Bool(b),
            Json::Int(n) => JsonView::Int(n as int),
            Json::Num(t) => JsonView::Num(t@),
            Json::Str(s) => JsonView::Str(s@),
            Json::Array(items) => JsonView::Array(
                Seq::new(
                    items@.len(),
                    |i: int|
                        if 0 <= i < items@.len() {
                            items@[i].view_of()
                        } else {
                            JsonView::Null
                        },
                ),
            ),
            Json::Object(fields) => JsonView::Object(
                Seq::new(
                    fields@.len(),
                    |i: int|
                        if 0 <= i < fields@.len() {
                            (fields@[i].0@, fields@[i].1.view_of())
                        } else {
                            (Seq::empty(), JsonView::Null)
                        },
                ),
            ),
        }
    }
}

impl View for Json {
    type V = JsonView;

    open spec fn view(&self) -> JsonView {
        self.view_of()
    }
}

/// The view of a list of object fields.
pub open spec fn fields_view(fields: Seq<(String, Json)>) -> Seq<(Seq<char>, JsonView)> {
    Seq::new(
        fields.len(),
        |i: int|
            if 0 <= i < fields.len() {
                (fields[i].0@, fields[i].1.view_of())
            } else {
                (Seq::empty(), JsonView::Null)
            },
    )
}

/// The view of a list of array items.
pub open spec fn items_view(items: Seq<Json>) -> Seq<JsonView> {
    Seq::new(
        items.len(),
        |i: int|
            if 0 <= i < items.len() {
                items[i].view_of()
            } else {
                JsonView::Null
            },
    )
}

/// The order of object keys: lexicographic by character, as `String`'s `Ord` orders them.
pub open spec fn key_lt(a: Seq<char>, b: Seq<char>) -> bool
    decreases a.len(),
{
    if a.len() == 0 {
        b.len() > 0
    } else if b.len() == 0 {
        false
    } else if a[0] != b[0] {
        a[0] < b[0]
    } else {
        key_lt(a.drop_first(), b.drop_first())
    }
}

/// Keys strictly ascending: the shape every object of the library keeps.
pub open spec fn keys_sorted(fields: Seq<(Seq<char>, JsonView)>) -> bool {
    forall|i: int, j: int| 0 <= i < j < fields.len() ==> key_lt(#[trigger] fields[i].0, #[trigger] fields[j].0)
}

/// Setting `key` to `value` in a sorted object: an existing entry is replaced in
/// place, a new one goes where the order puts it.
pub open spec fn obj_insert(fields: Seq<(Seq<char>, JsonView)>, key: Seq<char>, value: JsonView) -> Seq<(Seq<char>, JsonView)>
    decreases fields.len(),
{
    if fields.len() == 0 {
        seq![(key, value)]
    } else if fields[0].0 == key {
        seq![(key, value)] + fields.drop_first()
    } else if key_lt(key, fields[0].0) {
        seq![(key, value)] + fields
    } else {
        seq![fields[0]] + obj_insert(fields.drop_first(), key, value)
    }
}

/// The value stored under `key`, if any.
pub open spec fn obj_get(fields: Seq<(Seq<char>, JsonView)>, key: Seq<char>) -> Option<JsonView>
    decreases fields.len(),
{
    if fields.len() == 0 {
        None
    } else if fields[0].0 == key {
        Some(fields[0].1)
    } else {
        obj_get(fields.drop_first(), key)
    }
}

/// The object holding `pairs`, set one after another from an empty object.
pub open spec fn obj_from(pairs: Seq<(Seq<char>, JsonView)>) -> Seq<(Seq<char>, JsonView)>
    decreases pairs.len(),
{
    if pairs.len() == 0 {
        Seq::empty()
    } else {
        obj_insert(obj_from(pairs.drop_last()), pairs.last().0, pairs.last().1)
    }
}

/// An object value with these fields.
pub open spec fn object_of(pairs: Seq<(Seq<char>, JsonView)>) -> JsonView {
    JsonView::Object(obj_from(pairs))
}

pub proof fn lemma_key_lt_irreflexive(a: Seq<char>)
    ensures
        !key_lt(a, a),
    decreases a.len(),
{
    if a.len() > 0 {
        lemma_key_lt_irreflexive(a.drop_first());
    }
}

pub proof fn lemma_key_lt_total(a: Seq<char>, b: Seq<char>)
    ensures
        a == b || key_lt(a, b) || key_lt(b, a),
    decreases a.len(),
{
    if a.len() > 0 && b.len() > 0 && a[0] == b[0] {
        lemma_key_lt_total(a.drop_first(), b.drop_first());
        if a.drop_first() == b.drop_first() {
            assert(a =~= seq![a[0]] + a.drop_first());
            assert(b =~= seq![b[0]] + b.drop_first());
        }
    } else if a.len() == 0 && b.len() == 0 {
        assert(a =~= b);
    }
}

pub proof fn lemma_key_lt_asymmetric(a: Seq<char>, b: Seq<char>)
    requires
        key_lt(a, b),
    ensures
        !key_lt(b, a),
    decreases a.len(),
{
    if a.len() > 0 && b.len() > 0 && a[0] == b[0] {
        lemma_key_lt_asymmetric(a.drop_first(), b.drop_first());
    }
}

pub proof fn lemma_key_lt_transitive(a: Seq<char>, b: Seq<char>, c: Seq<char>)
    requires
        key_lt(a, b),
        key_lt(b, c),
    ensures
        key_lt(a, c),
    decreases a.len(),
{
    if a.len() > 0 && b.len() > 0 && c.len() > 0 && a[0] == b[0] && b[0] == c[0] {
        lemma_key_lt_transitive(a.drop_first(), b.drop_first(), c.drop_first());
    }
}

/// Setting a key in an object skips over the entries whose keys sort before it.
proof fn lemma_obj_insert_skip(fields: Seq<(Seq<char>, JsonView)>, key: Seq<char>, value: JsonView, i: int)
    requires
        0 <= i <= fields.len(),
        forall|j: int| 0 <= j < i ==> key_lt(#[trigger] fields[j].0, key),
    ensures
        obj_insert(fields, key, value) == fields.take(i) + obj_insert(fields.skip(i), key, value),
    decreases i,
{
    if i == 0 {
        assert(fields.skip(0) =~= fields);
        assert(fields.take(0) + obj_insert(fields, key, value) =~= obj_insert(fields, key, value));
    } else {
        lemma_key_lt_irreflexive(key);
        assert(key_lt(fields[0].0, key));
        lemma_key_lt_asymmetric(fields[0].0, key);
        let rest = fields.drop_first();
        assert forall|j: int| 0 <= j < i - 1 implies key_lt(#[trigger] rest[j].0, key) by {
            assert(rest[j] == fields[j + 1]);
        }
        lemma_obj_insert_skip(rest, key, value, i - 1);
        assert(rest.skip(i - 1) =~= fields.skip(i));
        assert(fields.take(i) =~= seq![fields[0]] + rest.take(i - 1));
        assert(seq![fields[0]] + (rest.take(i - 1) + obj_insert(rest.skip(i - 1), key, value))
            =~= fields.take(i) + obj_insert(fields.skip(i), key, value));
    }
}

/// After setting `key` to `value`, reading `key` gives `value`.
pub proof fn lemma_obj_get_insert_same(fields: Seq<(Seq<char>, JsonView)>, key: Seq<char>, value: JsonView)
    ensures
        obj_get(obj_insert(fields, key, value), key) == Some(value),
    decreases fields.len(),
{
    if fields.len() > 0 && fields[0].0 != key && !key_lt(key, fields[0].0) {
        lemma_obj_get_insert_same(fields.drop_first(), key, value);
        let r = obj_insert(fields, key, value);
        assert(r.drop_first() =~= obj_insert(fields.drop_first(), key, value));
    }
}

/// Setting `key` leaves every other key as it was.
pub proof fn lemma_obj_get_insert_other(fields: Seq<(Seq<char>, JsonView)>, key: Seq<char>, value: JsonView, other: Seq<char>)
    requires
        other != key,
    ensures
        obj_get(obj_insert(fields, key, value), other) == obj_get(fields, other),
    decreases fields.len(),
{
    let r = obj_insert(fields, key, value);
    if fields.len() == 0 {
        assert(r.drop_first().len() == 0);
        assert(obj_get(r, other) == obj_get(r.drop_first(), other));
    } else if fields[0].0 == key {
        assert(r.drop_first() =~= fields.drop_first());
        assert(obj_get(r, other) == obj_get(r.drop_first(), other));
    } else if key_lt(key, fields[0].0) {
        assert(r.drop_first() =~= fields);
        assert(obj_get(r, other) == obj_get(r.drop_first(), other));
    } else {
        lemma_obj_get_insert_other(fields.drop_first(), key, value, other);
        assert(r.drop_first() =~= obj_insert(fields.drop_first(), key, value));
        assert(r[0] == fields[0]);
    }
}

/// Setting a key keeps the keys sorted.
pub proof fn lemma_obj_insert_sorted(fields: Seq<(Seq<char>, JsonView)>, key: Seq<char>, value: JsonView)
    requires
        keys_sorted(fields),
    ensures
        keys_sorted(obj_insert(fields, key, value)),
        forall|i: int| 0 <= i < obj_insert(fields, key, value).len() ==>
            (#[trigger] obj_insert(fields, key, value)[i].0 == key || exists|j: int| 0 <= j < fields.len() && fields[j].0 == obj_insert(fields, key, value)[i].0),
    decreases fields.len(),
{
    let r = obj_insert(fields, key, value);
    if fields.len() == 0 {
    } else if fields[0].0 == key {
        assert forall|i: int, j: int| 0 <= i < j < r.len() implies key_lt(#[trigger] r[i].0, #[trigger] r[j].0) by {
            assert(r[j] == fields[j]);
            if i > 0 {
                assert(r[i] == fields[i]);
            }
        }
        assert forall|i: int| 0 <= i < r.len() implies (#[trigger] r[i].0 == key || exists|j: int| 0 <= j < fields.len() && fields[j].0 == r[i].0) by {
            if i > 0 {
                assert(r[i] == fields[i]);
            }
        }
    } else if key_lt(key, fields[0].0) {
        assert forall|i: int, j: int| 0 <= i < j < r.len() implies key_lt(#[trigger] r[i].0, #[trigger] r[j].0) by {
            assert(r[j] == fields[j - 1]);
            if i > 0 {
                assert(r[i] == fields[i - 1]);
            } else if j - 1 > 0 {
                lemma_key_lt_transitive(key, fields[0].0, fields[j - 1].0);
            }
        }
        assert forall|i: int| 0 <= i < r.len() implies (#[trigger] r[i].0 == key || exists|j: int| 0 <= j < fields.len() && fields[j].0 == r[i].0) by {
            if i > 0 {
                assert(r[i] == fields[i - 1]);
            }
        }
    } else {
        let rest = fields.drop_first();
        assert forall|i: int, j: int| 0 <= i < j < rest.len() implies key_lt(#[trigger] rest[i].0, #[trigger] rest[j].0) by {
            assert(rest[i] == fields[i + 1]);
            assert(rest[j] == fields[j + 1]);
        }
        lemma_obj_insert_sorted(rest, key, value);
        let tail = obj_insert(rest, key, value);
        assert(r =~= seq![fields[0]] + tail);
        lemma_key_lt_total(key, fields[0].0);
        assert forall|i: int| 0 <= i < tail.len() implies key_lt(fields[0].0, #[trigger] tail[i].0) by {
            if tail[i].0 == key {
            } else {
                let j = choose|j: int| 0 <= j < rest.len() && rest[j].0 == tail[i].0;
                assert(rest[j] == fields[j + 1]);
            }
        }
        assert forall|i: int, j: int| 0 <= i < j < r.len() implies key_lt(#[trigger] r[i].0, #[trigger] r[j].0) by {
            assert(r[j] == tail[j - 1]);
            if i > 0 {
                assert(r[i] == tail[i - 1]);
            }
        }
        assert forall|i: int| 0 <= i < r.len() implies (#[trigger] r[i].0 == key || exists|j: int| 0 <= j < fields.len() && fields[j].0 == r[i].0) by {
            if i > 0 {
                assert(r[i] == tail[i - 1]);
                if tail[i - 1].0 != key {
                    let j = choose|j: int| 0 <= j < rest.len() && rest[j].0 == tail[i - 1].0;
                    assert(rest[j] == fields[j + 1]);
                }
            }
        }
    }
}

/// Every object built by `obj_from` has sorted keys.
pub proof fn lemma_obj_from_sorted(pairs: Seq<(Seq<char>, JsonView)>)
    ensures
        keys_sorted(obj_from(pairs)),
    decreases pairs.len(),
{
    if pairs.len() > 0 {
        lemma_obj_from_sorted(pairs.drop_last());
        lemma_obj_insert_sorted(obj_from(pairs.drop_last()), pairs.last().0, pairs.last().1);
    }
}

/// Whether key `a` sorts before key `b`.
pub fn key_less(a: &[char], b: &[char]) -> (r: bool)
    ensures
        r == key_lt(a@, b@),
{
    let mut i: usize = 0;
    proof {
        assert(a@.skip(0) =~= a@);
        assert(b@.skip(0) =~= b@);
    }
    while i < a.len() && i < b.len() && a[i] == b[i]
        invariant
            i <= a.len(),
            i <= b.len(),
            key_lt(a@, b@) == key_lt(a@.skip(i as int), b@.skip(i as int)),
        decreases a.len() - i,
    {
        proof {
            assert(a@.skip(i as int).drop_first() =~= a@.skip(i + 1));
            assert(b@.skip(i as int).drop_first() =~= b@.skip(i + 1));
        }
        i = i + 1;
    }
    if i == a.len() {
        i < b.len()
    } else if i == b.len() {
        false
    } else {
        a[i] < b[i]
    }
}

/// Sets `key` to `value` in the object fields `fields`.
pub fn insert_field(fields: &mut Vec<(String, Json)>, key: String, value: Json)
    ensures
        fields_view(final(fields)@) == obj_insert(fields_view(old(fields)@), key@, value@),
{
    let ghost before = fields_view(fields@);
    let k = chars_of(key.as_str());
    let mut i: usize = 0;
    while i < fields.len()
        invariant
            i <= fields@.len(),
            before == fields_view(fields@),
            k@ == key@,
            forall|j: int| 0 <= j < i ==> key_lt(#[trigger] before[j].0, key@),
        ensures
            i <= fields@.len(),
            before == fields_view(fields@),
            forall|j: int| 0 <= j < i ==> key_lt(#[trigger] before[j].0, key@),
            i < fields@.len() ==> !key_lt(before[i as int].0, key@),
        decreases fields.len() - i,
    {
        let fk = chars_of(fields[i].0.as_str());
        if !key_less(&fk, &k) {
            proof {
                assert(before[i as int].0 == fields@[i as int].0@);
            }
            break;
        }
        proof {
            assert(before[i as int].0 == fields@[i as int].0@);
        }
        i = i + 1;
    }
    proof {
        lemma_obj_insert_skip(before, key@, value@, i as int);
    }
    if i < fields.len() {
        let fk = chars_of(fields[i].0.as_str());
        let same = crate::text::chars_eq(&fk, &k);
        let ghost value_view = value@;
        if same {
            proof {
                assert(before[i as int].0 == fields@[i as int].0@);
                assert(before.skip(i as int)[0] == before[i as int]);
            }
            fields.set(i, (key, value));
            proof {
                assert(before.skip(i as int).drop_first() =~= before.skip(i + 1));
                assert(fields_view(fields@) =~= before.take(i as int) + (seq![(k@, value_view)] + before.skip(i + 1)));
            }
        } else {
            proof {
                lemma_key_lt_total(before[i as int].0, key@);
                assert(before[i as int].0 == fields@[i as int].0@);
                assert(before.skip(i as int)[0] == before[i as int]);
            }
            fields.insert(i, (key, value));
            proof {
                assert(fields_view(fields@) =~= before.take(i as int) + (seq![(k@, value_view)] + before.skip(i as int)));
            }
        }
    } else {
        let ghost value_view = value@;
        fields.push((key, value));
        proof {
            assert(before.skip(i as int) =~= Seq::<(Seq<char>, JsonView)>::empty());
            assert(fields_view(fields@) =~= before.take(i as int) + seq![(k@, value_view)]);
        }
    }
}

/// Sets `key` (given as text) to `value` in `fields`.
pub fn set_field(fields: &mut Vec<(String, Json)>, key: &str, value: Json)
    ensures
        fields_view(final(fields)@) == obj_insert(fields_view(old(fields)@), key@, value@),
{
    let k = key.to_owned();
    insert_field(fields, k, value);
}

/// A JSON string holding `s`.
pub fn json_str(s: &str) -> (j: Json)
    ensures
        j@ == JsonView::Str(s@),
{
    Json::Str(s.to_owned())
}

/// A JSON object holding `fields`.
pub fn json_object(fields: Vec<(String, Json)>) -> (j: Json)
    ensures
        j@ == JsonView::Object(fields_view(fields@)),
{
    let j = Json::Object(fields);
    proof {
        assert(j@ is Object);
        assert(j@->Object_0 =~= fields_view(fields@));
    }
    j
}

/// A JSON array holding `items`.
pub fn json_array(items: Vec<Json>) -> (j: Json)
    ensures
        j@ == JsonView::Array(items_view(items@)),
{
    let j = Json::Array(items);
    proof {
        assert(j@->Array_0 =~= items_view(items@));
    }
    j
}

/// A lowercase hexadecimal digit.
pub open spec fn hex_digit(d: int) -> char {
    if d < 10 {
        (('0' as int) + d) as char
    } else {
        (('a' as int) + d - 10) as char
    }
}

/// How a JSON string writes one character.
pub open spec fn escape_char(c: char) -> Seq<char> {
    if c == '"' {
        seq!['\\', '"']
    } else if c == '\\' {
        seq!['\\', '\\']
    } else if c == '\n' {
        seq!['\\', 'n']
    } else if c == '\r' {
        seq!['\\', 'r']
    } else if c == '\t' {
        seq!['\\', 't']
    } else if c == '\u{8}' {
        seq!['\\', 'b']
    } else if c == '\u{c}' {
        seq!['\\', 'f']
    } else if (c as u32) < 32 {
        seq!['\\', 'u', '0', '0', hex_digit((c as int) / 16), hex_digit((c as int) % 16)]
    } else {
        seq![c]
    }
}

/// The escaped contents of a JSON string.
pub open spec fn escape_text(s: Seq<char>) -> Seq<char>
    decreases s.len(),
{
    if s.len() == 0 {
        Seq::empty()
    } else {
        escape_text(s.drop_last()) + escape_char(s.last())
    }
}

/// A quoted JSON string.
pub open spec fn quoted(s: Seq<char>) -> Seq<char> {
    seq!['"'] + escape_text(s) + seq!['"']
}

/// Compact JSON text of a value, as `serde_json::to_string` writes it.
pub open spec fn json_text(j: JsonView) -> Seq<char>
    decreases j,
{
    match j {
        JsonView::Null => seq!['n', 'u', 'l', 'l'],
        JsonView::Bool(b) => if b {
            seq!['t', 'r', 'u', 'e']
        } else {
            seq!['f', 'a', 'l', 's', 'e']
        },
        JsonView::Int(n) => int_text(n),
        JsonView::Num(t) => t,
        JsonView::Str(s) => quoted(s),
        JsonView::Array(items) => seq!['['] + items_text(items) + seq![']'],
        JsonView::Object(fields) => seq!['{'] + fields_text(fields) + seq!['}'],
    }
}

/// Array items separated by commas.
pub open spec fn items_text(items: Seq<JsonView>) -> Seq<char>
    decreases items,
{
    if items.len() == 0 {
        Seq::empty()
    } else if items.len() == 1 {
        json_text(items[0])
    } else {
        proof {
            assert(decreases_to!(items => items[items.len() - 1]));
        }
        items_text(items.drop_last()) + seq![','] + json_text(items.last())
    }
}

/// Object fields `"key":value` separated by commas.
pub open spec fn fields_text(fields: Seq<(Seq<char>, JsonView)>) -> Seq<char>
    decreases fields,
{
    if fields.len() == 0 {
        Seq::empty()
    } else if fields.len() == 1 {
        proof {
            assert(decreases_to!(fields => fields[0]));
            assert(decreases_to!(fields[0] => fields[0].1));
        }
        quoted(fields[0].0) + seq![':'] + json_text(fields[0].1)
    } else {
        proof {
            assert(decreases_to!(fields => fields[fields.len() - 1]));
            assert(decreases_to!(fields[fields.len() - 1] => fields[fields.len() - 1].1));
        }
        fields_text(fields.drop_last()) + seq![','] + quoted(fields.last().0) + seq![':'] + json_text(fields.last().1)
    }
}

} // verus!

verus! {

/// The lowercase hexadecimal digit for `d < 16`.
fn hex_digit_char(d: u32) -> (c: char)
    requires
        d < 16,
    ensures
        c == hex_digit(d as int),
{
    if d < 10 {
        crate::text::char_from_digit(d)
    } else if d == 10 {
        'a'
    } else if d == 11 {
        'b'
    } else if d == 12 {
        'c'
    } else if d == 13 {
        'd'
    } else if d == 14 {
        'e'
    } else {
        'f'
    }
}

fn push_escaped_char(out: &mut Vec<char>, c: char)
    ensures
        final(out)@ == old(out)@ + escape_char(c),
{
    let ghost start = out@;
    if c == '"' {
        out.push('\\');
        out.push('"');
    } else if c == '\\' {
        out.push('\\');
        out.push('\\');
    } else if c == '\n' {
        out.push('\\');
        out.push('n');
    } else if c == '\r' {
        out.push('\\');
        out.push('r');
    } else if c == '\t' {
        out.push('\\');
        out.push('t');
    } else if c == '\u{8}' {
        out.push('\\');
        out.push('b');
    } else if c == '\u{c}' {
        out.push('\\');
        out.push('f');
    } else if (c as u32) < 32 {
        let code = c as u32;
        out.push('\\');
        out.push('u');
        out.push('0');
        out.push('0');
        out.push(hex_digit_char(code / 16));
        out.push(hex_digit_char(code % 16));
    } else {
        out.push(c);
    }
    proof {
        assert(out@ =~= start + escape_char(c));
    }
}

/// Appends `s` as a quoted JSON string.
pub fn push_quoted(out: &mut Vec<char>, s: &[char])
    ensures
        final(out)@ == old(out)@ + quoted(s@),
{
    let ghost start = out@;
    out.push('"');
    let mut i: usize = 0;
    proof {
        assert(s@.take(0) =~= Seq::<char>::empty());
        assert(out@ =~= start + seq!['"'] + escape_text(s@.take(0)));
    }
    while i < s.len()
        invariant
            i <= s@.len(),
            out@ == start + seq!['"'] + escape_text(s@.take(i as int)),
        decreases s.len() - i,
    {
        push_escaped_char(out, s[i]);
        proof {
            assert(s@.take(i + 1).drop_last() =~= s@.take(i as int));
            assert(s@.take(i + 1).last() == s@[i as int]);
        }
        i = i + 1;
    }
    out.push('"');
    proof {
        assert(s@.take(s@.len() as int) =~= s@);
        assert(out@ =~= start + quoted(s@));
    }
}

/// Appends the compact JSON text of `j`.
pub fn write_json(out: &mut Vec<char>, j: &Json)
    ensures
        final(out)@ == old(out)@ + json_text(j@),
    decreases j,
{
    let ghost start = out@;
    match j {
        Json::Null => {
            out.push('n');
            out.push('u');
            out.push('l');
            out.push('l');
            proof {
                assert(out@ =~= start + json_text(j@));
            }
        },
        Json::Bool(b) => {
            if *b {
                out.push('t');
                out.push('r');
                out.push('u');
                out.push('e');
            } else {
                out.push('f');
                out.push('a');
                out.push('l');
                out.push('s');
                out.push('e');
            }
            proof {
                assert(out@ =~= start + json_text(j@));
            }
        },
        Json::Int(n) => {
            push_int(out, *n);
        },
        Json::Num(t) => {
            let v = chars_of(t.as_str());
            let mut i: usize = 0;
            while i < v.len()
                invariant
                    i <= v@.len(),
                    v@ == t@,
                    out@ == start + v@.take(i as int),
                decreases v@.len() - i,
            {
                out.push(v[i]);
                proof {
                    assert(v@.take(i + 1) =~= v@.take(i as int).push(v@[i as int]));
                }
                i = i + 1;
            }
            proof {
                assert(v@.take(i as int) =~= v@);
            }
        },
        Json::Str(s) => {
            let v = chars_of(s.as_str());
            push_quoted(out, &v);
        },
        Json::Array(items) => {
            proof {
                assert(j@->Array_0 =~= items_view(items@));
                assert(decreases_to!(*j => (*j)->Array_0));
            }
            write_items(out, items);
        },
        Json::Object(fields) => {
            proof {
                assert(j@->Object_0 =~= fields_view(fields@));
                assert(decreases_to!(*j => (*j)->Object_0));
            }
            write_fields(out, fields);
        },
    }
}

/// Appends the JSON text of an array holding `items`.
fn write_items(out: &mut Vec<char>, items: &Vec<Json>)
    ensures
        final(out)@ == old(out)@ + json_text(JsonView::Array(items_view(items@))),
    decreases items,
{
    let ghost start = out@;
    let ghost iv = items_view(items@);
    out.push('[');
    let mut i: usize = 0;
    proof {
        assert(iv.take(0) =~= Seq::<JsonView>::empty());
    }
    while i < items.len()
        invariant
            i <= items@.len(),
            iv == items_view(items@),
            out@ == start + seq!['['] + items_text(iv.take(i as int)),
        decreases items.len() - i,
    {
        if i > 0 {
            out.push(',');
        }
        proof {
            assert(decreases_to!(*items => items@));
            assert(decreases_to!(items@ => items@[i as int]));
        }
        write_json(out, &items[i]);
        proof {
            assert(iv.take(i + 1).drop_last() =~= iv.take(i as int));
            assert(iv.take(i + 1).last() == items@[i as int]@);
            if i == 0 {
                assert(iv.take(1)[0] == items@[0]@);
            }
        }
        i = i + 1;
    }
    out.push(']');
    proof {
        assert(iv.take(iv.len() as int) =~= iv);
        assert(out@ =~= start + json_text(JsonView::Array(iv)));
    }
}

/// Appends the JSON text of an object holding `fields`.
fn write_fields(out: &mut Vec<char>, fields: &Vec<(String, Json)>)
    ensures
        final(out)@ == old(out)@ + json_text(JsonView::Object(fields_view(fields@))),
    decreases fields,
{
    let ghost start = out@;
    let ghost fv = fields_view(fields@);
    out.push('{');
    let mut i: usize = 0;
    proof {
        assert(fv.take(0) =~= Seq::<(Seq<char>, JsonView)>::empty());
    }
    while i < fields.len()
        invariant
            i <= fields@.len(),
            fv == fields_view(fields@),
            out@ == start + seq!['{'] + fields_text(fv.take(i as int)),
        decreases fields.len() - i,
    {
        if i > 0 {
            out.push(',');
        }
        let k = chars_of(fields[i].0.as_str());
        push_quoted(out, &k);
        out.push(':');
        proof {
            assert(decreases_to!(*fields => fields@));
            assert(decreases_to!(fields@ => fields@[i as int]));
            assert(decreases_to!(fields@[i as int] => fields@[i as int].1));
        }
        write_json(out, &fields[i].1);
        proof {
            assert(fv.take(i + 1).drop_last() =~= fv.take(i as int));
            assert(fv.take(i + 1).last() == (fields@[i as int].0@, fields@[i as int].1@));
            if i == 0 {
                assert(fv.take(1)[0] == (fields@[0].0@, fields@[0].1@));
            }
            assert(out@ =~= start + seq!['{'] + fields_text(fv.take(i + 1)));
        }
        i = i + 1;
    }
    out.push('}');
    proof {
        assert(fv.take(fv.len() as int) =~= fv);
        assert(out@ =~= start + json_text(JsonView::Object(fv)));
    }
}

/// The compact JSON text of `j`, as `serde_json::to_string` writes it.
pub fn to_json_string(j: &Json) -> (s: String)
    ensures
        s@ == json_text(j@),
{
    let mut v: Vec<char> = Vec::new();
    write_json(&mut v, j);
    proof {
        assert(v@ =~= json_text(j@));
    }
    string_of(&v)
}

} // verus!

verus! {

/// An object under construction: `pairs` records the fields set so far, in the
/// order they were set.
pub struct ObjectBuilder {
    fields: Vec<(String, Json)>,
    pairs: Ghost<Seq<(Seq<char>, JsonView)>>,
}

impl ObjectBuilder {
    pub closed spec fn pairs(&self) -> Seq<(Seq<char>, JsonView)> {
        self.pairs@
    }

    pub closed spec fn wf(&self) -> bool {
        fields_view(self.fields@) == obj_from(self.pairs@)
    }

    /// An empty object.
    pub fn new() -> (b: Self)
        ensures
            b.wf(),
            b.pairs() == Seq::<(Seq<char>, JsonView)>::empty(),
    {
        let b = ObjectBuilder { fields: Vec::new(), pairs: Ghost(Seq::empty()) };
        proof {
            assert(fields_view(b.fields@) =~= Seq::<(Seq<char>, JsonView)>::empty());
        }
        b
    }

    /// Sets `key` to `value`.
    pub fn add(&mut self, key: &str, value: Json)
        requires
            old(self).wf(),
        ensures
            final(self).wf(),
            final(self).pairs() == old(self).pairs().push((key@, value@)),
    {
        let ghost kv = (key@, value@);
        set_field(&mut self.fields, key, value);
        proof {
            let p = self.pairs@.push(kv);
            assert(p.drop_last() =~= self.pairs@);
            self.pairs = Ghost(p);
        }
    }

    /// The finished object.
    pub fn build(self) -> (j: Json)
        requires
            self.wf(),
        ensures
            j@ == object_of(self.pairs()),
    {
        json_object(self.fields)
    }
}

/// The field `key` of a JSON object; nothing for other values.
pub open spec fn json_get(j: JsonView, key: Seq<char>) -> Option<JsonView> {
    match j {
        JsonView::Object(fields) => obj_get(fields, key),
        _ => None,
    }
}

/// The text of a JSON string value; nothing for other values.
pub open spec fn json_as_str(j: Option<JsonView>) -> Option<Seq<char>> {
    match j {
        Some(JsonView::Str(s)) => Some(s),
        _ => None,
    }
}

/// An integer, or `null` when absent.
pub open spec fn opt_int_view(x: Option<int>) -> JsonView {
    match x {
        Some(n) => JsonView::Int(n),
        None => JsonView::Null,
    }
}

/// A string, or `null` when absent.
pub open spec fn opt_str_view(x: Option<Seq<char>>) -> JsonView {
    match x {
        Some(s) => JsonView::Str(s),
        None => JsonView::Null,
    }
}

pub open spec fn opt_i64(x: Option<i64>) -> Option<int> {
    match x {
        Some(n) => Some(n as int),
        None => None,
    }
}

pub open spec fn opt_string(x: Option<String>) -> Option<Seq<char>> {
    match x {
        Some(s) => Some(s@),
        None => None,
    }
}

/// An integer, or `null` when absent.
pub fn json_opt_int(x: Option<i64>) -> (j: Json)
    ensures
        j@ == opt_int_view(opt_i64(x)),
{
    match x {
        Some(n) => Json::Int(n as i128),
        None => Json::Null,
    }
}

/// A string, or `null` when absent.
pub fn json_opt_str(x: Option<String>) -> (j: Json)
    ensures
        j@ == opt_str_view(opt_string(x)),
{
    match x {
        Some(s) => Json::Str(s),
        None => Json::Null,
    }
}

proof fn lemma_obj_get_fields(fields: Seq<(String, Json)>, key: Seq<char>, i: int)
    requires
        0 <= i <= fields.len(),
        forall|j: int| 0 <= j < i ==> (#[trigger] fields[j]).0@ != key,
    ensures
        obj_get(fields_view(fields), key) == obj_get(fields_view(fields).skip(i), key),
    decreases i,
{
    let fv = fields_view(fields);
    if i == 0 {
        assert(fv.skip(0) =~= fv);
    } else {
        lemma_obj_get_fields(fields, key, i - 1);
        let s = fv.skip(i - 1);
        assert(s[0] == fv[i - 1]);
        assert(s.drop_first() =~= fv.skip(i));
    }
}

/// The field `key` of `j`, when `j` is an object that has it.
pub fn get_field<'a>(j: &'a Json, key: &str) -> (r: Option<&'a Json>)
    ensures
        match r {
            Some(v) => json_get(j@, key@) == Some(v@),
            None => json_get(j@, key@) is None,
        },
{
    match j {
        Json::Object(fields) => {
            let k = chars_of(key);
            let ghost fv = fields_view(fields@);
            proof {
                assert(j@->Object_0 =~= fv);
                assert(j@ == JsonView::Object(fv));
            }
            let mut i: usize = 0;
            while i < fields.len()
                invariant
                    i <= fields@.len(),
                    j@ == JsonView::Object(fv),
                    k@ == key@,
                    fv == fields_view(fields@),
                    forall|m: int| 0 <= m < i ==> (#[trigger] fields@[m]).0@ != key@,
                decreases fields.len() - i,
            {
                let fk = chars_of(fields[i].0.as_str());
                if crate::text::chars_eq(&fk, &k) {
                    proof {
                        lemma_obj_get_fields(fields@, key@, i as int);
                        assert(fv.skip(i as int)[0] == fv[i as int]);
                        assert(fv[i as int] == (fields@[i as int].0@, fields@[i as int].1@));
                        assert(obj_get(fv.skip(i as int), key@) == Some(fields@[i as int].1@));
                        assert(j@ == JsonView::Object(fv));
                    }
                    return Some(&fields[i].1);
                }
                i = i + 1;
            }
            proof {
                lemma_obj_get_fields(fields@, key@, i as int);
                assert(fv.skip(i as int).len() == 0);
                assert(j@ == JsonView::Object(fv));
            }
            None
        },
        _ => None,
    }
}

/// The text of `j` when it is a JSON string.
pub fn as_str<'a>(j: Option<&'a Json>) -> (r: Option<&'a String>)
    ensures
        match r {
            Some(s) => j is Some && j.unwrap()@ == JsonView::Str(s@),
            None => j is None || !(j.unwrap()@ is Str),
        },
{
    match j {
        Some(Json::Str(s)) => Some(s),
        _ => None,
    }
}

/// Reading the first key of an object built from pairs gives its value, when no
/// later pair sets that key again.
pub proof fn lemma_obj_from_first(pairs: Seq<(Seq<char>, JsonView)>)
    requires
        pairs.len() > 0,
        forall|k: int| 0 < k < pairs.len() ==> (#[trigger] pairs[k]).0 != pairs[0].0,
    ensures
        obj_get(obj_from(pairs), pairs[0].0) == Some(pairs[0].1),
    decreases pairs.len(),
{
    let prev = pairs.drop_last();
    if pairs.len() == 1 {
        assert(prev =~= Seq::<(Seq<char>, JsonView)>::empty());
        assert(obj_from(prev) == Seq::<(Seq<char>, JsonView)>::empty());
        lemma_obj_get_insert_same(obj_from(prev), pairs[0].0, pairs[0].1);
    } else {
        assert forall|k: int| 0 < k < prev.len() implies (#[trigger] prev[k]).0 != prev[0].0 by {
            assert(prev[k] == pairs[k]);
        }
        lemma_obj_from_first(prev);
        assert(pairs.last() == pairs[pairs.len() - 1]);
        lemma_obj_get_insert_other(obj_from(prev), pairs.last().0, pairs.last().1, pairs[0].0);
    }
}

/// Reading a key of an object built from pairs with distinct keys gives the value
/// paired with it.
pub proof fn lemma_obj_from_get(pairs: Seq<(Seq<char>, JsonView)>, k: int)
    requires
        0 <= k < pairs.len(),
        forall|j: int| 0 <= j < pairs.len() && j != k ==> (#[trigger] pairs[j]).0 != pairs[k].0,
    ensures
        obj_get(obj_from(pairs), pairs[k].0) == Some(pairs[k].1),
    decreases pairs.len(),
{
    let prev = pairs.drop_last();
    let last = pairs.len() - 1;
    assert(pairs.last() == pairs[last]);
    if k == last {
        lemma_obj_get_insert_same(obj_from(prev), pairs[k].0, pairs[k].1);
    } else {
        assert forall|j: int| 0 <= j < prev.len() && j != k implies (#[trigger] prev[j]).0 != prev[k].0 by {
            assert(prev[j] == pairs[j]);
        }
        lemma_obj_from_get(prev, k);
        assert(pairs[last].0 != pairs[k].0);
        lemma_obj_get_insert_other(obj_from(prev), pairs[last].0, pairs[last].1, pairs[k].0);
    }
}

} // verus!
