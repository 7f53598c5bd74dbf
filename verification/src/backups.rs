use vstd::prelude::*;
use vstd::relations::{total_ordering, sorted_by};
use crate::json::{
    key_lt, key_less, lemma_key_lt_irreflexive, lemma_key_lt_total, lemma_key_lt_asymmetric,
    lemma_key_lt_transitive,
};
use crate::text::{chars_of, string_of, trim, trim_chars, trim_str, char_index, find_char, sub_chars, str_eq, starts_with};
use crate::http::pairs_view;
use crate::json::{Json, JsonView, ObjectBuilder, object_of, fields_view, json_str, json_array, items_view, json_get, get_field};
use crate::cookies::{split_char, split_chars};
use crate::models::BackupEncryptionKey;
use crate::error::{AppError, is_error};

verus! {

/// `a` sorts no later than `b`: backups are ordered by upload time, then by key.
pub open spec fn upload_le(a: (Seq<char>, Seq<char>), b: (Seq<char>, Seq<char>)) -> bool {
    key_lt(a.1, b.1) || (a.1 == b.1 && (key_lt(a.0, b.0) || a.0 == b.0))
}

pub open spec fn upload_order() -> spec_fn((Seq<char>, Seq<char>), (Seq<char>, Seq<char>)) -> bool {
    |a: (Seq<char>, Seq<char>), b: (Seq<char>, Seq<char>)| upload_le(a, b)
}

proof fn lemma_upload_le_antisymmetric(a: (Seq<char>, Seq<char>), b: (Seq<char>, Seq<char>))
    requires
        upload_le(a, b),
        upload_le(b, a),
    ensures
        a == b,
{
    if key_lt(a.1, b.1) {
        lemma_key_lt_asymmetric(a.1, b.1);
        lemma_key_lt_irreflexive(a.1);
    } else if key_lt(b.1, a.1) {
        lemma_key_lt_asymmetric(b.1, a.1);
        lemma_key_lt_irreflexive(b.1);
    } else if key_lt(a.0, b.0) {
        lemma_key_lt_asymmetric(a.0, b.0);
        lemma_key_lt_irreflexive(a.0);
    }
}

proof fn lemma_upload_le_transitive(
    a: (Seq<char>, Seq<char>),
    b: (Seq<char>, Seq<char>),
    c: (Seq<char>, Seq<char>),
)
    requires
        upload_le(a, b),
        upload_le(b, c),
    ensures
        upload_le(a, c),
{
    if key_lt(a.1, b.1) && key_lt(b.1, c.1) {
        lemma_key_lt_transitive(a.1, b.1, c.1);
    } else if key_lt(a.0, b.0) && key_lt(b.0, c.0) {
        lemma_key_lt_transitive(a.0, b.0, c.0);
    }
}

proof fn lemma_upload_le_total(a: (Seq<char>, Seq<char>), b: (Seq<char>, Seq<char>))
    ensures
        upload_le(a, b) || upload_le(b, a),
{
    lemma_key_lt_total(a.1, b.1);
    lemma_key_lt_total(a.0, b.0);
}

/// Upload order is a total order.
pub proof fn lemma_upload_order_total()
    ensures
        total_ordering(upload_order()),
{
    assert forall|x: (Seq<char>, Seq<char>)| #[trigger] upload_order()(x, x) by {}
    assert forall|x: (Seq<char>, Seq<char>), y: (Seq<char>, Seq<char>)|
        #[trigger] upload_order()(x, y) && #[trigger] upload_order()(y, x) implies x == y by {
        lemma_upload_le_antisymmetric(x, y);
    }
    assert forall|x: (Seq<char>, Seq<char>), y: (Seq<char>, Seq<char>), z: (Seq<char>, Seq<char>)|
        #[trigger] upload_order()(x, y) && #[trigger] upload_order()(y, z) implies upload_order()(
        x,
        z,
    ) by {
        lemma_upload_le_transitive(x, y, z);
    }
    assert forall|x: (Seq<char>, Seq<char>), y: (Seq<char>, Seq<char>)|
        #[trigger] upload_order()(x, y) || #[trigger] upload_order()(y, x) by {
        lemma_upload_le_total(x, y);
    }
}

fn upload_le_exec(a: &(String, String), b: &(String, String)) -> (r: bool)
    ensures
        r == upload_le((a.0@, a.1@), (b.0@, b.1@)),
{
    let a0 = chars_of(a.0.as_str());
    let a1 = chars_of(a.1.as_str());
    let b0 = chars_of(b.0.as_str());
    let b1 = chars_of(b.1.as_str());
    if key_less(&a1, &b1) {
        return true;
    }
    if key_less(&b1, &a1) {
        proof {
            lemma_key_lt_asymmetric(b1@, a1@);
            lemma_key_lt_irreflexive(a1@);
        }
        return false;
    }
    proof {
        lemma_key_lt_total(a1@, b1@);
    }
    if key_less(&a0, &b0) {
        return true;
    }
    if key_less(&b0, &a0) {
        proof {
            lemma_key_lt_asymmetric(b0@, a0@);
            lemma_key_lt_irreflexive(a0@);
        }
        return false;
    }
    proof {
        lemma_key_lt_total(a0@, b0@);
    }
    true
}

proof fn lemma_insert_multiset<A>(s: Seq<A>, p: int, x: A)
    requires
        0 <= p <= s.len(),
    ensures
        s.insert(p, x).to_multiset() =~= s.to_multiset().insert(x),
{
    broadcast use vstd::seq_lib::group_to_multiset_ensures;
    vstd::seq_lib::lemma_multiset_commutative(s.take(p), seq![x] + s.skip(p));
    vstd::seq_lib::lemma_multiset_commutative(seq![x], s.skip(p));
    vstd::seq_lib::lemma_multiset_commutative(s.take(p), s.skip(p));
    assert(s.insert(p, x) =~= s.take(p) + (seq![x] + s.skip(p)));
    assert(s =~= s.take(p) + s.skip(p));
    assert(seq![x].to_multiset() =~= vstd::multiset::Multiset::empty().insert(x)) by {
        assert(seq![x] =~= Seq::<A>::empty().push(x));
    }
}

/// `entries` (storage key and upload time) in upload order, oldest first.
pub fn sort_by_upload(entries: Vec<(String, String)>) -> (r: Vec<(String, String)>)
    ensures
        pairs_view(r@) == pairs_view(entries@).sort_by(upload_order()),
{
    let ghost input = pairs_view(entries@);
    let mut rest = entries;
    let mut sorted: Vec<(String, String)> = Vec::new();
    let ghost mut c: int = 0;
    proof {
        lemma_upload_order_total();
        assert(pairs_view(rest@) =~= input.skip(0));
        assert(pairs_view(sorted@) =~= input.take(0));
    }
    while rest.len() > 0
        invariant
            total_ordering(upload_order()),
            0 <= c <= input.len(),
            pairs_view(rest@) == input.skip(c),
            pairs_view(sorted@).to_multiset() == input.take(c).to_multiset(),
            sorted_by(pairs_view(sorted@), upload_order()),
        decreases rest.len(),
    {
        proof {
            assert(pairs_view(rest@).len() == rest@.len());
        }
        let ghost old_rest = rest@;
        let item = rest.remove(0);
        let ghost iv = (item.0@, item.1@);
        let ghost before = pairs_view(sorted@);
        proof {
            assert(input.skip(c)[0] == iv);
            assert(input[c] == iv);
            assert(pairs_view(rest@) =~= pairs_view(old_rest).drop_first());
            assert(input.skip(c).drop_first() =~= input.skip(c + 1));
        }
        let mut p: usize = 0;
        while p < sorted.len() && upload_le_exec(&sorted[p], &item)
            invariant
                p <= sorted@.len(),
                before == pairs_view(sorted@),
                iv == (item.0@, item.1@),
                forall|q: int| 0 <= q < p ==> upload_le(#[trigger] before[q], iv),
            decreases sorted.len() - p,
        {
            p = p + 1;
        }
        proof {
            if p < sorted@.len() {
                assert(!upload_le(before[p as int], iv));
                lemma_upload_le_total(before[p as int], iv);
            }
        }
        sorted.insert(p, item);
        proof {
            let after = pairs_view(sorted@);
            assert(after =~= before.insert(p as int, iv));
            assert forall|i: int, j: int| 0 <= i < j < after.len() implies #[trigger] upload_order()(
                after[i],
                after[j],
            ) by {
                if j < p {
                    assert(upload_order()(before[i], before[j]));
                } else if j == p {
                    assert(upload_le(before[i], iv));
                } else if i == p {
                    assert(upload_le(iv, before[p as int]));
                    if j - 1 > p {
                        assert(upload_order()(before[p as int], before[j - 1]));
                        lemma_upload_le_transitive(iv, before[p as int], before[j - 1]);
                    }
                } else if i < p {
                    assert(upload_order()(before[i], before[j - 1]));
                } else {
                    assert(upload_order()(before[i - 1], before[j - 1]));
                }
            }
            lemma_insert_multiset(before, p as int, iv);
            assert(input.take(c + 1) =~= input.take(c).push(iv));
            broadcast use vstd::seq_lib::group_to_multiset_ensures;
            c = c + 1;
        }
    }
    proof {
        assert(input.take(c) =~= input);
        input.lemma_sort_by_ensures(upload_order());
        vstd::seq_lib::lemma_sorted_unique(pairs_view(sorted@), input.sort_by(upload_order()), upload_order());
    }
    sorted
}

/// The backups to delete so that the newest `retain` stay: none when there are at
/// most `retain`, else the keys of the oldest ones in upload order (ties broken
/// by key).
pub open spec fn keys_to_prune(entries: Seq<(Seq<char>, Seq<char>)>, retain: int) -> Seq<Seq<char>> {
    if entries.len() <= retain {
        Seq::empty()
    } else {
        let s = entries.sort_by(upload_order());
        Seq::new((entries.len() - retain) as nat, |i: int| s[i].0)
    }
}

pub fn backup_keys_to_prune(backups: Vec<(String, String)>, retain: usize) -> (r: Vec<String>)
    ensures
        Seq::new(r@.len(), |i: int| r@[i]@) == keys_to_prune(pairs_view(backups@), retain as int),
{
    let n = backups.len();
    if n <= retain {
        let r: Vec<String> = Vec::new();
        proof {
            assert(Seq::new(r@.len(), |i: int| r@[i]@) =~= Seq::<Seq<char>>::empty());
        }
        return r;
    }
    let ghost input = pairs_view(backups@);
    let sorted = sort_by_upload(backups);
    let count = n - retain;
    let mut out: Vec<String> = Vec::new();
    let mut i: usize = 0;
    proof {
        lemma_upload_order_total();
        input.lemma_sort_by_ensures(upload_order());
        broadcast use vstd::seq_lib::group_to_multiset_ensures;
        let sorted_view = input.sort_by(upload_order());
        assert(input.to_multiset().len() == input.len());
        assert(sorted_view.to_multiset().len() == sorted_view.len());
    }
    while i < count
        invariant
            i <= count,
            total_ordering(upload_order()),
            count == input.len() - retain,
            pairs_view(sorted@) == input.sort_by(upload_order()),
            pairs_view(sorted@).len() == input.len(),
            out@.len() == i,
            forall|k: int| 0 <= k < i ==> (#[trigger] out@[k])@ == input.sort_by(upload_order())[k].0,
        decreases count - i,
    {
        proof {
            assert(pairs_view(sorted@).len() == sorted@.len());
            assert(pairs_view(sorted@)[i as int].0 == sorted@[i as int].0@);
        }
        out.push(sorted[i].0.clone());
        i = i + 1;
    }
    proof {
        assert(Seq::new(out@.len(), |k: int| out@[k]@) =~= keys_to_prune(input, retain as int));
    }
    out
}


/// A configured value that is present and not blank.
pub open spec fn nonblank(x: Option<Seq<char>>) -> bool {
    x matches Some(v) && trim(v).len() > 0
}

pub open spec fn opt_text(x: Option<String>) -> Option<Seq<char>> {
    match x {
        Some(s) => Some(s@),
        None => None,
    }
}

/// The key that encrypts new backups: the `current` secret, else the `legacy`
/// one, each as configured (blank counts as absent). Its id is the configured key
/// id when that is not blank, else `current` or `legacy`.
pub open spec fn current_key(current: Option<Seq<char>>, legacy: Option<Seq<char>>, key_id: Option<Seq<char>>) -> Option<(Seq<char>, Seq<char>)> {
    let id = |fallback: Seq<char>| if nonblank(key_id) {
        key_id->0
    } else {
        fallback
    };
    if nonblank(current) {
        Some((id("current"@), current->0))
    } else if nonblank(legacy) {
        Some((id("legacy"@), legacy->0))
    } else {
        None
    }
}

pub open spec fn key_view(k: BackupEncryptionKey) -> (Seq<char>, Seq<char>) {
    (k.id@, k.secret@)
}

fn is_nonblank(x: &Option<String>) -> (b: bool)
    ensures
        b == nonblank(opt_text(*x)),
{
    match x {
        Some(v) => {
            let t = trim_str(v.as_str());
            t.as_str().unicode_len() > 0
        },
        None => false,
    }
}

/// The backup encryption key in force, from the configured current secret, legacy
/// secret and key id.
pub fn current_backup_encryption_key(current: Option<String>, legacy: Option<String>, key_id: Option<String>) -> (r: Option<BackupEncryptionKey>)
    ensures
        match r {
            Some(k) => current_key(opt_text(current), opt_text(legacy), opt_text(key_id)) == Some(key_view(k)),
            None => current_key(opt_text(current), opt_text(legacy), opt_text(key_id)) is None,
        },
{
    let id_given = is_nonblank(&key_id);
    let secret_current = is_nonblank(&current);
    let secret_legacy = is_nonblank(&legacy);
    if secret_current {
        let id = if id_given {
            key_id.unwrap()
        } else {
            "current".to_owned()
        };
        Some(BackupEncryptionKey { id, secret: current.unwrap() })
    } else if secret_legacy {
        let id = if id_given {
            key_id.unwrap()
        } else {
            "legacy".to_owned()
        };
        Some(BackupEncryptionKey { id, secret: legacy.unwrap() })
    } else {
        None
    }
}

/// Whether some key of `keys` has id `id`.
pub open spec fn has_id(keys: Seq<(Seq<char>, Seq<char>)>, id: Seq<char>) -> bool {
    exists|i: int| 0 <= i < keys.len() && keys[i].0 == id
}

/// The usable keys of `keys`, in order: id and secret not blank, and only the
/// first key of each id.
pub open spec fn usable_keys(keys: Seq<(Seq<char>, Seq<char>)>) -> Seq<(Seq<char>, Seq<char>)>
    decreases keys.len(),
{
    if keys.len() == 0 {
        Seq::empty()
    } else {
        let prev = usable_keys(keys.drop_last());
        let k = keys.last();
        if trim(k.0).len() > 0 && trim(k.1).len() > 0 && !has_id(prev, k.0) {
            prev.push(k)
        } else {
            prev
        }
    }
}

pub open spec fn keys_view(keys: Seq<BackupEncryptionKey>) -> Seq<(Seq<char>, Seq<char>)> {
    Seq::new(keys.len(), |i: int| key_view(keys[i]))
}

fn id_listed(keys: &Vec<BackupEncryptionKey>, id: &str) -> (b: bool)
    ensures
        b == has_id(keys_view(keys@), id@),
{
    let mut i: usize = 0;
    while i < keys.len()
        invariant
            i <= keys@.len(),
            forall|j: int| 0 <= j < i ==> keys@[j].id@ != id@,
        decreases keys.len() - i,
    {
        if str_eq(keys[i].id.as_str(), id) {
            proof {
                assert(keys_view(keys@)[i as int].0 == id@);
            }
            return true;
        }
        i = i + 1;
    }
    proof {
        assert forall|j: int| 0 <= j < keys_view(keys@).len() implies keys_view(keys@)[j].0 != id@ by {
            assert(keys_view(keys@)[j] == key_view(keys@[j]));
        }
    }
    false
}

/// The key in force, if any, ahead of `listed`.
pub open spec fn with_current(current: Option<BackupEncryptionKey>, listed: Seq<(Seq<char>, Seq<char>)>) -> Seq<(Seq<char>, Seq<char>)> {
    match current {
        Some(k) => seq![key_view(k)] + listed,
        None => listed,
    }
}

pub open spec fn opt_json_view(x: Option<Json>) -> Option<JsonView> {
    match x {
        Some(j) => Some(j@),
        None => None,
    }
}

/// Every key that can decrypt a backup: the key in force first, then the listed
/// ones, keeping usable keys only and the first key of each id.
pub fn backup_encryption_keys(current: Option<BackupEncryptionKey>, listed: Vec<BackupEncryptionKey>) -> (r: Vec<BackupEncryptionKey>)
    ensures
        keys_view(r@) == usable_keys(with_current(current, keys_view(listed@))),
{
    let ghost lv = keys_view(listed@);
    let ghost combined = with_current(current, lv);
    let mut all = listed;
    match current {
        Some(k) => all.insert(0, k),
        None => {},
    }
    proof {
        assert(keys_view(all@) =~= combined);
    }
    let mut out: Vec<BackupEncryptionKey> = Vec::new();
    let mut i: usize = 0;
    proof {
        assert(keys_view(out@) =~= usable_keys(combined.take(0)));
    }
    while i < all.len()
        invariant
            i <= all@.len(),
            keys_view(all@) == combined,
            keys_view(out@) == usable_keys(combined.take(i as int)),
        decreases all.len() - i,
    {
        proof {
            assert(combined.take(i + 1).drop_last() =~= combined.take(i as int));
            assert(combined.take(i + 1).last() == key_view(all@[i as int]));
        }
        let id_t = trim_str(all[i].id.as_str());
        let secret_t = trim_str(all[i].secret.as_str());
        if id_t.as_str().unicode_len() > 0 && secret_t.as_str().unicode_len() > 0 && !id_listed(
            &out,
            all[i].id.as_str(),
        ) {
            let ghost prev = keys_view(out@);
            let k = BackupEncryptionKey { id: all[i].id.clone(), secret: all[i].secret.clone() };
            out.push(k);
            proof {
                assert(keys_view(out@) =~= prev.push(key_view(all@[i as int])));
            }
        }
        i = i + 1;
    }
    proof {
        assert(combined.take(i as int) =~= combined);
    }
    out
}

/// One `id=secret` entry of a comma-separated key list, both sides trimmed; an
/// entry without `=` or with a blank side gives nothing.
pub open spec fn listed_key(entry: Seq<char>) -> Option<(Seq<char>, Seq<char>)> {
    let i = char_index(entry, '=');
    if i < entry.len() && trim(entry.take(i)).len() > 0 && trim(entry.skip(i + 1)).len() > 0 {
        Some((trim(entry.take(i)), trim(entry.skip(i + 1))))
    } else {
        None
    }
}

pub open spec fn listed_keys(entries: Seq<Seq<char>>) -> Seq<(Seq<char>, Seq<char>)>
    decreases entries.len(),
{
    if entries.len() == 0 {
        Seq::empty()
    } else {
        let prev = listed_keys(entries.drop_last());
        match listed_key(entries.last()) {
            Some(k) => prev.push(k),
            None => prev,
        }
    }
}

/// The keys of a JSON object `{id: secret}`: string secrets, trimmed, under ids
/// that are not blank; empty secrets give nothing.
pub open spec fn object_keys(fields: Seq<(Seq<char>, JsonView)>) -> Seq<(Seq<char>, Seq<char>)>
    decreases fields.len(),
{
    if fields.len() == 0 {
        Seq::empty()
    } else {
        let prev = object_keys(fields.drop_last());
        let (id, value) = fields.last();
        match value {
            JsonView::Str(secret) => if trim(id).len() > 0 && trim(secret).len() > 0 {
                prev.push((id, trim(secret)))
            } else {
                prev
            },
            _ => prev,
        }
    }
}

/// The key list configured as text: a JSON object of `id: secret` when the text
/// parses as one (`parsed` is what it parsed to), else comma-separated
/// `id=secret` entries.
pub open spec fn parsed_keys(raw: Seq<char>, parsed: Option<JsonView>) -> Seq<(Seq<char>, Seq<char>)> {
    match parsed {
        Some(JsonView::Object(fields)) => object_keys(fields),
        _ => listed_keys(split_char(raw, ',')),
    }
}

fn listed_key_exec(entry: &[char]) -> (r: Option<BackupEncryptionKey>)
    ensures
        match r {
            Some(k) => listed_key(entry@) == Some(key_view(k)),
            None => listed_key(entry@) is None,
        },
{
    let i = find_char(entry, '=');
    if i == entry.len() {
        return None;
    }
    let left = sub_chars(entry, 0, i);
    let right = sub_chars(entry, i + 1, entry.len());
    proof {
        assert(left@ =~= entry@.take(i as int));
        assert(right@ =~= entry@.skip(i + 1));
    }
    let id = trim_chars(&left);
    let secret = trim_chars(&right);
    if id.len() == 0 || secret.len() == 0 {
        return None;
    }
    Some(BackupEncryptionKey { id: string_of(&id), secret: string_of(&secret) })
}

pub fn parse_backup_encryption_keys(raw: &str, parsed: Option<Json>) -> (r: Vec<BackupEncryptionKey>)
    ensures
        keys_view(r@) == parsed_keys(raw@, opt_json_view(parsed)),
{
    let mut out: Vec<BackupEncryptionKey> = Vec::new();
    let ghost pv = opt_json_view(parsed);
    match parsed {
        Some(Json::Object(fields)) => {
            let ghost fv = fields_view(fields@);
            proof {
                assert(pv->0->Object_0 =~= fv);
            }
            let mut i: usize = 0;
            proof {
                assert(fv.take(0) =~= Seq::<(Seq<char>, JsonView)>::empty());
                assert(keys_view(out@) =~= Seq::<(Seq<char>, Seq<char>)>::empty());
            }
            while i < fields.len()
                invariant
                    i <= fields@.len(),
                    fv == fields_view(fields@),
                    keys_view(out@) == object_keys(fv.take(i as int)),
                decreases fields.len() - i,
            {
                proof {
                    assert(fv.take(i + 1).drop_last() =~= fv.take(i as int));
                    assert(fv.take(i + 1).last() == (fields@[i as int].0@, fields@[i as int].1@));
                }
                match &fields[i].1 {
                    Json::Str(secret) => {
                        let id_t = trim_str(fields[i].0.as_str());
                        let secret_t = trim_str(secret.as_str());
                        if id_t.as_str().unicode_len() > 0 && secret_t.as_str().unicode_len() > 0 {
                            let ghost prev = keys_view(out@);
                            out.push(BackupEncryptionKey { id: fields[i].0.clone(), secret: secret_t });
                            proof {
                                assert(keys_view(out@) =~= prev.push((fields@[i as int].0@, trim(secret@))));
                            }
                        }
                    },
                    _ => {},
                }
                i = i + 1;
            }
            proof {
                assert(fv.take(fv.len() as int) =~= fv);
            }
            out
        },
        other => {
            let v = chars_of(raw);
            let entries = split_chars(&v, ',');
            let ghost ev = split_char(raw@, ',');
            let mut i: usize = 0;
            proof {
                assert(ev.take(0) =~= Seq::<Seq<char>>::empty());
                assert(keys_view(out@) =~= Seq::<(Seq<char>, Seq<char>)>::empty());
            }
            while i < entries.len()
                invariant
                    i <= entries@.len(),
                    entries@.len() == ev.len(),
                    ev == split_char(raw@, ','),
                    forall|k: int| 0 <= k < entries@.len() ==> (#[trigger] entries@[k])@ == ev[k],
                    keys_view(out@) == listed_keys(ev.take(i as int)),
                decreases entries.len() - i,
            {
                proof {
                    assert(ev.take(i + 1).drop_last() =~= ev.take(i as int));
                    assert(ev.take(i + 1).last() == entries@[i as int]@);
                }
                match listed_key_exec(&entries[i]) {
                    Some(k) => {
                        let ghost prev = keys_view(out@);
                        out.push(k);
                        proof {
                            assert(keys_view(out@) =~= prev.push(key_view(k)));
                        }
                    },
                    None => {},
                }
                i = i + 1;
            }
            proof {
                assert(ev.take(ev.len() as int) =~= ev);
                match other {
                    Some(j) => {
                        assert(!(j@ is Object));
                    },
                    None => {},
                }
            }
            out
        },
    }
}


/// What the API shows of backup encryption: whether a key is in force, its id, and
/// the ids of every key that can decrypt.
pub open spec fn encryption_status_view(current: Option<(Seq<char>, Seq<char>)>, keys: Seq<(Seq<char>, Seq<char>)>) -> JsonView {
    object_of(seq![
        ("configured"@, JsonView::Bool(current is Some)),
        ("currentKeyId"@, match current {
            Some(k) => JsonView::Str(k.0),
            None => JsonView::Null,
        }),
        ("knownKeyIds"@, JsonView::Array(id_items(keys))),
    ])
}

pub open spec fn opt_key_view(k: Option<BackupEncryptionKey>) -> Option<(Seq<char>, Seq<char>)> {
    match k {
        Some(k) => Some(key_view(k)),
        None => None,
    }
}

/// The ids of `keys` as JSON strings.
pub open spec fn id_items(keys: Seq<(Seq<char>, Seq<char>)>) -> Seq<JsonView> {
    Seq::new(keys.len(), |i: int| JsonView::Str(keys[i].0))
}

pub fn backup_encryption_status(current: &Option<BackupEncryptionKey>, keys: &Vec<BackupEncryptionKey>) -> (j: Json)
    ensures
        j@ == encryption_status_view(opt_key_view(*current), keys_view(keys@)),
{
    let mut ids: Vec<Json> = Vec::new();
    let mut i: usize = 0;
    while i < keys.len()
        invariant
            i <= keys@.len(),
            ids@.len() == i,
            forall|k: int| 0 <= k < i ==> (#[trigger] ids@[k])@ == JsonView::Str(keys@[k].id@),
        decreases keys.len() - i,
    {
        ids.push(Json::Str(keys[i].id.clone()));
        i = i + 1;
    }
    let known = json_array(ids);
    let current_id = match current {
        Some(k) => Json::Str(k.id.clone()),
        None => Json::Null,
    };
    let mut b = ObjectBuilder::new();
    b.add("configured", Json::Bool(current.is_some()));
    b.add("currentKeyId", current_id);
    b.add("knownKeyIds", known);
    proof {
        let kv = keys_view(keys@);
        assert(items_view(ids@) =~= id_items(kv));
        let cv = opt_key_view(*current);
        assert(b.pairs() =~= seq![
            ("configured"@, JsonView::Bool(cv is Some)),
            ("currentKeyId"@, match cv {
                Some(k) => JsonView::Str(k.0),
                None => JsonView::Null,
            }),
            ("knownKeyIds"@, JsonView::Array(id_items(kv))),
        ]);
    }
    b.build()
}

/// The keys to try on an encrypted backup: those with the envelope's key id, or
/// all keys when it names none. No key configured answers 500; none with that id
/// answers 400.
pub open spec fn key_candidates(keys: Seq<(Seq<char>, Seq<char>)>, key_id: Option<Seq<char>>) -> Seq<(Seq<char>, Seq<char>)> {
    match key_id {
        Some(id) => keys.filter(|k: (Seq<char>, Seq<char>)| k.0 == id),
        None => keys,
    }
}

pub fn backup_key_candidates(keys: &Vec<BackupEncryptionKey>, key_id: Option<&str>) -> (r: Result<Vec<BackupEncryptionKey>, AppError>)
    ensures
        keys@.len() == 0 ==> (r matches Err(e) && is_error(e, 500, "BACKUP_ENCRYPTION_KEY is required"@)),
        keys@.len() > 0 ==> match r {
            Ok(c) => keys_view(c@) == key_candidates(keys_view(keys@), crate::sse::opt_str_seq(key_id)) && c@.len() > 0,
            Err(e) => key_candidates(keys_view(keys@), crate::sse::opt_str_seq(key_id)).len() == 0
                && is_error(e, 400, "Backup encryption key is unavailable"@),
        },
{
    if keys.len() == 0 {
        return Err(AppError::new(500, "BACKUP_ENCRYPTION_KEY is required"));
    }
    let ghost kv = keys_view(keys@);
    let ghost want = crate::sse::opt_str_seq(key_id);
    let mut out: Vec<BackupEncryptionKey> = Vec::new();
    let mut i: usize = 0;
    proof {
        assert(kv.take(0) =~= Seq::<(Seq<char>, Seq<char>)>::empty());
        assert(keys_view(out@) =~= key_candidates(kv.take(0), want));
    }
    while i < keys.len()
        invariant
            i <= keys@.len(),
            kv == keys_view(keys@),
            want == crate::sse::opt_str_seq(key_id),
            keys_view(out@) == key_candidates(kv.take(i as int), want),
        decreases keys.len() - i,
    {
        let ghost prev = keys_view(out@);
        proof {
            assert(kv.take(i + 1) =~= kv.take(i as int).push(kv[i as int]));
            assert(kv[i as int] == key_view(keys@[i as int]));
            match want {
                Some(id) => {
                    kv.take(i as int).lemma_filter_push(kv[i as int], |k: (Seq<char>, Seq<char>)| k.0 == id);
                },
                None => {},
            }
        }
        let keep = match key_id {
            Some(id) => str_eq(keys[i].id.as_str(), id),
            None => true,
        };
        if keep {
            out.push(BackupEncryptionKey { id: keys[i].id.clone(), secret: keys[i].secret.clone() });
            proof {
                assert(keys_view(out@) =~= prev.push(key_view(keys@[i as int])));
            }
        }
        i = i + 1;
    }
    proof {
        assert(kv.take(i as int) =~= kv);
    }
    if out.len() == 0 {
        proof {
            assert(keys_view(out@).len() == 0);
        }
        return Err(AppError::new(400, "Backup encryption key is unavailable"));
    }
    Ok(out)
}

/// Where a stored backup key may point: only under `backups/`.
pub fn valid_backup_key(key: &str) -> (b: bool)
    ensures
        b == crate::text::has_prefix(key@, "backups/"@),
{
    let v = chars_of(key);
    let p = chars_of("backups/");
    starts_with(&v, &p)
}

/// The last `/`-separated segment of a backup key, offered as the download name.
pub open spec fn download_name(key: Seq<char>) -> Seq<char> {
    split_char(key, '/').last()
}

pub fn backup_filename(key: &str) -> (r: String)
    ensures
        r@ == download_name(key@),
{
    let v = chars_of(key);
    let parts = split_chars(&v, '/');
    proof {
        crate::cookies::lemma_split_char_nonempty(v@, '/');
    }
    let last = parts.len() - 1;
    string_of(&parts[last])
}

/// `:` and `.` become `-`, so that a time stamp can name a file.
pub open spec fn stamp_text(s: Seq<char>) -> Seq<char> {
    Seq::new(s.len(), |i: int| if s[i] == ':' || s[i] == '.' { '-' } else { s[i] })
}

/// The storage key of a backup made at `stamp` (an ISO 8601 time).
pub fn backup_key(stamp: &str) -> (r: String)
    ensures
        r@ == "backups/memos-"@ + stamp_text(stamp@) + ".json"@,
{
    let v = chars_of(stamp);
    let mut out: Vec<char> = chars_of("backups/memos-");
    let ghost head = out@;
    let mut i: usize = 0;
    while i < v.len()
        invariant
            i <= v@.len(),
            v@ == stamp@,
            out@ == head + stamp_text(stamp@).take(i as int),
        decreases v@.len() - i,
    {
        let c = v[i];
        let d = if c == ':' || c == '.' { '-' } else { c };
        out.push(d);
        proof {
            assert(stamp_text(stamp@).take(i + 1) =~= stamp_text(stamp@).take(i as int).push(d));
        }
        i = i + 1;
    }
    proof {
        assert(stamp_text(stamp@).take(i as int) =~= stamp_text(stamp@));
    }
    crate::text::push_str(&mut out, ".json");
    string_of(&out)
}

/// The index of the newest of a list of upload times: the first of the greatest.
pub open spec fn newest_index(ups: Seq<Seq<char>>) -> int
    decreases ups.len(),
{
    if ups.len() <= 1 {
        0
    } else {
        let b = newest_index(ups.drop_last());
        if crate::json::key_lt(ups[b], ups.last()) {
            ups.len() - 1
        } else {
            b
        }
    }
}

/// The newest upload is the first one that no other upload follows.
pub proof fn lemma_newest_is_first_greatest(ups: Seq<Seq<char>>)
    requires
        ups.len() > 0,
    ensures
        0 <= newest_index(ups) < ups.len(),
        forall|j: int| 0 <= j < ups.len() ==> !crate::json::key_lt(ups[newest_index(ups)], #[trigger] ups[j]),
        forall|j: int| 0 <= j < newest_index(ups) ==> crate::json::key_lt(#[trigger] ups[j], ups[newest_index(ups)]),
    decreases ups.len(),
{
    if ups.len() == 1 {
        crate::json::lemma_key_lt_irreflexive(ups[0]);
    } else {
        let prev = ups.drop_last();
        lemma_newest_is_first_greatest(prev);
        let b = newest_index(prev);
        let last = ups.last();
        if crate::json::key_lt(ups[b], last) {
            assert forall|j: int| 0 <= j < ups.len() implies !crate::json::key_lt(last, #[trigger] ups[j]) by {
                if j < ups.len() - 1 {
                    assert(ups[j] == prev[j]);
                    if crate::json::key_lt(last, ups[j]) {
                        crate::json::lemma_key_lt_transitive(ups[b], last, ups[j]);
                        assert(!crate::json::key_lt(prev[b], prev[j]));
                    }
                } else {
                    crate::json::lemma_key_lt_irreflexive(last);
                }
            }
            assert forall|j: int| 0 <= j < ups.len() - 1 implies crate::json::key_lt(#[trigger] ups[j], last) by {
                assert(ups[j] == prev[j]);
                assert(!crate::json::key_lt(prev[b], prev[j]));
                crate::json::lemma_key_lt_total(prev[b], prev[j]);
                if prev[j] != prev[b] {
                    crate::json::lemma_key_lt_transitive(prev[j], prev[b], last);
                }
            }
        } else {
            assert(ups[b] == prev[b]);
            assert forall|j: int| 0 <= j < ups.len() implies !crate::json::key_lt(ups[b], #[trigger] ups[j]) by {
                if j < ups.len() - 1 {
                    assert(ups[j] == prev[j]);
                }
            }
            assert forall|j: int| 0 <= j < b implies crate::json::key_lt(#[trigger] ups[j], ups[b]) by {
                assert(ups[j] == prev[j]);
            }
        }
    }
}

/// A stored backup as the health report shows it.
pub open spec fn backup_entry_view(key: Seq<char>, size: int, uploaded: Seq<char>) -> JsonView {
    object_of(seq![("key"@, JsonView::Str(key)), ("size"@, JsonView::Int(size)), ("uploaded"@, JsonView::Str(uploaded))])
}

/// The backup part of the health report: storage reachable, how many backups
/// there are, the newest (null when there is none) and the encryption status.
pub open spec fn backup_health_view(backups: Seq<(Seq<char>, int, Seq<char>)>, encryption: JsonView) -> JsonView {
    let ups = Seq::new(backups.len(), |i: int| backups[i].2);
    let latest = if backups.len() == 0 {
        JsonView::Null
    } else {
        let b = backups[newest_index(ups)];
        backup_entry_view(b.0, b.1, b.2)
    };
    object_of(seq![
        ("r2Available"@, JsonView::Bool(true)),
        ("count"@, JsonView::Int(backups.len() as int)),
        ("latest"@, latest),
        ("encryption"@, encryption),
    ])
}

pub open spec fn listed_view(v: Seq<(String, i64, String)>) -> Seq<(Seq<char>, int, Seq<char>)> {
    Seq::new(v.len(), |i: int| (v[i].0@, v[i].1 as int, v[i].2@))
}

/// Reports the stored backups (key, size, upload time) and the encryption status.
pub fn backup_health(backups: &Vec<(String, i64, String)>, encryption: Json) -> (j: Json)
    ensures
        j@ == backup_health_view(listed_view(backups@), encryption@),
{
    let ghost lv = listed_view(backups@);
    let ghost ups = Seq::new(lv.len(), |i: int| lv[i].2);
    let n = backups.len();
    let latest = if n == 0 {
        Json::Null
    } else {
        let mut best: usize = 0;
        let mut best_up = chars_of(backups[0].2.as_str());
        let mut i: usize = 1;
        proof {
            assert(ups.take(1).drop_last() =~= Seq::<Seq<char>>::empty());
        }
        while i < n
            invariant
                1 <= i <= n,
                n == backups@.len(),
                lv == listed_view(backups@),
                ups == Seq::new(lv.len(), |k: int| lv[k].2),
                best < i,
                best as int == newest_index(ups.take(i as int)),
                best_up@ == ups[best as int],
            decreases n - i,
        {
            let up = chars_of(backups[i].2.as_str());
            proof {
                assert(ups.take(i + 1).drop_last() =~= ups.take(i as int));
                assert(ups.take(i as int)[best as int] == ups[best as int]);
            }
            if crate::json::key_less(&best_up, &up) {
                best = i;
                best_up = up;
            }
            i = i + 1;
        }
        proof {
            assert(ups.take(n as int) =~= ups);
        }
        let mut b = ObjectBuilder::new();
        b.add("key", Json::Str(backups[best].0.clone()));
        b.add("size", Json::Int(backups[best].1 as i128));
        b.add("uploaded", Json::Str(backups[best].2.clone()));
        proof {
            assert(b.pairs() =~= seq![
                ("key"@, JsonView::Str(lv[best as int].0)),
                ("size"@, JsonView::Int(lv[best as int].1)),
                ("uploaded"@, JsonView::Str(lv[best as int].2)),
            ]);
        }
        b.build()
    };
    let mut r = ObjectBuilder::new();
    r.add("r2Available", Json::Bool(true));
    r.add("count", Json::Int(n as i128));
    r.add("latest", latest);
    r.add("encryption", encryption);
    proof {
        assert(r.pairs() =~= seq![
            ("r2Available"@, JsonView::Bool(true)),
            ("count"@, JsonView::Int(lv.len() as int)),
            ("latest"@, if lv.len() == 0 { JsonView::Null } else {
                backup_entry_view(lv[newest_index(ups)].0, lv[newest_index(ups)].1, lv[newest_index(ups)].2)
            }),
            ("encryption"@, encryption@),
        ]);
    }
    r.build()
}

/// Where a preview or restore request finds its backup.
#[derive(Debug)]
pub enum BackupSource {
    /// The backup document sent in the request itself.
    Inline(Json),
    /// The key of a stored backup.
    Stored(String),
}

/// A request's `payload` when it has one; otherwise its `key`, which must lie under
/// `backups/` (400 otherwise).
pub fn backup_payload_source(body: &Json) -> (r: Result<BackupSource, AppError>)
    ensures
        json_get(body@, "payload"@) matches Some(p) ==> (r matches Ok(BackupSource::Inline(j)) && j@ == p),
        json_get(body@, "payload"@) is None ==> {
            let key = match crate::json::json_as_str(json_get(body@, "key"@)) {
                Some(k) => k,
                None => Seq::empty(),
            };
            &&& crate::text::has_prefix(key, "backups/"@) ==> (r matches Ok(BackupSource::Stored(k)) && k@ == key)
            &&& !crate::text::has_prefix(key, "backups/"@) ==> (r matches Err(e) && is_error(e, 400, "Invalid backup key"@))
        },
{
    match get_field(body, "payload") {
        Some(p) => return Ok(BackupSource::Inline(crate::events::clone_json(p))),
        None => {},
    }
    let key = match crate::json::as_str(get_field(body, "key")) {
        Some(k) => k.clone(),
        None => {
            let e = String::new();
            proof {
                assert(e@ =~= Seq::<char>::empty());
            }
            e
        },
    };
    if !valid_backup_key(key.as_str()) {
        return Err(AppError::new(400, "Invalid backup key"));
    }
    Ok(BackupSource::Stored(key))
}

/// The document an encrypted backup is stored as: its key, the nonce and the
/// ciphertext in unpadded URL-safe base64.
pub open spec fn envelope_fields(key_id: Seq<char>, iv: Seq<u8>, data: Seq<u8>) -> Seq<(Seq<char>, JsonView)> {
    seq![
        ("encrypted"@, JsonView::Bool(true)),
        ("version"@, JsonView::Int(1)),
        ("algorithm"@, JsonView::Str("AES-256-GCM"@)),
        ("keyId"@, JsonView::Str(key_id)),
        ("iv"@, JsonView::Str(crate::crypto::base64url_encoded(iv))),
        ("data"@, JsonView::Str(crate::crypto::base64url_encoded(data))),
    ]
}

pub fn encrypted_backup_envelope(key_id: &str, iv: &[u8], data: &[u8]) -> (j: Json)
    requires
        iv@.len() <= 0x3fff_ffff,
        data@.len() <= 0x3fff_ffff,
    ensures
        j@ == object_of(envelope_fields(key_id@, iv@, data@)),
        crate::crypto::base64url_decoded(crate::crypto::base64url_encoded(iv@)) == Some(iv@),
        crate::crypto::base64url_decoded(crate::crypto::base64url_encoded(data@)) == Some(data@),
{
    let mut b = ObjectBuilder::new();
    b.add("encrypted", Json::Bool(true));
    b.add("version", Json::Int(1));
    b.add("algorithm", json_str("AES-256-GCM"));
    b.add("keyId", json_str(key_id));
    b.add("iv", Json::Str(crate::crypto::base64url(iv)));
    b.add("data", Json::Str(crate::crypto::base64url(data)));
    proof {
        assert(b.pairs() =~= envelope_fields(key_id@, iv@, data@));
    }
    b.build()
}

/// Whether a stored backup document is an encrypted envelope.
pub fn is_encrypted_backup(stored: &Json) -> (b: bool)
    ensures
        b == (json_get(stored@, "encrypted"@) == Some(JsonView::Bool(true))),
{
    match get_field(stored, "encrypted") {
        Some(Json::Bool(v)) => *v,
        _ => false,
    }
}

/// The nonce and ciphertext of an encrypted backup: only `AES-256-GCM` envelopes
/// are read (`Unsupported backup encryption` otherwise), and both `iv` and `data`
/// must be base64 text (`Invalid encrypted backup` otherwise).
pub open spec fn envelope_parts(envelope: JsonView) -> Result<(Seq<u8>, Seq<u8>), Seq<char>> {
    if crate::json::json_as_str(json_get(envelope, "algorithm"@)) != Some("AES-256-GCM"@) {
        Err("Unsupported backup encryption"@)
    } else {
        match (crate::json::json_as_str(json_get(envelope, "iv"@)), crate::json::json_as_str(json_get(envelope, "data"@))) {
            (Some(i), Some(d)) => match (crate::crypto::base64url_decoded(i), crate::crypto::base64url_decoded(d)) {
                (Some(iv), Some(data)) => Ok((iv, data)),
                _ => Err("Invalid encrypted backup"@),
            },
            _ => Err("Invalid encrypted backup"@),
        }
    }
}

/// Reads an encrypted backup's nonce and ciphertext; refusals answer 400.
pub fn encrypted_backup_parts(envelope: &Json) -> (r: Result<(Vec<u8>, Vec<u8>), AppError>)
    ensures
        match r {
            Ok((iv, data)) => envelope_parts(envelope@) == Ok::<(Seq<u8>, Seq<u8>), Seq<char>>((iv@, data@)),
            Err(e) => e.status == 400 && envelope_parts(envelope@) == Err::<(Seq<u8>, Seq<u8>), Seq<char>>(e.message@),
        },
{
    let algorithm_ok = match crate::json::as_str(get_field(envelope, "algorithm")) {
        Some(a) => str_eq(a.as_str(), "AES-256-GCM"),
        None => false,
    };
    if !algorithm_ok {
        return Err(AppError::new(400, "Unsupported backup encryption"));
    }
    let iv_text = match crate::json::as_str(get_field(envelope, "iv")) {
        Some(t) => t,
        None => return Err(AppError::new(400, "Invalid encrypted backup")),
    };
    let data_text = match crate::json::as_str(get_field(envelope, "data")) {
        Some(t) => t,
        None => return Err(AppError::new(400, "Invalid encrypted backup")),
    };
    let iv = match crate::crypto::decode_base64url(iv_text.as_str()) {
        Some(b) => b,
        None => return Err(AppError::new(400, "Invalid encrypted backup")),
    };
    let data = match crate::crypto::decode_base64url(data_text.as_str()) {
        Some(b) => b,
        None => return Err(AppError::new(400, "Invalid encrypted backup")),
    };
    Ok((iv, data))
}

/// An envelope made for a nonce and ciphertext reads back as an encrypted backup
/// holding exactly them.
pub proof fn lemma_envelope_reads_back(key_id: Seq<char>, iv: Seq<u8>, data: Seq<u8>)
    requires
        crate::crypto::base64url_decoded(crate::crypto::base64url_encoded(iv)) == Some(iv),
        crate::crypto::base64url_decoded(crate::crypto::base64url_encoded(data)) == Some(data),
    ensures
        json_get(object_of(envelope_fields(key_id, iv, data)), "encrypted"@) == Some(JsonView::Bool(true)),
        envelope_parts(object_of(envelope_fields(key_id, iv, data))) == Ok::<(Seq<u8>, Seq<u8>), Seq<char>>((iv, data)),
{
    reveal_strlit("encrypted");
    reveal_strlit("version");
    reveal_strlit("algorithm");
    reveal_strlit("keyId");
    reveal_strlit("iv");
    reveal_strlit("data");
    let pairs = envelope_fields(key_id, iv, data);
    assert(pairs[0].0.len() == 9 && pairs[1].0.len() == 7 && pairs[2].0.len() == 9);
    assert(pairs[3].0.len() == 5 && pairs[4].0.len() == 2 && pairs[5].0.len() == 4);
    assert(pairs[0].0[0] != pairs[2].0[0]);
    assert forall|k: int, j: int| 0 <= k < 6 && 0 <= j < 6 && j != k implies (#[trigger] pairs[j]).0 != (#[trigger] pairs[k]).0 by {
        if pairs[j].0 == pairs[k].0 {
            assert(pairs[j].0.len() == pairs[k].0.len());
            if (j == 0 && k == 2) || (j == 2 && k == 0) {
                assert(pairs[j].0[0] != pairs[k].0[0]);
            }
        }
    }
    crate::json::lemma_obj_from_get(pairs, 0);
    crate::json::lemma_obj_from_get(pairs, 2);
    crate::json::lemma_obj_from_get(pairs, 4);
    crate::json::lemma_obj_from_get(pairs, 5);
}

} // verus!
