use vstd::prelude::*;

verus! {

/// The recency scale of a ranking: the latest update time among the candidates and
/// the current memo, and at least 1.
pub open spec fn recency_scale(current_updated: i64, updated: Seq<i64>) -> int
    decreases updated.len(),
{
    if updated.len() == 0 {
        if current_updated > 1 { current_updated as int } else { 1 }
    } else {
        let rest = recency_scale(current_updated, updated.drop_last());
        if updated.last() > rest { updated.last() as int } else { rest }
    }
}

pub open spec fn clamp_to(u: int, m: int) -> int {
    if u < 0 { 0 } else if u > m { m } else { u }
}

/// A candidate's score scaled by the recency scale `m`: shared tags weigh five,
/// shared keywords two, and its update time over `m` (within 0 to 1) is added.
/// Scaled, the score is an integer, and candidates compare exactly.
pub open spec fn rank_key(tags: int, keywords: int, updated: int, m: int) -> int {
    (5 * tags + 2 * keywords) * m + clamp_to(updated, m)
}

/// The scaled score of candidate `i` when it is ranked at all: it overlaps the
/// current memo and its score is above zero.
pub open spec fn entry_key(overlaps: Seq<Option<(usize, usize)>>, updated: Seq<i64>, m: int, i: int) -> Option<int> {
    match overlaps[i] {
        Some((t, k)) => {
            let key = rank_key(t as int, k as int, updated[i] as int, m);
            if key > 0 { Some(key) } else { None }
        },
        None => None,
    }
}

/// Candidate `a` ranks before candidate `b`: a higher score, or the same score and
/// an earlier place in the list.
pub open spec fn ranks_before(overlaps: Seq<Option<(usize, usize)>>, updated: Seq<i64>, m: int, a: int, b: int) -> bool {
    let ka = entry_key(overlaps, updated, m, a)->0;
    let kb = entry_key(overlaps, updated, m, b)->0;
    ka > kb || (ka == kb && a < b)
}

/// The candidates a ranking gives, best first, at most `limit`: exactly the ranked
/// candidates in score order (ties in list order), cut at `limit`.
pub open spec fn is_ranking(r: Seq<usize>, overlaps: Seq<Option<(usize, usize)>>, updated: Seq<i64>, m: int, limit: int) -> bool {
    &&& r.len() <= limit
    &&& forall|j: int| 0 <= j < r.len() ==> (r[j] as int) < overlaps.len() && (#[trigger] entry_key(overlaps, updated, m, r[j] as int)) is Some
    &&& forall|j: int, l: int| 0 <= j < l < r.len() ==> ranks_before(overlaps, updated, m, r[j] as int, r[l] as int)
    &&& forall|i: int| 0 <= i < overlaps.len() && (#[trigger] entry_key(overlaps, updated, m, i)) is Some && !r.contains(i as usize)
        ==> r.len() == limit && (limit == 0 || ranks_before(overlaps, updated, m, r.last() as int, i))
}

fn scale(current_updated: i64, updated: &Vec<i64>) -> (m: i64)
    ensures
        m == recency_scale(current_updated, updated@),
        m >= 1,
{
    let mut m: i64 = if current_updated > 1 { current_updated } else { 1 };
    let mut i: usize = 0;
    while i < updated.len()
        invariant
            i <= updated@.len(),
            m == recency_scale(current_updated, updated@.take(i as int)),
            m >= 1,
        decreases updated.len() - i,
    {
        proof {
            assert(updated@.take(i + 1).drop_last() =~= updated@.take(i as int));
        }
        if updated[i] > m {
            m = updated[i];
        }
        i = i + 1;
    }
    proof {
        assert(updated@.take(i as int) =~= updated@);
    }
    m
}

/// Whether the scaled score `a * m + ua` is above `b * m + ub`, or equal to it,
/// for `ua` and `ub` within 0 to `m`, without forming the products.
fn key_compare(a: u128, ua: i64, b: u128, ub: i64, m: i64) -> (r: (bool, bool))
    requires
        m >= 1,
        0 <= ua <= m,
        0 <= ub <= m,
    ensures
        r.0 == (a * m + ua > b * m + ub),
        r.1 == (a * m + ua == b * m + ub),
{
    proof {
        lemma_key_order(a as int, ua as int, b as int, ub as int, m as int);
    }
    if a == b {
        (ua > ub, ua == ub)
    } else if a > b {
        if a - b == 1 && ua == 0 && ub == m {
            (false, true)
        } else {
            (true, false)
        }
    } else {
        if b - a == 1 && ub == 0 && ua == m {
            (false, true)
        } else {
            (false, false)
        }
    }
}

proof fn lemma_key_order(a: int, ua: int, b: int, ub: int, m: int)
    requires
        a >= 0,
        b >= 0,
        m >= 1,
        0 <= ua <= m,
        0 <= ub <= m,
    ensures
        a == b ==> (a * m + ua > b * m + ub <==> ua > ub) && (a * m + ua == b * m + ub <==> ua == ub),
        a == b + 1 ==> (a * m + ua == b * m + ub <==> (ua == 0 && ub == m)),
        a == b + 1 ==> (a * m + ua >= b * m + ub),
        a >= b + 2 ==> a * m + ua > b * m + ub,
        b == a + 1 ==> (a * m + ua == b * m + ub <==> (ub == 0 && ua == m)),
        b == a + 1 ==> (a * m + ua <= b * m + ub),
        b >= a + 2 ==> a * m + ua < b * m + ub,
{
    assert((a - b) * m == a * m - b * m) by (nonlinear_arith);
    if a >= b + 2 {
        assert((a - b) * m >= 2 * m) by (nonlinear_arith)
            requires
                a - b >= 2,
                m >= 1,
        ;
    }
    if b >= a + 2 {
        assert((b - a) * m >= 2 * m) by (nonlinear_arith)
            requires
                b - a >= 2,
                m >= 1,
        ;
        assert((b - a) * m == b * m - a * m) by (nonlinear_arith);
    }
    if a == b + 1 {
        assert(a * m == b * m + m) by (nonlinear_arith)
            requires
                a == b + 1,
        ;
    }
    if b == a + 1 {
        assert(b * m == a * m + m) by (nonlinear_arith)
            requires
                b == a + 1,
        ;
    }
}

/// The places of the candidates most related to the current memo, best first, at
/// most `limit`. `overlaps[i]` is what candidate `i` shares with the current memo
/// (shared tags, shared keywords; none where it is not a candidate) and
/// `updated[i]` its update time.
pub fn rank_relation_order(overlaps: &Vec<Option<(usize, usize)>>, updated: &Vec<i64>, current_updated: i64, limit: usize) -> (r: Vec<usize>)
    requires
        overlaps@.len() == updated@.len(),
    ensures
        is_ranking(r@, overlaps@, updated@, recency_scale(current_updated, updated@), limit as int),
{
    let m = scale(current_updated, updated);
    let ghost ov = overlaps@;
    let ghost up = updated@;
    let ghost mm = m as int;
    let mut order: Vec<usize> = Vec::new();
    let mut keys: Vec<(u128, i64)> = Vec::new();
    let mut i: usize = 0;
    while i < overlaps.len()
        invariant
            i <= ov.len(),
            ov == overlaps@,
            up == updated@,
            ov.len() == up.len(),
            mm == m as int,
            m >= 1,
            order@.len() == keys@.len(),
            forall|j: int| 0 <= j < order@.len() ==> (order@[j] as int) < i && (#[trigger] entry_key(ov, up, mm, order@[j] as int)) is Some,
            forall|j: int| 0 <= j < order@.len() ==> 0 <= (#[trigger] keys@[j]).1 <= m
                && entry_key(ov, up, mm, order@[j] as int) == Some(keys@[j].0 * m + keys@[j].1),
            forall|j: int, l: int| 0 <= j < l < order@.len() ==> ranks_before(ov, up, mm, order@[j] as int, order@[l] as int),
            forall|x: int| 0 <= x < i && (#[trigger] entry_key(ov, up, mm, x)) is Some ==> order@.contains(x as usize),
        decreases ov.len() - i,
    {
        match overlaps[i] {
            Some((t, k)) => {
                let a: u128 = 5 * (t as u128) + 2 * (k as u128);
                let u: i64 = if updated[i] < 0 { 0 } else if updated[i] > m { m } else { updated[i] };
                let ghost key = a * m + u;
                proof {
                    assert(key == rank_key(t as int, k as int, up[i as int] as int, mm)) by (nonlinear_arith)
                        requires
                            a == 5 * t + 2 * k,
                            u == clamp_to(up[i as int] as int, mm),
                            key == a * m + u,
                            mm == m,
                    ;
                    assert(a * m >= 0) by (nonlinear_arith)
                        requires
                            a >= 0,
                            m >= 1,
                    ;
                }
                if a > 0 || u > 0 {
                    proof {
                        if a > 0 {
                            assert(a * m >= m) by (nonlinear_arith)
                                requires
                                    a >= 1,
                                    m >= 1,
                            ;
                        }
                        assert(entry_key(ov, up, mm, i as int) == Some(key));
                    }
                    let mut p: usize = 0;
                    while p < order.len()
                        invariant
                            p <= order@.len(),
                            order@.len() == keys@.len(),
                            m >= 1,
                            0 <= u <= m,
                            forall|j: int| 0 <= j < p ==> (#[trigger] keys@[j]).0 * m + keys@[j].1 >= a * m + u,
                            forall|j: int| 0 <= j < keys@.len() ==> 0 <= (#[trigger] keys@[j]).1 <= m,
                        ensures
                            p <= order@.len(),
                            forall|j: int| 0 <= j < p ==> (#[trigger] keys@[j]).0 * m + keys@[j].1 >= a * m + u,
                            p < order@.len() ==> keys@[p as int].0 * m + keys@[p as int].1 < a * m + u,
                        decreases order.len() - p,
                    {
                        let (greater, _equal) = key_compare(a, u, keys[p].0, keys[p].1, m);
                        if greater {
                            break;
                        }
                        p = p + 1;
                    }
                    let ghost old_order = order@;
                    let ghost old_keys = keys@;
                    order.insert(p, i);
                    keys.insert(p, (a, u));
                    proof {
                        lemma_insert_ranked(ov, up, mm, m, old_order, old_keys, order@, keys@, p as int, i, a, u);
                    }
                } else {
                    proof {
                        assert(a * m == 0) by (nonlinear_arith)
                            requires
                                a == 0,
                        ;
                        assert(entry_key(ov, up, mm, i as int) is None);
                    }
                }
            },
            None => {},
        }
        i = i + 1;
    }
    let ghost full = order@;
    order.truncate(limit);
    proof {
        assert(order@ =~= if full.len() > limit { full.take(limit as int) } else { full });
        assert forall|x: int| 0 <= x < ov.len() && (#[trigger] entry_key(ov, up, mm, x)) is Some && !order@.contains(x as usize)
            implies order@.len() == limit && (limit == 0 || ranks_before(ov, up, mm, order@.last() as int, x)) by {
            assert(full.contains(x as usize));
            let q = choose|q: int| 0 <= q < full.len() && full[q] == x as usize;
            if q < limit {
                assert(order@[q] == x as usize);
            }
            if limit > 0 {
                assert(order@.last() == full[limit - 1]);
            }
        }
    }
    order
}

/// Inserting candidate `i` at its place keeps the order ranked and complete.
proof fn lemma_insert_ranked(
    ov: Seq<Option<(usize, usize)>>,
    up: Seq<i64>,
    mm: int,
    m: i64,
    old_order: Seq<usize>,
    old_keys: Seq<(u128, i64)>,
    order: Seq<usize>,
    keys: Seq<(u128, i64)>,
    p: int,
    i: usize,
    a: u128,
    u: i64,
)
    requires
        mm == m as int,
        m >= 1,
        0 <= u <= m,
        0 <= p <= old_order.len(),
        old_order.len() == old_keys.len(),
        order == old_order.insert(p, i),
        keys == old_keys.insert(p, (a, u)),
        entry_key(ov, up, mm, i as int) == Some(a * m + u),
        forall|j: int| 0 <= j < old_order.len() ==> (old_order[j] as int) < i && (#[trigger] entry_key(ov, up, mm, old_order[j] as int)) is Some,
        forall|j: int| 0 <= j < old_order.len() ==> 0 <= (#[trigger] old_keys[j]).1 <= m
            && entry_key(ov, up, mm, old_order[j] as int) == Some(old_keys[j].0 * m + old_keys[j].1),
        forall|j: int, l: int| 0 <= j < l < old_order.len() ==> ranks_before(ov, up, mm, old_order[j] as int, old_order[l] as int),
        forall|j: int| 0 <= j < p ==> (#[trigger] old_keys[j]).0 * m + old_keys[j].1 >= a * m + u,
        p < old_order.len() ==> old_keys[p].0 * m + old_keys[p].1 < a * m + u,
    ensures
        order.len() == keys.len(),
        forall|j: int| 0 <= j < order.len() ==> (order[j] as int) < i + 1 && (#[trigger] entry_key(ov, up, mm, order[j] as int)) is Some,
        forall|j: int| 0 <= j < order.len() ==> 0 <= (#[trigger] keys[j]).1 <= m
            && entry_key(ov, up, mm, order[j] as int) == Some(keys[j].0 * m + keys[j].1),
        forall|j: int, l: int| 0 <= j < l < order.len() ==> ranks_before(ov, up, mm, order[j] as int, order[l] as int),
        forall|x: usize| old_order.contains(x) ==> order.contains(x),
        order.contains(i),
{
    let n = old_order.len();
    assert forall|j: int| 0 <= j < order.len() implies (order[j] as int) < i + 1 && (#[trigger] entry_key(ov, up, mm, order[j] as int)) is Some by {
        if j < p {
            assert(order[j] == old_order[j]);
        } else if j > p {
            assert(order[j] == old_order[j - 1]);
        }
    }
    assert forall|j: int| 0 <= j < order.len() implies 0 <= (#[trigger] keys[j]).1 <= m
        && entry_key(ov, up, mm, order[j] as int) == Some(keys[j].0 * m + keys[j].1) by {
        if j < p {
            assert(order[j] == old_order[j] && keys[j] == old_keys[j]);
        } else if j > p {
            assert(order[j] == old_order[j - 1] && keys[j] == old_keys[j - 1]);
        }
    }
    // The old keys never increase along the order.
    assert forall|j: int, l: int| 0 <= j < l < n implies
        old_keys[l].0 * m + old_keys[l].1 <= old_keys[j].0 * m + old_keys[j].1 by {
        assert(ranks_before(ov, up, mm, old_order[j] as int, old_order[l] as int));
        assert(entry_key(ov, up, mm, old_order[j] as int) == Some(old_keys[j].0 * m + old_keys[j].1));
        assert(entry_key(ov, up, mm, old_order[l] as int) == Some(old_keys[l].0 * m + old_keys[l].1));
    }
    assert forall|j: int, l: int| 0 <= j < l < order.len() implies ranks_before(ov, up, mm, order[j] as int, order[l] as int) by {
        if l < p {
            assert(order[j] == old_order[j] && order[l] == old_order[l]);
        } else if l == p {
            assert(order[j] == old_order[j] && order[l] == i);
            assert(entry_key(ov, up, mm, old_order[j] as int) == Some(old_keys[j].0 * m + old_keys[j].1));
        } else if j < p {
            assert(order[j] == old_order[j] && order[l] == old_order[l - 1]);
        } else if j == p {
            assert(order[j] == i && order[l] == old_order[l - 1]);
            assert(entry_key(ov, up, mm, old_order[l - 1] as int) == Some(old_keys[l - 1].0 * m + old_keys[l - 1].1));
            if l - 1 > p {
                assert(old_keys[l - 1].0 * m + old_keys[l - 1].1 <= old_keys[p].0 * m + old_keys[p].1);
            }
        } else {
            assert(order[j] == old_order[j - 1] && order[l] == old_order[l - 1]);
        }
    }
    assert forall|x: usize| old_order.contains(x) implies order.contains(x) by {
        let q = choose|q: int| 0 <= q < n && old_order[q] == x;
        if q < p {
            assert(order[q] == x);
        } else {
            assert(order[q + 1] == x);
        }
    }
    assert(order[p] == i);
}

} // verus!
