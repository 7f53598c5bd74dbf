use vstd::prelude::*;
use crate::text::str_eq;
use crate::http::{allowed_origin, allowed_cors_origin, opt_view, security_content_policy};

verus! {

/// A header as the contracts see it: its name and its value.
pub type HeaderView = (Seq<char>, Seq<char>);

/// The headers of a response, in the order in which they were added.
#[derive(Debug)]
pub struct HeaderList {
    pub entries: Vec<(String, String)>,
}

pub open spec fn entries_view(e: Seq<(String, String)>) -> Seq<HeaderView> {
    Seq::new(e.len(), |i: int| (e[i].0@, e[i].1@))
}

impl View for HeaderList {
    type V = Seq<HeaderView>;

    open spec fn view(&self) -> Seq<HeaderView> {
        entries_view(self.entries@)
    }
}

/// `h` with every header named `name` taken out, the others kept in order.
pub open spec fn without(h: Seq<HeaderView>, name: Seq<char>) -> Seq<HeaderView>
    decreases h.len(),
{
    if h.len() == 0 {
        h
    } else {
        let rest = without(h.drop_last(), name);
        if h.last().0 == name {
            rest
        } else {
            rest.push(h.last())
        }
    }
}

/// `h` after setting `name` to `value`: earlier headers of that name are replaced.
pub open spec fn with_header(h: Seq<HeaderView>, name: Seq<char>, value: Seq<char>) -> Seq<HeaderView> {
    without(h, name).push((name, value))
}

/// The headers that every response carries for the browser's protection.
pub open spec fn secured(h: Seq<HeaderView>) -> Seq<HeaderView> {
    let h1 = with_header(h, "X-Content-Type-Options"@, "nosniff"@);
    let h2 = with_header(h1, "Referrer-Policy"@, "strict-origin-when-cross-origin"@);
    let h3 = with_header(h2, "Permissions-Policy"@, "camera=(), microphone=(), geolocation=(), payment=()"@);
    let h4 = with_header(h3, "X-Frame-Options"@, "DENY"@);
    with_header(h4, "Content-Security-Policy"@, crate::http::content_policy_text())
}

/// The CORS headers of a response, with `allowed` as the origin it may allow.
pub open spec fn with_cors(h: Seq<HeaderView>, allowed: Option<Seq<char>>) -> Seq<HeaderView> {
    let h0 = without(h, "Access-Control-Allow-Origin"@);
    let h1 = with_header(h0, "Access-Control-Allow-Methods"@, "GET,POST,PATCH,DELETE,OPTIONS"@);
    let h2 = with_header(h1, "Access-Control-Allow-Headers"@, "Content-Type,Authorization,Last-Event-ID"@);
    let h3 = with_header(h2, "Access-Control-Allow-Credentials"@, "true"@);
    let h4 = with_header(h3, "Access-Control-Expose-Headers"@, "Content-Disposition"@);
    let h5 = with_header(h4, "Vary"@, "Origin"@);
    match allowed {
        Some(o) => with_header(h5, "Access-Control-Allow-Origin"@, o),
        None => h5,
    }
}

impl HeaderList {
    pub fn new() -> (r: HeaderList)
        ensures
            r@ == Seq::<HeaderView>::empty(),
    {
        HeaderList { entries: Vec::new() }
    }

    /// Takes out every header named `name`.
    pub fn delete(&mut self, name: &str)
        ensures
            final(self)@ == without(old(self)@, name@),
    {
        let mut kept: Vec<(String, String)> = Vec::new();
        let ghost h = old(self)@;
        let mut i: usize = 0;
        while i < self.entries.len()
            invariant
                i <= self.entries@.len(),
                h == entries_view(self.entries@),
                entries_view(kept@) == without(h.take(i as int), name@),
            decreases self.entries@.len() - i,
        {
            proof {
                assert(h.take(i as int + 1).drop_last() =~= h.take(i as int));
            }
            let (n, v) = (self.entries[i].0.clone(), self.entries[i].1.clone());
            if !str_eq(&n, name) {
                let ghost before = kept@;
                kept.push((n, v));
                proof {
                    assert(entries_view(kept@) =~= entries_view(before).push(h[i as int]));
                }
            }
            i = i + 1;
        }
        proof {
            assert(h.take(h.len() as int) =~= h);
        }
        self.entries = kept;
    }

    /// Sets `name` to `value`, replacing the headers of that name.
    pub fn set(&mut self, name: &str, value: &str)
        ensures
            final(self)@ == with_header(old(self)@, name@, value@),
    {
        self.delete(name);
        self.append(name, value);
    }

    /// Adds a header of `name`, keeping those already there.
    pub fn append(&mut self, name: &str, value: &str)
        ensures
            final(self)@ == old(self)@.push((name@, value@)),
    {
        let ghost before = self.entries@;
        self.entries.push((name.to_string(), value.to_string()));
        proof {
            assert(entries_view(self.entries@) =~= entries_view(before).push((name@, value@)));
        }
    }
}

/// Adds a `Set-Cookie` header with `value`.
pub fn append_cookie(response: &mut HeaderList, value: &str)
    ensures
        final(response)@ == old(response)@.push(("Set-Cookie"@, value@)),
{
    response.append("Set-Cookie", value);
}

/// Sets the headers that protect every response.
pub fn apply_security_headers(response: &mut HeaderList)
    ensures
        final(response)@ == secured(old(response)@),
{
    response.set("X-Content-Type-Options", "nosniff");
    response.set("Referrer-Policy", "strict-origin-when-cross-origin");
    response.set("Permissions-Policy", "camera=(), microphone=(), geolocation=(), payment=()");
    response.set("X-Frame-Options", "DENY");
    response.set("Content-Security-Policy", security_content_policy());
}

/// Sets the CORS headers of a response to a request from `origin`, for a service at
/// `self_origin` configured to allow `configured` (a comma-separated list or `*`).
pub fn apply_cors(response: &mut HeaderList, origin: Option<&str>, self_origin: Option<&str>, configured: Option<&str>)
    ensures
        final(response)@ == with_cors(old(response)@, allowed_origin(opt_view(origin), opt_view(self_origin), opt_view(configured))),
{
    response.delete("Access-Control-Allow-Origin");
    response.set("Access-Control-Allow-Methods", "GET,POST,PATCH,DELETE,OPTIONS");
    response.set("Access-Control-Allow-Headers", "Content-Type,Authorization,Last-Event-ID");
    response.set("Access-Control-Allow-Credentials", "true");
    response.set("Access-Control-Expose-Headers", "Content-Disposition");
    response.set("Vary", "Origin");
    match allowed_cors_origin(origin, self_origin, configured) {
        Some(allowed) => response.set("Access-Control-Allow-Origin", allowed.as_str()),
        None => {},
    }
}

/// Whether no header of `h` is named `name`.
pub open spec fn lacks(h: Seq<HeaderView>, name: Seq<char>) -> bool {
    forall|i: int| 0 <= i < h.len() ==> (#[trigger] h[i]).0 != name
}

proof fn lemma_without_concat(a: Seq<HeaderView>, b: Seq<HeaderView>, name: Seq<char>)
    ensures
        without(a + b, name) == without(a, name) + without(b, name),
    decreases b.len(),
{
    if b.len() == 0 {
        assert(a + b =~= a);
        assert(without(a, name) + without(b, name) =~= without(a, name));
    } else {
        lemma_without_concat(a, b.drop_last(), name);
        assert((a + b).drop_last() =~= a + b.drop_last());
        assert((a + b).last() == b.last());
        if b.last().0 == name {
        } else {
            assert(without(a, name) + without(b.drop_last(), name).push(b.last())
                =~= (without(a, name) + without(b.drop_last(), name)).push(b.last()));
        }
    }
}

proof fn lemma_without_lacking(h: Seq<HeaderView>, name: Seq<char>)
    requires
        lacks(h, name),
    ensures
        without(h, name) == h,
    decreases h.len(),
{
    if h.len() > 0 {
        assert(lacks(h.drop_last(), name)) by {
            assert forall|i: int| 0 <= i < h.drop_last().len() implies (#[trigger] h.drop_last()[i]).0 != name by {
                assert(h.drop_last()[i] == h[i]);
            }
        }
        lemma_without_lacking(h.drop_last(), name);
        assert(h.last() == h[h.len() - 1]);
        assert(h.drop_last().push(h.last()) =~= h);
    }
}

proof fn lemma_without_removes(h: Seq<HeaderView>, name: Seq<char>)
    ensures
        lacks(without(h, name), name),
    decreases h.len(),
{
    if h.len() > 0 {
        lemma_without_removes(h.drop_last(), name);
        let r = without(h.drop_last(), name);
        if h.last().0 != name {
            assert forall|i: int| 0 <= i < r.push(h.last()).len() implies (#[trigger] r.push(h.last())[i]).0 != name by {
                if i < r.len() {
                    assert(r.push(h.last())[i] == r[i]);
                }
            }
        }
    }
}

proof fn lemma_without_keeps_lacking(h: Seq<HeaderView>, name: Seq<char>, other: Seq<char>)
    requires
        lacks(h, other),
    ensures
        lacks(without(h, name), other),
    decreases h.len(),
{
    if h.len() > 0 {
        assert(lacks(h.drop_last(), other)) by {
            assert forall|i: int| 0 <= i < h.drop_last().len() implies (#[trigger] h.drop_last()[i]).0 != other by {
                assert(h.drop_last()[i] == h[i]);
            }
        }
        lemma_without_keeps_lacking(h.drop_last(), name, other);
        let r = without(h.drop_last(), name);
        if h.last().0 != name {
            assert(h.last() == h[h.len() - 1]);
            assert forall|i: int| 0 <= i < r.push(h.last()).len() implies (#[trigger] r.push(h.last())[i]).0 != other by {
                if i < r.len() {
                    assert(r.push(h.last())[i] == r[i]);
                }
            }
        }
    }
}

/// `h` without the protective headers, then those headers in a fixed order.
pub open spec fn unprotected(h: Seq<HeaderView>) -> Seq<HeaderView> {
    without(without(without(without(without(h, "X-Content-Type-Options"@), "Referrer-Policy"@), "Permissions-Policy"@), "X-Frame-Options"@), "Content-Security-Policy"@)
}

pub open spec fn protective_headers() -> Seq<HeaderView> {
    seq![
        ("X-Content-Type-Options"@, "nosniff"@),
        ("Referrer-Policy"@, "strict-origin-when-cross-origin"@),
        ("Permissions-Policy"@, "camera=(), microphone=(), geolocation=(), payment=()"@),
        ("X-Frame-Options"@, "DENY"@),
        ("Content-Security-Policy"@, crate::http::content_policy_text()),
    ]
}

/// Takes the header `p` out of `x + done` when `done` lacks it and `p` is not
/// named `name`, and appends `p`.
proof fn lemma_step(x: Seq<HeaderView>, done: Seq<HeaderView>, n: Seq<char>, v: Seq<char>)
    requires
        lacks(done, n),
    ensures
        with_header(x + done, n, v) == without(x, n) + done.push((n, v)),
{
    lemma_without_concat(x, done, n);
    lemma_without_lacking(done, n);
    assert(without(x, n) + done.push((n, v)) =~= (without(x, n) + done).push((n, v)));
}

proof fn lemma_secured_shape(h: Seq<HeaderView>)
    ensures
        secured(h) == unprotected(h) + protective_headers(),
{
    reveal_strlit("X-Content-Type-Options");
    reveal_strlit("Referrer-Policy");
    reveal_strlit("Permissions-Policy");
    reveal_strlit("X-Frame-Options");
    reveal_strlit("Content-Security-Policy");
    let p = protective_headers();
    let e = Seq::<HeaderView>::empty();
    let n0 = "X-Content-Type-Options"@;
    let n1 = "Referrer-Policy"@;
    let n2 = "Permissions-Policy"@;
    let n3 = "X-Frame-Options"@;
    let n4 = "Content-Security-Policy"@;
    assert(n0.len() == 22 && n1.len() == 15 && n2.len() == 18 && n3.len() == 15 && n4.len() == 23);
    assert(n1 != n3) by {
        assert(n1[0] != n3[0]);
    }
    let d1 = p.take(1);
    let d2 = p.take(2);
    let d3 = p.take(3);
    let d4 = p.take(4);
    assert(h + e =~= h);
    lemma_step(h, e, n0, p[0].1);
    assert(e.push(p[0]) =~= d1);
    let w0 = without(h, n0);
    assert(lacks(d1, n1));
    lemma_step(w0, d1, n1, p[1].1);
    assert(d1.push(p[1]) =~= d2);
    let w1 = without(w0, n1);
    assert(lacks(d2, n2));
    lemma_step(w1, d2, n2, p[2].1);
    assert(d2.push(p[2]) =~= d3);
    let w2 = without(w1, n2);
    assert(lacks(d3, n3));
    lemma_step(w2, d3, n3, p[3].1);
    assert(d3.push(p[3]) =~= d4);
    let w3 = without(w2, n3);
    assert(lacks(d4, n4));
    lemma_step(w3, d4, n4, p[4].1);
    assert(d4.push(p[4]) =~= p);
}

/// Setting the protective headers twice leaves a response as setting them once:
/// each is there once, after the other headers.
pub proof fn lemma_security_headers_idempotent(h: Seq<HeaderView>)
    ensures
        secured(secured(h)) == secured(h),
{
    reveal_strlit("X-Content-Type-Options");
    reveal_strlit("Referrer-Policy");
    reveal_strlit("Permissions-Policy");
    reveal_strlit("X-Frame-Options");
    reveal_strlit("Content-Security-Policy");
    lemma_secured_shape(h);
    lemma_secured_shape(secured(h));
    let u = unprotected(h);
    let p = protective_headers();
    let n0 = "X-Content-Type-Options"@;
    let n1 = "Referrer-Policy"@;
    let n2 = "Permissions-Policy"@;
    let n3 = "X-Frame-Options"@;
    let n4 = "Content-Security-Policy"@;
    assert(n0.len() == 22 && n1.len() == 15 && n2.len() == 18 && n3.len() == 15 && n4.len() == 23);
    assert(n1 != n3) by {
        assert(n1[0] != n3[0]);
    }
    let w0 = without(h, n0);
    let w1 = without(w0, n1);
    let w2 = without(w1, n2);
    let w3 = without(w2, n3);
    lemma_without_removes(h, n0);
    lemma_without_removes(w0, n1);
    lemma_without_keeps_lacking(w0, n1, n0);
    lemma_without_removes(w1, n2);
    lemma_without_keeps_lacking(w1, n2, n0);
    lemma_without_keeps_lacking(w1, n2, n1);
    lemma_without_removes(w2, n3);
    lemma_without_keeps_lacking(w2, n3, n0);
    lemma_without_keeps_lacking(w2, n3, n1);
    lemma_without_keeps_lacking(w2, n3, n2);
    lemma_without_removes(w3, n4);
    lemma_without_keeps_lacking(w3, n4, n0);
    lemma_without_keeps_lacking(w3, n4, n1);
    lemma_without_keeps_lacking(w3, n4, n2);
    lemma_without_keeps_lacking(w3, n4, n3);
    assert(lacks(u, n0) && lacks(u, n1) && lacks(u, n2) && lacks(u, n3) && lacks(u, n4));
    lemma_unprotected_concat(u, p);
    lemma_unprotected_lacking(u);
    lemma_unprotected_protective();
    assert(u + Seq::<HeaderView>::empty() =~= u);
}

proof fn lemma_unprotected_concat(a: Seq<HeaderView>, b: Seq<HeaderView>)
    ensures
        unprotected(a + b) == unprotected(a) + unprotected(b),
{
    let n0 = "X-Content-Type-Options"@;
    let n1 = "Referrer-Policy"@;
    let n2 = "Permissions-Policy"@;
    let n3 = "X-Frame-Options"@;
    let n4 = "Content-Security-Policy"@;
    lemma_without_concat(a, b, n0);
    let (a1, b1) = (without(a, n0), without(b, n0));
    lemma_without_concat(a1, b1, n1);
    let (a2, b2) = (without(a1, n1), without(b1, n1));
    lemma_without_concat(a2, b2, n2);
    let (a3, b3) = (without(a2, n2), without(b2, n2));
    lemma_without_concat(a3, b3, n3);
    let (a4, b4) = (without(a3, n3), without(b3, n3));
    lemma_without_concat(a4, b4, n4);
}

proof fn lemma_unprotected_lacking(u: Seq<HeaderView>)
    requires
        lacks(u, "X-Content-Type-Options"@),
        lacks(u, "Referrer-Policy"@),
        lacks(u, "Permissions-Policy"@),
        lacks(u, "X-Frame-Options"@),
        lacks(u, "Content-Security-Policy"@),
    ensures
        unprotected(u) == u,
{
    lemma_without_lacking(u, "X-Content-Type-Options"@);
    lemma_without_lacking(u, "Referrer-Policy"@);
    lemma_without_lacking(u, "Permissions-Policy"@);
    lemma_without_lacking(u, "X-Frame-Options"@);
    lemma_without_lacking(u, "Content-Security-Policy"@);
}

proof fn lemma_unprotected_protective()
    ensures
        unprotected(protective_headers()) == Seq::<HeaderView>::empty(),
{
    reveal_strlit("X-Content-Type-Options");
    reveal_strlit("Referrer-Policy");
    reveal_strlit("Permissions-Policy");
    reveal_strlit("X-Frame-Options");
    reveal_strlit("Content-Security-Policy");
    let p = protective_headers();
    let n0 = "X-Content-Type-Options"@;
    let n1 = "Referrer-Policy"@;
    let n2 = "Permissions-Policy"@;
    let n3 = "X-Frame-Options"@;
    let n4 = "Content-Security-Policy"@;
    assert(n0.len() == 22 && n1.len() == 15 && n2.len() == 18 && n3.len() == 15 && n4.len() == 23);
    assert(n1 != n3) by {
        assert(n1[0] != n3[0]);
    }
    let t0 = seq![p[0]];
    let t1 = seq![p[1]];
    let t2 = seq![p[2]];
    let t3 = seq![p[3]];
    let t4 = seq![p[4]];
    assert(p =~= t0 + t1 + t2 + t3 + t4);
    lemma_unprotected_concat(t0 + t1 + t2 + t3, t4);
    lemma_unprotected_concat(t0 + t1 + t2, t3);
    lemma_unprotected_concat(t0 + t1, t2);
    lemma_unprotected_concat(t0, t1);
    lemma_unprotected_single(p[0].0, p[0].1);
    lemma_unprotected_single(p[1].0, p[1].1);
    lemma_unprotected_single(p[2].0, p[2].1);
    lemma_unprotected_single(p[3].0, p[3].1);
    lemma_unprotected_single(p[4].0, p[4].1);
    assert(Seq::<HeaderView>::empty() + Seq::<HeaderView>::empty() =~= Seq::<HeaderView>::empty());
}

/// One protective header alone is taken out entirely.
proof fn lemma_unprotected_single(n: Seq<char>, v: Seq<char>)
    requires
        n == "X-Content-Type-Options"@ || n == "Referrer-Policy"@ || n == "Permissions-Policy"@
            || n == "X-Frame-Options"@ || n == "Content-Security-Policy"@,
    ensures
        unprotected(seq![(n, v)]) == Seq::<HeaderView>::empty(),
{
    let e = Seq::<HeaderView>::empty();
    let s = seq![(n, v)];
    assert(s.drop_last() =~= e);
    assert(without(e, "X-Content-Type-Options"@) == e);
    assert(without(e, "Referrer-Policy"@) == e);
    assert(without(e, "Permissions-Policy"@) == e);
    assert(without(e, "X-Frame-Options"@) == e);
    assert(without(e, "Content-Security-Policy"@) == e);
    assert(e.push((n, v)) =~= s);
    lemma_without_lacking(e, n);
}

} // verus!
