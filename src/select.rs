//! Selecting units for display: exact-match filter, stable descending rank
//! by exposure, and truncation to a requested count.
use vstd::prelude::*;
use crate::exposure::{rank_key, exposure_key};
use crate::record::Service;

verus! {

/// Whether a unit passes the filter: its label equals the requested one
/// exactly, or no label is requested.
pub open spec fn matches_predicate(s: Service, p: Option<String>) -> bool {
    match p {
        Some(q) => s.predicate@ == q@,
        None => true,
    }
}

/// The units that pass the filter, in their order.
pub open spec fn filtered(s: Seq<Service>, p: Option<String>) -> Seq<Service> {
    s.filter(|x: Service| matches_predicate(x, p))
}

/// The ordering key of a unit's exposure.
pub open spec fn key_of(x: Service) -> int {
    rank_key(x.exposure)
}

/// Where a unit with key `k` goes in a ranking: after every leading unit
/// whose key is at least `k`.
pub open spec fn insert_pos(r: Seq<Service>, k: int) -> nat
    decreases r.len(),
{
    if r.len() == 0 {
        0
    } else if key_of(r[0]) < k {
        0
    } else {
        1 + insert_pos(r.skip(1), k)
    }
}

/// Ranking by exposure, highest first, units of equal exposure in input
/// order: each unit in turn goes after those ranked so far whose key is at
/// least its own.
pub open spec fn ranked(s: Seq<Service>) -> Seq<Service>
    decreases s.len(),
{
    if s.len() == 0 {
        Seq::empty()
    } else {
        let r = ranked(s.drop_last());
        r.insert(insert_pos(r, key_of(s.last())) as int, s.last())
    }
}

/// Units ordered by exposure, highest first.
pub open spec fn descending(s: Seq<Service>) -> bool {
    forall|i: int, j: int|
        0 <= i < j < s.len() ==> key_of(#[trigger] s[i]) >= key_of(#[trigger] s[j])
}

/// The units whose exposure key is `k`, in their order.
pub open spec fn with_key(s: Seq<Service>, k: int) -> Seq<Service> {
    s.filter(|x: Service| key_of(x) == k)
}

proof fn lemma_filter_none(b: Seq<Service>, f: spec_fn(Service) -> bool)
    requires
        forall|i: int| 0 <= i < b.len() ==> !f(#[trigger] b[i]),
    ensures
        b.filter(f) == Seq::<Service>::empty(),
    decreases b.len(),
{
    reveal(Seq::filter);
    if b.len() > 0 {
        lemma_filter_none(b.drop_last(), f);
    }
}

proof fn lemma_insert_pos(r: Seq<Service>, k: int)
    requires
        descending(r),
    ensures
        insert_pos(r, k) <= r.len(),
        forall|j: int| 0 <= j < insert_pos(r, k) ==> key_of(#[trigger] r[j]) >= k,
        forall|j: int| insert_pos(r, k) <= j < r.len() ==> key_of(#[trigger] r[j]) < k,
    decreases r.len(),
{
    if r.len() > 0 {
        if key_of(r[0]) >= k {
            let t = r.skip(1);
            assert forall|i: int, j: int| 0 <= i < j < t.len() implies key_of(#[trigger] t[i])
                >= key_of(#[trigger] t[j]) by {
                assert(t[i] == r[i + 1]);
                assert(t[j] == r[j + 1]);
            }
            lemma_insert_pos(t, k);
            assert forall|j: int| 0 <= j < insert_pos(r, k) implies key_of(#[trigger] r[j]) >= k by {
                if j > 0 {
                    assert(r[j] == t[j - 1]);
                }
            }
            assert forall|j: int| insert_pos(r, k) <= j < r.len() implies key_of(#[trigger] r[j])
                < k by {
                assert(r[j] == t[j - 1]);
            }
        } else {
            assert forall|j: int| 0 <= j < r.len() implies key_of(#[trigger] r[j]) < k by {
                if j > 0 {
                    assert(key_of(r[0]) >= key_of(r[j]));
                }
            }
        }
    }
}

/// Ranking is stable and descending: it keeps every unit, orders them from
/// highest to lowest exposure, and the units of any one exposure come out in
/// the order they went in.
pub proof fn lemma_ranked_stable_descending(s: Seq<Service>)
    ensures
        ranked(s).len() == s.len(),
        descending(ranked(s)),
        forall|k: int| #[trigger] with_key(ranked(s), k) == with_key(s, k),
    decreases s.len(),
{
    if s.len() > 0 {
        let t = s.drop_last();
        let x = s.last();
        lemma_ranked_stable_descending(t);
        let r = ranked(t);
        let kx = key_of(x);
        lemma_insert_pos(r, kx);
        let p = insert_pos(r, kx) as int;
        r.insert_ensures(p, x);
        let q = r.insert(p, x);
        assert(q == ranked(s));
        assert forall|i: int, j: int| 0 <= i < j < q.len() implies key_of(#[trigger] q[i])
            >= key_of(#[trigger] q[j]) by {
            if j < p {
            } else if j == p {
            } else {
                assert(q[j] == r[j - 1]);
                if i > p {
                    assert(q[i] == r[i - 1]);
                }
            }
        }
        let a = r.subrange(0, p);
        let b = r.subrange(p, r.len() as int);
        assert(r =~= a + b);
        assert(q =~= (a + seq![x]) + b);
        assert(s =~= t.push(x));
        assert forall|k: int| #[trigger] with_key(q, k) == with_key(s, k) by {
            let f = |y: Service| key_of(y) == k;
            Seq::filter_distributes_over_add(a + seq![x], b, f);
            Seq::filter_distributes_over_add(a, seq![x], f);
            Seq::filter_distributes_over_add(a, b, f);
            Seq::filter_distributes_over_add(t, seq![x], f);
            assert(t + seq![x] =~= s);
            reveal(Seq::filter);
            assert(seq![x].drop_last() =~= Seq::<Service>::empty());
            assert(with_key(q, k) == q.filter(f));
            assert(with_key(s, k) == s.filter(f));
            assert(with_key(r, k) == r.filter(f));
            assert(with_key(t, k) == t.filter(f));
            assert(q.filter(f) == a.filter(f) + seq![x].filter(f) + b.filter(f));
            assert(s.filter(f) == a.filter(f) + b.filter(f) + seq![x].filter(f));
            if k == kx {
                assert forall|i: int| 0 <= i < b.len() implies !f(#[trigger] b[i]) by {
                    assert(b[i] == r[p + i]);
                }
                lemma_filter_none(b, f);
                assert(a.filter(f) + seq![x].filter(f) + b.filter(f) =~= a.filter(f) + b.filter(f)
                    + seq![x].filter(f));
            } else {
                assert(seq![x].filter(f) =~= Seq::<Service>::empty());
                assert(a.filter(f) + seq![x].filter(f) + b.filter(f) =~= a.filter(f) + b.filter(f)
                    + seq![x].filter(f));
            }
        }
    }
}

/// Ranking keeps exactly the units it is given.
pub proof fn lemma_ranked_members(s: Seq<Service>, y: Service)
    ensures
        ranked(s).contains(y) == s.contains(y),
{
    lemma_ranked_stable_descending(s);
    let r = ranked(s);
    let k = key_of(y);
    let f = |x: Service| key_of(x) == k;
    assert(with_key(s, k) == s.filter(f));
    assert(with_key(r, k) == r.filter(f));
    if s.contains(y) {
        let i = choose|i: int| 0 <= i < s.len() && s[i] == y;
        s.lemma_filter_contains(f, i);
        r.lemma_filter_contains_rev(f, y);
    }
    if r.contains(y) {
        let i = choose|i: int| 0 <= i < r.len() && r[i] == y;
        r.lemma_filter_contains(f, i);
        s.lemma_filter_contains_rev(f, y);
    }
}

/// Filtering is exact: every unit selected under a label carries exactly
/// that label, character for character.
pub proof fn lemma_selection_exact_match(s: Seq<Service>, q: String, n: Option<usize>)
    ensures
        forall|j: int|
            0 <= j < selection(s, Some(q), n).len() ==> (#[trigger] selection(s, Some(q), n)[j]).predicate@
                == q@,
{
    let p = Some(q);
    let f = filtered(s, p);
    let r = ranked(f);
    lemma_ranked_stable_descending(f);
    assert forall|j: int| 0 <= j < selection(s, p, n).len() implies (#[trigger] selection(
        s,
        p,
        n,
    )[j]).predicate@ == q@ by {
        let y = selection(s, p, n)[j];
        assert(y == r[j]);
        assert(r.contains(y));
        lemma_ranked_members(f, y);
        s.lemma_filter_contains_rev(|x: Service| matches_predicate(x, p), y);
        let i = choose|i: int| 0 <= i < f.len() && f[i] == y;
        s.lemma_filter_pred(|x: Service| matches_predicate(x, p), i);
    }
}

/// Truncation: a count of zero selects nothing, any count selects that many
/// matching units when there are enough, and a count at least the number of
/// matching units selects all of them, ranked.
pub proof fn lemma_selection_limit(s: Seq<Service>, p: Option<String>, n: usize)
    ensures
        n == 0 ==> selection(s, p, Some(n)) == Seq::<Service>::empty(),
        n <= filtered(s, p).len() ==> selection(s, p, Some(n)).len() == n,
        n >= filtered(s, p).len() ==> selection(s, p, Some(n)) == ranked(filtered(s, p)),
{
    lemma_ranked_stable_descending(filtered(s, p));
    if n == 0 {
        assert(selection(s, p, Some(n)) =~= Seq::<Service>::empty());
    }
}

/// The first `n` units, or all of them when no count is given.
pub open spec fn limited(s: Seq<Service>, n: Option<usize>) -> Seq<Service> {
    match n {
        Some(m) => if m < s.len() {
            s.take(m as int)
        } else {
            s
        },
        None => s,
    }
}

/// The selection: filter, then rank, then limit.
pub open spec fn selection(s: Seq<Service>, p: Option<String>, n: Option<usize>) -> Seq<Service> {
    limited(ranked(filtered(s, p)), n)
}

/// Keeps the units whose label equals `predicate` exactly (all of them when
/// none is given), in their order.
pub fn filter_services(services: Vec<Service>, predicate: &Option<String>) -> (r: Vec<Service>)
    ensures
        r@ == filtered(services@, *predicate),
{
    let ghost all = services@;
    let ghost pred = |x: Service| matches_predicate(x, *predicate);
    let mut rest = services;
    let mut out: Vec<Service> = Vec::new();
    let n: usize = rest.len();
    let mut i: usize = 0;
    while i < n
        invariant
            n == all.len(),
            i <= n,
            rest@ == all.skip(i as int),
            pred == (|x: Service| matches_predicate(x, *predicate)),
            out@ == all.take(i as int).filter(pred),
        decreases n - i,
    {
        let x = rest.remove(0);
        proof {
            assert(all.take(i + 1).drop_last() =~= all.take(i as int));
            assert(all.take(i + 1).last() == x);
            assert(all.skip(i as int).remove(0) =~= all.skip(i + 1));
            reveal(Seq::filter);
        }
        let keep = match predicate {
            Some(q) => x.predicate == *q,
            None => true,
        };
        if keep {
            out.push(x);
        }
        i = i + 1;
    }
    proof {
        assert(all.take(n as int) =~= all);
    }
    out
}

/// Ranks units by exposure, highest first; units of equal exposure keep
/// their relative order.
pub fn rank_services(services: Vec<Service>) -> (r: Vec<Service>)
    ensures
        r@ == ranked(services@),
{
    let ghost all = services@;
    let mut rest = services;
    let mut out: Vec<Service> = Vec::new();
    let n: usize = rest.len();
    let mut i: usize = 0;
    while i < n
        invariant
            n == all.len(),
            i <= n,
            rest@ == all.skip(i as int),
            out@ == ranked(all.take(i as int)),
            out@.len() == i,
        decreases n - i,
    {
        let x = rest.remove(0);
        proof {
            assert(all.take(i + 1).drop_last() =~= all.take(i as int));
            assert(all.take(i + 1).last() == x);
            assert(all.skip(i as int).remove(0) =~= all.skip(i + 1));
            assert(out@.skip(0) =~= out@);
        }
        let k = exposure_key(x.exposure);
        let mut j: usize = 0;
        while j < out.len() && exposure_key(out[j].exposure) >= k
            invariant
                j <= out@.len(),
                k as int == key_of(x),
                insert_pos(out@, k as int) == j + insert_pos(out@.skip(j as int), k as int),
            decreases out@.len() - j,
        {
            proof {
                assert(out@.skip(j as int).skip(1) =~= out@.skip(j + 1));
            }
            j = j + 1;
        }
        proof {
            if j < out@.len() {
                assert(out@.skip(j as int)[0] == out@[j as int]);
            }
            assert(insert_pos(out@, k as int) == j);
        }
        out.insert(j, x);
        i = i + 1;
    }
    proof {
        assert(all.take(n as int) =~= all);
    }
    out
}

/// Keeps the first `top_n` units, or all of them when no count is given.
pub fn limit_services(services: Vec<Service>, top_n: Option<usize>) -> (r: Vec<Service>)
    ensures
        r@ == limited(services@, top_n),
{
    let mut out = services;
    if let Some(n) = top_n {
        out.truncate(n);
    }
    proof {
        if let Some(m) = top_n {
            if m < services@.len() {
                assert(services@.subrange(0, m as int) =~= services@.take(m as int));
            }
        }
    }
    out
}

/// The units to show: those whose label equals `predicate` exactly (all when
/// none is given), ranked by exposure with ties in input order, and at most
/// `top_n` of them.
pub fn select(
    services: Vec<Service>,
    predicate: &Option<String>,
    top_n: Option<usize>,
) -> (r: Vec<Service>)
    ensures
        r@ == selection(services@, *predicate, top_n),
{
    let f = filter_services(services, predicate);
    let r = rank_services(f);
    limit_services(r, top_n)
}

} // verus!
