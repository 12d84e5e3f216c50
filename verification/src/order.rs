//! Strict total orders on sequences, and the sorted duplicate-free sequences
//! that the rest of the crate uses as canonical forms of finite sets.

use vstd::prelude::*;

verus! {

/// `lt` is irreflexive, transitive and total.
pub open spec fn strict_total<T>(lt: spec_fn(T, T) -> bool) -> bool {
    &&& forall|x: T| !#[trigger] lt(x, x)
    &&& forall|x: T, y: T, z: T| #[trigger] lt(x, y) && #[trigger] lt(y, z) ==> lt(x, z)
    &&& forall|x: T, y: T| #[trigger] lt(x, y) || x == y || lt(y, x)
}

/// Lexicographic comparison of `a` and `b` from position `i` on, the
/// positions before `i` being taken as equal.
pub open spec fn lex_from<T>(lt: spec_fn(T, T) -> bool, a: Seq<T>, b: Seq<T>, i: int) -> bool
    decreases a.len() - i,
{
    if i < 0 || i >= b.len() {
        false
    } else if i >= a.len() {
        true
    } else if a[i] != b[i] {
        lt(a[i], b[i])
    } else {
        lex_from(lt, a, b, i + 1)
    }
}

/// The lexicographic order that `lt` induces on sequences: a proper prefix
/// comes before its extensions.
pub open spec fn lex_lt<T>(lt: spec_fn(T, T) -> bool, a: Seq<T>, b: Seq<T>) -> bool {
    lex_from(lt, a, b, 0)
}

/// No sequence comes before itself.
pub proof fn lemma_lex_irreflexive<T>(lt: spec_fn(T, T) -> bool, a: Seq<T>, i: int)
    requires
        0 <= i,
    ensures
        !lex_from(lt, a, a, i),
    decreases a.len() - i,
{
    if i < a.len() {
        lemma_lex_irreflexive(lt, a, i + 1);
    }
}

/// The lexicographic order of a strict total order is transitive.
pub proof fn lemma_lex_transitive<T>(
    lt: spec_fn(T, T) -> bool,
    a: Seq<T>,
    b: Seq<T>,
    c: Seq<T>,
    i: int,
)
    requires
        strict_total(lt),
        0 <= i,
        lex_from(lt, a, b, i),
        lex_from(lt, b, c, i),
    ensures
        lex_from(lt, a, c, i),
    decreases a.len() - i,
{
    if i < a.len() && i < b.len() && i < c.len() {
        if a[i] == b[i] && b[i] == c[i] {
            lemma_lex_transitive(lt, a, b, c, i + 1);
        }
    }
}

/// Of two sequences that differ, one comes before the other.
pub proof fn lemma_lex_total<T>(lt: spec_fn(T, T) -> bool, a: Seq<T>, b: Seq<T>, i: int)
    requires
        strict_total(lt),
        0 <= i <= a.len(),
        i <= b.len(),
        !lex_from(lt, a, b, i),
        !lex_from(lt, b, a, i),
    ensures
        a.len() == b.len(),
        forall|j: int| i <= j < a.len() ==> a[j] == b[j],
    decreases a.len() - i,
{
    if i < a.len() && i < b.len() {
        lemma_lex_total(lt, a, b, i + 1);
    }
}

/// The lexicographic order of a strict total order is a strict total order.
pub proof fn lemma_lex_strict_total<T>(lt: spec_fn(T, T) -> bool)
    requires
        strict_total(lt),
    ensures
        strict_total(|a: Seq<T>, b: Seq<T>| lex_lt(lt, a, b)),
{
    let lex = |a: Seq<T>, b: Seq<T>| lex_lt(lt, a, b);
    assert forall|x: Seq<T>| !#[trigger] lex(x, x) by {
        lemma_lex_irreflexive(lt, x, 0);
    }
    assert forall|x: Seq<T>, y: Seq<T>, z: Seq<T>| #[trigger] lex(x, y) && #[trigger] lex(y, z) implies lex(
        x,
        z,
    ) by {
        lemma_lex_transitive(lt, x, y, z, 0);
    }
    assert forall|x: Seq<T>, y: Seq<T>| #[trigger] lex(x, y) || x == y || lex(y, x) by {
        if !lex(x, y) && !lex(y, x) {
            lemma_lex_total(lt, x, y, 0);
            assert(x =~= y);
        }
    }
}

/// Every element of `q` comes strictly before the ones after it.
pub open spec fn sorted_by<T>(q: Seq<T>, lt: spec_fn(T, T) -> bool) -> bool {
    forall|i: int, j: int| 0 <= i < j < q.len() ==> #[trigger] lt(q[i], q[j])
}

/// Two sorted sequences with the same elements are the same sequence.
pub proof fn lemma_sorted_unique<T>(p: Seq<T>, q: Seq<T>, lt: spec_fn(T, T) -> bool)
    requires
        strict_total(lt),
        sorted_by(p, lt),
        sorted_by(q, lt),
        forall|x: T| p.contains(x) <==> q.contains(x),
    ensures
        p == q,
    decreases p.len(),
{
    if p.len() == 0 {
        if q.len() > 0 {
            assert(q.contains(q[0]));
        }
        assert(p =~= q);
    } else {
        assert(p.contains(p[0]));
        assert(q.contains(p[0]));
        assert(q.len() > 0);
        assert(q.contains(q[0]));
        assert(p.contains(q[0]));
        let j = choose|j: int| 0 <= j < q.len() && q[j] == p[0];
        let k = choose|k: int| 0 <= k < p.len() && p[k] == q[0];
        if j > 0 {
            assert(lt(q[0], q[j]));
            if k > 0 {
                assert(lt(p[0], p[k]));
            }
        }
        assert(p[0] == q[0]);
        let p1 = p.drop_first();
        let q1 = q.drop_first();
        assert forall|x: T| p1.contains(x) <==> q1.contains(x) by {
            if p1.contains(x) {
                let i = choose|i: int| 0 <= i < p1.len() && p1[i] == x;
                assert(p[i + 1] == x);
                assert(lt(p[0], p[i + 1]));
                assert(p.contains(x));
                let m = choose|m: int| 0 <= m < q.len() && q[m] == x;
                assert(m > 0);
                assert(q1[m - 1] == x);
            }
            if q1.contains(x) {
                let i = choose|i: int| 0 <= i < q1.len() && q1[i] == x;
                assert(q[i + 1] == x);
                assert(lt(q[0], q[i + 1]));
                assert(q.contains(x));
                let m = choose|m: int| 0 <= m < p.len() && p[m] == x;
                assert(m > 0);
                assert(p1[m - 1] == x);
            }
        }
        assert(sorted_by(p1, lt)) by {
            assert forall|i: int, j: int| 0 <= i < j < p1.len() implies #[trigger] lt(
                p1[i],
                p1[j],
            ) by {
                assert(lt(p[i + 1], p[j + 1]));
            }
        }
        assert(sorted_by(q1, lt)) by {
            assert forall|i: int, j: int| 0 <= i < j < q1.len() implies #[trigger] lt(
                q1[i],
                q1[j],
            ) by {
                assert(lt(q[i + 1], q[j + 1]));
            }
        }
        lemma_sorted_unique(p1, q1, lt);
        assert(p =~= seq![p[0]] + p1);
        assert(q =~= seq![q[0]] + q1);
    }
}

/// The first position from `i` on whose element does not come before `x`.
pub open spec fn lower_bound<T>(q: Seq<T>, x: T, lt: spec_fn(T, T) -> bool, i: int) -> int
    decreases q.len() - i,
{
    if i < 0 || i >= q.len() || !lt(q[i], x) {
        i
    } else {
        lower_bound(q, x, lt, i + 1)
    }
}

/// `q` with `x` put at its place, unless `x` stands there already.
pub open spec fn insert_sorted<T>(q: Seq<T>, x: T, lt: spec_fn(T, T) -> bool) -> Seq<T> {
    let i = lower_bound(q, x, lt, 0);
    if i < q.len() && q[i] == x {
        q
    } else {
        q.insert(i, x)
    }
}

/// All elements from `i` up to the lower bound come before `x`; the element at
/// the lower bound does not.
pub proof fn lemma_lower_bound<T>(q: Seq<T>, x: T, lt: spec_fn(T, T) -> bool, i: int)
    requires
        0 <= i <= q.len(),
    ensures
        i <= lower_bound(q, x, lt, i) <= q.len(),
        forall|j: int| i <= j < lower_bound(q, x, lt, i) ==> lt(#[trigger] q[j], x),
        lower_bound(q, x, lt, i) < q.len() ==> !lt(q[lower_bound(q, x, lt, i)], x),
    decreases q.len() - i,
{
    if i < q.len() && lt(q[i], x) {
        lemma_lower_bound(q, x, lt, i + 1);
    }
}

/// The position before which all elements come before `x`, and at which
/// none does, is the one that `lower_bound` finds.
pub proof fn lemma_lower_bound_at<T>(q: Seq<T>, x: T, lt: spec_fn(T, T) -> bool, from: int, i: int)
    requires
        0 <= from <= i <= q.len(),
        forall|k: int| from <= k < i ==> lt(#[trigger] q[k], x),
        i < q.len() ==> !lt(q[i], x),
    ensures
        lower_bound(q, x, lt, from) == i,
    decreases i - from,
{
    if from < i {
        assert(lt(q[from], x));
        lemma_lower_bound_at(q, x, lt, from + 1, i);
    }
}

/// Insertion keeps a sorted sequence sorted and adds exactly `x` to its elements.
pub proof fn lemma_insert_sorted<T>(q: Seq<T>, x: T, lt: spec_fn(T, T) -> bool)
    requires
        strict_total(lt),
        sorted_by(q, lt),
    ensures
        sorted_by(insert_sorted(q, x, lt), lt),
        forall|y: T| insert_sorted(q, x, lt).contains(y) <==> (q.contains(y) || y == x),
        q.contains(x) ==> insert_sorted(q, x, lt) == q,
        !q.contains(x) ==> insert_sorted(q, x, lt).len() == q.len() + 1,
{
    let i = lower_bound(q, x, lt, 0);
    let r = insert_sorted(q, x, lt);
    lemma_lower_bound(q, x, lt, 0);
    if i < q.len() && q[i] == x {
        assert(q.contains(x));
    } else {
        assert forall|j: int| i <= j < q.len() implies lt(x, #[trigger] q[j]) by {
            if j > i {
                assert(lt(q[i], q[j]));
            }
        }
        assert(!q.contains(x)) by {
            if q.contains(x) {
                let m = choose|m: int| 0 <= m < q.len() && q[m] == x;
                if m < i {
                    assert(lt(q[m], x));
                } else {
                    assert(lt(x, q[m]));
                }
            }
        }
        assert forall|a: int, b: int| 0 <= a < b < r.len() implies #[trigger] lt(r[a], r[b]) by {
            if b < i {
                assert(lt(q[a], q[b]));
            } else if b == i {
                assert(lt(q[a], x));
            } else if a < i {
                assert(lt(q[a], q[b - 1]));
            } else if a == i {
                assert(lt(x, q[b - 1]));
            } else {
                assert(lt(q[a - 1], q[b - 1]));
            }
        }
        assert forall|y: T| r.contains(y) <==> (q.contains(y) || y == x) by {
            if r.contains(y) {
                let m = choose|m: int| 0 <= m < r.len() && r[m] == y;
                if m < i {
                    assert(q[m] == y);
                } else if m > i {
                    assert(q[m - 1] == y);
                }
            }
            if q.contains(y) {
                let m = choose|m: int| 0 <= m < q.len() && q[m] == y;
                if m < i {
                    assert(r[m] == y);
                } else {
                    assert(r[m + 1] == y);
                }
            }
            if y == x {
                assert(r[i] == y);
            }
        }
    }
}

} // verus!
