//! The optimizer: filters that differ in their domain sets alone are merged
//! into one, and filters that another filter covers are dropped.

use crate::domains::{
    lemma_names_keep, lemma_names_union, names_common, names_disjoint, names_sorted, names_union,
    names_without, DomainSet,
};
use crate::filter::Filter;
use crate::filter_set::{filters_sorted, is_group_index, is_group_start, models, FrozenFilterSet};
use crate::model::{
    filter_lt, filter_order, key_lt, lemma_filter_key, lemma_key_lt, lemma_key_transitive,
    lemma_match_transitive, lemma_traits_code, match_lt, names_nonempty, same_match,
    same_merge_key, scope_has, types_have, valid_filter, FilterModel, ResourceType,
};
use vstd::prelude::*;

verus! {

/// The domain sets of the filter that stands for `a` and `b` together. Two
/// limited filters give the union of their included domains; an unlimited one
/// absorbs a limited one. A domain stays excluded only where neither filter
/// applies: the excluded sets are intersected, a limited filter counting as
/// one that excludes every domain outside its list.
pub open spec fn merged_scope(a: FilterModel, b: FilterModel) -> (Seq<Seq<char>>, Seq<Seq<char>>) {
    if a.included.len() > 0 && b.included.len() > 0 {
        (names_union(a.included, b.included), names_common(a.excluded, b.excluded))
    } else if a.included.len() == 0 && b.included.len() == 0 {
        (Seq::empty(), names_common(a.excluded, b.excluded))
    } else if a.included.len() == 0 {
        (Seq::empty(), names_without(a.excluded, b.included))
    } else {
        (Seq::empty(), names_without(b.excluded, a.included))
    }
}

/// The filter that stands for `a` and `b` together: `a` with the merged scope.
pub open spec fn merge_scopes(a: FilterModel, b: FilterModel) -> FilterModel {
    FilterModel { included: merged_scope(a, b).0, excluded: merged_scope(a, b).1, ..a }
}

/// A list of names holds a name exactly if it is not empty of names.
proof fn lemma_nonempty_list(q: Seq<Seq<char>>)
    ensures
        q.len() > 0 <==> exists|x: Seq<char>| q.contains(x),
{
    if q.len() > 0 {
        assert(q.contains(q[0]));
    }
}

/// Merging keeps the invariant of a filter and all of the first filter but
/// its scope, and the merged filter applies on a domain exactly if one of the
/// two does.
pub proof fn lemma_merge_scopes(a: FilterModel, b: FilterModel)
    requires
        valid_filter(a),
        valid_filter(b),
    ensures
        valid_filter(merge_scopes(a, b)),
        same_merge_key(merge_scopes(a, b), a),
        forall|d: Seq<char>|
            scope_has(merge_scopes(a, b), d) <==> (scope_has(a, d) || scope_has(b, d)),
{
    let m = merge_scopes(a, b);
    lemma_names_union(a.included, b.included);
    lemma_names_keep(a.excluded, b.excluded, true);
    lemma_names_keep(a.excluded, b.included, false);
    lemma_names_keep(b.excluded, a.included, false);
    lemma_nonempty_list(a.included);
    lemma_nonempty_list(b.included);
    lemma_nonempty_list(m.included);
    assert(names_sorted(Seq::<Seq<char>>::empty()));
    assert(names_nonempty(m.included)) by {
        assert forall|i: int| 0 <= i < m.included.len() implies (#[trigger] m.included[i]).len()
            > 0 by {
            let x = m.included[i];
            assert(m.included.contains(x));
            if a.included.contains(x) {
                let k = choose|k: int| 0 <= k < a.included.len() && a.included[k] == x;
            } else {
                let k = choose|k: int| 0 <= k < b.included.len() && b.included[k] == x;
            }
        }
    }
    assert(names_nonempty(m.excluded)) by {
        assert forall|i: int| 0 <= i < m.excluded.len() implies (#[trigger] m.excluded[i]).len()
            > 0 by {
            let x = m.excluded[i];
            assert(m.excluded.contains(x));
            if a.excluded.contains(x) {
                let k = choose|k: int| 0 <= k < a.excluded.len() && a.excluded[k] == x;
            } else {
                let k = choose|k: int| 0 <= k < b.excluded.len() && b.excluded[k] == x;
            }
        }
    }
    assert forall|d: Seq<char>| scope_has(m, d) <==> (scope_has(a, d) || scope_has(b, d)) by {
        if a.included.len() > 0 && b.included.len() > 0 {
            assert(m.included.contains(d) <==> (a.included.contains(d) || b.included.contains(d)));
            assert(m.excluded.contains(d) <==> (a.excluded.contains(d) && b.excluded.contains(d)));
        } else if a.included.len() == 0 && b.included.len() == 0 {
            assert(m.excluded.contains(d) <==> (a.excluded.contains(d) && b.excluded.contains(d)));
        } else if a.included.len() == 0 {
            assert(m.excluded.contains(d) <==> (a.excluded.contains(d) && !b.included.contains(
                d,
            )));
        } else {
            assert(m.excluded.contains(d) <==> (b.excluded.contains(d) && !a.included.contains(
                d,
            )));
        }
    }
    assert(names_disjoint(m.included, m.excluded)) by {
        assert forall|x: Seq<char>| !(m.included.contains(x) && m.excluded.contains(x)) by {
            if a.included.len() > 0 && b.included.len() > 0 {
                assert(m.excluded.contains(x) <==> (a.excluded.contains(x) && b.excluded.contains(
                    x,
                )));
                assert(m.included.contains(x) <==> (a.included.contains(x) || b.included.contains(
                    x,
                )));
            }
        }
    }
}

/// The filters with each run of neighbours that differ in their domain sets
/// alone merged into one filter, which stands where the run stood.
pub open spec fn merge_runs(q: Seq<FilterModel>) -> Seq<FilterModel>
    decreases q.len(),
{
    if q.len() == 0 {
        q
    } else {
        let p = merge_runs(q.drop_last());
        if p.len() > 0 && same_merge_key(p.last(), q.last()) {
            p.drop_last().push(merge_scopes(p.last(), q.last()))
        } else {
            p.push(q.last())
        }
    }
}

/// Whether the resource types of `b` take in those of `a`.
pub open spec fn types_cover(b: FilterModel, a: FilterModel) -> bool {
    b.types == 0 || (a.types != 0 && a.types & b.types == a.types)
}

/// Whether the domain scope of `b` takes in that of `a`, as the domain sets
/// show it.
pub open spec fn scope_covers(b: FilterModel, a: FilterModel) -> bool {
    if b.included.len() > 0 {
        a.included.len() > 0 && names_without(a.included, b.included).len() == 0
    } else if a.included.len() > 0 {
        names_disjoint(a.included, b.excluded)
    } else {
        names_without(b.excluded, a.excluded).len() == 0
    }
}

/// Whether `b` matches all that `a` matches, with the same effect.
pub open spec fn covers(b: FilterModel, a: FilterModel) -> bool {
    same_match(b, a) && types_cover(b, a) && scope_covers(b, a)
}

/// Whether the filter at position `i` is redundant: another filter of the
/// list covers it and is strictly broader, or equally broad and earlier.
pub open spec fn is_subsumed(q: Seq<FilterModel>, i: int) -> bool {
    exists|j: int| subsumes_at(q, j, i)
}

/// Whether the filter at `j` makes the one at `i` redundant.
pub open spec fn subsumes_at(q: Seq<FilterModel>, j: int, i: int) -> bool {
    0 <= j < q.len() && j != i && covers(q[j], q[i]) && (!covers(q[i], q[j]) || j < i)
}

/// The first `n` filters of `q` without those that are redundant in `q`.
pub open spec fn prune_to(q: Seq<FilterModel>, n: int) -> Seq<FilterModel>
    decreases n,
{
    if n <= 0 || n > q.len() {
        Seq::empty()
    } else if is_subsumed(q, n - 1) {
        prune_to(q, n - 1)
    } else {
        prune_to(q, n - 1).push(q[n - 1])
    }
}

/// The filters without those that are redundant.
pub open spec fn prune(q: Seq<FilterModel>) -> Seq<FilterModel> {
    prune_to(q, q.len() as int)
}

/// What the optimizer makes of a set of filters.
pub open spec fn optimized(q: Seq<FilterModel>) -> Seq<FilterModel> {
    prune(merge_runs(q))
}

/// A filter that covers another applies wherever the other applies.
pub proof fn lemma_covers(b: FilterModel, a: FilterModel, d: Seq<char>, t: ResourceType)
    requires
        valid_filter(a),
        valid_filter(b),
        covers(b, a),
        scope_has(a, d),
        types_have(a, t),
    ensures
        scope_has(b, d),
        types_have(b, t),
{
    lemma_names_keep(a.included, b.included, false);
    lemma_names_keep(b.excluded, a.excluded, false);
    if b.included.len() > 0 {
        let w = names_without(a.included, b.included);
        if !b.included.contains(d) {
            assert(w.contains(d));
        }
    } else if a.included.len() == 0 {
        let w = names_without(b.excluded, a.excluded);
        if b.excluded.contains(d) {
            assert(w.contains(d));
        }
    }
    if b.types != 0 {
        let x = a.types;
        let y = b.types;
        let bit = crate::model::type_bit(t);
        assert(x & y == x && x & bit != 0 ==> y & bit != 0) by (bit_vector);
    }
}

/// No two filters share a merge key, and the filters stand in the order of
/// their merge keys, which is their fingerprint order too.
pub open spec fn keys_increasing(q: Seq<FilterModel>) -> bool {
    forall|i: int, j: int| 0 <= i < j < q.len() ==> key_lt(#[trigger] q[i], #[trigger] q[j])
}

/// Merging the runs of a canonical list leaves one filter for each merge
/// key, in the order of the keys.
pub proof fn lemma_merge_runs_keys(q: Seq<FilterModel>)
    requires
        filters_sorted(q),
    ensures
        keys_increasing(merge_runs(q)),
    decreases q.len(),
{
    if q.len() > 0 {
        let front = q.drop_last();
        let p = merge_runs(front);
        let x = q.last();
        assert(filters_sorted(front)) by {
            assert forall|i: int, j: int| 0 <= i < j < front.len() implies #[trigger] filter_order()(
                front[i],
                front[j],
            ) by {
                assert(filter_order()(q[i], q[j]));
            }
        }
        lemma_merge_runs_keys(front);
        let r = merge_runs(q);
        if front.len() > 0 {
            lemma_merge_runs_last(front);
            let y = front.last();
            assert(filter_order()(q[q.len() - 2], q[q.len() - 1]));
            assert(filter_lt(y, x));
            let z = p.last();
            assert(same_merge_key(z, y));
            if same_merge_key(z, x) {
                let m = merge_scopes(z, x);
                assert(r =~= p.drop_last().push(m));
                assert forall|i: int, j: int| 0 <= i < j < r.len() implies key_lt(
                    #[trigger] r[i],
                    #[trigger] r[j],
                ) by {
                    assert(key_lt(p[i], p[j]));
                    if j == r.len() - 1 {
                        assert(same_merge_key(p[j], m));
                        lemma_key_transitive(p[i], p[j], m);
                    }
                }
            } else {
                assert(r =~= p.push(x));
                lemma_filter_key(y, x);
                assert(!same_merge_key(y, x));
                assert(key_lt(y, x));
                lemma_key_transitive(z, y, x);
                assert forall|i: int, j: int| 0 <= i < j < r.len() implies key_lt(
                    #[trigger] r[i],
                    #[trigger] r[j],
                ) by {
                    if j == r.len() - 1 {
                        if i < p.len() - 1 {
                            assert(key_lt(p[i], p[p.len() - 1]));
                            lemma_key_transitive(p[i], z, x);
                        }
                    } else {
                        assert(key_lt(p[i], p[j]));
                    }
                }
            }
        } else {
            assert(p =~= Seq::<FilterModel>::empty());
            assert(r =~= seq![x]);
        }
    }
}

/// What is left of the first `n` filters is made of them, in their order.
pub proof fn lemma_prune_to(q: Seq<FilterModel>, n: int)
    requires
        0 <= n <= q.len(),
        keys_increasing(q),
    ensures
        keys_increasing(prune_to(q, n)),
        forall|x: FilterModel|
            #![trigger prune_to(q, n).contains(x)]
            prune_to(q, n).contains(x) <==> exists|k: int|
                0 <= k < n && #[trigger] q[k] == x && !is_subsumed(q, k),
    decreases n,
{
    if n > 0 {
        lemma_prune_to(q, n - 1);
        let p = prune_to(q, n - 1);
        let r = prune_to(q, n);
        assert forall|x: FilterModel| #![trigger r.contains(x)] r.contains(x) <==> exists|k: int|
            0 <= k < n && #[trigger] q[k] == x && !is_subsumed(q, k) by {
            if r.contains(x) {
                let m = choose|m: int| 0 <= m < r.len() && r[m] == x;
                if m < p.len() {
                    assert(p[m] == x);
                    assert(p.contains(x));
                    let k = choose|k: int| 0 <= k < n - 1 && #[trigger] q[k] == x && !is_subsumed(
                        q,
                        k,
                    );
                    assert(0 <= k < n && q[k] == x && !is_subsumed(q, k));
                } else {
                    assert(q[n - 1] == x);
                }
            }
            if exists|k: int| 0 <= k < n && #[trigger] q[k] == x && !is_subsumed(q, k) {
                let k = choose|k: int| 0 <= k < n && #[trigger] q[k] == x && !is_subsumed(q, k);
                if k < n - 1 {
                    assert(p.contains(x));
                    let m = choose|m: int| 0 <= m < p.len() && p[m] == x;
                    assert(r[m] == x);
                } else {
                    assert(r[r.len() - 1] == x);
                }
            }
        }
        if !is_subsumed(q, n - 1) {
            assert forall|i: int, j: int| 0 <= i < j < r.len() implies key_lt(
                #[trigger] r[i],
                #[trigger] r[j],
            ) by {
                if j < p.len() {
                    assert(key_lt(p[i], p[j]));
                } else {
                    assert(p.contains(p[i]));
                    let k = choose|k: int| 0 <= k < n - 1 && #[trigger] q[k] == p[i]
                        && !is_subsumed(q, k);
                    assert(key_lt(q[k], q[n - 1]));
                }
            }
        }
    }
}

/// In a list in the order of merge keys, the filters that match the same
/// stand together.
pub proof fn lemma_same_match_between(q: Seq<FilterModel>, j: int, k: int, i: int)
    requires
        keys_increasing(q),
        0 <= j <= k <= i < q.len(),
        same_match(q[j], q[i]),
    ensures
        same_match(q[k], q[i]),
        same_match(q[j], q[k]),
{
    if j < k && k < i {
        assert(key_lt(q[j], q[k]));
        assert(key_lt(q[k], q[i]));
        lemma_key_lt(q[j], q[k]);
        lemma_key_lt(q[k], q[i]);
        if match_lt(q[j], q[k]) || match_lt(q[k], q[i]) {
            lemma_match_transitive(q[j], q[k], q[i]);
        }
    }
}

/// An optimized set of filters.
pub struct OptimizedFilterSet {
    pub(crate) filters: Vec<Filter>,
}

impl View for OptimizedFilterSet {
    type V = Seq<FilterModel>;

    closed spec fn view(&self) -> Seq<FilterModel> {
        models(self.filters@)
    }
}

impl OptimizedFilterSet {
    /// The filters stand in the order of their merge keys, one for each key.
    #[verifier::type_invariant]
    pub open spec fn canonical(self) -> bool {
        keys_increasing(self@)
    }

    /// The number of filters.
    pub fn len(&self) -> (n: usize)
        ensures
            n == self@.len(),
    {
        self.filters.len()
    }

    /// The filter at position `i`.
    pub fn get(&self, i: usize) -> (r: &Filter)
        requires
            i < self@.len(),
        ensures
            r@ == self@[i as int],
    {
        &self.filters[i]
    }
}

/// `a` with the scope that stands for the scopes of `a` and `b` together.
pub fn merge_filters(a: &Filter, b: &Filter) -> (r: Filter)
    ensures
        r@ == merge_scopes(a@, b@),
{
    let _ = a.kind();
    let _ = b.kind();
    proof {
        lemma_merge_scopes(a@, b@);
    }
    let a_limited = !a.included().is_empty();
    let b_limited = !b.included().is_empty();
    let (included, excluded) = if a_limited && b_limited {
        (a.included().union(b.included()), a.excluded().intersection(b.excluded()))
    } else if !a_limited && !b_limited {
        (DomainSet::new(), a.excluded().intersection(b.excluded()))
    } else if !a_limited {
        (DomainSet::new(), a.excluded().difference(b.included()))
    } else {
        (DomainSet::new(), b.excluded().difference(a.included()))
    };
    let made = a.with_scope(included, excluded);
    assert(made is Some);
    made.unwrap()
}

/// Whether `b` matches all that `a` matches, with the same effect.
pub fn filter_covers(b: &Filter, a: &Filter) -> (r: bool)
    ensures
        r == covers(b@, a@),
{
    if !b.same_match(a) {
        return false;
    }
    let ta = a.types();
    let tb = b.types();
    if !(tb == 0 || (ta != 0 && ta & tb == ta)) {
        return false;
    }
    if !b.included().is_empty() {
        !a.included().is_empty() && a.included().difference(b.included()).is_empty()
    } else if !a.included().is_empty() {
        a.included().is_disjoint(b.excluded())
    } else {
        b.excluded().difference(a.excluded()).is_empty()
    }
}

/// Merges each run of filters that differ in their domain sets alone.
fn merge_groups(set: &FrozenFilterSet) -> (out: Vec<Filter>)
    ensures
        models(out@) == merge_runs(set@),
        filters_sorted(set@),
{
    let mut out: Vec<Filter> = Vec::new();
    let n = set.len();
    let groups = set.group_count();
    let ghost q = set@;
    let ghost starts = set.group_starts();
    proof {
        use_type_invariant(set);
    }
    let mut g: usize = 0;
    assert(q.take(0) =~= Seq::<FilterModel>::empty());
    assert(models(out@) =~= merge_runs(q.take(0)));
    proof {
        if n > 0 {
            assert(is_group_start(q, 0));
            let h = choose|h: int| 0 <= h < starts.len() && #[trigger] starts[h] == 0;
            if h > 0 {
                assert(starts[0] < starts[h]);
            }
        } else {
            assert(q =~= Seq::<FilterModel>::empty());
            if groups > 0 {
                assert(is_group_start(q, starts[0] as int));
            }
        }
    }
    while g < groups
        invariant
            g <= groups,
            groups == starts.len(),
            n == q.len(),
            q == set@,
            starts == set.group_starts(),
            is_group_index(q, starts),
            g < groups ==> models(out@) == merge_runs(q.take(starts[g as int] as int)),
            g == groups ==> models(out@) == merge_runs(q),
            groups == 0 ==> n == 0,
        decreases groups - g,
    {
        let a = set.group_start(g);
        let b = if g + 1 < groups {
            set.group_start(g + 1)
        } else {
            n
        };
        assert(a < b);
        let ghost done = models(out@);
        let mut acc = set.get(a).copy();
        proof {
            assert(q.take(a + 1).drop_last() =~= q.take(a as int));
            assert(q.take(a + 1).last() == q[a as int]);
            assert(is_group_start(q, a as int));
            if a > 0 {
                lemma_merge_runs_last(q.take(a as int));
                assert(q.take(a as int).last() == q[a - 1]);
            }
            assert(merge_runs(q.take(a + 1)) == done.push(acc@));
        }
        let mut i: usize = a + 1;
        while i < b
            invariant
                a < i <= b,
                b <= n,
                n == q.len(),
                q == set@,
                starts == set.group_starts(),
                is_group_index(q, starts),
                g < starts.len(),
                a == starts[g as int],
                g + 1 < starts.len() ==> b == starts[g + 1],
                g + 1 >= starts.len() ==> b == n,
                merge_runs(q.take(i as int)) == done.push(acc@),
            decreases b - i,
        {
            proof {
                assert(q.take(i + 1).drop_last() =~= q.take(i as int));
                assert(q.take(i + 1).last() == q[i as int]);
                assert(done.push(acc@).last() == acc@);
                assert(done.push(acc@).drop_last() =~= done);
                lemma_merge_runs_last(q.take(i as int));
                assert(q.take(i as int).last() == q[i - 1]);
                if is_group_start(q, i as int) {
                    let h = choose|h: int| 0 <= h < starts.len() && #[trigger] starts[h] == i;
                    if h <= g {
                        if h < g {
                            assert(starts[h] < starts[g as int]);
                        }
                    } else if h > g + 1 {
                        assert(starts[g + 1] < starts[h]);
                    }
                    assert(false);
                }
                assert(same_merge_key(q[i - 1], q[i as int]));
                lemma_traits_code(acc@, q[i - 1]);
                lemma_traits_code(q[i - 1], q[i as int]);
            }
            acc = merge_filters(&acc, set.get(i));
            i += 1;
        }
        out.push(acc);
        assert(models(out@) =~= done.push(acc@));
        proof {
            if g + 1 >= groups {
                assert(q.take(n as int) =~= q);
            }
        }
        g += 1;
    }
    proof {
        if groups == 0 {
            assert(q =~= Seq::<FilterModel>::empty());
        }
    }
    out
}

/// The last filter that merging leaves agrees with the last filter of the
/// list in all but the domain sets.
pub proof fn lemma_merge_runs_last(q: Seq<FilterModel>)
    requires
        q.len() > 0,
    ensures
        merge_runs(q).len() > 0,
        same_merge_key(merge_runs(q).last(), q.last()),
{
    let p = merge_runs(q.drop_last());
    if p.len() > 0 && same_merge_key(p.last(), q.last()) {
        lemma_traits_code(p.last(), q.last());
    }
}

/// Whether another filter of the list makes the one at `i` redundant. Only
/// the neighbours that match the same can: the search goes to both sides as
/// far as they reach.
fn subsumed_in(list: &Vec<Filter>, i: usize) -> (r: bool)
    requires
        i < list@.len(),
        keys_increasing(models(list@)),
    ensures
        r == is_subsumed(models(list@), i as int),
{
    let ghost q = models(list@);
    let mut j: usize = i;
    while j > 0 && list[j - 1].same_match(&list[i])
        invariant
            j <= i < list.len(),
            q == models(list@),
            keys_increasing(q),
            forall|k: int| j <= k < i ==> !subsumes_at(q, k, i as int),
            forall|k: int| j <= k < i ==> same_match(q[k], q[i as int]),
        decreases j,
    {
        if filter_covers(&list[j - 1], &list[i]) {
            assert(subsumes_at(q, j - 1, i as int));
            return true;
        }
        j -= 1;
    }
    assert forall|k: int| 0 <= k < i implies !subsumes_at(q, k, i as int) by {
        if k < j && same_match(q[k], q[i as int]) {
            lemma_same_match_between(q, k, j - 1, i as int);
        }
    }
    let mut h: usize = i + 1;
    while h < list.len() && list[h].same_match(&list[i])
        invariant
            i < h <= list.len(),
            q == models(list@),
            keys_increasing(q),
            forall|k: int| 0 <= k < h ==> !subsumes_at(q, k, i as int),
        decreases list.len() - h,
    {
        if filter_covers(&list[h], &list[i]) && !filter_covers(&list[i], &list[h]) {
            assert(subsumes_at(q, h as int, i as int));
            return true;
        }
        h += 1;
    }
    assert forall|k: int| 0 <= k < q.len() implies !subsumes_at(q, k, i as int) by {
        if k > h && same_match(q[k], q[i as int]) {
            lemma_same_match_between(q, i as int, h as int, k);
        }
    }
    false
}

/// Optimizes a frozen set of filters: merges the filters of each merge group
/// into one, then drops the filters that another one covers. What is left
/// stands in the fingerprint order.
pub fn optimize(set: &FrozenFilterSet) -> (r: OptimizedFilterSet)
    ensures
        r@ == optimized(set@),
{
    let merged = merge_groups(set);
    let ghost q = models(merged@);
    proof {
        lemma_merge_runs_keys(set@);
    }
    let mut out: Vec<Filter> = Vec::new();
    let mut i: usize = 0;
    assert(models(out@) =~= prune_to(q, 0));
    while i < merged.len()
        invariant
            i <= merged.len(),
            q == models(merged@),
            keys_increasing(q),
            models(out@) == prune_to(q, i as int),
        decreases merged.len() - i,
    {
        let ghost before = models(out@);
        if !subsumed_in(&merged, i) {
            out.push(merged[i].copy());
            assert(models(out@) =~= before.push(q[i as int]));
        }
        i += 1;
    }
    proof {
        lemma_prune_to(q, q.len() as int);
    }
    OptimizedFilterSet { filters: out }
}

/// Whether the filter stands among those that match like `like`, and applies
/// on domain `d` to resources of type `t`.
pub open spec fn applies(m: FilterModel, like: FilterModel, d: Seq<char>, t: ResourceType) -> bool {
    same_match(m, like) && scope_has(m, d) && types_have(m, t)
}

/// Whether some filter of the list applies.
pub open spec fn some_applies(
    q: Seq<FilterModel>,
    like: FilterModel,
    d: Seq<char>,
    t: ResourceType,
) -> bool {
    exists|i: int| 0 <= i < q.len() && applies(#[trigger] q[i], like, d, t)
}

/// Every filter of the list meets the invariant of a filter.
pub open spec fn all_valid(q: Seq<FilterModel>) -> bool {
    forall|i: int| 0 <= i < q.len() ==> valid_filter(#[trigger] q[i])
}

/// Merging runs keeps the filters valid, and changes nothing in where some
/// filter applies.
pub proof fn lemma_merge_runs_applies(
    q: Seq<FilterModel>,
    like: FilterModel,
    d: Seq<char>,
    t: ResourceType,
)
    requires
        all_valid(q),
    ensures
        all_valid(merge_runs(q)),
        some_applies(merge_runs(q), like, d, t) <==> some_applies(q, like, d, t),
    decreases q.len(),
{
    if q.len() > 0 {
        let front = q.drop_last();
        let p = merge_runs(front);
        let x = q.last();
        assert(all_valid(front)) by {
            assert forall|i: int| 0 <= i < front.len() implies valid_filter(#[trigger] front[i]) by {
                assert(valid_filter(q[i]));
            }
        }
        assert(valid_filter(q[q.len() - 1]));
        lemma_merge_runs_applies(front, like, d, t);
        let r = merge_runs(q);
        if p.len() > 0 && same_merge_key(p.last(), x) {
            let z = p.last();
            let m = merge_scopes(z, x);
            assert(valid_filter(p[p.len() - 1]));
            lemma_merge_scopes(z, x);
            lemma_traits_code(z, x);
            assert(r =~= p.drop_last().push(m));
            assert(applies(m, like, d, t) <==> (applies(z, like, d, t) || applies(x, like, d, t)));
            assert forall|i: int| 0 <= i < r.len() implies valid_filter(#[trigger] r[i]) by {
                if i < r.len() - 1 {
                    assert(valid_filter(p[i]));
                }
            }
            if some_applies(r, like, d, t) {
                let i = choose|i: int| 0 <= i < r.len() && applies(#[trigger] r[i], like, d, t);
                if i < r.len() - 1 {
                    assert(applies(p[i], like, d, t));
                } else if applies(z, like, d, t) {
                    assert(applies(p[p.len() - 1], like, d, t));
                }
                if some_applies(front, like, d, t) {
                    let k = choose|k: int|
                        0 <= k < front.len() && applies(#[trigger] front[k], like, d, t);
                    assert(applies(q[k], like, d, t));
                } else {
                    assert(applies(q[q.len() - 1], like, d, t));
                }
            }
            if some_applies(q, like, d, t) {
                let k = choose|k: int| 0 <= k < q.len() && applies(#[trigger] q[k], like, d, t);
                if k < q.len() - 1 {
                    assert(applies(front[k], like, d, t));
                    let i = choose|i: int| 0 <= i < p.len() && applies(#[trigger] p[i], like, d, t);
                    if i < p.len() - 1 {
                        assert(applies(r[i], like, d, t));
                    } else {
                        assert(applies(r[r.len() - 1], like, d, t));
                    }
                } else {
                    assert(applies(r[r.len() - 1], like, d, t));
                }
            }
        } else {
            assert(r =~= p.push(x));
            assert forall|i: int| 0 <= i < r.len() implies valid_filter(#[trigger] r[i]) by {
                if i < r.len() - 1 {
                    assert(valid_filter(p[i]));
                }
            }
            if some_applies(r, like, d, t) {
                let i = choose|i: int| 0 <= i < r.len() && applies(#[trigger] r[i], like, d, t);
                if i < r.len() - 1 {
                    assert(applies(p[i], like, d, t));
                    let k = choose|k: int|
                        0 <= k < front.len() && applies(#[trigger] front[k], like, d, t);
                    assert(applies(q[k], like, d, t));
                } else {
                    assert(applies(q[q.len() - 1], like, d, t));
                }
            }
            if some_applies(q, like, d, t) {
                let k = choose|k: int| 0 <= k < q.len() && applies(#[trigger] q[k], like, d, t);
                if k < q.len() - 1 {
                    assert(applies(front[k], like, d, t));
                    let i = choose|i: int| 0 <= i < p.len() && applies(#[trigger] p[i], like, d, t);
                    assert(applies(r[i], like, d, t));
                } else {
                    assert(applies(r[r.len() - 1], like, d, t));
                }
            }
        }
    }
}

/// Covering is transitive.
pub proof fn lemma_covers_transitive(c: FilterModel, b: FilterModel, a: FilterModel)
    requires
        valid_filter(a),
        valid_filter(b),
        valid_filter(c),
        covers(c, b),
        covers(b, a),
    ensures
        covers(c, a),
{
    lemma_names_keep(a.included, b.included, false);
    lemma_names_keep(b.included, c.included, false);
    lemma_names_keep(a.included, c.included, false);
    lemma_names_keep(b.excluded, a.excluded, false);
    lemma_names_keep(c.excluded, b.excluded, false);
    lemma_names_keep(c.excluded, a.excluded, false);
    let x = a.types;
    let y = b.types;
    let z = c.types;
    if z != 0 {
        assert(x & y == x && y & z == y ==> x & z == x) by (bit_vector);
    }
    if c.included.len() > 0 {
        let w = names_without(a.included, c.included);
        if w.len() > 0 {
            let n = w[0];
            assert(w.contains(n));
            assert(a.included.contains(n) && !c.included.contains(n));
            if !b.included.contains(n) {
                assert(names_without(a.included, b.included).contains(n));
            } else {
                assert(names_without(b.included, c.included).contains(n));
            }
        }
    } else if a.included.len() > 0 {
        assert forall|n: Seq<char>| !(a.included.contains(n) && c.excluded.contains(n)) by {
            if a.included.contains(n) && c.excluded.contains(n) {
                if b.included.len() > 0 {
                    if !b.included.contains(n) {
                        assert(names_without(a.included, b.included).contains(n));
                    }
                } else {
                    if !b.excluded.contains(n) {
                        assert(names_without(c.excluded, b.excluded).contains(n));
                    }
                }
            }
        }
    } else {
        let w = names_without(c.excluded, a.excluded);
        if w.len() > 0 {
            let n = w[0];
            assert(w.contains(n));
            assert(c.excluded.contains(n) && !a.excluded.contains(n));
            if !b.excluded.contains(n) {
                assert(names_without(c.excluded, b.excluded).contains(n));
            } else {
                assert(names_without(b.excluded, a.excluded).contains(n));
            }
        }
    }
}

/// The positions whose filters make the one at `i` redundant.
pub open spec fn dominators(q: Seq<FilterModel>, i: int) -> Set<int> {
    Set::new(|k: int| subsumes_at(q, k, i))
}

/// Every filter is kept itself or covered by a filter that is kept.
pub proof fn lemma_kept_cover(q: Seq<FilterModel>, i: int) -> (j: int)
    requires
        all_valid(q),
        0 <= i < q.len(),
    ensures
        0 <= j < q.len(),
        !is_subsumed(q, j),
        j == i || covers(q[j], q[i]),
    decreases dominators(q, i).len(),
{
    if !is_subsumed(q, i) {
        i
    } else {
        let k = choose|k: int| subsumes_at(q, k, i);
        let n = q.len() as int;
        vstd::set_lib::lemma_int_range(0, n);
        let all = vstd::set_lib::set_int_range(0, n);
        assert(dominators(q, i).subset_of(all));
        vstd::set_lib::lemma_len_subset(dominators(q, i), all);
        assert forall|h: int| dominators(q, k).contains(h) implies dominators(q, i).contains(h) by {
            assert(subsumes_at(q, h, k));
            lemma_covers_transitive(q[h], q[k], q[i]);
            if covers(q[i], q[h]) {
                lemma_covers_transitive(q[i], q[h], q[k]);
                lemma_covers_transitive(q[k], q[i], q[h]);
            }
            if h == i {
                assert(covers(q[i], q[k]));
            }
        }
        assert(dominators(q, k).subset_of(dominators(q, i)));
        assert(dominators(q, i).contains(k));
        assert(!dominators(q, k).contains(k));
        dominators(q, k).lemma_subset_not_in_lt(dominators(q, i), k);
        let j = lemma_kept_cover(q, k);
        if j != k {
            lemma_covers_transitive(q[j], q[k], q[i]);
        }
        j
    }
}

/// Dropping the filters that another one covers changes nothing in where
/// some filter applies.
pub proof fn lemma_prune_applies(
    q: Seq<FilterModel>,
    like: FilterModel,
    d: Seq<char>,
    t: ResourceType,
)
    requires
        all_valid(q),
        keys_increasing(q),
    ensures
        all_valid(prune(q)),
        some_applies(prune(q), like, d, t) <==> some_applies(q, like, d, t),
{
    let r = prune(q);
    lemma_prune_to(q, q.len() as int);
    assert forall|i: int| 0 <= i < r.len() implies valid_filter(#[trigger] r[i]) by {
        assert(r.contains(r[i]));
        let k = choose|k: int| 0 <= k < q.len() && #[trigger] q[k] == r[i] && !is_subsumed(q, k);
    }
    if some_applies(r, like, d, t) {
        let i = choose|i: int| 0 <= i < r.len() && applies(#[trigger] r[i], like, d, t);
        assert(r.contains(r[i]));
        let k = choose|k: int| 0 <= k < q.len() && #[trigger] q[k] == r[i] && !is_subsumed(q, k);
        assert(applies(q[k], like, d, t));
    }
    if some_applies(q, like, d, t) {
        let i = choose|i: int| 0 <= i < q.len() && applies(#[trigger] q[i], like, d, t);
        let j = lemma_kept_cover(q, i);
        if j != i {
            lemma_covers(q[j], q[i], d, t);
            lemma_traits_code(q[j], q[i]);
        }
        assert(applies(q[j], like, d, t));
        assert(r.contains(q[j]));
        let m = choose|m: int| 0 <= m < r.len() && r[m] == q[j];
        assert(applies(r[m], like, d, t));
    }
}

} // verus!
