//! The set of filters of a compilation: built by adding filters, then frozen
//! together with the index of its merge groups.

use crate::filter::Filter;
use crate::model::{filter_order, lemma_filter_order, same_merge_key, FilterModel};
use crate::order::{insert_sorted, lemma_insert_sorted, lemma_lower_bound_at, sorted_by};
use crate::text::Rank;
use vstd::prelude::*;

verus! {

/// The models of a list of filters.
pub open spec fn models(v: Seq<Filter>) -> Seq<FilterModel> {
    Seq::new(v.len(), |i: int| v[i]@)
}

/// A list of filters is canonical when it is strictly increasing in the
/// fingerprint order; then no filter occurs twice.
pub open spec fn filters_sorted(q: Seq<FilterModel>) -> bool {
    sorted_by(q, filter_order())
}

/// `q` with `x` at its place in the fingerprint order, unless it holds `x`.
pub open spec fn filters_insert(q: Seq<FilterModel>, x: FilterModel) -> Seq<FilterModel> {
    insert_sorted(q, x, filter_order())
}

/// Whether a merge group begins at position `i`: the filter before it, if
/// there is one, differs in more than its domain sets.
pub open spec fn is_group_start(q: Seq<FilterModel>, i: int) -> bool {
    0 <= i < q.len() && (i == 0 || !same_merge_key(q[i - 1], q[i]))
}

/// Whether `starts` lists, in increasing order, the positions of `q` at which
/// a merge group begins.
pub open spec fn is_group_index(q: Seq<FilterModel>, starts: Seq<usize>) -> bool {
    &&& forall|g: int, h: int| 0 <= g < h < starts.len() ==> starts[g] < starts[h]
    &&& forall|g: int| 0 <= g < starts.len() ==> is_group_start(q, #[trigger] starts[g] as int)
    &&& forall|i: int|
        is_group_start(q, i) ==> exists|g: int| 0 <= g < starts.len() && #[trigger] starts[g] == i
}

/// A set of filters that can still grow.
pub struct FilterSet {
    pub(crate) filters: Vec<Filter>,
}

/// A set of filters that is complete, with the index of its merge groups.
pub struct FrozenFilterSet {
    pub(crate) filters: Vec<Filter>,
    pub(crate) group_starts: Vec<usize>,
}

impl View for FilterSet {
    type V = Seq<FilterModel>;

    /// The filters in the fingerprint order.
    closed spec fn view(&self) -> Seq<FilterModel> {
        models(self.filters@)
    }
}

impl View for FrozenFilterSet {
    type V = Seq<FilterModel>;

    /// The filters in the fingerprint order.
    closed spec fn view(&self) -> Seq<FilterModel> {
        models(self.filters@)
    }
}

impl FilterSet {
    /// The filters stand in the fingerprint order, each once.
    #[verifier::type_invariant]
    pub open spec fn canonical(self) -> bool {
        filters_sorted(self@)
    }

    /// The empty set.
    pub fn new() -> (r: FilterSet)
        ensures
            r@ == Seq::<FilterModel>::empty(),
    {
        let r = FilterSet { filters: Vec::new() };
        assert(r@ =~= Seq::<FilterModel>::empty());
        r
    }

    /// The number of filters.
    pub fn len(&self) -> (n: usize)
        ensures
            n == self@.len(),
    {
        self.filters.len()
    }

    /// The filter at position `i` of the fingerprint order.
    pub fn get(&self, i: usize) -> (r: &Filter)
        requires
            i < self@.len(),
        ensures
            r@ == self@[i as int],
    {
        &self.filters[i]
    }

    /// Whether the set holds this filter.
    pub fn contains(&self, filter: &Filter) -> (r: bool)
        ensures
            r == self@.contains(filter@),
    {
        let mut i: usize = 0;
        while i < self.filters.len()
            invariant
                i <= self.filters.len(),
                forall|j: int| 0 <= j < i ==> self@[j] != filter@,
            decreases self.filters.len() - i,
        {
            proof {
                lemma_filter_order();
            }
            match self.filters[i].rank(filter) {
                Rank::Same => {
                    assert(self@[i as int] == filter@);
                    return true;
                },
                _ => {},
            }
            i += 1;
        }
        false
    }

    /// Puts `filter` at position `i`, where it keeps the order.
    fn put_at(&mut self, i: usize, filter: Filter)
        requires
            i <= old(self)@.len(),
            filters_sorted(old(self)@.insert(i as int, filter@)),
        ensures
            final(self)@ == old(self)@.insert(i as int, filter@),
    {
        let ghost before = self@;
        let ghost added = filter@;
        let mut taken = FilterSet::new();
        core::mem::swap(self, &mut taken);
        let mut filters = taken.filters;
        filters.insert(i, filter);
        assert(models(filters@) =~= before.insert(i as int, added));
        *self = FilterSet { filters };
    }

    /// Adds a filter. A filter that the set holds already is discarded, and
    /// the set stays as it is; the result says whether the filter was new.
    pub fn add(&mut self, filter: Filter) -> (r: bool)
        ensures
            final(self)@ == filters_insert(old(self)@, filter@),
            r == !old(self)@.contains(filter@),
            r ==> final(self)@.len() == old(self)@.len() + 1,
            !r ==> final(self)@ == old(self)@,
    {
        proof {
            use_type_invariant(&*self);
        }
        let ghost before = self@;
        let ghost x = filter@;
        let ghost lt = filter_order();
        let mut lo: usize = 0;
        let mut hi: usize = self.filters.len();
        while lo < hi
            invariant
                lo <= hi <= self.filters.len(),
                self@ == before,
                before == old(self)@,
                x == filter@,
                lt == filter_order(),
                filters_sorted(before),
                forall|k: int| 0 <= k < lo ==> lt(#[trigger] before[k], x),
                forall|k: int| hi <= k < before.len() ==> lt(x, #[trigger] before[k]),
            decreases hi - lo,
        {
            proof {
                lemma_filter_order();
                lemma_insert_sorted(before, x, lt);
            }
            let mid = lo + (hi - lo) / 2;
            match self.filters[mid].rank(&filter) {
                Rank::Before => {
                    assert forall|k: int| 0 <= k < mid + 1 implies lt(#[trigger] before[k], x) by {
                        if k < mid {
                            assert(lt(before[k], before[mid as int]));
                        }
                    }
                    lo = mid + 1;
                },
                Rank::Same => {
                    assert(before[mid as int] == x);
                    assert(before.contains(x));
                    return false;
                },
                Rank::After => {
                    assert forall|k: int| mid <= k < before.len() implies lt(
                        x,
                        #[trigger] before[k],
                    ) by {
                        if k > mid {
                            assert(lt(before[mid as int], before[k]));
                        }
                    }
                    hi = mid;
                },
            }
        }
        proof {
            lemma_filter_order();
            lemma_insert_sorted(before, x, lt);
            if lo < before.len() {
                assert(lt(x, before[lo as int]));
            }
            lemma_lower_bound_at(before, x, lt, 0, lo as int);
            assert(!before.contains(x)) by {
                if before.contains(x) {
                    let m = choose|m: int| 0 <= m < before.len() && before[m] == x;
                    if m < lo {
                        assert(lt(before[m], x));
                    } else {
                        assert(lt(x, before[m]));
                    }
                }
            }
        }
        self.put_at(lo, filter);
        true
    }

    /// Freezes the set and builds the index of its merge groups: the
    /// positions at which the filters begin to differ in more than their
    /// domain sets.
    pub fn finalize(self) -> (r: FrozenFilterSet)
        ensures
            r@ == self@,
            is_group_index(r@, r.group_starts()),
    {
        proof {
            use_type_invariant(&self);
        }
        let filters = self.filters;
        let ghost q = models(filters@);
        let mut starts: Vec<usize> = Vec::new();
        let mut i: usize = 0;
        while i < filters.len()
            invariant
                i <= filters.len(),
                q == models(filters@),
                forall|g: int, h: int| 0 <= g < h < starts@.len() ==> starts@[g] < starts@[h],
                forall|g: int|
                    0 <= g < starts@.len() ==> is_group_start(q, #[trigger] starts@[g] as int)
                        && starts@[g] < i,
                forall|k: int|
                    0 <= k < i && is_group_start(q, k) ==> exists|g: int|
                        0 <= g < starts@.len() && #[trigger] starts@[g] == k,
            decreases filters.len() - i,
        {
            let begins = i == 0 || !filters[i - 1].same_merge_key(&filters[i]);
            if begins {
                let ghost before = starts@;
                starts.push(i);
                assert forall|k: int| 0 <= k < i + 1 && is_group_start(q, k) implies exists|g: int|
                    0 <= g < starts@.len() && #[trigger] starts@[g] == k by {
                    if k < i {
                        let g = choose|g: int| 0 <= g < before.len() && #[trigger] before[g] == k;
                        assert(starts@[g] == k);
                    } else {
                        assert(starts@[starts@.len() - 1] == k);
                    }
                }
            }
            i += 1;
        }
        FrozenFilterSet { filters, group_starts: starts }
    }
}

impl FrozenFilterSet {
    /// The filters stand in the fingerprint order, and the index lists the
    /// positions at which a merge group begins.
    #[verifier::type_invariant]
    pub open spec fn canonical(self) -> bool {
        filters_sorted(self@) && is_group_index(self@, self.group_starts())
    }

    /// The positions at which a merge group begins, in increasing order.
    pub closed spec fn group_starts(self) -> Seq<usize> {
        self.group_starts@
    }

    /// The number of filters.
    pub fn len(&self) -> (n: usize)
        ensures
            n == self@.len(),
    {
        self.filters.len()
    }

    /// The filter at position `i` of the fingerprint order.
    pub fn get(&self, i: usize) -> (r: &Filter)
        requires
            i < self@.len(),
        ensures
            r@ == self@[i as int],
    {
        &self.filters[i]
    }

    /// The number of merge groups.
    pub fn group_count(&self) -> (n: usize)
        ensures
            n == self.group_starts().len(),
    {
        self.group_starts.len()
    }

    /// The position at which the merge group `g` begins.
    pub fn group_start(&self, g: usize) -> (i: usize)
        requires
            g < self.group_starts().len(),
        ensures
            i == self.group_starts()[g as int],
            i < self@.len(),
    {
        proof {
            use_type_invariant(self);
        }
        self.group_starts[g]
    }
}

} // verus!
