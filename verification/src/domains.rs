//! Finite sets of domain names, kept as sorted lists without repetition so
//! that equal sets are equal values.

use crate::order::{insert_sorted, lemma_insert_sorted, lex_from, lower_bound, sorted_by};
use crate::text::{copy_text, lemma_text_order, text_eq, text_lt, text_rank, Rank, names_lt};
use vstd::prelude::*;

verus! {

/// The order of texts, as a value.
pub open spec fn text_order() -> spec_fn(Seq<char>, Seq<char>) -> bool {
    |x: Seq<char>, y: Seq<char>| text_lt(x, y)
}

/// A list of names is canonical when it is strictly increasing.
pub open spec fn names_sorted(q: Seq<Seq<char>>) -> bool {
    sorted_by(q, text_order())
}

/// `q` with the name `x` at its place.
pub open spec fn names_insert(q: Seq<Seq<char>>, x: Seq<char>) -> Seq<Seq<char>> {
    insert_sorted(q, x, text_order())
}

/// The names of `a` together with those of `b`.
pub open spec fn names_union(a: Seq<Seq<char>>, b: Seq<Seq<char>>) -> Seq<Seq<char>>
    decreases b.len(),
{
    if b.len() == 0 {
        a
    } else {
        names_insert(names_union(a, b.drop_last()), b.last())
    }
}

/// The names of `a`, in their order, that `b` holds (`want`) or lacks (`!want`).
pub open spec fn names_keep(a: Seq<Seq<char>>, b: Seq<Seq<char>>, want: bool) -> Seq<Seq<char>>
    decreases a.len(),
{
    if a.len() == 0 {
        a
    } else if b.contains(a.last()) == want {
        names_keep(a.drop_last(), b, want).push(a.last())
    } else {
        names_keep(a.drop_last(), b, want)
    }
}

/// The names that both lists hold.
pub open spec fn names_common(a: Seq<Seq<char>>, b: Seq<Seq<char>>) -> Seq<Seq<char>> {
    names_keep(a, b, true)
}

/// The names of `a` that `b` lacks.
pub open spec fn names_without(a: Seq<Seq<char>>, b: Seq<Seq<char>>) -> Seq<Seq<char>> {
    names_keep(a, b, false)
}

/// No name stands in both lists.
pub open spec fn names_disjoint(a: Seq<Seq<char>>, b: Seq<Seq<char>>) -> bool {
    forall|x: Seq<char>| !(a.contains(x) && b.contains(x))
}

/// Insertion keeps a list of names canonical and adds exactly the name.
pub proof fn lemma_names_insert(q: Seq<Seq<char>>, x: Seq<char>)
    requires
        names_sorted(q),
    ensures
        names_sorted(names_insert(q, x)),
        forall|y: Seq<char>|
            #![trigger names_insert(q, x).contains(y)]
            names_insert(q, x).contains(y) <==> (q.contains(y) || y == x),
        q.contains(x) ==> names_insert(q, x) == q,
{
    lemma_text_order();
    lemma_insert_sorted(q, x, text_order());
}

/// The union is canonical and holds exactly the names of both lists.
pub proof fn lemma_names_union(a: Seq<Seq<char>>, b: Seq<Seq<char>>)
    requires
        names_sorted(a),
    ensures
        names_sorted(names_union(a, b)),
        forall|y: Seq<char>|
            #![trigger names_union(a, b).contains(y)]
            names_union(a, b).contains(y) <==> (a.contains(y) || b.contains(y)),
    decreases b.len(),
{
    if b.len() > 0 {
        let p = b.drop_last();
        lemma_names_union(a, p);
        lemma_names_insert(names_union(a, p), b.last());
        assert forall|y: Seq<char>| names_union(a, b).contains(y) <==> (a.contains(y)
            || b.contains(y)) by {
            if b.contains(y) {
                let m = choose|m: int| 0 <= m < b.len() && b[m] == y;
                if m < b.len() - 1 {
                    assert(p[m] == y);
                }
            }
            if p.contains(y) {
                let m = choose|m: int| 0 <= m < p.len() && p[m] == y;
                assert(b[m] == y);
            }
            assert(b[b.len() - 1] == b.last());
        }
    }
}

/// What is kept is canonical and holds exactly the names of `a` that pass.
pub proof fn lemma_names_keep(a: Seq<Seq<char>>, b: Seq<Seq<char>>, want: bool)
    requires
        names_sorted(a),
    ensures
        names_sorted(names_keep(a, b, want)),
        forall|y: Seq<char>|
            #![trigger names_keep(a, b, want).contains(y)]
            #![trigger a.contains(y)]
            names_keep(a, b, want).contains(y) <==> (a.contains(y) && b.contains(y) == want),
    decreases a.len(),
{
    if a.len() > 0 {
        let p = a.drop_last();
        assert(names_sorted(p)) by {
            assert forall|i: int, j: int| 0 <= i < j < p.len() implies #[trigger] text_order()(
                p[i],
                p[j],
            ) by {
                assert(text_order()(a[i], a[j]));
            }
        }
        lemma_names_keep(p, b, want);
        let r = names_keep(p, b, want);
        let k = names_keep(a, b, want);
        assert forall|y: Seq<char>| k.contains(y) <==> (a.contains(y) && b.contains(y)
            == want) by {
            if k.contains(y) {
                let m = choose|m: int| 0 <= m < k.len() && k[m] == y;
                if m < r.len() {
                    assert(r[m] == y);
                    assert(r.contains(y));
                    let n = choose|n: int| 0 <= n < p.len() && p[n] == y;
                    assert(a[n] == y);
                } else {
                    assert(a[a.len() - 1] == y);
                }
            }
            if a.contains(y) && b.contains(y) == want {
                let n = choose|n: int| 0 <= n < a.len() && a[n] == y;
                if n < a.len() - 1 {
                    assert(p[n] == y);
                    assert(r.contains(y));
                    let m = choose|m: int| 0 <= m < r.len() && r[m] == y;
                    assert(k[m] == y);
                } else {
                    assert(k[k.len() - 1] == y);
                }
            }
        }
        if b.contains(a.last()) == want {
            assert forall|i: int, j: int| 0 <= i < j < k.len() implies #[trigger] text_order()(
                k[i],
                k[j],
            ) by {
                if j < r.len() {
                    assert(text_order()(r[i], r[j]));
                } else {
                    assert(r.contains(r[i]));
                    let n = choose|n: int| 0 <= n < p.len() && p[n] == r[i];
                    assert(text_order()(a[n], a[a.len() - 1]));
                }
            }
        }
    }
}

/// A finite set of domain names.
pub struct DomainSet {
    pub(crate) names: Vec<Vec<char>>,
}

impl View for DomainSet {
    type V = Seq<Seq<char>>;

    /// The names in increasing order.
    closed spec fn view(&self) -> Seq<Seq<char>> {
        Seq::new(self.names@.len(), |i: int| self.names@[i]@)
    }
}

impl DomainSet {
    /// The names stand in increasing order, each once.
    #[verifier::type_invariant]
    pub open spec fn canonical(self) -> bool {
        names_sorted(self@)
    }

    /// The empty set.
    pub fn new() -> (r: DomainSet)
        ensures
            r@ == Seq::<Seq<char>>::empty(),
    {
        let r = DomainSet { names: Vec::new() };
        assert(r@ =~= Seq::<Seq<char>>::empty());
        r
    }

    /// The number of names.
    pub fn len(&self) -> (n: usize)
        ensures
            n == self@.len(),
    {
        self.names.len()
    }

    /// Whether the set is empty.
    pub fn is_empty(&self) -> (r: bool)
        ensures
            r == (self@.len() == 0),
    {
        self.names.len() == 0
    }

    /// The name at position `i` of the increasing order.
    pub fn name(&self, i: usize) -> (r: &Vec<char>)
        requires
            i < self@.len(),
        ensures
            r@ == self@[i as int],
    {
        &self.names[i]
    }

    /// Whether the set holds `name`.
    pub fn contains(&self, name: &Vec<char>) -> (r: bool)
        ensures
            r == self@.contains(name@),
    {
        let mut i: usize = 0;
        while i < self.names.len()
            invariant
                i <= self.names.len(),
                forall|j: int| 0 <= j < i ==> self@[j] != name@,
            decreases self.names.len() - i,
        {
            if text_eq(&self.names[i], name) {
                assert(self@[i as int] == name@);
                return true;
            }
            i += 1;
        }
        false
    }

    /// Puts `name` at position `i`, where it keeps the order.
    fn put_at(&mut self, i: usize, name: Vec<char>)
        requires
            i <= old(self)@.len(),
            names_sorted(old(self)@.insert(i as int, name@)),
        ensures
            final(self)@ == old(self)@.insert(i as int, name@),
    {
        let ghost before = self@;
        let ghost added = name@;
        let mut taken = DomainSet::new();
        core::mem::swap(self, &mut taken);
        let mut names = taken.names;
        names.insert(i, name);
        assert(Seq::new(names@.len(), |k: int| names@[k]@) =~= before.insert(i as int, added));
        *self = DomainSet { names };
    }

    /// Adds `name`; says whether it was new.
    pub fn insert(&mut self, name: Vec<char>) -> (r: bool)
        ensures
            final(self)@ == names_insert(old(self)@, name@),
            r == !old(self)@.contains(name@),
    {
        proof {
            use_type_invariant(&*self);
        }
        let ghost before = self@;
        let mut i: usize = 0;
        while i < self.names.len()
            invariant
                i <= self.names.len(),
                self@ == before,
                before == old(self)@,
                names_sorted(before),
                lower_bound(before, name@, text_order(), 0) == lower_bound(
                    before,
                    name@,
                    text_order(),
                    i as int,
                ),
            decreases self.names.len() - i,
        {
            proof {
                lemma_text_order();
                lemma_names_insert(before, name@);
            }
            match text_rank(&self.names[i], &name) {
                Rank::Before => {
                    assert(text_order()(before[i as int], name@));
                },
                Rank::Same => {
                    assert(before[i as int] == name@);
                    assert(before.contains(name@));
                    return false;
                },
                Rank::After => {
                    assert(!text_order()(before[i as int], name@));
                    assert(!before.contains(name@)) by {
                        if before.contains(name@) {
                            assert(names_insert(before, name@) == before.insert(i as int, name@));
                        }
                    }
                    self.put_at(i, name);
                    return true;
                },
            }
            i += 1;
        }
        proof {
            lemma_text_order();
            lemma_names_insert(before, name@);
        }
        assert(!before.contains(name@)) by {
            if before.contains(name@) {
                assert(names_insert(before, name@) == before.insert(i as int, name@));
            }
        }
        self.put_at(i, name);
        true
    }

    /// A copy of the set.
    pub fn copy(&self) -> (r: DomainSet)
        ensures
            r@ == self@,
    {
        proof {
            use_type_invariant(self);
        }
        let mut names: Vec<Vec<char>> = Vec::new();
        let mut i: usize = 0;
        while i < self.names.len()
            invariant
                i <= self.names.len(),
                names@.len() == i,
                forall|j: int| 0 <= j < i ==> names@[j]@ == self.names@[j]@,
            decreases self.names.len() - i,
        {
            names.push(copy_text(&self.names[i]));
            i += 1;
        }
        let ghost q = Seq::new(names@.len(), |i: int| names@[i]@);
        assert(q =~= self@);
        let r = DomainSet { names };
        assert(r@ =~= self@);
        r
    }

    /// The names of both sets.
    pub fn union(&self, other: &DomainSet) -> (r: DomainSet)
        ensures
            r@ == names_union(self@, other@),
    {
        let mut r = self.copy();
        let mut i: usize = 0;
        while i < other.names.len()
            invariant
                i <= other.names.len(),
                r@ == names_union(self@, other@.take(i as int)),
            decreases other.names.len() - i,
        {
            r.insert(copy_text(&other.names[i]));
            assert(other@.take(i + 1).drop_last() =~= other@.take(i as int));
            assert(other@.take(i + 1).last() == other@[i as int]);
            i += 1;
        }
        assert(other@.take(i as int) =~= other@);
        r
    }

    /// The names of this set that `other` holds (`want`) or lacks (`!want`).
    pub fn keep(&self, other: &DomainSet, want: bool) -> (r: DomainSet)
        ensures
            r@ == names_keep(self@, other@, want),
    {
        proof {
            use_type_invariant(self);
        }
        let mut names: Vec<Vec<char>> = Vec::new();
        let mut i: usize = 0;
        while i < self.names.len()
            invariant
                i <= self.names.len(),
                names_sorted(self@),
                Seq::new(names@.len(), |k: int| names@[k]@) == names_keep(
                    self@.take(i as int),
                    other@,
                    want,
                ),
            decreases self.names.len() - i,
        {
            let ghost prev = Seq::new(names@.len(), |k: int| names@[k]@);
            assert(self@.take(i + 1).drop_last() =~= self@.take(i as int));
            assert(self@.take(i + 1).last() == self@[i as int]);
            if other.contains(&self.names[i]) == want {
                names.push(copy_text(&self.names[i]));
                assert(Seq::new(names@.len(), |k: int| names@[k]@) =~= prev.push(self@[i as int]));
            }
            i += 1;
        }
        assert(self@.take(i as int) =~= self@);
        proof {
            lemma_names_keep(self@, other@, want);
        }
        let r = DomainSet { names };
        assert(r@ =~= names_keep(self@, other@, want));
        r
    }

    /// The names that both sets hold.
    pub fn intersection(&self, other: &DomainSet) -> (r: DomainSet)
        ensures
            r@ == names_common(self@, other@),
    {
        self.keep(other, true)
    }

    /// The names of this set that `other` lacks.
    pub fn difference(&self, other: &DomainSet) -> (r: DomainSet)
        ensures
            r@ == names_without(self@, other@),
    {
        self.keep(other, false)
    }

    /// Whether the two sets share no name.
    pub fn is_disjoint(&self, other: &DomainSet) -> (r: bool)
        ensures
            r == names_disjoint(self@, other@),
    {
        let mut i: usize = 0;
        while i < self.names.len()
            invariant
                i <= self.names.len(),
                forall|j: int| 0 <= j < i ==> !other@.contains(#[trigger] self@[j]),
            decreases self.names.len() - i,
        {
            if other.contains(&self.names[i]) {
                assert(self@.contains(self@[i as int]));
                return false;
            }
            i += 1;
        }
        true
    }

    /// Compares two sets as lists of names.
    pub fn rank(&self, other: &DomainSet) -> (r: Rank)
        ensures
            r == crate::text::rank_of(
                |x: Seq<Seq<char>>, y: Seq<Seq<char>>| names_lt(x, y),
                self@,
                other@,
            ),
    {
        let ghost lt = |x: Seq<char>, y: Seq<char>| text_lt(x, y);
        let mut i: usize = 0;
        while i < self.names.len() && i < other.names.len()
            invariant
                i <= self.names.len(),
                i <= other.names.len(),
                lt == (|x: Seq<char>, y: Seq<char>| text_lt(x, y)),
                forall|j: int| 0 <= j < i ==> self@[j] == other@[j],
                lex_from(lt, self@, other@, 0) == lex_from(lt, self@, other@, i as int),
                lex_from(lt, other@, self@, 0) == lex_from(lt, other@, self@, i as int),
            decreases self.names.len() - i,
        {
            match text_rank(&self.names[i], &other.names[i]) {
                Rank::Before => {
                    assert(self@[i as int] != other@[i as int]);
                    assert(lt(self@[i as int], other@[i as int]));
                    return Rank::Before;
                },
                Rank::After => {
                    assert(self@[i as int] != other@[i as int]);
                    assert(!lt(self@[i as int], other@[i as int]));
                    proof {
                        lemma_text_order();
                    }
                    assert(lt(other@[i as int], self@[i as int]));
                    return Rank::After;
                },
                Rank::Same => {},
            }
            i += 1;
        }
        if i < other.names.len() {
            assert(self@.len() != other@.len());
            Rank::Before
        } else if i < self.names.len() {
            assert(self@.len() != other@.len());
            Rank::After
        } else {
            assert(self@ =~= other@);
            Rank::Same
        }
    }
}

} // verus!
