//! What holds of every compilation.

use crate::compile::{
    compiled, diagnostic_models, ingest, ingest_lines, is_result_of, outcome, CompileResult,
    DocumentFormat, DocumentModel, Outcome, TargetFormat,
};
use crate::domains::{
    lemma_names_keep, lemma_names_union, names_common, names_sorted, names_union, text_order,
};
use crate::emitter::{class_rules, emitted, quota, rule_models, ActionKind};
use crate::filter_set::{filters_insert, filters_sorted};
use crate::model::{
    filter_order, lemma_filter_order, lemma_key_lt, lemma_traits_code, same_merge_key, scope_has,
    valid_filter, FilterModel, ResourceType,
};
use crate::optimizer::{
    all_valid, is_subsumed, keys_increasing, lemma_merge_runs_applies, lemma_merge_runs_keys,
    lemma_merge_scopes, lemma_prune_applies, lemma_prune_to, merge_runs, merge_scopes,
    merged_scope, optimized, prune_to, some_applies, subsumes_at,
};
use crate::text::lemma_text_order;
use crate::order::{lemma_insert_sorted, lemma_sorted_unique};
use vstd::prelude::*;

verus! {

/// Whether line `j` gives the filter `x`.
pub open spec fn accepts(
    lines: Seq<Seq<char>>,
    format: DocumentFormat,
    j: int,
    x: FilterModel,
) -> bool {
    0 <= j < lines.len() && outcome(lines[j], format) == Outcome::Accept(x)
}

/// Whether some line gives the filter `x`.
pub open spec fn accepted(lines: Seq<Seq<char>>, format: DocumentFormat, x: FilterModel) -> bool {
    exists|j: int| accepts(lines, format, j, x)
}

/// Whether some line of document `i` gives the filter `x`.
pub open spec fn accepts_in(docs: Seq<DocumentModel>, i: int, x: FilterModel) -> bool {
    0 <= i < docs.len() && accepted(docs[i].lines, docs[i].format, x)
}

/// Whether some line of some document gives the filter `x`.
pub open spec fn accepted_in(docs: Seq<DocumentModel>, x: FilterModel) -> bool {
    exists|i: int| accepts_in(docs, i, x)
}

/// Taking lines into a canonical set leaves it canonical, and it then holds
/// what it held and the filters that the lines give, nothing else.
pub proof fn lemma_ingest_lines(
    q: Seq<FilterModel>,
    lines: Seq<Seq<char>>,
    format: DocumentFormat,
)
    requires
        filters_sorted(q),
    ensures
        filters_sorted(ingest_lines(q, lines, format)),
        forall|x: FilterModel|
            #![trigger ingest_lines(q, lines, format).contains(x)]
            ingest_lines(q, lines, format).contains(x) <==> (q.contains(x) || accepted(
                lines,
                format,
                x,
            )),
    decreases lines.len(),
{
    if lines.len() == 0 {
        assert forall|x: FilterModel| !accepted(lines, format, x) by {
            if accepted(lines, format, x) {
                let j = choose|j: int| accepts(lines, format, j, x);
            }
        }
    } else {
        let front = lines.drop_last();
        let p = ingest_lines(q, front, format);
        lemma_ingest_lines(q, front, format);
        lemma_filter_order();
        let r = ingest_lines(q, lines, format);
        match outcome(lines.last(), format) {
            Outcome::Accept(m) => {
                lemma_insert_sorted(p, m, filter_order());
            },
            _ => {},
        }
        assert forall|x: FilterModel| #![trigger r.contains(x)] r.contains(x) <==> (q.contains(x)
            || accepted(lines, format, x)) by {
            assert(p.contains(x) <==> (q.contains(x) || accepted(front, format, x)));
            match outcome(lines.last(), format) {
                Outcome::Accept(m) => {
                    assert(r == filters_insert(p, m));
                    assert(filters_insert(p, m).contains(x) <==> (p.contains(x) || x == m));
                },
                _ => {
                    assert(r == p);
                },
            }
            assert(lines[lines.len() - 1] == lines.last());
            if accepted(front, format, x) {
                let j = choose|j: int| accepts(front, format, j, x);
                assert(accepts(lines, format, j, x));
            }
            if accepted(lines, format, x) {
                let j = choose|j: int| accepts(lines, format, j, x);
                if j < lines.len() - 1 {
                    assert(accepts(front, format, j, x));
                }
            }
            if outcome(lines.last(), format) == Outcome::Accept(x) {
                assert(accepts(lines, format, lines.len() - 1, x));
            }
        }
    }
}

/// The set of a compilation is canonical and holds exactly the filters that
/// the lines of the documents give.
pub proof fn lemma_ingest(docs: Seq<DocumentModel>)
    ensures
        filters_sorted(ingest(docs)),
        forall|x: FilterModel|
            #![trigger ingest(docs).contains(x)]
            ingest(docs).contains(x) <==> accepted_in(docs, x),
    decreases docs.len(),
{
    if docs.len() == 0 {
        assert forall|x: FilterModel| !accepted_in(docs, x) by {
            if accepted_in(docs, x) {
                let i = choose|i: int| accepts_in(docs, i, x);
            }
        }
        assert forall|x: FilterModel| !ingest(docs).contains(x) by {}
    } else {
        let front = docs.drop_last();
        lemma_ingest(front);
        lemma_ingest_lines(ingest(front), docs.last().lines, docs.last().format);
        assert forall|x: FilterModel| #![trigger ingest(docs).contains(x)] ingest(docs).contains(x)
            <==> accepted_in(docs, x) by {
            if accepted_in(front, x) {
                let i = choose|i: int| accepts_in(front, i, x);
                assert(accepts_in(docs, i, x));
            }
            if accepted_in(docs, x) {
                let i = choose|i: int| accepts_in(docs, i, x);
                if i < docs.len() - 1 {
                    assert(accepts_in(front, i, x));
                }
            }
            if accepted(docs.last().lines, docs.last().format, x) {
                assert(accepts_in(docs, docs.len() - 1, x));
            }
        }
    }
}

/// Documents that give the same filters, in whatever order and however often,
/// compile to the same rules and the same number of dropped rules.
pub proof fn law_rules_depend_on_filters_alone(
    first: Seq<DocumentModel>,
    second: Seq<DocumentModel>,
    target: TargetFormat,
    rule_limit: Option<usize>,
)
    requires
        forall|x: FilterModel| accepted_in(first, x) <==> accepted_in(second, x),
    ensures
        compiled(first, target, rule_limit) == compiled(second, target, rule_limit),
{
    lemma_ingest(first);
    lemma_ingest(second);
    lemma_filter_order();
    assert forall|x: FilterModel| ingest(first).contains(x) <==> ingest(second).contains(x) by {
        assert(ingest(first).contains(x) <==> accepted_in(first, x));
        assert(ingest(second).contains(x) <==> accepted_in(second, x));
    }
    lemma_sorted_unique(ingest(first), ingest(second), filter_order());
}

/// Idempotence: a document taken twice compiles to the rules of the document
/// taken once.
pub proof fn law_idempotence(
    document: DocumentModel,
    target: TargetFormat,
    rule_limit: Option<usize>,
)
    ensures
        compiled(seq![document, document], target, rule_limit) == compiled(
            seq![document],
            target,
            rule_limit,
        ),
{
    let twice = seq![document, document];
    let once = seq![document];
    assert forall|x: FilterModel| accepted_in(twice, x) <==> accepted_in(once, x) by {
        if accepted_in(twice, x) {
            let i = choose|i: int| accepts_in(twice, i, x);
            assert(accepts_in(once, 0, x));
        }
        if accepted_in(once, x) {
            let i = choose|i: int| accepts_in(once, i, x);
            assert(accepts_in(twice, 0, x));
        }
    }
    law_rules_depend_on_filters_alone(twice, once, target, rule_limit);
}

/// Order independence: two documents compile to the same rules, in the same
/// order, whichever of them comes first.
pub proof fn law_order_independence(
    first: DocumentModel,
    second: DocumentModel,
    target: TargetFormat,
    rule_limit: Option<usize>,
)
    ensures
        compiled(seq![first, second], target, rule_limit) == compiled(
            seq![second, first],
            target,
            rule_limit,
        ),
{
    let ab = seq![first, second];
    let ba = seq![second, first];
    assert forall|x: FilterModel| accepted_in(ab, x) <==> accepted_in(ba, x) by {
        if accepted_in(ab, x) {
            let i = choose|i: int| accepts_in(ab, i, x);
            assert(accepts_in(ba, 1 - i, x));
        }
        if accepted_in(ba, x) {
            let i = choose|i: int| accepts_in(ba, i, x);
            assert(accepts_in(ab, 1 - i, x));
        }
    }
    law_rules_depend_on_filters_alone(ab, ba, target, rule_limit);
}

/// Merge correctness: two filters that differ in their domain sets alone are
/// optimized into one filter, which applies on a domain exactly if one of
/// the two does.
pub proof fn law_merge_correctness(a: FilterModel, b: FilterModel)
    requires
        valid_filter(a),
        valid_filter(b),
        same_merge_key(a, b),
    ensures
        optimized(seq![a, b]) == seq![merge_scopes(a, b)],
        forall|d: Seq<char>|
            scope_has(merge_scopes(a, b), d) <==> (scope_has(a, d) || scope_has(b, d)),
{
    lemma_merge_scopes(a, b);
    let q = seq![a, b];
    assert(q.drop_last() =~= seq![a]);
    assert(seq![a].drop_last() =~= Seq::<FilterModel>::empty());
    assert(merge_runs(Seq::<FilterModel>::empty()) =~= Seq::<FilterModel>::empty());
    assert(merge_runs(seq![a]) =~= seq![a]);
    let m = merge_scopes(a, b);
    assert(merge_runs(q) =~= seq![m]);
    assert(!is_subsumed(seq![m], 0)) by {
        if is_subsumed(seq![m], 0) {
            let j = choose|j: int| subsumes_at(seq![m], j, 0);
        }
    }
    assert(prune_to(seq![m], 0) =~= Seq::<FilterModel>::empty());
    assert(prune_to(seq![m], 1) =~= seq![m]);
}

/// Absorption: a filter without any limit on its domains absorbs a filter
/// that differs from it in its domain sets alone.
pub proof fn law_absorption(a: FilterModel, b: FilterModel)
    requires
        valid_filter(a),
        valid_filter(b),
        same_merge_key(a, b),
        b.included.len() == 0,
        b.excluded.len() == 0,
    ensures
        merge_scopes(a, b) == b,
        merge_scopes(b, a) == b,
{
    lemma_traits_code(a, b);
    lemma_names_keep(a.excluded, b.excluded, true);
    lemma_names_keep(b.excluded, a.excluded, true);
    lemma_names_keep(b.excluded, a.included, false);
    let x = merge_scopes(a, b);
    let y = merge_scopes(b, a);
    assert(x.excluded.len() == 0) by {
        if x.excluded.len() > 0 {
            assert(x.excluded.contains(x.excluded[0]));
        }
    }
    assert(y.excluded.len() == 0) by {
        if y.excluded.len() > 0 {
            assert(y.excluded.contains(y.excluded[0]));
        }
    }
    assert(x.included =~= b.included);
    assert(x.excluded =~= b.excluded);
    assert(y.included =~= b.included);
    assert(y.excluded =~= b.excluded);
}

/// What the rules of one priority do.
pub open spec fn action_of(class: int) -> ActionKind {
    if class == 2 {
        ActionKind::IgnorePreviousRules
    } else if class == 3 {
        ActionKind::CssDisplayNone
    } else {
        ActionKind::Block
    }
}

/// The rules of one priority all do the same.
pub proof fn lemma_class_action(q: Seq<FilterModel>, class: int)
    requires
        0 <= class <= 3,
    ensures
        forall|k: int|
            0 <= k < class_rules(q, class).len() ==> (#[trigger] class_rules(q, class)[k]).action
                == action_of(class),
    decreases q.len(),
{
    if q.len() > 0 {
        lemma_class_action(q.drop_last(), class);
    }
}

/// How many rules of each priority stay under a ceiling: of the important
/// blocking rules, the blocking rules, the exceptions, and the hiding rules.
pub open spec fn kept(q: Seq<FilterModel>, limit: Option<usize>) -> (int, int, int, int) {
    let k0 = quota(class_rules(q, 0).len() as int, 0, limit);
    let k1 = quota(class_rules(q, 1).len() as int, k0, limit);
    let k2 = quota(class_rules(q, 2).len() as int, k0 + k1, limit);
    let k3 = quota(class_rules(q, 3).len() as int, k0 + k1 + k2, limit);
    (k0, k1, k2, k3)
}

/// Exception ordering: the rules of a compilation come in three parts. First
/// the rules that block or hide, which an exception can override; then the
/// exceptions, each of which ignores the rules before it; then the blocking
/// rules of important filters, which no exception overrides.
pub proof fn law_exception_ordering(q: Seq<FilterModel>, limit: Option<usize>, i: int)
    requires
        0 <= i < emitted(q, limit).0.len(),
    ensures
        emitted(q, limit).0.len() == kept(q, limit).0 + kept(q, limit).1 + kept(q, limit).2 + kept(
            q,
            limit,
        ).3,
        i < kept(q, limit).1 ==> emitted(q, limit).0[i].action == ActionKind::Block,
        kept(q, limit).1 <= i < kept(q, limit).1 + kept(q, limit).3 ==> emitted(q, limit).0[i].action
            == ActionKind::CssDisplayNone,
        kept(q, limit).1 + kept(q, limit).3 <= i < kept(q, limit).1 + kept(q, limit).3 + kept(
            q,
            limit,
        ).2 ==> emitted(q, limit).0[i].action == ActionKind::IgnorePreviousRules,
        kept(q, limit).1 + kept(q, limit).3 + kept(q, limit).2 <= i ==> emitted(q, limit).0[i].action
            == ActionKind::Block,
{
    lemma_class_action(q, 0);
    lemma_class_action(q, 1);
    lemma_class_action(q, 2);
    lemma_class_action(q, 3);
    let r0 = class_rules(q, 0);
    let r1 = class_rules(q, 1);
    let r2 = class_rules(q, 2);
    let r3 = class_rules(q, 3);
    let (k0, k1, k2, k3) = kept(q, limit);
    let rules = emitted(q, limit).0;
    assert(rules == r1.take(k1) + r3.take(k3) + r2.take(k2) + r0.take(k0));
    if i < k1 {
        assert(rules[i] == r1[i]);
    } else if i < k1 + k3 {
        assert(rules[i] == r3[i - k1]);
    } else if i < k1 + k3 + k2 {
        assert(rules[i] == r2[i - k1 - k3]);
    } else {
        assert(rules[i] == r0[i - k1 - k3 - k2]);
    }
}

/// The ceiling holds: no more rules come out than it allows, and the rules
/// that come out and the rules dropped are all the rules there were.
pub proof fn law_ceiling(q: Seq<FilterModel>, limit: Option<usize>)
    ensures
        limit matches Some(l) ==> emitted(q, limit).0.len() <= l,
        limit is None ==> emitted(q, limit).1 == 0,
        emitted(q, limit).1 >= 0,
        emitted(q, limit).0.len() + emitted(q, limit).1 == class_rules(q, 0).len() + class_rules(
            q,
            1,
        ).len() + class_rules(q, 2).len() + class_rules(q, 3).len(),
{
}

/// The merge invariant: optimizing a canonical set of valid filters changes
/// nothing in what is matched. Among the filters that match the same URLs
/// with the same effect, one of the optimized set applies on a domain to a
/// resource type exactly if one of the set did.
pub proof fn law_optimizer_keeps_matches(
    q: Seq<FilterModel>,
    like: FilterModel,
    d: Seq<char>,
    t: ResourceType,
)
    requires
        filters_sorted(q),
        all_valid(q),
    ensures
        some_applies(optimized(q), like, d, t) <==> some_applies(q, like, d, t),
{
    lemma_merge_runs_applies(q, like, d, t);
    lemma_merge_runs_keys(q);
    lemma_prune_applies(merge_runs(q), like, d, t);
}

/// The optimized set of a canonical set holds one filter for each merge key,
/// and its filters stand in the fingerprint order: that order decides among
/// the rules of one priority which come first and which stay under a ceiling.
pub proof fn law_optimized_order(q: Seq<FilterModel>)
    requires
        filters_sorted(q),
    ensures
        keys_increasing(optimized(q)),
        filters_sorted(optimized(q)),
{
    lemma_merge_runs_keys(q);
    lemma_prune_to(merge_runs(q), merge_runs(q).len() as int);
    let r = optimized(q);
    assert forall|i: int, j: int| 0 <= i < j < r.len() implies #[trigger] filter_order()(
        r[i],
        r[j],
    ) by {
        lemma_key_lt(r[i], r[j]);
    }
}

/// Adding a filter that the set holds is a no-op, and the order in which two
/// filters are added does not show in the set.
pub proof fn law_add(q: Seq<FilterModel>, x: FilterModel, y: FilterModel)
    requires
        filters_sorted(q),
    ensures
        filters_insert(filters_insert(q, x), x) == filters_insert(q, x),
        filters_insert(filters_insert(q, x), y) == filters_insert(filters_insert(q, y), x),
{
    lemma_filter_order();
    let lt = filter_order();
    lemma_insert_sorted(q, x, lt);
    lemma_insert_sorted(q, y, lt);
    let qx = filters_insert(q, x);
    let qy = filters_insert(q, y);
    lemma_insert_sorted(qx, x, lt);
    lemma_insert_sorted(qx, y, lt);
    lemma_insert_sorted(qy, x, lt);
    assert(qx.contains(x));
    let a = filters_insert(qx, y);
    let b = filters_insert(qy, x);
    assert forall|z: FilterModel| a.contains(z) <==> b.contains(z) by {
        assert(a.contains(z) <==> (qx.contains(z) || z == y));
        assert(b.contains(z) <==> (qy.contains(z) || z == x));
        assert(qx.contains(z) <==> (q.contains(z) || z == x));
        assert(qy.contains(z) <==> (q.contains(z) || z == y));
    }
    lemma_sorted_unique(a, b, lt);
}

/// Merging is commutative: two valid filters have the same merged scope in
/// either order.
pub proof fn law_merge_commutes(a: FilterModel, b: FilterModel)
    requires
        valid_filter(a),
        valid_filter(b),
    ensures
        merged_scope(a, b) == merged_scope(b, a),
{
    lemma_text_order();
    lemma_names_union(a.included, b.included);
    lemma_names_union(b.included, a.included);
    lemma_names_keep(a.excluded, b.excluded, true);
    lemma_names_keep(b.excluded, a.excluded, true);
    if a.included.len() > 0 && b.included.len() > 0 {
        lemma_sorted_unique(
            names_union(a.included, b.included),
            names_union(b.included, a.included),
            text_order(),
        );
    }
    if (a.included.len() > 0) == (b.included.len() > 0) {
        lemma_sorted_unique(
            names_common(a.excluded, b.excluded),
            names_common(b.excluded, a.excluded),
            text_order(),
        );
    }
}

/// What the lemmas on unions and on kept names say of the merged scope of two
/// valid filters.
proof fn lemma_merged_members(a: FilterModel, b: FilterModel)
    requires
        valid_filter(a),
        valid_filter(b),
    ensures
        valid_filter(merge_scopes(a, b)),
        merged_scope(a, b).0.len() > 0 <==> (a.included.len() > 0 && b.included.len() > 0),
        forall|x: Seq<char>|
            #![trigger merged_scope(a, b).0.contains(x)]
            merged_scope(a, b).0.contains(x) <==> (a.included.len() > 0 && b.included.len() > 0
                && (a.included.contains(x) || b.included.contains(x))),
        forall|x: Seq<char>|
            #![trigger merged_scope(a, b).1.contains(x)]
            merged_scope(a, b).1.contains(x) <==> (if (a.included.len() > 0) == (b.included.len()
                > 0) {
                a.excluded.contains(x) && b.excluded.contains(x)
            } else if a.included.len() == 0 {
                a.excluded.contains(x) && !b.included.contains(x)
            } else {
                b.excluded.contains(x) && !a.included.contains(x)
            }),
{
    lemma_merge_scopes(a, b);
    lemma_names_union(a.included, b.included);
    lemma_names_keep(a.excluded, b.excluded, true);
    lemma_names_keep(a.excluded, b.included, false);
    lemma_names_keep(b.excluded, a.included, false);
    let m = merged_scope(a, b);
    if a.included.len() > 0 && b.included.len() > 0 {
        assert(a.included.contains(a.included[0]));
        assert(m.0.contains(a.included[0]));
    }
}

/// Merging is associative: three valid filters have the same merged scope
/// however they are paired.
pub proof fn law_merge_associates(a: FilterModel, b: FilterModel, c: FilterModel)
    requires
        valid_filter(a),
        valid_filter(b),
        valid_filter(c),
    ensures
        merged_scope(merge_scopes(a, b), c) == merged_scope(a, merge_scopes(b, c)),
{
    let l = merge_scopes(a, b);
    let r = merge_scopes(b, c);
    lemma_merged_members(a, b);
    lemma_merged_members(b, c);
    lemma_merged_members(l, c);
    lemma_merged_members(a, r);
    lemma_text_order();
    let x = merged_scope(l, c);
    let y = merged_scope(a, r);
    assert forall|n: Seq<char>| x.0.contains(n) <==> y.0.contains(n) by {
        assert(l.included == merged_scope(a, b).0);
        assert(r.included == merged_scope(b, c).0);
    }
    assert forall|n: Seq<char>| x.1.contains(n) <==> y.1.contains(n) by {
        assert(l.included == merged_scope(a, b).0);
        assert(r.included == merged_scope(b, c).0);
        assert(l.excluded == merged_scope(a, b).1);
        assert(r.excluded == merged_scope(b, c).1);
    }
    assert(names_sorted(x.0) && names_sorted(x.1)) by {
        assert(valid_filter(merge_scopes(l, c)));
    }
    assert(names_sorted(y.0) && names_sorted(y.1)) by {
        assert(valid_filter(merge_scopes(a, r)));
    }
    lemma_sorted_unique(x.0, y.0, text_order());
    lemma_sorted_unique(x.1, y.1, text_order());
}

/// Determinism: two compilations of the same documents for the same target
/// under the same ceiling give the same rules in the same order, drop the
/// same number of rules, and report the same diagnostics.
pub proof fn law_determinism(
    first: CompileResult,
    second: CompileResult,
    docs: Seq<DocumentModel>,
    target: TargetFormat,
    rule_limit: Option<usize>,
)
    requires
        is_result_of(first, docs, target, rule_limit),
        is_result_of(second, docs, target, rule_limit),
    ensures
        rule_models(first.rules@) == rule_models(second.rules@),
        first.dropped_count == second.dropped_count,
        diagnostic_models(first.diagnostics@) == diagnostic_models(second.diagnostics@),
{
}

} // verus!
