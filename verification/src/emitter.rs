//! The rule emitter: one content-blocking rule for each filter, in an order
//! in which exceptions follow what they override, under a ceiling on the
//! number of rules.

use crate::domains::DomainSet;
use crate::filter::Filter;
use crate::filter_set::models;
use crate::model::{FilterKind, FilterModel, ResourceType};
use crate::optimizer::OptimizedFilterSet;
use crate::text::copy_text;
use vstd::prelude::*;

verus! {

/// What a rule does where its trigger matches.
#[derive(Clone, Copy, Debug, PartialEq, Eq, Structural)]
pub enum ActionKind {
    Block,
    CssDisplayNone,
    IgnorePreviousRules,
}

/// The loads that a trigger is limited to.
#[derive(Clone, Copy, Debug, PartialEq, Eq, Structural)]
pub enum LoadType {
    FirstParty,
    ThirdParty,
}

/// When a rule applies.
#[derive(Debug)]
pub struct Trigger {
    /// The pattern that the URL must match, in the syntax of the target.
    pub url_filter: Vec<char>,
    pub if_domain: Option<Vec<Vec<char>>>,
    pub unless_domain: Option<Vec<Vec<char>>>,
    pub resource_type: Option<Vec<ResourceType>>,
    pub load_type: Option<LoadType>,
}

/// What a rule does.
#[derive(Debug)]
pub struct Action {
    pub kind: ActionKind,
    pub selector: Option<Vec<char>>,
}

/// A rule of the target engine.
#[derive(Debug)]
pub struct ContentBlockingRule {
    pub trigger: Trigger,
    pub action: Action,
}

/// A rule as a mathematical value.
pub struct RuleModel {
    pub url_filter: Seq<char>,
    pub if_domain: Option<Seq<Seq<char>>>,
    pub unless_domain: Option<Seq<Seq<char>>>,
    pub resource_type: Option<Seq<ResourceType>>,
    pub load_type: Option<LoadType>,
    pub action: ActionKind,
    pub selector: Option<Seq<char>>,
}

/// The views of an optional list of names.
pub open spec fn names_view(v: Option<Vec<Vec<char>>>) -> Option<Seq<Seq<char>>> {
    match v {
        Some(names) => Some(crate::text::texts(names@)),
        None => None,
    }
}

impl View for ContentBlockingRule {
    type V = RuleModel;

    open spec fn view(&self) -> RuleModel {
        RuleModel {
            url_filter: self.trigger.url_filter@,
            if_domain: names_view(self.trigger.if_domain),
            unless_domain: names_view(self.trigger.unless_domain),
            resource_type: match self.trigger.resource_type {
                Some(types) => Some(types@),
                None => None,
            },
            load_type: self.trigger.load_type,
            action: self.action.kind,
            selector: match self.action.selector {
                Some(s) => Some(s@),
                None => None,
            },
        }
    }
}

/// The models of a list of rules.
pub open spec fn rule_models(v: Seq<ContentBlockingRule>) -> Seq<RuleModel> {
    Seq::new(v.len(), |i: int| v[i]@)
}

/// The resource type at a position of a mask.
pub open spec fn type_at(i: int) -> ResourceType {
    if i == 0 {
        ResourceType::Script
    } else if i == 1 {
        ResourceType::Image
    } else if i == 2 {
        ResourceType::Stylesheet
    } else if i == 3 {
        ResourceType::Document
    } else if i == 4 {
        ResourceType::Subdocument
    } else if i == 5 {
        ResourceType::XmlHttpRequest
    } else if i == 6 {
        ResourceType::Font
    } else if i == 7 {
        ResourceType::Media
    } else if i == 8 {
        ResourceType::Object
    } else if i == 9 {
        ResourceType::Websocket
    } else if i == 10 {
        ResourceType::Ping
    } else {
        ResourceType::Other
    }
}

/// The resource types of a mask among the first `n`, in their order.
pub open spec fn types_upto(mask: u16, n: int) -> Seq<ResourceType>
    decreases n,
{
    if n <= 0 {
        Seq::empty()
    } else if mask & (1u16 << ((n - 1) as u16)) != 0 {
        types_upto(mask, n - 1).push(type_at(n - 1))
    } else {
        types_upto(mask, n - 1)
    }
}

/// The resource types of a mask, in their order.
pub open spec fn types_list(mask: u16) -> Seq<ResourceType> {
    types_upto(mask, 12)
}

/// The pattern of a network filter with its anchors, as a filter list
/// writes it.
pub open spec fn anchored_pattern(m: FilterModel) -> Seq<char> {
    let front = if m.anchors.domain {
        seq!['|', '|']
    } else if m.anchors.start {
        seq!['|']
    } else {
        Seq::empty()
    };
    let back = if m.anchors.end {
        seq!['|']
    } else {
        Seq::empty()
    };
    front + m.text + back
}

/// The URL pattern, in the syntax of content-blocking triggers, that the
/// `adblock` crate gives for a network filter written as `line`, without
/// options; `None` where it has none.
pub uninterp spec fn url_filter_of(line: Seq<char>) -> Option<Seq<char>>;

/// The pattern that matches every URL.
pub open spec fn any_url() -> Seq<char> {
    seq!['.', '*']
}

/// The URL pattern of the rule for a filter, where the target can express
/// the filter: every URL for a cosmetic filter; for a network filter what
/// `url_filter_of` gives for its anchored pattern, unless that holds a `$` or
/// the filter asks for case to matter.
pub open spec fn translation(m: FilterModel) -> Option<Seq<char>> {
    if m.kind == FilterKind::Cosmetic {
        Some(any_url())
    } else if m.match_case || anchored_pattern(m).contains('$') {
        None
    } else {
        url_filter_of(anchored_pattern(m))
    }
}

/// The rule for a filter, given the URL pattern of its trigger: the domain
/// sets and the resource types are left out where they do not restrict.
pub open spec fn rule_of(m: FilterModel, url_filter: Seq<char>) -> RuleModel {
    RuleModel {
        url_filter,
        if_domain: if m.included.len() > 0 {
            Some(m.included)
        } else {
            None
        },
        unless_domain: if m.excluded.len() > 0 {
            Some(m.excluded)
        } else {
            None
        },
        resource_type: if m.types != 0 {
            Some(types_list(m.types))
        } else {
            None
        },
        load_type: match m.third_party {
            Some(true) => Some(LoadType::ThirdParty),
            Some(false) => Some(LoadType::FirstParty),
            None => None,
        },
        action: if m.is_exception {
            ActionKind::IgnorePreviousRules
        } else if m.kind == FilterKind::Cosmetic {
            ActionKind::CssDisplayNone
        } else {
            ActionKind::Block
        },
        selector: if m.kind == FilterKind::Cosmetic && !m.is_exception {
            Some(m.text)
        } else {
            None
        },
    }
}

/// The rank of a filter when rules have to go, the lowest number staying
/// longest: important network filters (0), network filters (1), exceptions
/// (2), cosmetic filters (3).
pub open spec fn priority(m: FilterModel) -> int {
    if m.is_exception {
        2
    } else if m.kind == FilterKind::Cosmetic {
        3
    } else if m.important {
        0
    } else {
        1
    }
}

/// The rules of the filters of one priority that the target can express, in
/// the order of the filters.
pub open spec fn class_rules(q: Seq<FilterModel>, class: int) -> Seq<RuleModel>
    decreases q.len(),
{
    if q.len() == 0 {
        Seq::empty()
    } else {
        let p = class_rules(q.drop_last(), class);
        let m = q.last();
        if priority(m) == class && translation(m) is Some {
            p.push(rule_of(m, translation(m)->0))
        } else {
            p
        }
    }
}

/// The lesser of two numbers.
pub open spec fn min_int(a: int, b: int) -> int {
    if a < b {
        a
    } else {
        b
    }
}

/// How many rules of a priority stay: all, or what the ceiling leaves once
/// `before` rules of higher priority stay.
pub open spec fn quota(count: int, before: int, limit: Option<usize>) -> int {
    match limit {
        None => count,
        Some(l) => if l <= before {
            0
        } else {
            min_int(count, l - before)
        },
    }
}

/// The rules that stay of those of the four priorities, and how many were
/// dropped. The rules of a higher priority stay before any of a lower one,
/// and of one priority the first stay. What stays is put out in this order:
/// the blocking rules, then the rules that hide elements, then the
/// exceptions, then the important blocking rules. So an exception follows
/// what it overrides, and overrides no important rule.
pub open spec fn assembled(
    r0: Seq<RuleModel>,
    r1: Seq<RuleModel>,
    r2: Seq<RuleModel>,
    r3: Seq<RuleModel>,
    limit: Option<usize>,
) -> (Seq<RuleModel>, int) {
    let k0 = quota(r0.len() as int, 0, limit);
    let k1 = quota(r1.len() as int, k0, limit);
    let k2 = quota(r2.len() as int, k0 + k1, limit);
    let k3 = quota(r3.len() as int, k0 + k1 + k2, limit);
    (
        r1.take(k1) + r3.take(k3) + r2.take(k2) + r0.take(k0),
        r0.len() + r1.len() + r2.len() + r3.len() - (k0 + k1 + k2 + k3),
    )
}

/// The rules for a list of filters under a ceiling, and how many rules the
/// ceiling dropped.
pub open spec fn emitted(q: Seq<FilterModel>, limit: Option<usize>) -> (Seq<RuleModel>, int) {
    assembled(class_rules(q, 0), class_rules(q, 1), class_rules(q, 2), class_rules(q, 3), limit)
}

/// The rules of a compilation and the number of rules that the ceiling dropped.
pub struct Emitted {
    pub rules: Vec<ContentBlockingRule>,
    pub dropped_count: usize,
}

/// Calls `NetworkFilter::parse` of the `adblock` crate on the line, in debug
/// mode and with the default options, converts the filter with
/// `CbRuleEquivalent::try_from`, and hands back the `url_filter` of the first
/// rule. The contract claims that what comes back depends on the characters
/// of the line alone, and gives that value the name `url_filter_of`; a line
/// with a `$` is left out, since the crate then reads options from it.
#[verifier::external_body]
fn adblock_url_filter(line: &Vec<char>) -> (r: Option<Vec<char>>)
    requires
        !line@.contains('$'),
    ensures
        match r {
            Some(u) => url_filter_of(line@) == Some(u@),
            None => url_filter_of(line@) is None,
        },
{
    let text: String = line.iter().collect();
    let options = adblock::lists::ParseOptions::default();
    let filter = adblock::filters::network::NetworkFilter::parse(&text, true, options).ok()?;
    let rules = adblock::content_blocking::CbRuleEquivalent::try_from(filter).ok()?;
    rules.into_iter().next().map(|rule| rule.trigger.url_filter.chars().collect())
}

/// The names of a set as a list, or nothing for the empty set.
fn names_of(set: &DomainSet) -> (r: Option<Vec<Vec<char>>>)
    ensures
        names_view(r) == if set@.len() > 0 {
            Some(set@)
        } else {
            None::<Seq<Seq<char>>>
        },
{
    if set.is_empty() {
        return None;
    }
    let mut names: Vec<Vec<char>> = Vec::new();
    let mut i: usize = 0;
    while i < set.len()
        invariant
            i <= set@.len(),
            names@.len() == i,
            forall|j: int| 0 <= j < i ==> names@[j]@ == set@[j],
        decreases set@.len() - i,
    {
        names.push(copy_text(set.name(i)));
        i += 1;
    }
    assert(crate::text::texts(names@) =~= set@);
    Some(names)
}

/// The resource type at a position of a mask.
fn type_at_index(i: u16) -> (r: ResourceType)
    requires
        i < 12,
    ensures
        r == type_at(i as int),
{
    if i == 0 {
        ResourceType::Script
    } else if i == 1 {
        ResourceType::Image
    } else if i == 2 {
        ResourceType::Stylesheet
    } else if i == 3 {
        ResourceType::Document
    } else if i == 4 {
        ResourceType::Subdocument
    } else if i == 5 {
        ResourceType::XmlHttpRequest
    } else if i == 6 {
        ResourceType::Font
    } else if i == 7 {
        ResourceType::Media
    } else if i == 8 {
        ResourceType::Object
    } else if i == 9 {
        ResourceType::Websocket
    } else if i == 10 {
        ResourceType::Ping
    } else {
        ResourceType::Other
    }
}

/// The resource types of a mask, in their order.
pub fn types_of_mask(mask: u16) -> (r: Vec<ResourceType>)
    ensures
        r@ == types_list(mask),
{
    let mut r: Vec<ResourceType> = Vec::new();
    let mut i: u16 = 0;
    while i < 12
        invariant
            i <= 12,
            r@ == types_upto(mask, i as int),
        decreases 12 - i,
    {
        if mask & (1u16 << i) != 0 {
            r.push(type_at_index(i));
        }
        i += 1;
    }
    r
}

/// The pattern of a network filter with its anchors.
pub fn anchored_text(filter: &Filter) -> (r: Vec<char>)
    ensures
        r@ == anchored_pattern(filter@),
{
    let anchors = filter.anchors();
    let text = filter.text();
    let mut r: Vec<char> = Vec::new();
    if anchors.domain {
        r.push('|');
        r.push('|');
    } else if anchors.start {
        r.push('|');
    }
    let ghost front = r@;
    let mut i: usize = 0;
    while i < text.len()
        invariant
            i <= text.len(),
            r@ == front + text@.take(i as int),
        decreases text.len() - i,
    {
        r.push(text[i]);
        assert(text@.take(i + 1) =~= text@.take(i as int).push(text@[i as int]));
        assert(front + text@.take(i + 1) =~= (front + text@.take(i as int)).push(text@[i as int]));
        i += 1;
    }
    assert(text@.take(i as int) =~= text@);
    if anchors.end {
        r.push('|');
        assert(r@ =~= front + text@ + seq!['|']);
    } else {
        assert(r@ =~= front + text@ + Seq::<char>::empty());
    }
    assert(front =~= if anchors.domain {
        seq!['|', '|']
    } else if anchors.start {
        seq!['|']
    } else {
        Seq::<char>::empty()
    });
    r
}

/// Whether the text holds the character.
fn holds_char(s: &Vec<char>, c: char) -> (r: bool)
    ensures
        r == s@.contains(c),
{
    let mut i: usize = 0;
    while i < s.len()
        invariant
            i <= s.len(),
            forall|j: int| 0 <= j < i ==> s@[j] != c,
        decreases s.len() - i,
    {
        if s[i] == c {
            return true;
        }
        i += 1;
    }
    false
}

/// The URL pattern of the rule for a filter, where the target can express
/// the filter.
pub fn translate(filter: &Filter) -> (r: Option<Vec<char>>)
    ensures
        match r {
            Some(u) => translation(filter@) == Some(u@),
            None => translation(filter@) is None,
        },
{
    match filter.kind() {
        FilterKind::Cosmetic => {
            let mut u: Vec<char> = Vec::new();
            u.push('.');
            u.push('*');
            assert(u@ =~= any_url());
            Some(u)
        },
        FilterKind::Network => {
            if filter.match_case() {
                return None;
            }
            let line = anchored_text(filter);
            if holds_char(&line, '$') {
                return None;
            }
            adblock_url_filter(&line)
        },
    }
}

/// The rule for a filter, given the URL pattern of its trigger.
pub fn rule_for(filter: &Filter, url_filter: Vec<char>) -> (r: ContentBlockingRule)
    ensures
        r@ == rule_of(filter@, url_filter@),
{
    let kind = filter.kind();
    let is_exception = filter.is_exception();
    let types = filter.types();
    let trigger = Trigger {
        url_filter,
        if_domain: names_of(filter.included()),
        unless_domain: names_of(filter.excluded()),
        resource_type: if types != 0 {
            Some(types_of_mask(types))
        } else {
            None
        },
        load_type: match filter.third_party() {
            Some(true) => Some(LoadType::ThirdParty),
            Some(false) => Some(LoadType::FirstParty),
            None => None,
        },
    };
    let cosmetic = match kind {
        FilterKind::Cosmetic => true,
        FilterKind::Network => false,
    };
    let action = Action {
        kind: if is_exception {
            ActionKind::IgnorePreviousRules
        } else if cosmetic {
            ActionKind::CssDisplayNone
        } else {
            ActionKind::Block
        },
        selector: if cosmetic && !is_exception {
            Some(copy_text(filter.text()))
        } else {
            None
        },
    };
    ContentBlockingRule { trigger, action }
}

/// The rank of a filter when rules have to go.
pub fn priority_of(filter: &Filter) -> (r: u8)
    ensures
        r == priority(filter@),
{
    if filter.is_exception() {
        2
    } else {
        match filter.kind() {
            FilterKind::Cosmetic => 3,
            FilterKind::Network => if filter.is_important() {
                0
            } else {
                1
            },
        }
    }
}

/// How many rules of a priority stay.
fn quota_of(count: usize, before: usize, limit: Option<usize>) -> (k: usize)
    ensures
        k == quota(count as int, before as int, limit),
        k <= count,
        limit matches Some(l) ==> before <= l ==> before + k <= l,
{
    match limit {
        None => count,
        Some(l) => {
            if before >= l {
                0
            } else if count < l - before {
                count
            } else {
                l - before
            }
        },
    }
}

/// Puts the rules of the four priorities together under the ceiling: takes
/// from each priority in turn what the ceiling leaves, and puts out the
/// blocking rules, then the rules that hide elements, then the exceptions,
/// then the important blocking rules.
pub fn assemble(
    important: Vec<ContentBlockingRule>,
    blocking: Vec<ContentBlockingRule>,
    exceptions: Vec<ContentBlockingRule>,
    cosmetic: Vec<ContentBlockingRule>,
    limit: Option<usize>,
) -> (r: Emitted)
    requires
        important@.len() + blocking@.len() + exceptions@.len() + cosmetic@.len() <= usize::MAX,
    ensures
        rule_models(r.rules@) == assembled(
            rule_models(important@),
            rule_models(blocking@),
            rule_models(exceptions@),
            rule_models(cosmetic@),
            limit,
        ).0,
        r.dropped_count == assembled(
            rule_models(important@),
            rule_models(blocking@),
            rule_models(exceptions@),
            rule_models(cosmetic@),
            limit,
        ).1,
{
    let mut r0 = important;
    let mut r1 = blocking;
    let mut r2 = exceptions;
    let mut r3 = cosmetic;
    let ghost m0 = rule_models(r0@);
    let ghost m1 = rule_models(r1@);
    let ghost m2 = rule_models(r2@);
    let ghost m3 = rule_models(r3@);
    let total = r0.len() + r1.len() + r2.len() + r3.len();
    let k0 = quota_of(r0.len(), 0, limit);
    let k1 = quota_of(r1.len(), k0, limit);
    let k2 = quota_of(r2.len(), k0 + k1, limit);
    let k3 = quota_of(r3.len(), k0 + k1 + k2, limit);
    r0.truncate(k0);
    r1.truncate(k1);
    r2.truncate(k2);
    r3.truncate(k3);
    assert(rule_models(r0@) =~= m0.take(k0 as int));
    assert(rule_models(r1@) =~= m1.take(k1 as int));
    assert(rule_models(r2@) =~= m2.take(k2 as int));
    assert(rule_models(r3@) =~= m3.take(k3 as int));
    let mut rules = r1;
    rules.append(&mut r3);
    rules.append(&mut r2);
    rules.append(&mut r0);
    assert(rule_models(rules@) =~= m1.take(k1 as int) + m3.take(k3 as int) + m2.take(k2 as int)
        + m0.take(k0 as int));
    Emitted { rules, dropped_count: total - (k0 + k1 + k2 + k3) }
}

/// Emits the rules for an optimized set of filters under a ceiling. A filter
/// that the target cannot express gives no rule.
pub fn emit(set: &OptimizedFilterSet, limit: Option<usize>) -> (r: Emitted)
    ensures
        rule_models(r.rules@) == emitted(set@, limit).0,
        r.dropped_count == emitted(set@, limit).1,
{
    let mut r0: Vec<ContentBlockingRule> = Vec::new();
    let mut r1: Vec<ContentBlockingRule> = Vec::new();
    let mut r2: Vec<ContentBlockingRule> = Vec::new();
    let mut r3: Vec<ContentBlockingRule> = Vec::new();
    let ghost q = set@;
    let mut i: usize = 0;
    assert(q.take(0) =~= Seq::<FilterModel>::empty());
    assert(rule_models(r0@) =~= class_rules(q.take(0), 0));
    assert(rule_models(r1@) =~= class_rules(q.take(0), 1));
    assert(rule_models(r2@) =~= class_rules(q.take(0), 2));
    assert(rule_models(r3@) =~= class_rules(q.take(0), 3));
    while i < set.len()
        invariant
            i <= set@.len(),
            q == set@,
            r0@.len() + r1@.len() + r2@.len() + r3@.len() <= i,
            rule_models(r0@) == class_rules(q.take(i as int), 0),
            rule_models(r1@) == class_rules(q.take(i as int), 1),
            rule_models(r2@) == class_rules(q.take(i as int), 2),
            rule_models(r3@) == class_rules(q.take(i as int), 3),
        decreases set@.len() - i,
    {
        let filter = set.get(i);
        assert(q.take(i + 1).drop_last() =~= q.take(i as int));
        assert(q.take(i + 1).last() == q[i as int]);
        let class = priority_of(filter);
        match translate(filter) {
            None => {},
            Some(url_filter) => {
                let rule = rule_for(filter, url_filter);
                if class == 0 {
                    let ghost before = rule_models(r0@);
                    r0.push(rule);
                    assert(rule_models(r0@) =~= before.push(rule@));
                } else if class == 1 {
                    let ghost before = rule_models(r1@);
                    r1.push(rule);
                    assert(rule_models(r1@) =~= before.push(rule@));
                } else if class == 2 {
                    let ghost before = rule_models(r2@);
                    r2.push(rule);
                    assert(rule_models(r2@) =~= before.push(rule@));
                } else {
                    let ghost before = rule_models(r3@);
                    r3.push(rule);
                    assert(rule_models(r3@) =~= before.push(rule@));
                }
            },
        }
        i += 1;
    }
    assert(q.take(i as int) =~= q);
    assemble(r0, r1, r2, r3, limit)
}

} // verus!
