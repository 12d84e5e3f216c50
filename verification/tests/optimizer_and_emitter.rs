use easylist_parser::domains::DomainSet;
use easylist_parser::emitter::{
    anchored_text, assemble, emit, priority_of, rule_for, translate, types_of_mask, Action,
    ActionKind, ContentBlockingRule, LoadType, Trigger,
};
use easylist_parser::filter::{CosmeticFilter, Filter, NetworkFilter, NetworkOptions};
use easylist_parser::filter_set::FilterSet;
use easylist_parser::model::{Anchors, FilterKind, ResourceType};
use easylist_parser::optimizer::{filter_covers, merge_filters, optimize};
use easylist_parser::parse::{parse_line, ParsedLine};
use easylist_parser::text::Rank;

fn t(s: &str) -> Vec<char> {
    s.chars().collect()
}

fn text(v: &Vec<char>) -> String {
    v.iter().collect()
}

fn names(set: &DomainSet) -> Vec<String> {
    (0..set.len()).map(|i| text(set.name(i))).collect()
}

fn list(v: &Option<Vec<Vec<char>>>) -> Option<Vec<String>> {
    v.as_ref().map(|l| l.iter().map(text).collect())
}

fn filter(line: &str) -> Filter {
    match parse_line(line) {
        ParsedLine::Network(p) => Filter::Network(p.filter),
        ParsedLine::Cosmetic(p) => Filter::Cosmetic(p.filter),
        _ => panic!("no filter"),
    }
}

fn set_of(lines: &[&str]) -> FilterSet {
    let mut set = FilterSet::new();
    for line in lines {
        set.add(filter(line));
    }
    set
}

fn rule(pattern: &str) -> ContentBlockingRule {
    ContentBlockingRule {
        trigger: Trigger {
            url_filter: t(pattern),
            if_domain: None,
            unless_domain: None,
            resource_type: None,
            load_type: None,
        },
        action: Action { kind: ActionKind::Block, selector: None },
    }
}

fn patterns(rules: &Vec<ContentBlockingRule>) -> Vec<String> {
    rules.iter().map(|r| text(&r.trigger.url_filter)).collect()
}

#[test]
fn constructor_checks_the_invariant() {
    let none = Anchors { start: false, end: false, domain: false };
    assert!(NetworkFilter::new(t("ad"), false, none, NetworkOptions::new()).is_some());
    assert!(NetworkFilter::new(t(""), false, none, NetworkOptions::new()).is_none());
    let both = Anchors { start: true, end: false, domain: true };
    assert!(NetworkFilter::new(t("ad"), false, both, NetworkOptions::new()).is_none());
    let domain = Anchors { start: false, end: false, domain: true };
    assert!(NetworkFilter::new(t("/ad"), false, domain, NetworkOptions::new()).is_none());
    let mut regex = NetworkOptions::new();
    regex.raw_is_regex = true;
    assert!(NetworkFilter::new(t("/a/"), false, domain, regex).is_none());
    let mut wide = NetworkOptions::new();
    wide.resource_types = 0x1000;
    assert!(NetworkFilter::new(t("ad"), false, none, wide).is_none());
    let mut clash = NetworkOptions::new();
    clash.domains_included.insert(t("a.example"));
    clash.domains_excluded.insert(t("a.example"));
    assert!(NetworkFilter::new(t("ad"), false, none, clash).is_none());
    let mut empty = DomainSet::new();
    empty.insert(t(""));
    assert!(CosmeticFilter::new(t(".ad"), empty, DomainSet::new(), false).is_none());
    assert!(CosmeticFilter::new(t(""), DomainSet::new(), DomainSet::new(), false).is_none());
    assert!(CosmeticFilter::new(t(".ad"), DomainSet::new(), DomainSet::new(), true).is_some());
}

#[test]
fn filters_are_ordered_by_fingerprint() {
    assert_eq!(filter("a").rank(&filter("b")), Rank::Before);
    assert_eq!(filter("b").rank(&filter("a")), Rank::After);
    assert_eq!(filter("a").rank(&filter("a")), Rank::Same);
    assert_eq!(filter("a").rank(&filter("@@a")), Rank::Before);
    assert_eq!(filter("a$script").rank(&filter("a$image")), Rank::Before);
    assert_eq!(filter("a$domain=x").rank(&filter("a$domain=y")), Rank::Before);
    assert_eq!(filter("a$domain=x|y").rank(&filter("a$domain=y|x")), Rank::Same);
    assert_eq!(filter("a").rank(&filter("a$domain=~y")), Rank::Before);
    assert_eq!(filter("ad").kind(), FilterKind::Network);
    assert_eq!(filter("##ad").kind(), FilterKind::Cosmetic);
    assert_eq!(filter("ad").rank(&filter("##ad")), Rank::Before);
    assert!(filter("a$domain=x").same_merge_key(&filter("a$domain=y")));
    assert!(!filter("a$script").same_merge_key(&filter("a$image")));
    assert!(filter("a$script").same_match(&filter("a$image")));
    assert!(!filter("a").same_match(&filter("@@a")));
}

#[test]
fn set_discards_duplicates_and_keeps_order() {
    let mut set = FilterSet::new();
    assert!(set.add(filter("c")));
    assert!(set.add(filter("a")));
    assert!(!set.add(filter("c")));
    assert!(set.add(filter("b$domain=y")));
    assert!(set.add(filter("b$domain=x")));
    assert!(!set.add(filter("  a  ")));
    assert_eq!(set.len(), 4);
    assert!(set.contains(&filter("a")));
    assert!(!set.contains(&filter("d")));
    let order: Vec<String> = (0..set.len()).map(|i| text(set.get(i).text())).collect();
    assert_eq!(order, vec!["a", "b", "b", "c"]);
    assert_eq!(names(set.get(1).included()), vec!["x"]);
}

#[test]
fn frozen_set_lists_its_merge_groups() {
    let frozen =
        set_of(&["a$domain=x", "a$domain=y", "a$script", "b", "##.c", "d.example##.c"]).finalize();
    assert_eq!(frozen.len(), 6);
    assert_eq!(frozen.group_count(), 4);
    let starts: Vec<usize> = (0..4).map(|g| frozen.group_start(g)).collect();
    assert_eq!(starts, vec![0, 2, 4, 5]);
    assert_eq!(text(frozen.get(0).text()), ".c");
    let empty = FilterSet::new().finalize();
    assert_eq!(empty.group_count(), 0);
}

#[test]
fn merge_unites_limited_scopes() {
    let m = merge_filters(&filter("a$domain=x|~p|~q"), &filter("a$domain=y|~q|~r"));
    assert_eq!(names(m.included()), vec!["x", "y"]);
    assert_eq!(names(m.excluded()), vec!["q"]);
}

#[test]
fn merge_lets_unlimited_scope_absorb() {
    let m = merge_filters(&filter("a$domain=x"), &filter("a"));
    assert!(m.included().is_empty());
    assert!(m.excluded().is_empty());
    let m = merge_filters(&filter("a$domain=~p|~q"), &filter("a$domain=~q|~r"));
    assert!(m.included().is_empty());
    assert_eq!(names(m.excluded()), vec!["q"]);
}

#[test]
fn merge_keeps_exclusions_that_no_filter_lifts() {
    let m = merge_filters(&filter("a$domain=~x|~y"), &filter("a$domain=x"));
    assert!(m.included().is_empty());
    assert_eq!(names(m.excluded()), vec!["y"]);
    let m = merge_filters(&filter("a$domain=x"), &filter("a$domain=~x|~y"));
    assert!(m.included().is_empty());
    assert_eq!(names(m.excluded()), vec!["y"]);
}

#[test]
fn optimizer_merges_each_group() {
    let best = optimize(
        &set_of(&["a$domain=x", "a$domain=y", "a$domain=z", "b$domain=x", "##.c", "y##.c"])
            .finalize(),
    );
    assert_eq!(best.len(), 3);
    assert_eq!(text(best.get(0).text()), ".c");
    assert!(best.get(0).included().is_empty());
    assert_eq!(text(best.get(1).text()), "a");
    assert_eq!(names(best.get(1).included()), vec!["x", "y", "z"]);
    assert_eq!(names(best.get(2).included()), vec!["x"]);
}

#[test]
fn optimizer_drops_covered_filters() {
    let best = optimize(&set_of(&["a$script,domain=x", "a$domain=x|y", "a$image"]).finalize());
    assert_eq!(best.len(), 2);
    assert_eq!(best.get(0).types(), 0);
    assert_eq!(names(best.get(0).included()), vec!["x", "y"]);
    assert_eq!(best.get(1).types(), 2);
    let best = optimize(&set_of(&["a$script", "a$script,image", "@@a$script"]).finalize());
    assert_eq!(best.len(), 2);
    assert_eq!(best.get(0).types(), 3);
    assert!(best.get(1).is_exception());
}

#[test]
fn covering_goes_by_types_and_scope() {
    assert!(filter_covers(&filter("a"), &filter("a$script")));
    assert!(!filter_covers(&filter("a$script"), &filter("a")));
    assert!(filter_covers(&filter("a$script,image"), &filter("a$image")));
    assert!(!filter_covers(&filter("a$script"), &filter("a$image")));
    assert!(filter_covers(&filter("a$domain=x|y"), &filter("a$domain=x")));
    assert!(!filter_covers(&filter("a$domain=x"), &filter("a$domain=x|y")));
    assert!(filter_covers(&filter("a$domain=~z"), &filter("a$domain=x")));
    assert!(!filter_covers(&filter("a$domain=~x"), &filter("a$domain=x")));
    assert!(filter_covers(&filter("a$domain=~x"), &filter("a$domain=~x|~y")));
    assert!(!filter_covers(&filter("a$domain=~x|~y"), &filter("a$domain=~x")));
    assert!(!filter_covers(&filter("a$domain=x"), &filter("a")));
    assert!(!filter_covers(&filter("a"), &filter("b")));
    assert!(!filter_covers(&filter("a"), &filter("@@a")));
    assert!(filter_covers(&filter("a"), &filter("a")));
}

#[test]
fn patterns_are_translated_by_the_engine() {
    let url = |line: &str| translate(&filter(line)).map(|u| text(&u));
    assert_eq!(url("||ads.example^"), Some("^[^:]+:(//)?([^/]+\\.)?ads\\.example".to_string()));
    assert_eq!(url("|http://a.example/"), Some("^http://a\\.example/".to_string()));
    assert_eq!(url("banner.swf|"), Some("banner\\.swf$".to_string()));
    assert_eq!(url("ad*banner"), Some("ad.*banner".to_string()));
    assert_eq!(url("/ads/*"), Some("/ads/".to_string()));
    assert_eq!(url("##.ad"), Some(".*".to_string()));
    assert_eq!(url("a.example#@#.ad"), Some(".*".to_string()));
}

#[test]
fn some_patterns_have_no_translation() {
    assert!(translate(&filter("/banner[0-9]+/")).is_none());
    assert!(translate(&filter("a\\$b")).is_none());
    assert!(translate(&filter("ad$match-case")).is_none());
}

#[test]
fn anchors_are_written_back() {
    assert_eq!(text(&anchored_text(&filter("||a.example^$script"))), "||a.example^");
    assert_eq!(text(&anchored_text(&filter("@@|a|"))), "|a|");
    assert_eq!(text(&anchored_text(&filter("a"))), "a");
}

#[test]
fn rule_carries_the_scope_of_its_filter() {
    let f = filter("ad$domain=b|a|~c,script,font,~third-party");
    let r = rule_for(&f, t("xyz"));
    assert_eq!(text(&r.trigger.url_filter), "xyz");
    assert_eq!(list(&r.trigger.if_domain), Some(vec!["a".to_string(), "b".to_string()]));
    assert_eq!(list(&r.trigger.unless_domain), Some(vec!["c".to_string()]));
    assert_eq!(r.trigger.resource_type, Some(vec![ResourceType::Script, ResourceType::Font]));
    assert_eq!(r.trigger.load_type, Some(LoadType::FirstParty));
    assert_eq!(r.action.kind, ActionKind::Block);
    assert_eq!(r.action.selector, None);
    let r = rule_for(&filter("@@ad"), t("ad"));
    assert_eq!(r.action.kind, ActionKind::IgnorePreviousRules);
    assert_eq!(list(&r.trigger.if_domain), None);
    assert_eq!(r.trigger.resource_type, None);
    assert_eq!(r.trigger.load_type, None);
    let r = rule_for(&filter("a.example##.ad"), t(".*"));
    assert_eq!(r.action.kind, ActionKind::CssDisplayNone);
    assert_eq!(r.action.selector, Some(t(".ad")));
    let r = rule_for(&filter("a.example#@#.ad"), t(".*"));
    assert_eq!(r.action.kind, ActionKind::IgnorePreviousRules);
    assert_eq!(r.action.selector, None);
}

#[test]
fn masks_list_their_types_in_order() {
    assert_eq!(types_of_mask(0), vec![]);
    assert_eq!(types_of_mask(0b1001), vec![ResourceType::Script, ResourceType::Document]);
    assert_eq!(types_of_mask(0x0FFF).len(), 12);
    assert_eq!(types_of_mask(0x0800), vec![ResourceType::Other]);
    assert_eq!(types_of_mask(0x1000), vec![]);
}

#[test]
fn priorities_rank_the_filters() {
    assert_eq!(priority_of(&filter("a$important")), 0);
    assert_eq!(priority_of(&filter("a")), 1);
    assert_eq!(priority_of(&filter("@@a")), 2);
    assert_eq!(priority_of(&filter("@@a$important")), 2);
    assert_eq!(priority_of(&filter("#@#.a")), 2);
    assert_eq!(priority_of(&filter("##.a")), 3);
}

#[test]
fn assemble_without_ceiling_keeps_all() {
    let out = assemble(
        vec![rule("i1")],
        vec![rule("b1"), rule("b2")],
        vec![rule("e1")],
        vec![rule("c1"), rule("c2")],
        None,
    );
    assert_eq!(out.dropped_count, 0);
    assert_eq!(patterns(&out.rules), vec!["b1", "b2", "c1", "c2", "e1", "i1"]);
}

#[test]
fn assemble_drops_from_the_lowest_priority_up() {
    let make = |limit: usize| {
        assemble(
            vec![rule("i1")],
            vec![rule("b1"), rule("b2")],
            vec![rule("e1")],
            vec![rule("c1"), rule("c2")],
            Some(limit),
        )
    };
    let out = make(5);
    assert_eq!(out.dropped_count, 1);
    assert_eq!(patterns(&out.rules), vec!["b1", "b2", "c1", "e1", "i1"]);
    let out = make(4);
    assert_eq!(out.dropped_count, 2);
    assert_eq!(patterns(&out.rules), vec!["b1", "b2", "e1", "i1"]);
    let out = make(2);
    assert_eq!(out.dropped_count, 4);
    assert_eq!(patterns(&out.rules), vec!["b1", "i1"]);
    let out = make(0);
    assert_eq!(out.dropped_count, 6);
    assert_eq!(out.rules.len(), 0);
    let out = make(6);
    assert_eq!(out.dropped_count, 0);
    let out = make(100);
    assert_eq!(out.dropped_count, 0);
    assert_eq!(out.rules.len(), 6);
}

#[test]
fn emit_skips_what_the_target_cannot_express() {
    let best = optimize(&set_of(&["/banner[0-9]+/", "ad", "ad2$match-case"]).finalize());
    assert_eq!(best.len(), 3);
    let out = emit(&best, None);
    assert_eq!(out.dropped_count, 0);
    assert_eq!(patterns(&out.rules), vec!["ad"]);
}

#[test]
fn emit_orders_by_class_then_fingerprint() {
    let best = optimize(
        &set_of(&["##.z", "@@b", "zz", "aa", "m$important", "#@#.y", "##.a"]).finalize(),
    );
    let out = emit(&best, None);
    let kinds: Vec<ActionKind> = out.rules.iter().map(|r| r.action.kind).collect();
    assert_eq!(
        kinds,
        vec![
            ActionKind::Block,
            ActionKind::Block,
            ActionKind::CssDisplayNone,
            ActionKind::CssDisplayNone,
            ActionKind::IgnorePreviousRules,
            ActionKind::IgnorePreviousRules,
            ActionKind::Block,
        ]
    );
    assert_eq!(patterns(&out.rules)[..2], ["aa", "zz"]);
    assert_eq!(patterns(&out.rules)[6], "m");
    assert_eq!(out.rules[2].action.selector, Some(t(".a")));
    assert_eq!(out.rules[3].action.selector, Some(t(".z")));
    let out = emit(&best, Some(4));
    assert_eq!(out.dropped_count, 3);
    let kinds: Vec<ActionKind> = out.rules.iter().map(|r| r.action.kind).collect();
    assert_eq!(
        kinds,
        vec![
            ActionKind::Block,
            ActionKind::Block,
            ActionKind::IgnorePreviousRules,
            ActionKind::Block,
        ]
    );
}
