use easylist_parser::compile::{
    compile, parse_easylist, CompileError, DiagnosticKind, DocumentFormat, FilterDocument,
    TargetFormat,
};
use easylist_parser::emitter::{ActionKind, ContentBlockingRule, LoadType};

fn text(v: &Vec<char>) -> String {
    v.iter().collect()
}

fn names(v: &Option<Vec<Vec<char>>>) -> Option<Vec<String>> {
    v.as_ref().map(|list| list.iter().map(text).collect())
}

fn document(lines: &[&str]) -> FilterDocument {
    let lines: Vec<String> = lines.iter().map(|l| l.to_string()).collect();
    FilterDocument::from_lines(&lines, DocumentFormat::Standard)
}

fn rules_of(lines: &[&str]) -> Vec<ContentBlockingRule> {
    compile(&vec![document(lines)], TargetFormat::Unbounded, None).unwrap().rules
}

#[test]
fn three_lines_give_three_rules_in_order() {
    let out = compile(
        &vec![document(&[
            "||tracker.example^$third-party",
            "##.ad-banner",
            "@@||tracker.example^$domain=trusted.example",
        ])],
        TargetFormat::Unbounded,
        None,
    )
    .unwrap();
    assert_eq!(out.diagnostics.len(), 0);
    assert_eq!(out.dropped_count, 0);
    assert_eq!(out.rules.len(), 3);
    let block = &out.rules[0];
    assert_eq!(block.action.kind, ActionKind::Block);
    assert_eq!(block.trigger.load_type, Some(LoadType::ThirdParty));
    assert_eq!(text(&block.trigger.url_filter), "^[^:]+:(//)?([^/]+\\.)?tracker\\.example");
    assert_eq!(names(&block.trigger.if_domain), None);
    assert_eq!(names(&block.trigger.unless_domain), None);
    assert!(block.trigger.resource_type.is_none());
    let hide = &out.rules[1];
    assert_eq!(hide.action.kind, ActionKind::CssDisplayNone);
    assert_eq!(hide.action.selector.as_ref().map(text), Some(".ad-banner".to_string()));
    assert_eq!(names(&hide.trigger.if_domain), None);
    assert_eq!(names(&hide.trigger.unless_domain), None);
    assert_eq!(text(&hide.trigger.url_filter), ".*");
    let allow = &out.rules[2];
    assert_eq!(allow.action.kind, ActionKind::IgnorePreviousRules);
    assert_eq!(names(&allow.trigger.if_domain), Some(vec!["trusted.example".to_string()]));
    assert_eq!(allow.trigger.load_type, None);
}

#[test]
fn malformed_line_is_reported_and_skipped() {
    let out = compile(&vec![document(&["||ads.example^", "a$domain="])], TargetFormat::Unbounded, None)
        .unwrap();
    assert_eq!(out.rules.len(), 1);
    assert_eq!(out.diagnostics.len(), 1);
    assert_eq!(out.diagnostics[0].kind, DiagnosticKind::Malformed);
    assert_eq!(out.diagnostics[0].line_number, 2);
    assert_eq!(out.diagnostics[0].document_index, 0);
    assert_eq!(out.diagnostics[0].message, "unterminated option list");
}

#[test]
fn same_document_twice_changes_nothing() {
    let lines = ["||ads.example^", "##.banner", "@@||ads.example^$domain=news.example", "/banner/*"];
    let once = compile(&vec![document(&lines)], TargetFormat::Unbounded, None).unwrap();
    let twice =
        compile(&vec![document(&lines), document(&lines)], TargetFormat::Unbounded, None).unwrap();
    assert_eq!(once.rules.len(), twice.rules.len());
    for (a, b) in once.rules.iter().zip(twice.rules.iter()) {
        assert_eq!(format!("{:?}", a), format!("{:?}", b));
    }
}

#[test]
fn order_of_documents_does_not_matter() {
    let d1 = ["||ads.example^", "##.banner", "foo$domain=a.example"];
    let d2 = ["@@||ads.example^$domain=news.example", "foo$domain=b.example", "||x.example^$script"];
    let ab = compile(&vec![document(&d1), document(&d2)], TargetFormat::Unbounded, None).unwrap();
    let ba = compile(&vec![document(&d2), document(&d1)], TargetFormat::Unbounded, None).unwrap();
    assert_eq!(format!("{:?}", ab.rules), format!("{:?}", ba.rules));
}

#[test]
fn domains_of_equal_filters_are_merged() {
    let rules = rules_of(&["/ads/*$domain=foo.com", "/ads/*$domain=bar.com"]);
    assert_eq!(rules.len(), 1);
    assert_eq!(
        names(&rules[0].trigger.if_domain),
        Some(vec!["bar.com".to_string(), "foo.com".to_string()])
    );
    assert_eq!(names(&rules[0].trigger.unless_domain), None);
}

#[test]
fn unscoped_filter_absorbs_scoped_one() {
    let rules = rules_of(&["/ads/*$domain=foo.com", "/ads/*"]);
    assert_eq!(rules.len(), 1);
    assert_eq!(names(&rules[0].trigger.if_domain), None);
    assert_eq!(names(&rules[0].trigger.unless_domain), None);
}

#[test]
fn exception_follows_the_rule_it_overrides() {
    let rules = rules_of(&["@@||ads.example^$domain=news.example", "||ads.example^"]);
    assert_eq!(rules.len(), 2);
    assert_eq!(rules[0].action.kind, ActionKind::Block);
    assert_eq!(rules[1].action.kind, ActionKind::IgnorePreviousRules);
    assert_eq!(names(&rules[1].trigger.if_domain), Some(vec!["news.example".to_string()]));
}

#[test]
fn ceiling_drops_lowest_priority_first_and_is_repeatable() {
    let lines = [
        "##.banner",
        "@@||ads.example^$domain=news.example",
        "||ads.example^",
        "||track.example^$important",
    ];
    let first = compile(&vec![document(&lines)], TargetFormat::Unbounded, Some(2)).unwrap();
    let second = compile(&vec![document(&lines)], TargetFormat::Unbounded, Some(2)).unwrap();
    assert_eq!(first.dropped_count, 2);
    assert_eq!(second.dropped_count, 2);
    assert_eq!(first.rules.len(), 2);
    assert_eq!(format!("{:?}", first.rules), format!("{:?}", second.rules));
    assert_eq!(first.rules[0].action.kind, ActionKind::Block);
    assert_eq!(text(&first.rules[0].trigger.url_filter), "^[^:]+:(//)?([^/]+\\.)?ads\\.example");
    assert_eq!(first.rules[1].action.kind, ActionKind::Block);
    assert_eq!(text(&first.rules[1].trigger.url_filter), "^[^:]+:(//)?([^/]+\\.)?track\\.example");
    let three = compile(&vec![document(&lines)], TargetFormat::Bounded(3), None).unwrap();
    assert_eq!(three.dropped_count, 1);
    assert_eq!(three.rules[1].action.kind, ActionKind::IgnorePreviousRules);
    assert_eq!(text(&three.rules[2].trigger.url_filter), "^[^:]+:(//)?([^/]+\\.)?track\\.example");
}

#[test]
fn target_without_rules_is_refused() {
    let r = compile(&vec![document(&["||ads.example^"])], TargetFormat::Bounded(0), None);
    assert_eq!(r.err(), Some(CompileError::InvalidTargetFormat));
}

#[test]
fn line_with_line_feed_is_refused() {
    let r = compile(&vec![document(&["||ads.example^\n##.x"])], TargetFormat::Unbounded, None);
    assert_eq!(r.err(), Some(CompileError::InvalidDocument));
}

#[test]
fn large_list_compiles() {
    let mut lines: Vec<String> = Vec::new();
    for i in 0..3000 {
        lines.push(format!("||host{}.example^$domain=site{}.example", i % 1500, i));
        lines.push(format!("site{}.example##.ad-{}", i, i % 7));
    }
    let doc = FilterDocument::from_lines(&lines, DocumentFormat::Standard);
    let out = compile(&vec![doc], TargetFormat::ContentBlocker, Some(1502)).unwrap();
    assert_eq!(out.diagnostics.len(), 0);
    assert_eq!(out.rules.len(), 1502);
    assert_eq!(out.dropped_count, 5);
    assert_eq!(out.rules[0].trigger.if_domain.as_ref().map(|d| d.len()), Some(2));
    assert_eq!(out.rules[1499].action.kind, ActionKind::Block);
    assert_eq!(out.rules[1500].action.kind, ActionKind::CssDisplayNone);
    assert_eq!(out.rules[1500].action.selector.as_ref().map(text), Some(".ad-0".to_string()));
    assert_eq!(out.rules[1500].trigger.if_domain.as_ref().map(|d| d.len()), Some(429));
}

#[test]
fn list_as_text_is_split_into_lines() {
    let doc = FilterDocument::from_text("a\r\n\n! c\nb", DocumentFormat::Standard);
    let lines: Vec<String> = doc.lines.iter().map(text).collect();
    assert_eq!(lines, vec!["a\r", "", "! c", "b"]);
    let doc = FilterDocument::from_text("a\n", DocumentFormat::Hosts);
    assert_eq!(doc.lines.len(), 2);
    assert_eq!(doc.format, DocumentFormat::Hosts);
    let doc = FilterDocument::from_text("", DocumentFormat::Standard);
    assert_eq!(doc.lines.len(), 1);
}

#[test]
fn list_as_text_compiles_without_ceiling() {
    let out = parse_easylist(
        "[Adblock Plus 2.0]\r\n! Title: test\r\n||tracker.example^$third-party\r\n##.ad-banner\r\n\r\na$domain=\r\n@@||tracker.example^$domain=trusted.example\r\n",
    );
    assert_eq!(out.dropped_count, 0);
    assert_eq!(out.rules.len(), 3);
    assert_eq!(out.rules[0].action.kind, ActionKind::Block);
    assert_eq!(out.rules[1].action.kind, ActionKind::CssDisplayNone);
    assert_eq!(out.rules[2].action.kind, ActionKind::IgnorePreviousRules);
    assert_eq!(out.diagnostics.len(), 1);
    assert_eq!(out.diagnostics[0].line_number, 6);
    assert_eq!(out.diagnostics[0].kind, DiagnosticKind::Malformed);
    assert_eq!(parse_easylist("").rules.len(), 0);
}
