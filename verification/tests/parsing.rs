use easylist_parser::domains::DomainSet;
use easylist_parser::model::{Anchors, ResourceType};
use easylist_parser::options::{mask_of_type, resolved_types, ParseError};
use easylist_parser::parse::{
    classify_line, parse_cosmetic_filter, parse_line, parse_network_filter, LineKind, ParsedLine,
    Separator,
};

fn text(v: &Vec<char>) -> String {
    v.iter().collect()
}

fn names(set: &DomainSet) -> Vec<String> {
    (0..set.len()).map(|i| text(set.name(i))).collect()
}

#[test]
fn classifies_comments_and_blanks() {
    assert_eq!(classify_line("! a comment"), LineKind::Comment);
    assert_eq!(classify_line("[Adblock Plus 2.0]"), LineKind::Comment);
    assert_eq!(classify_line("   ! indented"), LineKind::Comment);
    assert_eq!(classify_line(""), LineKind::Blank);
    assert_eq!(classify_line(" \t\r"), LineKind::Blank);
}

#[test]
fn classifies_filters() {
    assert_eq!(classify_line("||ads.example^"), LineKind::NetworkFilterLine);
    assert_eq!(classify_line("@@||ads.example^$script"), LineKind::NetworkFilterLine);
    assert_eq!(classify_line("##.banner"), LineKind::CosmeticFilterLine);
    assert_eq!(classify_line("example.com#@#.banner"), LineKind::CosmeticFilterLine);
    assert_eq!(classify_line("example.com#?#div:has(.ad)"), LineKind::CosmeticFilterLine);
    assert_eq!(classify_line("a#b"), LineKind::NetworkFilterLine);
}

#[test]
fn separator_after_network_character_is_no_separator() {
    assert_eq!(classify_line("/path##x"), LineKind::NetworkFilterLine);
    assert_eq!(classify_line("||a.example^##x"), LineKind::NetworkFilterLine);
}

#[test]
fn classifies_malformed_lines() {
    assert_eq!(classify_line("a$domain="), LineKind::Malformed);
    assert_eq!(classify_line("||"), LineKind::Malformed);
    assert_eq!(classify_line("example.com##"), LineKind::Malformed);
    assert_eq!(classify_line("a$"), LineKind::Malformed);
}

#[test]
fn parses_plain_network_filter() {
    let p = parse_network_filter("  /banner/img  ").unwrap();
    assert_eq!(text(p.filter.pattern()), "/banner/img");
    assert!(!p.filter.is_exception());
    assert_eq!(p.filter.anchors(), Anchors { start: false, end: false, domain: false });
    let o = p.filter.options();
    assert!(o.domains_included.is_empty());
    assert!(o.domains_excluded.is_empty());
    assert_eq!(o.resource_types, 0);
    assert_eq!(o.third_party, None);
    assert!(!o.match_case);
    assert!(!o.raw_is_regex);
    assert!(!o.important);
    assert!(p.unrecognized.is_empty());
}

#[test]
fn parses_exception_and_anchors() {
    let p = parse_network_filter("@@||ads.example^").unwrap();
    assert!(p.filter.is_exception());
    assert_eq!(p.filter.anchors(), Anchors { start: false, end: false, domain: true });
    assert_eq!(text(p.filter.pattern()), "ads.example^");
    let p = parse_network_filter("|http://a.example/x.swf|").unwrap();
    assert_eq!(p.filter.anchors(), Anchors { start: true, end: true, domain: false });
    assert_eq!(text(p.filter.pattern()), "http://a.example/x.swf");
}

#[test]
fn parses_raw_regular_expression() {
    let p = parse_network_filter("/banner[0-9]+/").unwrap();
    assert!(p.filter.options().raw_is_regex);
    assert_eq!(text(p.filter.pattern()), "/banner[0-9]+/");
    let p = parse_network_filter("|/x/").unwrap();
    assert!(!p.filter.options().raw_is_regex);
    let p = parse_network_filter("/").unwrap();
    assert!(!p.filter.options().raw_is_regex);
}

#[test]
fn parses_domain_option() {
    let p = parse_network_filter("ad$domain=b.example|~x.b.example|a.example").unwrap();
    assert_eq!(names(&p.filter.options().domains_included), vec!["a.example", "b.example"]);
    assert_eq!(names(&p.filter.options().domains_excluded), vec!["x.b.example"]);
}

#[test]
fn parses_resource_types() {
    let script = mask_of_type(ResourceType::Script);
    let image = mask_of_type(ResourceType::Image);
    assert_eq!(script, 1);
    assert_eq!(image, 2);
    assert_eq!(mask_of_type(ResourceType::Other), 0x800);
    let p = parse_network_filter("ad$script,image").unwrap();
    assert_eq!(p.filter.options().resource_types, script | image);
    let p = parse_network_filter("ad$~image").unwrap();
    assert_eq!(p.filter.options().resource_types, 0x0FFF & !image);
    let p = parse_network_filter("ad$script,image,~image").unwrap();
    assert_eq!(p.filter.options().resource_types, script);
}

#[test]
fn resolves_resource_types() {
    assert_eq!(resolved_types(0, 0), Some(0));
    assert_eq!(resolved_types(5, 0), Some(5));
    assert_eq!(resolved_types(5, 4), Some(1));
    assert_eq!(resolved_types(0, 1), Some(0x0FFE));
    assert_eq!(resolved_types(4, 4), None);
    assert_eq!(resolved_types(0, 0x0FFF), None);
}

#[test]
fn parses_party_case_and_important() {
    let p = parse_network_filter("ad$third-party").unwrap();
    assert_eq!(p.filter.options().third_party, Some(true));
    let p = parse_network_filter("ad$~third-party").unwrap();
    assert_eq!(p.filter.options().third_party, Some(false));
    let p = parse_network_filter("ad$first-party").unwrap();
    assert_eq!(p.filter.options().third_party, Some(false));
    let p = parse_network_filter("ad$match-case,important").unwrap();
    assert!(p.filter.options().match_case);
    assert!(p.filter.options().important);
}

#[test]
fn keeps_unknown_options() {
    let p = parse_network_filter("ad$popup,rewrite=abp-resource:blank-js,~important").unwrap();
    let kept: Vec<String> = p.unrecognized.iter().map(text).collect();
    assert_eq!(kept, vec!["popup", "rewrite=abp-resource:blank-js", "~important"]);
    assert!(!p.filter.options().important);
}

#[test]
fn escaped_dollar_begins_no_options() {
    let p = parse_network_filter("price\\$5").unwrap();
    assert_eq!(text(p.filter.pattern()), "price\\$5");
    let p = parse_network_filter("a\\$b$script").unwrap();
    assert_eq!(text(p.filter.pattern()), "a\\$b");
    assert_eq!(p.filter.options().resource_types, 1);
}

#[test]
fn last_dollar_begins_the_options() {
    let p = parse_network_filter("a$b$image").unwrap();
    assert_eq!(text(p.filter.pattern()), "a$b");
    assert_eq!(p.filter.options().resource_types, 2);
}

#[test]
fn rejects_unterminated_options() {
    assert_eq!(parse_network_filter("a$domain=").err(), Some(ParseError::UnterminatedOptions));
    assert_eq!(parse_network_filter("a$").err(), Some(ParseError::UnterminatedOptions));
    assert_eq!(parse_network_filter("a$script,").err(), Some(ParseError::UnterminatedOptions));
    assert_eq!(parse_network_filter("a$,script").err(), Some(ParseError::UnterminatedOptions));
    assert_eq!(parse_network_filter("a$unknown=").err(), Some(ParseError::UnterminatedOptions));
}

#[test]
fn rejects_empty_pattern() {
    assert_eq!(parse_network_filter("||").err(), Some(ParseError::EmptyPattern));
    assert_eq!(parse_network_filter("@@").err(), Some(ParseError::EmptyPattern));
    assert_eq!(parse_network_filter("$script").err(), Some(ParseError::EmptyPattern));
    assert_eq!(parse_network_filter("|").err(), Some(ParseError::EmptyPattern));
}

#[test]
fn options_are_checked_before_the_pattern() {
    assert_eq!(parse_network_filter("||$domain=").err(), Some(ParseError::UnterminatedOptions));
}

#[test]
fn rejects_empty_domain() {
    assert_eq!(parse_network_filter("a$domain=x||y").err(), Some(ParseError::EmptyDomain));
    assert_eq!(parse_network_filter("a$domain=~").err(), Some(ParseError::EmptyDomain));
    assert_eq!(parse_network_filter("a$domain=x|").err(), Some(ParseError::EmptyDomain));
}

#[test]
fn rejects_misplaced_domain_anchor() {
    assert_eq!(parse_network_filter("||/ads").err(), Some(ParseError::MisplacedAnchor));
    assert_eq!(parse_network_filter("||.example").err(), Some(ParseError::MisplacedAnchor));
}

#[test]
fn rejects_contradictions() {
    assert_eq!(parse_network_filter("a$domain=x|~x").err(), Some(ParseError::ConflictingScope));
    assert_eq!(parse_network_filter("a$script,~script").err(), Some(ParseError::ConflictingScope));
}

#[test]
fn parses_cosmetic_filter() {
    let p = parse_cosmetic_filter("b.example,~x.b.example,a.example", Separator::Hide, ".ad > b")
        .unwrap();
    assert_eq!(text(p.filter.selector()), ".ad > b");
    assert!(!p.filter.is_exception());
    assert_eq!(p.separator, Separator::Hide);
    assert_eq!(names(p.filter.domains_included()), vec!["a.example", "b.example"]);
    assert_eq!(names(p.filter.domains_excluded()), vec!["x.b.example"]);
}

#[test]
fn parses_cosmetic_exception_and_procedural() {
    let p = parse_cosmetic_filter("", Separator::Unhide, ".ad").unwrap();
    assert!(p.filter.is_exception());
    assert!(p.filter.domains_included().is_empty());
    let p = parse_cosmetic_filter("a.example", Separator::Procedural, "div:has(.ad)").unwrap();
    assert!(!p.filter.is_exception());
    assert_eq!(p.separator, Separator::Procedural);
}

#[test]
fn rejects_bad_cosmetic_filters() {
    assert_eq!(
        parse_cosmetic_filter("a.example", Separator::Hide, "").err(),
        Some(ParseError::EmptySelector)
    );
    assert_eq!(
        parse_cosmetic_filter("a.example,,b.example", Separator::Hide, ".x").err(),
        Some(ParseError::EmptyDomain)
    );
    assert_eq!(
        parse_cosmetic_filter("~", Separator::Hide, ".x").err(),
        Some(ParseError::EmptyDomain)
    );
    assert_eq!(
        parse_cosmetic_filter("a.example,~a.example", Separator::Hide, ".x").err(),
        Some(ParseError::ConflictingScope)
    );
}

#[test]
fn line_parser_splits_cosmetic_lines() {
    match parse_line("  a.example#@#.ad  ") {
        ParsedLine::Cosmetic(p) => {
            assert_eq!(p.separator, Separator::Unhide);
            assert_eq!(text(p.filter.selector()), ".ad");
            assert_eq!(names(p.filter.domains_included()), vec!["a.example"]);
        }
        _ => panic!("not a cosmetic filter"),
    }
    match parse_line("##.ad##.b") {
        ParsedLine::Cosmetic(p) => assert_eq!(text(p.filter.selector()), ".ad##.b"),
        _ => panic!("not a cosmetic filter"),
    }
    assert!(matches!(parse_line("a.example##"), ParsedLine::Malformed(ParseError::EmptySelector)));
    assert!(matches!(parse_line("! x"), ParsedLine::Comment));
    assert!(matches!(parse_line(" "), ParsedLine::Blank));
    assert!(matches!(parse_line("ad"), ParsedLine::Network(_)));
}
