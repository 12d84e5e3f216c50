use easylist_parser::compile::{
    ceiling_of, check_line, compile, diagnose, message_for, Cause, Checked, DiagnosticKind,
    DocumentFormat, FilterDocument, TargetFormat, CONTENT_BLOCKER_MAX_RULES,
};
use easylist_parser::hosts::{host_name, parse_hosts_text};
use easylist_parser::options::ParseError;
use easylist_parser::parse::ParsedLine;

fn t(s: &str) -> Vec<char> {
    s.chars().collect()
}

fn text(v: &Vec<char>) -> String {
    v.iter().collect()
}

fn document(lines: &[&str], format: DocumentFormat) -> FilterDocument {
    FilterDocument { lines: lines.iter().map(|l| t(l)).collect(), format }
}

#[test]
fn ceiling_is_the_lower_of_the_two() {
    assert_eq!(CONTENT_BLOCKER_MAX_RULES, 150_000);
    assert_eq!(ceiling_of(TargetFormat::Unbounded, None), None);
    assert_eq!(ceiling_of(TargetFormat::Unbounded, Some(7)), Some(7));
    assert_eq!(ceiling_of(TargetFormat::ContentBlocker, None), Some(150_000));
    assert_eq!(ceiling_of(TargetFormat::ContentBlocker, Some(7)), Some(7));
    assert_eq!(ceiling_of(TargetFormat::ContentBlocker, Some(200_000)), Some(150_000));
    assert_eq!(ceiling_of(TargetFormat::Bounded(5), Some(7)), Some(5));
    assert_eq!(ceiling_of(TargetFormat::Bounded(9), Some(7)), Some(7));
    assert_eq!(ceiling_of(TargetFormat::Bounded(9), None), Some(9));
}

#[test]
fn diagnostics_name_line_and_document() {
    let d = diagnose(Cause::Parse(ParseError::EmptyPattern), 3, 0);
    assert_eq!(d.line_number, 1);
    assert_eq!(d.document_index, 3);
    assert_eq!(d.kind, DiagnosticKind::Malformed);
    assert_eq!(d.cause, Cause::Parse(ParseError::EmptyPattern));
    assert_eq!(d.message, "empty pattern");
    assert_eq!(diagnose(Cause::UnknownOption, 0, 9).kind, DiagnosticKind::UnsupportedOption);
    assert_eq!(diagnose(Cause::CaseSensitive, 0, 9).kind, DiagnosticKind::UnsupportedOption);
    assert_eq!(diagnose(Cause::Untranslatable, 0, 9).kind, DiagnosticKind::UnsupportedOption);
    assert_eq!(
        diagnose(Cause::ProceduralSelector, 0, 9).kind,
        DiagnosticKind::UnsupportedSelector
    );
    assert_eq!(diagnose(Cause::ProceduralSelector, 0, 9).line_number, 10);
}

#[test]
fn every_cause_has_its_words() {
    assert_eq!(message_for(Cause::Parse(ParseError::UnterminatedOptions)), "unterminated option list");
    assert_eq!(message_for(Cause::Parse(ParseError::EmptySelector)), "empty selector");
    assert_eq!(message_for(Cause::Parse(ParseError::EmptyDomain)), "empty domain name");
    assert_eq!(
        message_for(Cause::Parse(ParseError::MisplacedAnchor)),
        "domain anchor before no host name"
    );
    assert_eq!(message_for(Cause::Parse(ParseError::ConflictingScope)), "contradictory scope");
    assert_eq!(
        message_for(Cause::Parse(ParseError::TooManyFields)),
        "more than an address and a host name"
    );
    assert_eq!(message_for(Cause::Parse(ParseError::BadHostName)), "not a host name");
    assert_eq!(message_for(Cause::UnknownOption), "unknown option");
    assert_eq!(message_for(Cause::CaseSensitive), "case-sensitive matching is not supported");
    assert_eq!(message_for(Cause::Untranslatable), "pattern cannot be expressed");
    assert_eq!(message_for(Cause::ProceduralSelector), "procedural selector is not supported");
}

#[test]
fn lines_are_accepted_skipped_or_reported() {
    let standard = DocumentFormat::Standard;
    assert!(matches!(check_line(&t("! note"), standard), Checked::Skip));
    assert!(matches!(check_line(&t(""), standard), Checked::Skip));
    assert!(matches!(check_line(&t("||a.example^"), standard), Checked::Accept(_)));
    assert!(matches!(check_line(&t("##.ad"), standard), Checked::Accept(_)));
    assert!(matches!(check_line(&t("#@#.ad"), standard), Checked::Accept(_)));
    assert!(matches!(
        check_line(&t("a$popup"), standard),
        Checked::Report(Cause::UnknownOption)
    ));
    assert!(matches!(
        check_line(&t("a$match-case"), standard),
        Checked::Report(Cause::CaseSensitive)
    ));
    assert!(matches!(
        check_line(&t("/a[0-9]/"), standard),
        Checked::Report(Cause::Untranslatable)
    ));
    assert!(matches!(
        check_line(&t("a.example#?#div:has(.ad)"), standard),
        Checked::Report(Cause::ProceduralSelector)
    ));
    assert!(matches!(
        check_line(&t("||"), standard),
        Checked::Report(Cause::Parse(ParseError::EmptyPattern))
    ));
}

#[test]
fn unsupported_filters_are_reported_and_dropped() {
    let out = compile(
        &vec![
            document(&["! title", "a$popup", "", "ok"], DocumentFormat::Standard),
            document(&["x.example#?#div:has(.ad)", "b$match-case", "/r[0-9]/"], DocumentFormat::Standard),
        ],
        TargetFormat::ContentBlocker,
        None,
    )
    .unwrap();
    assert_eq!(out.rules.len(), 1);
    assert_eq!(out.dropped_count, 0);
    let seen: Vec<(usize, usize, DiagnosticKind)> =
        out.diagnostics.iter().map(|d| (d.document_index, d.line_number, d.kind)).collect();
    assert_eq!(
        seen,
        vec![
            (0, 2, DiagnosticKind::UnsupportedOption),
            (1, 1, DiagnosticKind::UnsupportedSelector),
            (1, 2, DiagnosticKind::UnsupportedOption),
            (1, 3, DiagnosticKind::UnsupportedOption),
        ]
    );
}

#[test]
fn no_documents_give_no_rules() {
    let out = compile(&vec![], TargetFormat::ContentBlocker, Some(0)).unwrap();
    assert_eq!(out.rules.len(), 0);
    assert_eq!(out.diagnostics.len(), 0);
    assert_eq!(out.dropped_count, 0);
}

#[test]
fn caller_ceiling_of_zero_drops_everything() {
    let out =
        compile(&vec![document(&["a", "b"], DocumentFormat::Standard)], TargetFormat::Unbounded, Some(0))
            .unwrap();
    assert_eq!(out.rules.len(), 0);
    assert_eq!(out.dropped_count, 2);
}

#[test]
fn hosts_lines_are_read() {
    match parse_hosts_text(&t("127.0.0.1   ads.example.com  # tracker")) {
        ParsedLine::Network(p) => {
            assert_eq!(text(p.filter.pattern()), "ads.example.com^");
            assert!(p.filter.anchors().domain);
            assert!(!p.filter.is_exception());
        }
        _ => panic!("no host"),
    }
    match parse_hosts_text(&t("ads.example.com")) {
        ParsedLine::Network(p) => assert_eq!(text(p.filter.pattern()), "ads.example.com^"),
        _ => panic!("no host"),
    }
    assert!(matches!(parse_hosts_text(&t("# comment")), ParsedLine::Comment));
    assert!(matches!(parse_hosts_text(&t("! comment")), ParsedLine::Comment));
    assert!(matches!(parse_hosts_text(&t("  ")), ParsedLine::Blank));
    assert!(matches!(parse_hosts_text(&t("127.0.0.1 localhost")), ParsedLine::Comment));
    assert!(matches!(
        parse_hosts_text(&t("127.0.0.1 a.example b.example")),
        ParsedLine::Malformed(ParseError::TooManyFields)
    ));
    assert!(matches!(
        parse_hosts_text(&t("0.0.0.0 a/b")),
        ParsedLine::Malformed(ParseError::BadHostName)
    ));
    assert!(matches!(
        parse_hosts_text(&t("-a.example")),
        ParsedLine::Malformed(ParseError::BadHostName)
    ));
}

#[test]
fn host_names_are_checked() {
    assert!(host_name(&t("a-b.example_1")));
    assert!(host_name(&t("münchen.example")));
    assert!(!host_name(&t("")));
    assert!(!host_name(&t(".example")));
    assert!(!host_name(&t("a b")));
    assert!(!host_name(&t("a$b")));
}

#[test]
fn hosts_document_compiles_to_block_rules() {
    let out = compile(
        &vec![document(
            &["# hosts", "0.0.0.0 b.example", "0.0.0.0 a.example", "a.example", "::1 localhost", "x y z"],
            DocumentFormat::Hosts,
        )],
        TargetFormat::ContentBlocker,
        None,
    )
    .unwrap();
    let urls: Vec<String> = out.rules.iter().map(|r| text(&r.trigger.url_filter)).collect();
    assert_eq!(
        urls,
        vec!["^[^:]+:(//)?([^/]+\\.)?a\\.example", "^[^:]+:(//)?([^/]+\\.)?b\\.example"]
    );
    assert_eq!(out.diagnostics.len(), 1);
    assert_eq!(out.diagnostics[0].line_number, 6);
    assert_eq!(out.diagnostics[0].kind, DiagnosticKind::Malformed);
    assert_eq!(out.diagnostics[0].cause, Cause::Parse(ParseError::TooManyFields));
}

#[test]
fn hosts_and_standard_documents_share_one_set() {
    let out = compile(
        &vec![
            document(&["0.0.0.0 a.example"], DocumentFormat::Hosts),
            document(&["||a.example^"], DocumentFormat::Standard),
        ],
        TargetFormat::Unbounded,
        None,
    )
    .unwrap();
    assert_eq!(out.rules.len(), 1);
}
