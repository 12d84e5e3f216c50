//! The compilation of filter lists into rules.

use crate::emitter::{
    emit, emitted, rule_models, translate, translation, ContentBlockingRule, RuleModel,
};
use crate::filter::Filter;
use crate::filter_set::{filters_insert, FilterSet};
use crate::model::FilterModel;
use crate::optimizer::{optimize, optimized};
use crate::hosts::{parse_hosts_model, parse_hosts_text};
use crate::options::ParseError;
use crate::parse::{parse_line_model, parse_line_text, LineModel, ParsedLine, Separator};
use crate::text::{chars_of, lemma_split_pieces, split, split_text, texts};
use vstd::prelude::*;
use vstd::string::StringExecFns;

verus! {

/// The syntax of a filter list.
#[derive(Clone, Copy, Debug, PartialEq, Eq, Structural)]
pub enum DocumentFormat {
    /// One filter on each line, in the syntax of Adblock Plus.
    Standard,
    /// One host on each line, after its address or alone, as in a hosts file.
    Hosts,
}

/// A filter list: its lines and its syntax.
pub struct FilterDocument {
    pub lines: Vec<Vec<char>>,
    pub format: DocumentFormat,
}

/// The rule format to compile to.
#[derive(Clone, Copy, Debug, PartialEq, Eq, Structural)]
pub enum TargetFormat {
    /// Content-blocker rules under the ceiling `CONTENT_BLOCKER_MAX_RULES`.
    ContentBlocker,
    /// Content-blocker rules under a ceiling of the caller's; zero is no format.
    Bounded(usize),
    /// Content-blocker rules without a ceiling.
    Unbounded,
}

/// The number of rules that a content blocker loads at most.
pub const CONTENT_BLOCKER_MAX_RULES: usize = 150_000;

/// What a diagnostic is about.
#[derive(Clone, Copy, Debug, PartialEq, Eq, Structural)]
pub enum DiagnosticKind {
    /// The line cannot be parsed; it was skipped.
    Malformed,
    /// The line is a network filter that the target cannot express; it was dropped.
    UnsupportedOption,
    /// The line is a cosmetic filter that the target cannot express; it was dropped.
    UnsupportedSelector,
}

/// Why a line gave no filter.
#[derive(Clone, Copy, Debug, PartialEq, Eq, Structural)]
pub enum Cause {
    /// The line is no filter.
    Parse(ParseError),
    /// The filter has an option that is not known.
    UnknownOption,
    /// The filter asks for case to matter.
    CaseSensitive,
    /// The pattern has no form in the syntax of the target.
    Untranslatable,
    /// The selector is procedural.
    ProceduralSelector,
}

/// A remark on one line of the input.
pub struct Diagnostic {
    /// The number of the line in its document, from 1.
    pub line_number: usize,
    /// The position of the document in the input, from 0.
    pub document_index: usize,
    pub kind: DiagnosticKind,
    pub cause: Cause,
    pub message: String,
}

/// A diagnostic as a mathematical value.
pub struct DiagnosticModel {
    pub line_number: int,
    pub document_index: int,
    pub kind: DiagnosticKind,
    pub cause: Cause,
    pub message: Seq<char>,
}

impl View for Diagnostic {
    type V = DiagnosticModel;

    open spec fn view(&self) -> DiagnosticModel {
        DiagnosticModel {
            line_number: self.line_number as int,
            document_index: self.document_index as int,
            kind: self.kind,
            cause: self.cause,
            message: self.message@,
        }
    }
}

/// What a compilation gives.
pub struct CompileResult {
    pub rules: Vec<ContentBlockingRule>,
    pub diagnostics: Vec<Diagnostic>,
    /// The number of rules that the ceiling dropped.
    pub dropped_count: usize,
}

/// Why a compilation was not done.
#[derive(Clone, Copy, Debug, PartialEq, Eq, Structural)]
pub enum CompileError {
    /// The target format allows no rule at all.
    InvalidTargetFormat,
    /// A line of a document holds a line feed.
    InvalidDocument,
}

/// What becomes of a line.
pub enum Outcome {
    /// Nothing: the line is blank or a comment.
    Skip,
    /// The filter goes into the set.
    Accept(FilterModel),
    /// The line gives no filter, for this cause.
    Report(Cause),
}

/// The kind of diagnostic that a cause gives.
pub open spec fn kind_of(cause: Cause) -> DiagnosticKind {
    match cause {
        Cause::Parse(_) => DiagnosticKind::Malformed,
        Cause::ProceduralSelector => DiagnosticKind::UnsupportedSelector,
        _ => DiagnosticKind::UnsupportedOption,
    }
}

/// The words of the diagnostic for a cause.
pub open spec fn message_of(cause: Cause) -> Seq<char> {
    match cause {
        Cause::Parse(ParseError::UnterminatedOptions) => "unterminated option list"@,
        Cause::Parse(ParseError::EmptyPattern) => "empty pattern"@,
        Cause::Parse(ParseError::EmptySelector) => "empty selector"@,
        Cause::Parse(ParseError::EmptyDomain) => "empty domain name"@,
        Cause::Parse(ParseError::MisplacedAnchor) => "domain anchor before no host name"@,
        Cause::Parse(ParseError::ConflictingScope) => "contradictory scope"@,
        Cause::Parse(ParseError::TooManyFields) => "more than an address and a host name"@,
        Cause::Parse(ParseError::BadHostName) => "not a host name"@,
        Cause::UnknownOption => "unknown option"@,
        Cause::CaseSensitive => "case-sensitive matching is not supported"@,
        Cause::Untranslatable => "pattern cannot be expressed"@,
        Cause::ProceduralSelector => "procedural selector is not supported"@,
    }
}

/// A filter list as a mathematical value.
pub struct DocumentModel {
    pub lines: Seq<Seq<char>>,
    pub format: DocumentFormat,
}

/// What a line holds in the syntax of its document.
pub open spec fn line_model(line: Seq<char>, format: DocumentFormat) -> LineModel {
    match format {
        DocumentFormat::Standard => parse_line_model(line),
        DocumentFormat::Hosts => parse_hosts_model(line),
    }
}

/// What becomes of a line. A filter goes into the set unless the target
/// cannot express it: a network filter with an option that is not known,
/// with `match-case`, or with a pattern that has no translation, and a
/// cosmetic filter with a procedural selector, are reported and dropped.
pub open spec fn outcome(line: Seq<char>, format: DocumentFormat) -> Outcome {
    match line_model(line, format) {
        LineModel::Blank => Outcome::Skip,
        LineModel::Comment => Outcome::Skip,
        LineModel::Malformed(e) => Outcome::Report(Cause::Parse(e)),
        LineModel::Network(m, unrecognized) => {
            if unrecognized.len() > 0 {
                Outcome::Report(Cause::UnknownOption)
            } else if m.match_case {
                Outcome::Report(Cause::CaseSensitive)
            } else if translation(m) is None {
                Outcome::Report(Cause::Untranslatable)
            } else {
                Outcome::Accept(m)
            }
        },
        LineModel::Cosmetic(m, separator) => {
            if separator == Separator::Procedural {
                Outcome::Report(Cause::ProceduralSelector)
            } else {
                Outcome::Accept(m)
            }
        },
    }
}

/// The set `q` after the lines have been taken in, in their order.
pub open spec fn ingest_lines(
    q: Seq<FilterModel>,
    lines: Seq<Seq<char>>,
    format: DocumentFormat,
) -> Seq<FilterModel>
    decreases lines.len(),
{
    if lines.len() == 0 {
        q
    } else {
        let p = ingest_lines(q, lines.drop_last(), format);
        match outcome(lines.last(), format) {
            Outcome::Accept(m) => filters_insert(p, m),
            _ => p,
        }
    }
}

/// The set of the filters of the documents.
pub open spec fn ingest(docs: Seq<DocumentModel>) -> Seq<FilterModel>
    decreases docs.len(),
{
    if docs.len() == 0 {
        Seq::empty()
    } else {
        ingest_lines(ingest(docs.drop_last()), docs.last().lines, docs.last().format)
    }
}

/// The diagnostic for a line that gives no filter.
pub open spec fn diagnostic_for(cause: Cause, document_index: int, line_index: int) -> DiagnosticModel {
    DiagnosticModel {
        line_number: line_index + 1,
        document_index,
        kind: kind_of(cause),
        cause,
        message: message_of(cause),
    }
}

/// The diagnostics of the lines of one document, in the order of the lines.
pub open spec fn line_diagnostics(
    lines: Seq<Seq<char>>,
    format: DocumentFormat,
    document_index: int,
) -> Seq<DiagnosticModel>
    decreases lines.len(),
{
    if lines.len() == 0 {
        Seq::empty()
    } else {
        let p = line_diagnostics(lines.drop_last(), format, document_index);
        match outcome(lines.last(), format) {
            Outcome::Report(cause) => p.push(
                diagnostic_for(cause, document_index, lines.len() - 1),
            ),
            _ => p,
        }
    }
}

/// The diagnostics of the documents, in the order of the documents.
pub open spec fn diagnostics_of(docs: Seq<DocumentModel>) -> Seq<DiagnosticModel>
    decreases docs.len(),
{
    if docs.len() == 0 {
        Seq::empty()
    } else {
        diagnostics_of(docs.drop_last()) + line_diagnostics(
            docs.last().lines,
            docs.last().format,
            docs.len() - 1,
        )
    }
}

/// The lines of a document as texts.
pub open spec fn lines_of(doc: FilterDocument) -> Seq<Seq<char>> {
    texts(doc.lines@)
}

/// The views of a list of strings.
pub open spec fn strings(v: Seq<String>) -> Seq<Seq<char>> {
    Seq::new(v.len(), |i: int| v[i]@)
}

impl FilterDocument {
    /// The document with these lines.
    pub fn from_lines(lines: &Vec<String>, format: DocumentFormat) -> (r: FilterDocument)
        ensures
            r@ == (DocumentModel { lines: strings(lines@), format }),
    {
        let mut out: Vec<Vec<char>> = Vec::new();
        let mut i: usize = 0;
        while i < lines.len()
            invariant
                i <= lines.len(),
                out@.len() == i,
                forall|j: int| 0 <= j < i ==> out@[j]@ == lines@[j]@,
            decreases lines.len() - i,
        {
            out.push(chars_of(lines[i].as_str()));
            i += 1;
        }
        assert(texts(out@) =~= strings(lines@));
        FilterDocument { lines: out, format }
    }

    /// The document whose lines are the pieces of the text between its line
    /// feeds.
    pub fn from_text(text: &str, format: DocumentFormat) -> (r: FilterDocument)
        ensures
            r@ == (DocumentModel { lines: split(text@, '\n'), format }),
    {
        let chars = chars_of(text);
        FilterDocument { lines: split_text(&chars, '\n'), format }
    }
}

impl View for FilterDocument {
    type V = DocumentModel;

    open spec fn view(&self) -> DocumentModel {
        DocumentModel { lines: lines_of(*self), format: self.format }
    }
}

/// The models of the documents.
pub open spec fn documents_of(docs: Seq<FilterDocument>) -> Seq<DocumentModel> {
    Seq::new(docs.len(), |i: int| docs[i]@)
}

/// No line of the documents holds a line feed.
pub open spec fn well_formed_documents(docs: Seq<DocumentModel>) -> bool {
    forall|i: int, j: int|
        0 <= i < docs.len() && 0 <= j < docs[i].lines.len() ==> !(
        #[trigger] docs[i].lines[j]).contains('\n')
}

/// Whether the target format allows any rule.
pub open spec fn valid_target(target: TargetFormat) -> bool {
    target != TargetFormat::Bounded(0)
}

/// The ceiling on the number of rules: the lower of what the target declares
/// and what the caller asks for; none where neither sets one.
pub open spec fn ceiling(target: TargetFormat, rule_limit: Option<usize>) -> Option<usize> {
    let declared = match target {
        TargetFormat::ContentBlocker => Some(CONTENT_BLOCKER_MAX_RULES),
        TargetFormat::Bounded(n) => Some(n),
        TargetFormat::Unbounded => None,
    };
    match (declared, rule_limit) {
        (Some(a), Some(b)) => if a < b {
            Some(a)
        } else {
            Some(b)
        },
        (Some(a), None) => Some(a),
        (None, b) => b,
    }
}

/// The rules that the documents compile to, and the number of rules dropped.
pub open spec fn compiled(
    docs: Seq<DocumentModel>,
    target: TargetFormat,
    rule_limit: Option<usize>,
) -> (Seq<RuleModel>, int) {
    emitted(optimized(ingest(docs)), ceiling(target, rule_limit))
}

/// The one document that a list in the standard syntax makes.
pub open spec fn list_of(text: Seq<char>) -> Seq<DocumentModel> {
    seq![DocumentModel { lines: split(text, '\n'), format: DocumentFormat::Standard }]
}

/// The models of a list of diagnostics.
pub open spec fn diagnostic_models(v: Seq<Diagnostic>) -> Seq<DiagnosticModel> {
    Seq::new(v.len(), |i: int| v[i]@)
}

/// Whether `out` is what the documents compile to: the rules and the number
/// of dropped rules that `compiled` gives, and the diagnostics of the lines.
pub open spec fn is_result_of(
    out: CompileResult,
    docs: Seq<DocumentModel>,
    target: TargetFormat,
    rule_limit: Option<usize>,
) -> bool {
    &&& rule_models(out.rules@) == compiled(docs, target, rule_limit).0
    &&& out.dropped_count == compiled(docs, target, rule_limit).1
    &&& diagnostic_models(out.diagnostics@) == diagnostics_of(docs)
}

/// The ceiling on the number of rules.
pub fn ceiling_of(target: TargetFormat, rule_limit: Option<usize>) -> (r: Option<usize>)
    ensures
        r == ceiling(target, rule_limit),
{
    let declared = match target {
        TargetFormat::ContentBlocker => Some(CONTENT_BLOCKER_MAX_RULES),
        TargetFormat::Bounded(n) => Some(n),
        TargetFormat::Unbounded => None,
    };
    match (declared, rule_limit) {
        (Some(a), Some(b)) => if a < b {
            Some(a)
        } else {
            Some(b)
        },
        (Some(a), None) => Some(a),
        (None, b) => b,
    }
}

/// The words of the diagnostic for a cause.
pub fn message_for(cause: Cause) -> (r: String)
    ensures
        r@ == message_of(cause),
{
    let text = match cause {
        Cause::Parse(ParseError::UnterminatedOptions) => "unterminated option list",
        Cause::Parse(ParseError::EmptyPattern) => "empty pattern",
        Cause::Parse(ParseError::EmptySelector) => "empty selector",
        Cause::Parse(ParseError::EmptyDomain) => "empty domain name",
        Cause::Parse(ParseError::MisplacedAnchor) => "domain anchor before no host name",
        Cause::Parse(ParseError::ConflictingScope) => "contradictory scope",
        Cause::Parse(ParseError::TooManyFields) => "more than an address and a host name",
        Cause::Parse(ParseError::BadHostName) => "not a host name",
        Cause::UnknownOption => "unknown option",
        Cause::CaseSensitive => "case-sensitive matching is not supported",
        Cause::Untranslatable => "pattern cannot be expressed",
        Cause::ProceduralSelector => "procedural selector is not supported",
    };
    String::from_str(text)
}

/// The diagnostic for a line that gives no filter.
pub fn diagnose(cause: Cause, document_index: usize, line_index: usize) -> (r: Diagnostic)
    requires
        line_index < usize::MAX,
    ensures
        r@ == diagnostic_for(cause, document_index as int, line_index as int),
{
    let kind = match cause {
        Cause::Parse(_) => DiagnosticKind::Malformed,
        Cause::ProceduralSelector => DiagnosticKind::UnsupportedSelector,
        _ => DiagnosticKind::UnsupportedOption,
    };
    Diagnostic {
        line_number: line_index + 1,
        document_index,
        kind,
        cause,
        message: message_for(cause),
    }
}

/// What becomes of a parsed line.
pub enum Checked {
    Skip,
    Accept(Filter),
    Report(Cause),
}

impl View for Checked {
    type V = Outcome;

    open spec fn view(&self) -> Outcome {
        match self {
            Checked::Skip => Outcome::Skip,
            Checked::Accept(f) => Outcome::Accept(f@),
            Checked::Report(c) => Outcome::Report(*c),
        }
    }
}

/// Decides what becomes of a line of a document in the given syntax.
pub fn check_line(line: &Vec<char>, format: DocumentFormat) -> (r: Checked)
    ensures
        r@ == outcome(line@, format),
{
    let parsed = match format {
        DocumentFormat::Standard => parse_line_text(line),
        DocumentFormat::Hosts => parse_hosts_text(line),
    };
    match parsed {
        ParsedLine::Blank => Checked::Skip,
        ParsedLine::Comment => Checked::Skip,
        ParsedLine::Malformed(e) => Checked::Report(Cause::Parse(e)),
        ParsedLine::Network(p) => {
            if p.unrecognized.len() > 0 {
                return Checked::Report(Cause::UnknownOption);
            }
            let filter = Filter::Network(p.filter);
            if filter.match_case() {
                return Checked::Report(Cause::CaseSensitive);
            }
            match translate(&filter) {
                None => Checked::Report(Cause::Untranslatable),
                Some(_) => Checked::Accept(filter),
            }
        },
        ParsedLine::Cosmetic(p) => {
            match p.separator {
                Separator::Procedural => Checked::Report(Cause::ProceduralSelector),
                _ => Checked::Accept(Filter::Cosmetic(p.filter)),
            }
        },
    }
}

/// Whether the text holds a line feed.
fn holds_line_feed(s: &Vec<char>) -> (r: bool)
    ensures
        r == s@.contains('\n'),
{
    let mut i: usize = 0;
    while i < s.len()
        invariant
            i <= s.len(),
            forall|j: int| 0 <= j < i ==> s@[j] != '\n',
        decreases s.len() - i,
    {
        if s[i] == '\n' {
            return true;
        }
        i += 1;
    }
    false
}

/// Compiles filter lists into rules for the target. Every line is parsed by
/// itself: a line that is no filter, or a filter that the target cannot
/// express, gives a diagnostic and is left out, and the compilation goes on.
/// The filters of all documents go into one set, in which a filter counts
/// once; the set is optimized, and the rules are emitted under the ceiling.
/// The compilation as a whole fails only where the target format allows no
/// rule, or a line holds a line feed.
pub fn compile(
    documents: &Vec<FilterDocument>,
    target_format: TargetFormat,
    rule_limit: Option<usize>,
) -> (r: Result<CompileResult, CompileError>)
    ensures
        !valid_target(target_format) ==> r == Err::<CompileResult, CompileError>(
            CompileError::InvalidTargetFormat,
        ),
        valid_target(target_format) && !well_formed_documents(documents_of(documents@)) ==> r
            == Err::<CompileResult, CompileError>(CompileError::InvalidDocument),
        valid_target(target_format) && well_formed_documents(documents_of(documents@)) ==> r is Ok,
        r matches Ok(out) ==> is_result_of(
            out,
            documents_of(documents@),
            target_format,
            rule_limit,
        ),
{
    match target_format {
        TargetFormat::Bounded(n) => {
            if n == 0 {
                return Err(CompileError::InvalidTargetFormat);
            }
        },
        _ => {},
    }
    let ghost docs = documents_of(documents@);
    let mut set = FilterSet::new();
    let mut diagnostics: Vec<Diagnostic> = Vec::new();
    let mut d: usize = 0;
    assert(docs.take(0) =~= Seq::<DocumentModel>::empty());
    assert(diagnostic_models(diagnostics@) =~= diagnostics_of(docs.take(0)));
    while d < documents.len()
        invariant
            d <= documents.len(),
            docs == documents_of(documents@),
            valid_target(target_format),
            set@ == ingest(docs.take(d as int)),
            diagnostic_models(diagnostics@) == diagnostics_of(docs.take(d as int)),
            forall|i: int, j: int|
                0 <= i < d && 0 <= j < docs[i].lines.len() ==> !(
                #[trigger] docs[i].lines[j]).contains('\n'),
        decreases documents.len() - d,
    {
        let document = &documents[d];
        let format = document.format;
        let ghost lines = docs[d as int].lines;
        let ghost done = diagnostic_models(diagnostics@);
        assert(lines == lines_of(*document));
        assert(docs.take(d + 1).drop_last() =~= docs.take(d as int));
        assert(docs.take(d + 1).last() == docs[d as int]);
        let mut l: usize = 0;
        assert(lines.take(0) =~= Seq::<Seq<char>>::empty());
        assert(diagnostic_models(diagnostics@) =~= done + line_diagnostics(
            lines.take(0),
            format,
            d as int,
        ));
        while l < document.lines.len()
            invariant
                l <= document.lines.len(),
                d < documents.len(),
                valid_target(target_format),
                docs == documents_of(documents@),
                lines == docs[d as int].lines,
                format == docs[d as int].format,
                lines == lines_of(*document),
                set@ == ingest_lines(ingest(docs.take(d as int)), lines.take(l as int), format),
                diagnostic_models(diagnostics@) == done + line_diagnostics(
                    lines.take(l as int),
                    format,
                    d as int,
                ),
                forall|j: int| 0 <= j < l ==> !(#[trigger] lines[j]).contains('\n'),
            decreases document.lines.len() - l,
        {
            let line = &document.lines[l];
            assert(line@ == lines[l as int]);
            if holds_line_feed(line) {
                assert(docs[d as int].lines[l as int].contains('\n'));
                return Err(CompileError::InvalidDocument);
            }
            assert(lines.take(l + 1).drop_last() =~= lines.take(l as int));
            assert(lines.take(l + 1).last() == lines[l as int]);
            let ghost before = diagnostic_models(diagnostics@);
            match check_line(line, format) {
                Checked::Skip => {},
                Checked::Accept(filter) => {
                    set.add(filter);
                },
                Checked::Report(cause) => {
                    let diagnostic = diagnose(cause, d, l);
                    diagnostics.push(diagnostic);
                    assert(diagnostic_models(diagnostics@) =~= before.push(diagnostic@));
                    assert(before.push(diagnostic@) =~= done + line_diagnostics(
                        lines.take(l as int),
                        format,
                        d as int,
                    ).push(diagnostic@));
                },
            }
            l += 1;
        }
        assert(lines.take(l as int) =~= lines);
        d += 1;
    }
    assert(docs.take(d as int) =~= docs);
    let frozen = set.finalize();
    let best = optimize(&frozen);
    let out = emit(&best, ceiling_of(target_format, rule_limit));
    Ok(CompileResult { rules: out.rules, diagnostics, dropped_count: out.dropped_count })
}

/// Compiles one filter list, given as text in the standard syntax, into
/// content-blocker rules without a ceiling. The lines of the list are the
/// pieces of the text between its line feeds.
pub fn parse_easylist(list: &str) -> (r: CompileResult)
    ensures
        rule_models(r.rules@) == compiled(list_of(list@), TargetFormat::Unbounded, None).0,
        r.dropped_count == 0,
        diagnostic_models(r.diagnostics@) == diagnostics_of(list_of(list@)),
{
    let document = FilterDocument::from_text(list, DocumentFormat::Standard);
    let mut documents: Vec<FilterDocument> = Vec::new();
    documents.push(document);
    proof {
        lemma_split_pieces(list@, '\n');
        assert(documents_of(documents@) =~= list_of(list@));
    }
    let r = compile(&documents, TargetFormat::Unbounded, None);
    assert(r is Ok);
    r.unwrap()
}

} // verus!
