//! The line classifier and the two filter parsers.

use crate::filter::{cosmetic_model, network_model, CosmeticFilter, NetworkFilter, NetworkOptions};
use crate::model::{is_host_char, valid_filter, Anchors, FilterModel};
use crate::options::{
    apply_options, options_agree, read_options, read_scope, resolve_types, resolved_types,
    scope_entries, OptionState, OptionsModel, ParseError,
};
use crate::text::{chars_of, slice, split, split_text, texts, trim, trimmed};
use vstd::prelude::*;

verus! {

/// What a line of a filter list is.
#[derive(Clone, Copy, Debug, PartialEq, Eq, Structural)]
pub enum LineKind {
    Comment,
    NetworkFilterLine,
    CosmeticFilterLine,
    Blank,
    Malformed,
}

/// The token between the domains and the selector of a cosmetic filter.
#[derive(Clone, Copy, Debug, PartialEq, Eq, Structural)]
pub enum Separator {
    /// `##`: hide the elements.
    Hide,
    /// `#@#`: do not hide them.
    Unhide,
    /// `#?#`: hide what a procedural selector finds.
    Procedural,
}

/// A character that only a network filter can hold before a separator.
pub open spec fn is_network_only(c: char) -> bool {
    c == '|' || c == '^' || c == '$' || c == '/' || c == '@'
}

/// The separator that begins at position `i`, if one does.
pub open spec fn separator_at(s: Seq<char>, i: int) -> Option<Separator> {
    if 0 <= i && i + 1 < s.len() && s[i] == '#' && s[i + 1] == '#' {
        Some(Separator::Hide)
    } else if 0 <= i && i + 2 < s.len() && s[i] == '#' && s[i + 1] == '@' && s[i + 2] == '#' {
        Some(Separator::Unhide)
    } else if 0 <= i && i + 2 < s.len() && s[i] == '#' && s[i + 1] == '?' && s[i + 2] == '#' {
        Some(Separator::Procedural)
    } else {
        None
    }
}

/// The number of characters of a separator.
pub open spec fn separator_len(k: Separator) -> int {
    match k {
        Separator::Hide => 2,
        Separator::Unhide => 3,
        Separator::Procedural => 3,
    }
}

/// The first separator from position `i` on that no network-only character
/// precedes: its position and its kind.
pub open spec fn find_separator(s: Seq<char>, i: int) -> Option<(int, Separator)>
    decreases s.len() - i,
{
    if i < 0 || i >= s.len() {
        None
    } else if separator_at(s, i) is Some {
        Some((i, separator_at(s, i)->0))
    } else if is_network_only(s[i]) {
        None
    } else {
        find_separator(s, i + 1)
    }
}

/// The position of the last `$` before `j` that no backslash precedes, or -1.
pub open spec fn last_dollar(s: Seq<char>, j: int) -> int
    decreases j,
{
    if j <= 0 || j > s.len() {
        -1
    } else if s[j - 1] == '$' && (j == 1 || s[j - 2] != '\\') {
        j - 1
    } else {
        last_dollar(s, j - 1)
    }
}

/// Whether the text begins with `@@`.
pub open spec fn has_exception_mark(s: Seq<char>) -> bool {
    s.len() >= 2 && s[0] == '@' && s[1] == '@'
}

/// The text after the exception mark.
pub open spec fn after_mark(s: Seq<char>) -> Seq<char> {
    if has_exception_mark(s) {
        s.skip(2)
    } else {
        s
    }
}

/// The anchors and the pattern, before the option list.
pub open spec fn network_body(s: Seq<char>) -> Seq<char> {
    let rest = after_mark(s);
    let d = last_dollar(rest, rest.len() as int);
    if d >= 0 {
        rest.take(d)
    } else {
        rest
    }
}

/// What the option list says; a text without one says nothing.
pub open spec fn network_options(s: Seq<char>) -> Result<OptionsModel, ParseError> {
    let rest = after_mark(s);
    let d = last_dollar(rest, rest.len() as int);
    if d >= 0 {
        apply_options(split(rest.skip(d + 1), ','))
    } else {
        apply_options(Seq::empty())
    }
}

/// Whether the body begins with the domain anchor `||`.
pub open spec fn has_domain_anchor(body: Seq<char>) -> bool {
    body.len() >= 2 && body[0] == '|' && body[1] == '|'
}

/// Whether the body begins with the start anchor `|`.
pub open spec fn has_start_anchor(body: Seq<char>) -> bool {
    !has_domain_anchor(body) && body.len() >= 1 && body[0] == '|'
}

/// The body after the anchor in front.
pub open spec fn after_front(body: Seq<char>) -> Seq<char> {
    if has_domain_anchor(body) {
        body.skip(2)
    } else if has_start_anchor(body) {
        body.skip(1)
    } else {
        body
    }
}

/// Whether the body ends with the end anchor `|`.
pub open spec fn has_end_anchor(body: Seq<char>) -> bool {
    after_front(body).len() >= 1 && after_front(body).last() == '|'
}

/// The pattern: the body without its anchors.
pub open spec fn pattern_of(body: Seq<char>) -> Seq<char> {
    if has_end_anchor(body) {
        after_front(body).drop_last()
    } else {
        after_front(body)
    }
}

/// The anchors of the body.
pub open spec fn anchors_of(body: Seq<char>) -> Anchors {
    Anchors {
        start: has_start_anchor(body),
        end: has_end_anchor(body),
        domain: has_domain_anchor(body),
    }
}

/// Whether the body is a raw regular expression: no anchors, and the pattern
/// stands between two `/`.
pub open spec fn is_raw_regex(body: Seq<char>) -> bool {
    let p = pattern_of(body);
    !has_domain_anchor(body) && !has_start_anchor(body) && !has_end_anchor(body) && p.len() >= 2
        && p[0] == '/' && p.last() == '/'
}

/// The filter that a body and what its options say make.
pub open spec fn network_from(body: Seq<char>, is_exception: bool, o: OptionsModel) -> Result<
    (FilterModel, Seq<Seq<char>>),
    ParseError,
> {
    let pattern = pattern_of(body);
    if pattern.len() == 0 {
        Err(ParseError::EmptyPattern)
    } else if has_domain_anchor(body) && !is_host_char(pattern[0]) {
        Err(ParseError::MisplacedAnchor)
    } else {
        match resolve_types(o.positive, o.negative) {
            None => Err(ParseError::ConflictingScope),
            Some(types) => {
                let m = network_model(
                    pattern,
                    is_exception,
                    anchors_of(body),
                    types,
                    o.third_party,
                    o.match_case,
                    is_raw_regex(body),
                    o.important,
                    o.included,
                    o.excluded,
                );
                if valid_filter(m) {
                    Ok((m, o.unrecognized))
                } else {
                    Err(ParseError::ConflictingScope)
                }
            },
        }
    }
}

/// A network filter as its text says, with the options that are not known.
/// The text is taken apart in this order: `@@` in front marks an exception;
/// the last `$` that no backslash precedes begins the option list; `||` or
/// `|` in front and `|` behind are anchors; what is left is the pattern,
/// a raw regular expression where it stands between two `/` and there is no
/// anchor. A wrong option list is reported before a wrong pattern.
pub open spec fn parse_network(s: Seq<char>) -> Result<(FilterModel, Seq<Seq<char>>), ParseError> {
    match network_options(s) {
        Err(e) => Err(e),
        Ok(o) => network_from(network_body(s), has_exception_mark(s), o),
    }
}

/// A cosmetic filter as its parts say: the domains before the separator, with
/// commas between them, and the selector after it, kept as it is written.
pub open spec fn parse_cosmetic(prefix: Seq<char>, kind: Separator, selector: Seq<char>) -> Result<
    FilterModel,
    ParseError,
> {
    let scope = if prefix.len() == 0 {
        scope_entries(Seq::empty())
    } else {
        scope_entries(split(prefix, ','))
    };
    match scope {
        None => Err(ParseError::EmptyDomain),
        Some((included, excluded)) => {
            let m = cosmetic_model(selector, kind == Separator::Unhide, included, excluded);
            if selector.len() == 0 {
                Err(ParseError::EmptySelector)
            } else if valid_filter(m) {
                Ok(m)
            } else {
                Err(ParseError::ConflictingScope)
            }
        },
    }
}

/// What a line holds.
pub enum LineModel {
    Blank,
    Comment,
    /// A network filter and its options that are not known.
    Network(FilterModel, Seq<Seq<char>>),
    /// A cosmetic filter and its separator.
    Cosmetic(FilterModel, Separator),
    Malformed(ParseError),
}

/// What a line holds. The blanks at its ends do not count. A line that
/// begins with `!` or `[` is a comment; one with a separator that no
/// network-only character precedes is a cosmetic filter; any other that is
/// not blank is a network filter.
pub open spec fn parse_line_model(line: Seq<char>) -> LineModel {
    let s = trim(line);
    if s.len() == 0 {
        LineModel::Blank
    } else if s[0] == '!' || s[0] == '[' {
        LineModel::Comment
    } else {
        match find_separator(s, 0) {
            Some((i, kind)) => match parse_cosmetic(
                s.take(i),
                kind,
                s.skip(i + separator_len(kind)),
            ) {
                Ok(m) => LineModel::Cosmetic(m, kind),
                Err(e) => LineModel::Malformed(e),
            },
            None => match parse_network(s) {
                Ok((m, unrecognized)) => LineModel::Network(m, unrecognized),
                Err(e) => LineModel::Malformed(e),
            },
        }
    }
}

/// The class of a line.
pub open spec fn classify(line: Seq<char>) -> LineKind {
    match parse_line_model(line) {
        LineModel::Blank => LineKind::Blank,
        LineModel::Comment => LineKind::Comment,
        LineModel::Network(_, _) => LineKind::NetworkFilterLine,
        LineModel::Cosmetic(_, _) => LineKind::CosmeticFilterLine,
        LineModel::Malformed(_) => LineKind::Malformed,
    }
}

/// A network filter and the options of its line that are not known.
pub struct ParsedNetwork {
    pub filter: NetworkFilter,
    pub unrecognized: Vec<Vec<char>>,
}

/// A cosmetic filter and the separator of its line.
pub struct ParsedCosmetic {
    pub filter: CosmeticFilter,
    pub separator: Separator,
}

/// What a line holds.
pub enum ParsedLine {
    Blank,
    Comment,
    Network(ParsedNetwork),
    Cosmetic(ParsedCosmetic),
    Malformed(ParseError),
}

impl View for ParsedLine {
    type V = LineModel;

    open spec fn view(&self) -> LineModel {
        match self {
            ParsedLine::Blank => LineModel::Blank,
            ParsedLine::Comment => LineModel::Comment,
            ParsedLine::Network(p) => LineModel::Network(p.filter@, texts(p.unrecognized@)),
            ParsedLine::Cosmetic(p) => LineModel::Cosmetic(p.filter@, p.separator),
            ParsedLine::Malformed(e) => LineModel::Malformed(*e),
        }
    }
}

/// Whether the parser's result is the one that the model gives.
pub open spec fn network_agrees(
    got: Result<ParsedNetwork, ParseError>,
    want: Result<(FilterModel, Seq<Seq<char>>), ParseError>,
) -> bool {
    match (got, want) {
        (Ok(g), Ok(w)) => g.filter@ == w.0 && texts(g.unrecognized@) == w.1,
        (Err(g), Err(w)) => g == w,
        _ => false,
    }
}

/// Whether the parser's result is the one that the model gives.
pub open spec fn cosmetic_agrees(
    got: Result<ParsedCosmetic, ParseError>,
    kind: Separator,
    want: Result<FilterModel, ParseError>,
) -> bool {
    match (got, want) {
        (Ok(g), Ok(w)) => g.filter@ == w && g.separator == kind,
        (Err(g), Err(w)) => g == w,
        _ => false,
    }
}

/// The position of the last `$` that no backslash precedes, if there is one.
fn find_last_dollar(s: &Vec<char>) -> (r: Option<usize>)
    ensures
        match r {
            Some(i) => i == last_dollar(s@, s@.len() as int) && i < s@.len(),
            None => last_dollar(s@, s@.len() as int) == -1,
        },
{
    let mut j: usize = s.len();
    while j > 0
        invariant
            j <= s.len(),
            last_dollar(s@, s@.len() as int) == last_dollar(s@, j as int),
        decreases j,
    {
        if s[j - 1] == '$' && (j == 1 || s[j - 2] != '\\') {
            return Some(j - 1);
        }
        j -= 1;
    }
    None
}

/// The body of a network filter and what its option list says.
fn take_apart(s: &Vec<char>) -> (r: (bool, Vec<char>, Result<OptionState, ParseError>))
    ensures
        r.0 == has_exception_mark(s@),
        r.1@ == network_body(s@),
        options_agree(r.2, network_options(s@)),
{
    let is_exception = s.len() >= 2 && s[0] == '@' && s[1] == '@';
    let rest = if is_exception {
        slice(s, 2, s.len())
    } else {
        slice(s, 0, s.len())
    };
    assert(s@.subrange(0, s@.len() as int) =~= s@);
    assert(rest@ == after_mark(s@));
    match find_last_dollar(&rest) {
        Some(d) => {
            let text = slice(&rest, d + 1, rest.len());
            let parts = split_text(&text, ',');
            (is_exception, slice(&rest, 0, d), read_options(&parts))
        },
        None => {
            let parts: Vec<Vec<char>> = Vec::new();
            assert(texts(parts@) =~= Seq::<Seq<char>>::empty());
            (is_exception, rest, read_options(&parts))
        },
    }
}

/// The pattern of a body and its anchors.
fn strip_anchors(body: &Vec<char>) -> (r: (Vec<char>, Anchors, bool))
    ensures
        r.0@ == pattern_of(body@),
        r.1 == anchors_of(body@),
        r.2 == is_raw_regex(body@),
{
    let domain = body.len() >= 2 && body[0] == '|' && body[1] == '|';
    let start = !domain && body.len() >= 1 && body[0] == '|';
    let from: usize = if domain {
        2
    } else if start {
        1
    } else {
        0
    };
    assert(after_front(body@) =~= body@.skip(from as int));
    let end = body.len() > from && body[body.len() - 1] == '|';
    let to: usize = if end {
        body.len() - 1
    } else {
        body.len()
    };
    let pattern = slice(body, from, to);
    assert(pattern@ =~= pattern_of(body@));
    let raw_is_regex = !domain && !start && !end && pattern.len() >= 2 && pattern[0] == '/'
        && pattern[pattern.len() - 1] == '/';
    (pattern, Anchors { start, end, domain }, raw_is_regex)
}

/// Makes the filter from a body and what its options say.
fn build_network(body: &Vec<char>, is_exception: bool, o: OptionState) -> (r: Result<
    ParsedNetwork,
    ParseError,
>)
    ensures
        network_agrees(r, network_from(body@, is_exception, o@)),
{
    let (pattern, anchors, raw_is_regex) = strip_anchors(body);
    if pattern.len() == 0 {
        return Err(ParseError::EmptyPattern);
    }
    if anchors.domain && !crate::filter::host_char(pattern[0]) {
        return Err(ParseError::MisplacedAnchor);
    }
    let types = match resolved_types(o.positive, o.negative) {
        None => {
            return Err(ParseError::ConflictingScope);
        },
        Some(t) => t,
    };
    let options = NetworkOptions {
        domains_included: o.included,
        domains_excluded: o.excluded,
        resource_types: types,
        third_party: o.third_party,
        match_case: o.match_case,
        raw_is_regex,
        important: o.important,
    };
    match NetworkFilter::new(pattern, is_exception, anchors, options) {
        Some(filter) => Ok(ParsedNetwork { filter, unrecognized: o.unrecognized }),
        None => Err(ParseError::ConflictingScope),
    }
}

/// Parses the text of a network filter, without blanks at its ends.
pub fn parse_network_text(s: &Vec<char>) -> (r: Result<ParsedNetwork, ParseError>)
    ensures
        network_agrees(r, parse_network(s@)),
{
    let (is_exception, body, options) = take_apart(s);
    match options {
        Err(e) => Err(e),
        Ok(o) => build_network(&body, is_exception, o),
    }
}

/// Parses a network filter; the blanks at the ends of the line do not count.
pub fn parse_network_filter(line: &str) -> (r: Result<ParsedNetwork, ParseError>)
    ensures
        network_agrees(r, parse_network(trim(line@))),
{
    let chars = chars_of(line);
    let s = trimmed(&chars);
    parse_network_text(&s)
}

/// Parses a cosmetic filter from the parts of its line.
pub fn parse_cosmetic_parts(prefix: &Vec<char>, kind: Separator, selector: &Vec<char>) -> (r:
    Result<ParsedCosmetic, ParseError>)
    ensures
        cosmetic_agrees(r, kind, parse_cosmetic(prefix@, kind, selector@)),
{
    let entries = if prefix.len() == 0 {
        let none: Vec<Vec<char>> = Vec::new();
        assert(texts(none@) =~= Seq::<Seq<char>>::empty());
        none
    } else {
        split_text(prefix, ',')
    };
    let scope = match read_scope(&entries) {
        None => {
            return Err(ParseError::EmptyDomain);
        },
        Some(scope) => scope,
    };
    if selector.len() == 0 {
        return Err(ParseError::EmptySelector);
    }
    let text = slice(selector, 0, selector.len());
    assert(selector@.subrange(0, selector@.len() as int) =~= selector@);
    let is_exception = match kind {
        Separator::Unhide => true,
        _ => false,
    };
    match CosmeticFilter::new(text, scope.0, scope.1, is_exception) {
        Some(filter) => Ok(ParsedCosmetic { filter, separator: kind }),
        None => Err(ParseError::ConflictingScope),
    }
}

/// Parses a cosmetic filter from the parts of its line: the domains before
/// the separator, the separator, and the selector after it.
pub fn parse_cosmetic_filter(prefix: &str, kind: Separator, selector: &str) -> (r: Result<
    ParsedCosmetic,
    ParseError,
>)
    ensures
        cosmetic_agrees(r, kind, parse_cosmetic(prefix@, kind, selector@)),
{
    let p = chars_of(prefix);
    let s = chars_of(selector);
    parse_cosmetic_parts(&p, kind, &s)
}

/// The separator that begins at position `i`, if one does.
fn separator_here(s: &Vec<char>, i: usize) -> (r: Option<Separator>)
    requires
        i < s@.len(),
    ensures
        r == separator_at(s@, i as int),
{
    if s[i] != '#' {
        None
    } else if s.len() >= 2 && i < s.len() - 1 && s[i + 1] == '#' {
        Some(Separator::Hide)
    } else if s.len() >= 3 && i < s.len() - 2 && s[i + 1] == '@' && s[i + 2] == '#' {
        Some(Separator::Unhide)
    } else if s.len() >= 3 && i < s.len() - 2 && s[i + 1] == '?' && s[i + 2] == '#' {
        Some(Separator::Procedural)
    } else {
        None
    }
}

/// The first separator that no network-only character precedes.
pub fn locate_separator(s: &Vec<char>) -> (r: Option<(usize, Separator)>)
    ensures
        match r {
            Some((i, k)) => find_separator(s@, 0) == Some((i as int, k)) && i + separator_len(k)
                <= s@.len(),
            None => find_separator(s@, 0) is None,
        },
{
    let mut i: usize = 0;
    while i < s.len()
        invariant
            i <= s.len(),
            find_separator(s@, 0) == find_separator(s@, i as int),
        decreases s.len() - i,
    {
        match separator_here(s, i) {
            Some(k) => {
                return Some((i, k));
            },
            None => {},
        }
        let c = s[i];
        if c == '|' || c == '^' || c == '$' || c == '/' || c == '@' {
            return None;
        }
        i += 1;
    }
    None
}

/// Parses the characters of a line.
pub fn parse_line_text(line: &Vec<char>) -> (r: ParsedLine)
    ensures
        r@ == parse_line_model(line@),
{
    let s = trimmed(line);
    if s.len() == 0 {
        return ParsedLine::Blank;
    }
    if s[0] == '!' || s[0] == '[' {
        return ParsedLine::Comment;
    }
    match locate_separator(&s) {
        Some((i, kind)) => {
            let width: usize = match kind {
                Separator::Hide => 2,
                _ => 3,
            };
            let prefix = slice(&s, 0, i);
            let selector = slice(&s, i + width, s.len());
            match parse_cosmetic_parts(&prefix, kind, &selector) {
                Ok(p) => ParsedLine::Cosmetic(p),
                Err(e) => ParsedLine::Malformed(e),
            }
        },
        None => match parse_network_text(&s) {
            Ok(p) => ParsedLine::Network(p),
            Err(e) => ParsedLine::Malformed(e),
        },
    }
}

/// Parses a line of a filter list.
pub fn parse_line(line: &str) -> (r: ParsedLine)
    ensures
        r@ == parse_line_model(line@),
{
    let chars = chars_of(line);
    parse_line_text(&chars)
}

/// Classifies a line of a filter list.
pub fn classify_line(line: &str) -> (r: LineKind)
    ensures
        r == classify(line@),
{
    match parse_line(line) {
        ParsedLine::Blank => LineKind::Blank,
        ParsedLine::Comment => LineKind::Comment,
        ParsedLine::Network(_) => LineKind::NetworkFilterLine,
        ParsedLine::Cosmetic(_) => LineKind::CosmeticFilterLine,
        ParsedLine::Malformed(_) => LineKind::Malformed,
    }
}

} // verus!
