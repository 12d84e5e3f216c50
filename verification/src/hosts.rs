//! The lines of a hosts file: an address and a host name, or a host name
//! alone, each of which blocks the host as `||host^` does.

use crate::filter::{host_char, network_model, NetworkFilter, NetworkOptions};
use crate::model::{is_host_char, valid_filter, Anchors, FilterModel};
use crate::options::ParseError;
use crate::parse::{LineModel, ParsedLine, ParsedNetwork};
use crate::text::{blank, find_char, find_from, is_blank, slice, text_is, texts, trim, trimmed};
use vstd::prelude::*;

verus! {

/// A character of a host name: a letter, a digit, `-`, `.`, `_`, or any
/// character outside ASCII.
pub open spec fn is_name_char(c: char) -> bool {
    ('a' <= c && c <= 'z') || ('A' <= c && c <= 'Z') || ('0' <= c && c <= '9') || c == '-' || c
        == '.' || c == '_' || (c as u32) >= 128
}

/// Whether the text is a host name: name characters only, the first of which
/// can begin a host name.
pub open spec fn is_host_name(s: Seq<char>) -> bool {
    s.len() > 0 && is_host_char(s[0]) && forall|i: int| 0 <= i < s.len() ==> is_name_char(s[i])
}

/// Whether the text holds a blank.
pub open spec fn has_blank(s: Seq<char>) -> bool {
    exists|i: int| 0 <= i < s.len() && is_blank(s[i])
}

/// The position at which the last field before `j` begins.
pub open spec fn field_start(s: Seq<char>, j: int) -> int
    decreases j,
{
    if 0 < j <= s.len() && !is_blank(s[j - 1]) {
        field_start(s, j - 1)
    } else {
        j
    }
}

/// The line without a comment: what stands before the first `#`, without the
/// blanks at its ends.
pub open spec fn hosts_entry(s: Seq<char>) -> Seq<char> {
    trim(s.take(find_from(s, '#', 0)))
}

/// The filter that blocks a host: the host name and a separator behind a
/// domain anchor, with no options.
pub open spec fn host_model(host: Seq<char>) -> FilterModel {
    network_model(
        host.push('^'),
        false,
        Anchors { start: false, end: false, domain: true },
        0,
        None,
        false,
        false,
        false,
        Seq::empty(),
        Seq::empty(),
    )
}

/// What a line of a hosts file holds. The blanks at its ends do not count. A
/// line that begins with `!` or `#` is a comment, and so is what follows a
/// `#` in any line. What is left is a host name, or an address and a host
/// name with blanks between them; an entry for `localhost` counts as a
/// comment.
pub open spec fn parse_hosts_model(line: Seq<char>) -> LineModel {
    let s = trim(line);
    if s.len() == 0 {
        LineModel::Blank
    } else if s[0] == '!' || s[0] == '#' {
        LineModel::Comment
    } else {
        let entry = hosts_entry(s);
        let k = field_start(entry, entry.len() as int);
        let host = entry.skip(k);
        if has_blank(trim(entry.take(k))) {
            LineModel::Malformed(ParseError::TooManyFields)
        } else if host == "localhost"@ {
            LineModel::Comment
        } else if !is_host_name(host) {
            LineModel::Malformed(ParseError::BadHostName)
        } else {
            LineModel::Network(host_model(host), Seq::empty())
        }
    }
}

/// Whether the text holds a blank.
fn holds_blank(s: &Vec<char>) -> (r: bool)
    ensures
        r == has_blank(s@),
{
    let mut i: usize = 0;
    while i < s.len()
        invariant
            i <= s.len(),
            forall|j: int| 0 <= j < i ==> !is_blank(s@[j]),
        decreases s.len() - i,
    {
        if blank(s[i]) {
            return true;
        }
        i += 1;
    }
    false
}

/// Whether `c` is a character of a host name.
fn name_char(c: char) -> (r: bool)
    ensures
        r == is_name_char(c),
{
    ('a' <= c && c <= 'z') || ('A' <= c && c <= 'Z') || ('0' <= c && c <= '9') || c == '-' || c
        == '.' || c == '_' || (c as u32) >= 128
}

/// Whether the text is a host name.
pub fn host_name(s: &Vec<char>) -> (r: bool)
    ensures
        r == is_host_name(s@),
{
    if s.len() == 0 || !host_char(s[0]) {
        return false;
    }
    let mut i: usize = 0;
    while i < s.len()
        invariant
            i <= s.len(),
            forall|j: int| 0 <= j < i ==> is_name_char(s@[j]),
        decreases s.len() - i,
    {
        if !name_char(s[i]) {
            return false;
        }
        i += 1;
    }
    true
}

/// Parses the characters of a line of a hosts file.
pub fn parse_hosts_text(line: &Vec<char>) -> (r: ParsedLine)
    ensures
        r@ == parse_hosts_model(line@),
{
    let s = trimmed(line);
    if s.len() == 0 {
        return ParsedLine::Blank;
    }
    if s[0] == '!' || s[0] == '#' {
        return ParsedLine::Comment;
    }
    let cut = find_char(&s, '#', 0);
    let before = slice(&s, 0, cut);
    assert(before@ =~= s@.take(cut as int));
    let entry = trimmed(&before);
    let mut k: usize = entry.len();
    while k > 0 && !blank(entry[k - 1])
        invariant
            k <= entry.len(),
            field_start(entry@, entry@.len() as int) == field_start(entry@, k as int),
        decreases k,
    {
        k -= 1;
    }
    let host = slice(&entry, k, entry.len());
    assert(host@ =~= entry@.skip(k as int));
    let front = slice(&entry, 0, k);
    assert(front@ =~= entry@.take(k as int));
    let address = trimmed(&front);
    if holds_blank(&address) {
        return ParsedLine::Malformed(ParseError::TooManyFields);
    }
    if text_is(&host, "localhost") {
        return ParsedLine::Comment;
    }
    if !host_name(&host) {
        return ParsedLine::Malformed(ParseError::BadHostName);
    }
    let mut pattern = host;
    pattern.push('^');
    let anchors = Anchors { start: false, end: false, domain: true };
    let made = NetworkFilter::new(pattern, false, anchors, NetworkOptions::new());
    proof {
        let m = host_model(entry@.skip(k as int));
        assert(crate::domains::names_sorted(Seq::<Seq<char>>::empty()));
        assert(valid_filter(m));
    }
    assert(made is Some);
    let unrecognized: Vec<Vec<char>> = Vec::new();
    assert(texts(unrecognized@) =~= Seq::<Seq<char>>::empty());
    ParsedLine::Network(ParsedNetwork { filter: made.unwrap(), unrecognized })
}

} // verus!
