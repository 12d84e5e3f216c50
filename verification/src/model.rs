//! The mathematical model of a filter, the order that makes sets of filters
//! canonical, and what a filter's scope means.

use crate::domains::{names_disjoint, names_sorted};
use crate::order::strict_total;
use crate::text::{lemma_names_order, lemma_text_order, names_lt, text_lt};
use vstd::prelude::*;

verus! {

/// What a filter acts on.
#[derive(Clone, Copy, Debug, PartialEq, Eq, Structural)]
pub enum FilterKind {
    /// Requests, matched by URL.
    Network,
    /// Page elements, matched by selector.
    Cosmetic,
}

/// Where in a URL a pattern has to match.
#[derive(Clone, Copy, Debug, PartialEq, Eq, Structural)]
pub struct Anchors {
    /// `|` in front: at the start of the URL.
    pub start: bool,
    /// `|` behind: at the end of the URL.
    pub end: bool,
    /// `||` in front: at the start of a domain label.
    pub domain: bool,
}

/// The kinds of resource that a request can load.
#[derive(Clone, Copy, Debug, PartialEq, Eq, Structural)]
pub enum ResourceType {
    Script,
    Image,
    Stylesheet,
    Document,
    Subdocument,
    XmlHttpRequest,
    Font,
    Media,
    Object,
    Websocket,
    Ping,
    Other,
}

/// The number of resource types.
pub const RESOURCE_TYPE_COUNT: u16 = 12;

/// The mask that holds every resource type.
pub const ALL_RESOURCE_TYPES: u16 = 0x0FFF;

/// The position of a resource type in a mask.
pub open spec fn type_index(t: ResourceType) -> u16 {
    match t {
        ResourceType::Script => 0,
        ResourceType::Image => 1,
        ResourceType::Stylesheet => 2,
        ResourceType::Document => 3,
        ResourceType::Subdocument => 4,
        ResourceType::XmlHttpRequest => 5,
        ResourceType::Font => 6,
        ResourceType::Media => 7,
        ResourceType::Object => 8,
        ResourceType::Websocket => 9,
        ResourceType::Ping => 10,
        ResourceType::Other => 11,
    }
}

/// The mask that holds `t` alone.
pub open spec fn type_bit(t: ResourceType) -> u16 {
    1u16 << type_index(t)
}

/// Whether the mask names `t`.
pub open spec fn mask_has(mask: u16, t: ResourceType) -> bool {
    mask & type_bit(t) != 0
}

/// A filter, network or cosmetic, as a mathematical value. A cosmetic
/// filter leaves the fields that only a network filter has at their defaults.
/// With its domain lists canonical, the value is the filter's fingerprint:
/// two filters are duplicates exactly if their values are equal.
pub struct FilterModel {
    pub kind: FilterKind,
    /// The URL pattern without its anchors, or the selector.
    pub text: Seq<char>,
    pub is_exception: bool,
    pub anchors: Anchors,
    /// The resource types as a mask; zero leaves the type unrestricted.
    pub types: u16,
    pub third_party: Option<bool>,
    pub match_case: bool,
    pub raw_is_regex: bool,
    pub important: bool,
    /// The domains the filter is limited to; none leaves it unrestricted.
    pub included: Seq<Seq<char>>,
    /// The domains the filter does not apply on.
    pub excluded: Seq<Seq<char>>,
}

/// One for true, zero for false.
pub open spec fn flag(b: bool) -> int {
    if b {
        1
    } else {
        0
    }
}

/// Zero for any party, one for first-party, two for third-party.
pub open spec fn party_code(p: Option<bool>) -> int {
    match p {
        None => 0,
        Some(false) => 1,
        Some(true) => 2,
    }
}

/// Kind, exception flag, anchors, party and option flags as one number:
/// different values of these fields give different codes.
pub open spec fn traits_code(m: FilterModel) -> int {
    flag(m.is_exception) + 2 * flag(m.anchors.start) + 4 * flag(m.anchors.end) + 8 * flag(
        m.anchors.domain,
    ) + 16 * party_code(m.third_party) + 64 * flag(m.match_case) + 128 * flag(m.raw_is_regex)
        + 256 * flag(m.important) + 512 * flag(m.kind == FilterKind::Cosmetic)
}

/// Two filters agree in everything but their domain sets: they can be merged.
pub open spec fn same_merge_key(a: FilterModel, b: FilterModel) -> bool {
    a.text == b.text && traits_code(a) == traits_code(b) && a.types == b.types
}

/// Two filters agree in everything but their domain sets and resource types.
pub open spec fn same_match(a: FilterModel, b: FilterModel) -> bool {
    a.text == b.text && traits_code(a) == traits_code(b)
}

/// The fingerprint order of filters: by text, then by kind and flags, then by
/// resource types, then by the two domain lists.
pub open spec fn filter_lt(a: FilterModel, b: FilterModel) -> bool {
    if a.text != b.text {
        text_lt(a.text, b.text)
    } else if traits_code(a) != traits_code(b) {
        traits_code(a) < traits_code(b)
    } else if a.types != b.types {
        a.types < b.types
    } else if a.included != b.included {
        names_lt(a.included, b.included)
    } else {
        names_lt(a.excluded, b.excluded)
    }
}

/// The order of merge keys: the fingerprint order without the domain lists.
pub open spec fn key_lt(a: FilterModel, b: FilterModel) -> bool {
    if a.text != b.text {
        text_lt(a.text, b.text)
    } else if traits_code(a) != traits_code(b) {
        traits_code(a) < traits_code(b)
    } else {
        a.types < b.types
    }
}

/// The order of what a filter matches on: the order of merge keys without
/// the resource types.
pub open spec fn match_lt(a: FilterModel, b: FilterModel) -> bool {
    if a.text != b.text {
        text_lt(a.text, b.text)
    } else {
        traits_code(a) < traits_code(b)
    }
}

/// The fingerprint order goes by the merge key first.
pub proof fn lemma_filter_key(a: FilterModel, b: FilterModel)
    requires
        filter_lt(a, b),
    ensures
        key_lt(a, b) || same_merge_key(a, b),
{
}

/// The order of merge keys is part of the fingerprint order, and goes by what
/// a filter matches on first.
pub proof fn lemma_key_lt(a: FilterModel, b: FilterModel)
    requires
        key_lt(a, b),
    ensures
        filter_lt(a, b),
        !same_merge_key(a, b),
        match_lt(a, b) || same_match(a, b),
{
    lemma_text_order();
    let t = |x: Seq<char>, y: Seq<char>| text_lt(x, y);
    assert(!t(a.text, a.text));
}

/// The order of merge keys is transitive, and filters with the same merge key
/// stand alike in it.
pub proof fn lemma_key_transitive(a: FilterModel, b: FilterModel, c: FilterModel)
    requires
        key_lt(a, b) || same_merge_key(a, b),
        key_lt(b, c) || same_merge_key(b, c),
        key_lt(a, b) || key_lt(b, c),
    ensures
        key_lt(a, c),
{
    lemma_text_order();
    let t = |x: Seq<char>, y: Seq<char>| text_lt(x, y);
    assert(t(a.text, b.text) || a.text == b.text);
    assert(t(b.text, c.text) || b.text == c.text);
    assert(t(a.text, b.text) && t(b.text, c.text) ==> t(a.text, c.text));
    assert(!t(a.text, a.text));
}

/// The order of what filters match on is transitive and irreflexive, and
/// filters that match the same stand alike in it.
pub proof fn lemma_match_transitive(a: FilterModel, b: FilterModel, c: FilterModel)
    requires
        match_lt(a, b) || same_match(a, b),
        match_lt(b, c) || same_match(b, c),
        match_lt(a, b) || match_lt(b, c),
    ensures
        match_lt(a, c),
        !same_match(a, c),
{
    lemma_text_order();
    let t = |x: Seq<char>, y: Seq<char>| text_lt(x, y);
    assert(t(a.text, b.text) || a.text == b.text);
    assert(t(b.text, c.text) || b.text == c.text);
    assert(t(a.text, b.text) && t(b.text, c.text) ==> t(a.text, c.text));
    assert(!t(a.text, a.text));
}

/// The fingerprint order, as a value.
pub open spec fn filter_order() -> spec_fn(FilterModel, FilterModel) -> bool {
    |a: FilterModel, b: FilterModel| filter_lt(a, b)
}

/// Filters with the same code agree in kind, flags, anchors and party.
pub proof fn lemma_traits_code(a: FilterModel, b: FilterModel)
    requires
        traits_code(a) == traits_code(b),
    ensures
        a.kind == b.kind,
        a.is_exception == b.is_exception,
        a.anchors == b.anchors,
        a.third_party == b.third_party,
        a.match_case == b.match_case,
        a.raw_is_regex == b.raw_is_regex,
        a.important == b.important,
{
}

/// The fingerprint order is a strict total order.
pub proof fn lemma_filter_order()
    ensures
        strict_total(filter_order()),
{
    lemma_text_order();
    lemma_names_order();
    let lt = filter_order();
    let t = |x: Seq<char>, y: Seq<char>| text_lt(x, y);
    let n = |x: Seq<Seq<char>>, y: Seq<Seq<char>>| names_lt(x, y);
    assert forall|x: FilterModel| !#[trigger] lt(x, x) by {
        assert(!n(x.excluded, x.excluded));
    }
    assert forall|x: FilterModel, y: FilterModel, z: FilterModel| #[trigger] lt(x, y)
        && #[trigger] lt(y, z) implies lt(x, z) by {
        assert(t(x.text, y.text) || x.text == y.text);
        assert(t(y.text, z.text) || y.text == z.text);
        assert(t(x.text, y.text) && t(y.text, z.text) ==> t(x.text, z.text));
        assert(!t(x.text, x.text));
        if x.text == y.text && y.text == z.text && traits_code(x) == traits_code(y) && traits_code(
            y,
        ) == traits_code(z) && x.types == y.types && y.types == z.types {
            assert(n(x.included, y.included) || x.included == y.included);
            assert(n(y.included, z.included) || y.included == z.included);
            assert(n(x.included, y.included) && n(y.included, z.included) ==> n(
                x.included,
                z.included,
            ));
            assert(!n(x.included, x.included));
            if x.included == y.included && y.included == z.included {
                assert(n(x.excluded, y.excluded) && n(y.excluded, z.excluded));
            }
        }
    }
    assert forall|x: FilterModel, y: FilterModel| #[trigger] lt(x, y) || x == y || lt(y, x) by {
        assert(t(x.text, y.text) || x.text == y.text || t(y.text, x.text));
        assert(n(x.included, y.included) || x.included == y.included || n(
            y.included,
            x.included,
        ));
        assert(n(x.excluded, y.excluded) || x.excluded == y.excluded || n(
            y.excluded,
            x.excluded,
        ));
        if traits_code(x) == traits_code(y) {
            lemma_traits_code(x, y);
        }
    }
}

/// A character that can begin a host name.
pub open spec fn is_host_char(c: char) -> bool {
    ('a' <= c && c <= 'z') || ('A' <= c && c <= 'Z') || ('0' <= c && c <= '9') || c == '*' || (
    c as u32) >= 128
}

/// Every name of the list is non-empty.
pub open spec fn names_nonempty(q: Seq<Seq<char>>) -> bool {
    forall|i: int| 0 <= i < q.len() ==> (#[trigger] q[i]).len() > 0
}

/// The invariant of a filter: its text is not empty, its domain sets are
/// canonical and disjoint, a domain anchor stands before the start of a host
/// name and not together with a start anchor, a raw regular expression has
/// no anchors, and a cosmetic filter has none of the network options.
pub open spec fn valid_filter(m: FilterModel) -> bool {
    &&& m.text.len() > 0
    &&& names_sorted(m.included)
    &&& names_sorted(m.excluded)
    &&& names_nonempty(m.included)
    &&& names_nonempty(m.excluded)
    &&& names_disjoint(m.included, m.excluded)
    &&& m.types <= ALL_RESOURCE_TYPES
    &&& !(m.anchors.start && m.anchors.domain)
    &&& (m.anchors.domain ==> is_host_char(m.text[0]))
    &&& (m.raw_is_regex ==> !m.anchors.start && !m.anchors.end && !m.anchors.domain)
    &&& (m.kind == FilterKind::Cosmetic ==> {
        &&& m.anchors == Anchors { start: false, end: false, domain: false }
        &&& m.types == 0
        &&& m.third_party is None
        &&& !m.match_case
        &&& !m.raw_is_regex
        &&& !m.important
    })
}

/// Whether the filter applies on pages of domain `d`.
pub open spec fn scope_has(m: FilterModel, d: Seq<char>) -> bool {
    (m.included.len() == 0 || m.included.contains(d)) && !m.excluded.contains(d)
}

/// Whether the filter applies to resources of type `t`.
pub open spec fn types_have(m: FilterModel, t: ResourceType) -> bool {
    m.types == 0 || mask_has(m.types, t)
}

} // verus!
