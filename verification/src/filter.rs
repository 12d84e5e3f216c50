//! The filter records: network filters, cosmetic filters, and the one type
//! that a filter set holds.

use crate::domains::{names_disjoint, names_sorted, DomainSet};
use crate::model::{
    filter_order, flag, is_host_char, lemma_traits_code, names_nonempty, same_match,
    same_merge_key, traits_code, type_bit, valid_filter, Anchors, FilterKind, FilterModel,
    ALL_RESOURCE_TYPES,
};
use crate::text::{copy_text, lemma_names_order, lemma_text_order, rank_of, text_rank, Rank};
use vstd::prelude::*;

verus! {

/// The options of a network filter.
pub struct NetworkOptions {
    pub domains_included: DomainSet,
    pub domains_excluded: DomainSet,
    /// The resource types as a mask of `type_bit`s; zero is every type.
    pub resource_types: u16,
    pub third_party: Option<bool>,
    pub match_case: bool,
    pub raw_is_regex: bool,
    pub important: bool,
}

/// A filter on request URLs.
pub struct NetworkFilter {
    pub(crate) pattern: Vec<char>,
    pub(crate) is_exception: bool,
    pub(crate) anchors: Anchors,
    pub(crate) options: NetworkOptions,
}

/// A filter that hides page elements.
pub struct CosmeticFilter {
    pub(crate) selector: Vec<char>,
    pub(crate) domains_included: DomainSet,
    pub(crate) domains_excluded: DomainSet,
    pub(crate) is_exception: bool,
}

/// A filter of either kind.
pub enum Filter {
    Network(NetworkFilter),
    Cosmetic(CosmeticFilter),
}

/// The model of a network filter with these parts.
pub open spec fn network_model(
    pattern: Seq<char>,
    is_exception: bool,
    anchors: Anchors,
    types: u16,
    third_party: Option<bool>,
    match_case: bool,
    raw_is_regex: bool,
    important: bool,
    included: Seq<Seq<char>>,
    excluded: Seq<Seq<char>>,
) -> FilterModel {
    FilterModel {
        kind: FilterKind::Network,
        text: pattern,
        is_exception,
        anchors,
        types,
        third_party,
        match_case,
        raw_is_regex,
        important,
        included,
        excluded,
    }
}

/// The model of a cosmetic filter with these parts.
pub open spec fn cosmetic_model(
    selector: Seq<char>,
    is_exception: bool,
    included: Seq<Seq<char>>,
    excluded: Seq<Seq<char>>,
) -> FilterModel {
    FilterModel {
        kind: FilterKind::Cosmetic,
        text: selector,
        is_exception,
        anchors: Anchors { start: false, end: false, domain: false },
        types: 0,
        third_party: None,
        match_case: false,
        raw_is_regex: false,
        important: false,
        included,
        excluded,
    }
}

/// The model of a network filter with this pattern, anchors and options.
pub open spec fn network_model_of(
    pattern: Seq<char>,
    is_exception: bool,
    anchors: Anchors,
    options: NetworkOptions,
) -> FilterModel {
    network_model(
        pattern,
        is_exception,
        anchors,
        options.resource_types,
        options.third_party,
        options.match_case,
        options.raw_is_regex,
        options.important,
        options.domains_included@,
        options.domains_excluded@,
    )
}

impl View for NetworkFilter {
    type V = FilterModel;

    closed spec fn view(&self) -> FilterModel {
        network_model_of(self.pattern@, self.is_exception, self.anchors, self.options)
    }
}

impl View for CosmeticFilter {
    type V = FilterModel;

    closed spec fn view(&self) -> FilterModel {
        cosmetic_model(
            self.selector@,
            self.is_exception,
            self.domains_included@,
            self.domains_excluded@,
        )
    }
}

impl View for Filter {
    type V = FilterModel;

    open spec fn view(&self) -> FilterModel {
        match self {
            Filter::Network(f) => f@,
            Filter::Cosmetic(f) => f@,
        }
    }
}

/// Whether `c` can begin a host name.
pub fn host_char(c: char) -> (r: bool)
    ensures
        r == is_host_char(c),
{
    ('a' <= c && c <= 'z') || ('A' <= c && c <= 'Z') || ('0' <= c && c <= '9') || c == '*' || (
    c as u32) >= 128
}

/// Whether no name of the set is empty.
fn all_nonempty(set: &DomainSet) -> (r: bool)
    ensures
        r == names_nonempty(set@),
{
    let mut i: usize = 0;
    while i < set.len()
        invariant
            i <= set@.len(),
            forall|j: int| 0 <= j < i ==> (#[trigger] set@[j]).len() > 0,
        decreases set@.len() - i,
    {
        if set.name(i).len() == 0 {
            return false;
        }
        i += 1;
    }
    true
}

/// Whether the two sets can be the scope of a filter.
fn scope_ok(included: &DomainSet, excluded: &DomainSet) -> (r: bool)
    ensures
        r == (names_nonempty(included@) && names_nonempty(excluded@) && names_disjoint(
            included@,
            excluded@,
        )),
        names_sorted(included@),
        names_sorted(excluded@),
{
    proof {
        use_type_invariant(included);
        use_type_invariant(excluded);
    }
    all_nonempty(included) && all_nonempty(excluded) && included.is_disjoint(excluded)
}

impl NetworkOptions {
    /// No restriction at all.
    pub fn new() -> (r: NetworkOptions)
        ensures
            r.domains_included@ == Seq::<Seq<char>>::empty(),
            r.domains_excluded@ == Seq::<Seq<char>>::empty(),
            r.resource_types == 0,
            r.third_party is None,
            !r.match_case,
            !r.raw_is_regex,
            !r.important,
    {
        NetworkOptions {
            domains_included: DomainSet::new(),
            domains_excluded: DomainSet::new(),
            resource_types: 0,
            third_party: None,
            match_case: false,
            raw_is_regex: false,
            important: false,
        }
    }
}

impl NetworkFilter {
    /// A record always meets the invariant of a filter.
    #[verifier::type_invariant]
    pub open spec fn well_formed(self) -> bool {
        valid_filter(self@)
    }

    /// The filter with these parts, if they meet the invariant of a filter.
    pub fn new(
        pattern: Vec<char>,
        is_exception: bool,
        anchors: Anchors,
        options: NetworkOptions,
    ) -> (r: Option<NetworkFilter>)
        ensures
            r is Some <==> valid_filter(
                network_model_of(pattern@, is_exception, anchors, options),
            ),
            r matches Some(f) ==> f@ == network_model_of(pattern@, is_exception, anchors, options),
    {
        if pattern.len() == 0 {
            return None;
        }
        if !scope_ok(&options.domains_included, &options.domains_excluded) {
            return None;
        }
        if options.resource_types > ALL_RESOURCE_TYPES {
            return None;
        }
        if anchors.start && anchors.domain {
            return None;
        }
        if anchors.domain && !host_char(pattern[0]) {
            return None;
        }
        if options.raw_is_regex && (anchors.start || anchors.end || anchors.domain) {
            return None;
        }
        Some(NetworkFilter { pattern, is_exception, anchors, options })
    }

    /// The pattern, without its anchors.
    pub fn pattern(&self) -> (r: &Vec<char>)
        ensures
            r@ == self@.text,
    {
        &self.pattern
    }

    /// Whether the filter is an exception.
    pub fn is_exception(&self) -> (r: bool)
        ensures
            r == self@.is_exception,
    {
        self.is_exception
    }

    /// The anchors of the pattern.
    pub fn anchors(&self) -> (r: Anchors)
        ensures
            r == self@.anchors,
    {
        self.anchors
    }

    /// The options.
    pub fn options(&self) -> (r: &NetworkOptions)
        ensures
            r.domains_included@ == self@.included,
            r.domains_excluded@ == self@.excluded,
            r.resource_types == self@.types,
            r.third_party == self@.third_party,
            r.match_case == self@.match_case,
            r.raw_is_regex == self@.raw_is_regex,
            r.important == self@.important,
    {
        &self.options
    }
}

impl CosmeticFilter {
    /// A record always meets the invariant of a filter.
    #[verifier::type_invariant]
    pub open spec fn well_formed(self) -> bool {
        valid_filter(self@)
    }

    /// The filter with these parts, if they meet the invariant of a filter.
    pub fn new(
        selector: Vec<char>,
        domains_included: DomainSet,
        domains_excluded: DomainSet,
        is_exception: bool,
    ) -> (r: Option<CosmeticFilter>)
        ensures
            r is Some <==> valid_filter(
                cosmetic_model(selector@, is_exception, domains_included@, domains_excluded@),
            ),
            r matches Some(f) ==> f@ == cosmetic_model(
                selector@,
                is_exception,
                domains_included@,
                domains_excluded@,
            ),
    {
        if selector.len() == 0 {
            return None;
        }
        if !scope_ok(&domains_included, &domains_excluded) {
            return None;
        }
        Some(CosmeticFilter { selector, domains_included, domains_excluded, is_exception })
    }

    /// The selector, as written.
    pub fn selector(&self) -> (r: &Vec<char>)
        ensures
            r@ == self@.text,
    {
        &self.selector
    }

    /// Whether the filter is an exception.
    pub fn is_exception(&self) -> (r: bool)
        ensures
            r == self@.is_exception,
    {
        self.is_exception
    }

    /// The domains the filter is limited to.
    pub fn domains_included(&self) -> (r: &DomainSet)
        ensures
            r@ == self@.included,
    {
        &self.domains_included
    }

    /// The domains the filter does not apply on.
    pub fn domains_excluded(&self) -> (r: &DomainSet)
        ensures
            r@ == self@.excluded,
    {
        &self.domains_excluded
    }
}

impl NetworkFilter {
    /// Kind, flags, anchors and party as one number.
    fn code(&self) -> (c: u32)
        ensures
            c == traits_code(self@),
    {
        let party: u32 = match self.options.third_party {
            None => 0,
            Some(false) => 16,
            Some(true) => 32,
        };
        let mut c: u32 = party;
        if self.is_exception {
            c += 1;
        }
        if self.anchors.start {
            c += 2;
        }
        if self.anchors.end {
            c += 4;
        }
        if self.anchors.domain {
            c += 8;
        }
        if self.options.match_case {
            c += 64;
        }
        if self.options.raw_is_regex {
            c += 128;
        }
        if self.options.important {
            c += 256;
        }
        c
    }
}

impl CosmeticFilter {
    /// Kind and exception flag as one number.
    fn code(&self) -> (c: u32)
        ensures
            c == traits_code(self@),
    {
        if self.is_exception {
            513
        } else {
            512
        }
    }
}

impl Filter {
    /// The kind of the filter; a filter record always meets the invariant.
    pub fn kind(&self) -> (r: FilterKind)
        ensures
            r == self@.kind,
            valid_filter(self@),
    {
        match self {
            Filter::Network(f) => {
                proof {
                    use_type_invariant(f);
                }
                FilterKind::Network
            },
            Filter::Cosmetic(f) => {
                proof {
                    use_type_invariant(f);
                }
                FilterKind::Cosmetic
            },
        }
    }

    /// The pattern or the selector.
    pub fn text(&self) -> (r: &Vec<char>)
        ensures
            r@ == self@.text,
    {
        match self {
            Filter::Network(f) => &f.pattern,
            Filter::Cosmetic(f) => &f.selector,
        }
    }

    /// The domains the filter is limited to.
    pub fn included(&self) -> (r: &DomainSet)
        ensures
            r@ == self@.included,
    {
        match self {
            Filter::Network(f) => &f.options.domains_included,
            Filter::Cosmetic(f) => &f.domains_included,
        }
    }

    /// The domains the filter does not apply on.
    pub fn excluded(&self) -> (r: &DomainSet)
        ensures
            r@ == self@.excluded,
    {
        match self {
            Filter::Network(f) => &f.options.domains_excluded,
            Filter::Cosmetic(f) => &f.domains_excluded,
        }
    }

    /// The resource types as a mask.
    pub fn types(&self) -> (r: u16)
        ensures
            r == self@.types,
    {
        match self {
            Filter::Network(f) => f.options.resource_types,
            Filter::Cosmetic(_) => 0,
        }
    }

    /// Whether the filter is an exception.
    pub fn is_exception(&self) -> (r: bool)
        ensures
            r == self@.is_exception,
    {
        match self {
            Filter::Network(f) => f.is_exception,
            Filter::Cosmetic(f) => f.is_exception,
        }
    }

    /// Whether the filter carries the `important` flag.
    pub fn is_important(&self) -> (r: bool)
        ensures
            r == self@.important,
    {
        match self {
            Filter::Network(f) => f.options.important,
            Filter::Cosmetic(_) => false,
        }
    }

    /// Whether case matters to the pattern.
    pub fn match_case(&self) -> (r: bool)
        ensures
            r == self@.match_case,
    {
        match self {
            Filter::Network(f) => f.options.match_case,
            Filter::Cosmetic(_) => false,
        }
    }

    /// Whether the pattern is a raw regular expression.
    pub fn raw_is_regex(&self) -> (r: bool)
        ensures
            r == self@.raw_is_regex,
    {
        match self {
            Filter::Network(f) => f.options.raw_is_regex,
            Filter::Cosmetic(_) => false,
        }
    }

    /// Whether the filter is limited to first-party or to third-party loads.
    pub fn third_party(&self) -> (r: Option<bool>)
        ensures
            r == self@.third_party,
    {
        match self {
            Filter::Network(f) => f.options.third_party,
            Filter::Cosmetic(_) => None,
        }
    }

    /// The anchors of the pattern.
    pub fn anchors(&self) -> (r: Anchors)
        ensures
            r == self@.anchors,
    {
        match self {
            Filter::Network(f) => f.anchors,
            Filter::Cosmetic(_) => Anchors { start: false, end: false, domain: false },
        }
    }

    /// Kind, flags, anchors and party as one number.
    fn code(&self) -> (c: u32)
        ensures
            c == traits_code(self@),
    {
        match self {
            Filter::Network(f) => f.code(),
            Filter::Cosmetic(f) => f.code(),
        }
    }

    /// Whether the two filters differ in their domain sets at most.
    pub fn same_merge_key(&self, other: &Filter) -> (r: bool)
        ensures
            r == same_merge_key(self@, other@),
    {
        self.code() == other.code() && self.types() == other.types() && text_rank(
            self.text(),
            other.text(),
        ) == Rank::Same
    }

    /// Whether the two filters differ in their domain sets and resource types at most.
    pub fn same_match(&self, other: &Filter) -> (r: bool)
        ensures
            r == same_match(self@, other@),
    {
        self.code() == other.code() && text_rank(self.text(), other.text()) == Rank::Same
    }

    /// Compares two filters in the fingerprint order.
    pub fn rank(&self, other: &Filter) -> (r: Rank)
        ensures
            r == rank_of(filter_order(), self@, other@),
    {
        proof {
            lemma_text_order();
            lemma_names_order();
        }
        match text_rank(self.text(), other.text()) {
            Rank::Before => {
                return Rank::Before;
            },
            Rank::After => {
                return Rank::After;
            },
            Rank::Same => {},
        }
        let ca = self.code();
        let cb = other.code();
        if ca < cb {
            return Rank::Before;
        }
        if ca > cb {
            return Rank::After;
        }
        let ta = self.types();
        let tb = other.types();
        if ta < tb {
            return Rank::Before;
        }
        if ta > tb {
            return Rank::After;
        }
        match self.included().rank(other.included()) {
            Rank::Before => {
                return Rank::Before;
            },
            Rank::After => {
                return Rank::After;
            },
            Rank::Same => {},
        }
        proof {
            lemma_traits_code(self@, other@);
        }
        match self.excluded().rank(other.excluded()) {
            Rank::Before => Rank::Before,
            Rank::After => Rank::After,
            Rank::Same => Rank::Same,
        }
    }

    /// A copy of this filter with another scope, if the scope meets the
    /// invariant of a filter.
    pub fn with_scope(&self, included: DomainSet, excluded: DomainSet) -> (r: Option<Filter>)
        ensures
            r is Some <==> (names_nonempty(included@) && names_nonempty(excluded@)
                && names_disjoint(included@, excluded@)),
            r matches Some(f) ==> f@ == (FilterModel {
                included: included@,
                excluded: excluded@,
                ..self@
            }),
    {
        proof {
            use_type_invariant(&included);
            use_type_invariant(&excluded);
        }
        match self {
            Filter::Network(f) => {
                proof {
                    use_type_invariant(f);
                }
                let options = NetworkOptions {
                    domains_included: included,
                    domains_excluded: excluded,
                    resource_types: f.options.resource_types,
                    third_party: f.options.third_party,
                    match_case: f.options.match_case,
                    raw_is_regex: f.options.raw_is_regex,
                    important: f.options.important,
                };
                match NetworkFilter::new(copy_text(&f.pattern), f.is_exception, f.anchors, options) {
                    Some(g) => Some(Filter::Network(g)),
                    None => None,
                }
            },
            Filter::Cosmetic(f) => {
                proof {
                    use_type_invariant(f);
                }
                match CosmeticFilter::new(
                    copy_text(&f.selector),
                    included,
                    excluded,
                    f.is_exception,
                ) {
                    Some(g) => Some(Filter::Cosmetic(g)),
                    None => None,
                }
            },
        }
    }

    /// A copy of this filter.
    pub fn copy(&self) -> (r: Filter)
        ensures
            r@ == self@,
    {
        let _ = self.kind();
        let made = self.with_scope(self.included().copy(), self.excluded().copy());
        assert(made is Some);
        made.unwrap()
    }
}

} // verus!
