//! The option list of a network filter, and the domain lists that both kinds
//! of filter carry.

use crate::domains::{names_insert, names_union, DomainSet};
use crate::model::{type_bit, type_index, ResourceType, ALL_RESOURCE_TYPES};
use crate::text::{find_char, find_from, slice, split, split_text, text_is, texts};
use vstd::prelude::*;

verus! {

/// Why a line is no filter.
#[derive(Clone, Copy, Debug, PartialEq, Eq, Structural)]
pub enum ParseError {
    /// The option list is empty, holds an empty option, or an option ends in `=`.
    UnterminatedOptions,
    /// Nothing is left of the pattern once the anchors are taken off.
    EmptyPattern,
    /// Nothing follows the separator of a cosmetic filter.
    EmptySelector,
    /// A domain list holds an empty name.
    EmptyDomain,
    /// A domain anchor stands before something that cannot begin a host name.
    MisplacedAnchor,
    /// The parts contradict each other: a domain is both included and
    /// excluded, or the resource types cancel out.
    ConflictingScope,
    /// A line of a hosts file holds more than an address and a host name.
    TooManyFields,
    /// A line of a hosts file names no host.
    BadHostName,
}

/// Reads the entries of a domain list: an entry with `~` in front is
/// excluded, any other is included. `None` when an entry names no domain.
pub open spec fn scope_entries(entries: Seq<Seq<char>>) -> Option<
    (Seq<Seq<char>>, Seq<Seq<char>>),
>
    decreases entries.len(),
{
    if entries.len() == 0 {
        Some((Seq::empty(), Seq::empty()))
    } else {
        match scope_entries(entries.drop_last()) {
            None => None,
            Some((included, excluded)) => {
                let e = entries.last();
                if e.len() == 0 || (e[0] == '~' && e.len() == 1) {
                    None
                } else if e[0] == '~' {
                    Some((included, names_insert(excluded, e.skip(1))))
                } else {
                    Some((names_insert(included, e), excluded))
                }
            },
        }
    }
}

/// Reads the entries of a domain list into two sets.
pub fn read_scope(entries: &Vec<Vec<char>>) -> (r: Option<(DomainSet, DomainSet)>)
    ensures
        match (r, scope_entries(texts(entries@))) {
            (Some(got), Some(want)) => got.0@ == want.0 && got.1@ == want.1,
            (None, None) => true,
            _ => false,
        },
{
    let mut included = DomainSet::new();
    let mut excluded = DomainSet::new();
    let mut ok = true;
    let mut i: usize = 0;
    assert(texts(entries@).take(0) =~= Seq::<Seq<char>>::empty());
    while i < entries.len()
        invariant
            i <= entries.len(),
            ok ==> scope_entries(texts(entries@).take(i as int)) == Some((included@, excluded@)),
            !ok ==> scope_entries(texts(entries@).take(i as int)) is None,
        decreases entries.len() - i,
    {
        let e = &entries[i];
        assert(texts(entries@).take(i + 1).drop_last() =~= texts(entries@).take(i as int));
        assert(texts(entries@).take(i + 1).last() == e@);
        if ok {
            if e.len() == 0 || (e[0] == '~' && e.len() == 1) {
                ok = false;
            } else if e[0] == '~' {
                excluded.insert(slice(e, 1, e.len()));
            } else {
                included.insert(slice(e, 0, e.len()));
                assert(e@.subrange(0, e@.len() as int) =~= e@);
            }
        }
        i += 1;
    }
    assert(texts(entries@).take(i as int) =~= texts(entries@));
    if ok {
        Some((included, excluded))
    } else {
        None
    }
}

/// The resource type that an option name stands for.
pub open spec fn resource_type_named(name: Seq<char>) -> Option<ResourceType> {
    if name == "script"@ {
        Some(ResourceType::Script)
    } else if name == "image"@ {
        Some(ResourceType::Image)
    } else if name == "stylesheet"@ {
        Some(ResourceType::Stylesheet)
    } else if name == "document"@ {
        Some(ResourceType::Document)
    } else if name == "subdocument"@ {
        Some(ResourceType::Subdocument)
    } else if name == "xmlhttprequest"@ {
        Some(ResourceType::XmlHttpRequest)
    } else if name == "font"@ {
        Some(ResourceType::Font)
    } else if name == "media"@ {
        Some(ResourceType::Media)
    } else if name == "object"@ {
        Some(ResourceType::Object)
    } else if name == "websocket"@ {
        Some(ResourceType::Websocket)
    } else if name == "ping"@ {
        Some(ResourceType::Ping)
    } else if name == "other"@ {
        Some(ResourceType::Other)
    } else {
        None
    }
}

/// The resource type that an option name stands for.
pub fn resource_type_of(name: &Vec<char>) -> (r: Option<ResourceType>)
    ensures
        r == resource_type_named(name@),
{
    if text_is(name, "script") {
        Some(ResourceType::Script)
    } else if text_is(name, "image") {
        Some(ResourceType::Image)
    } else if text_is(name, "stylesheet") {
        Some(ResourceType::Stylesheet)
    } else if text_is(name, "document") {
        Some(ResourceType::Document)
    } else if text_is(name, "subdocument") {
        Some(ResourceType::Subdocument)
    } else if text_is(name, "xmlhttprequest") {
        Some(ResourceType::XmlHttpRequest)
    } else if text_is(name, "font") {
        Some(ResourceType::Font)
    } else if text_is(name, "media") {
        Some(ResourceType::Media)
    } else if text_is(name, "object") {
        Some(ResourceType::Object)
    } else if text_is(name, "websocket") {
        Some(ResourceType::Websocket)
    } else if text_is(name, "ping") {
        Some(ResourceType::Ping)
    } else if text_is(name, "other") {
        Some(ResourceType::Other)
    } else {
        None
    }
}

/// The position of a resource type in a mask.
pub fn index_of_type(t: ResourceType) -> (r: u16)
    ensures
        r == type_index(t),
        r < 12,
{
    match t {
        ResourceType::Script => 0,
        ResourceType::Image => 1,
        ResourceType::Stylesheet => 2,
        ResourceType::Document => 3,
        ResourceType::Subdocument => 4,
        ResourceType::XmlHttpRequest => 5,
        ResourceType::Font => 6,
        ResourceType::Media => 7,
        ResourceType::Object => 8,
        ResourceType::Websocket => 9,
        ResourceType::Ping => 10,
        ResourceType::Other => 11,
    }
}

/// The mask that holds `t` alone.
pub fn mask_of_type(t: ResourceType) -> (r: u16)
    ensures
        r == type_bit(t),
{
    1u16 << index_of_type(t)
}

/// What an option list has said so far.
pub struct OptionsModel {
    pub included: Seq<Seq<char>>,
    pub excluded: Seq<Seq<char>>,
    /// The resource types named.
    pub positive: u16,
    /// The resource types named with `~` in front.
    pub negative: u16,
    pub third_party: Option<bool>,
    pub match_case: bool,
    pub important: bool,
    /// The options that are not known, as written.
    pub unrecognized: Seq<Seq<char>>,
}

/// An option list that has said nothing.
pub open spec fn no_options() -> OptionsModel {
    OptionsModel {
        included: Seq::empty(),
        excluded: Seq::empty(),
        positive: 0,
        negative: 0,
        third_party: None,
        match_case: false,
        important: false,
        unrecognized: Seq::empty(),
    }
}

/// The option without a `~` in front.
pub open spec fn option_body(opt: Seq<char>) -> Seq<char> {
    if opt.len() > 0 && opt[0] == '~' {
        opt.skip(1)
    } else {
        opt
    }
}

/// Takes one option into account. An option is a name, a name and a value
/// with `=` between them, or either with `~` in front. `domain=` takes a
/// list of domains with `|` between them; the names of resource types,
/// `third-party` and `first-party` take a `~`; `match-case` and `important`
/// stand alone. Any other option is kept as written.
pub open spec fn apply_option(st: OptionsModel, opt: Seq<char>) -> Result<
    OptionsModel,
    ParseError,
> {
    let negated = opt.len() > 0 && opt[0] == '~';
    let body = option_body(opt);
    let eq = find_from(body, '=', 0);
    let name = body.take(eq);
    let has_value = eq < body.len();
    let value = body.skip(eq + 1);
    if opt.len() == 0 || (has_value && value.len() == 0) {
        Err(ParseError::UnterminatedOptions)
    } else if has_value {
        if name == "domain"@ && !negated {
            match scope_entries(split(value, '|')) {
                None => Err(ParseError::EmptyDomain),
                Some((included, excluded)) => Ok(
                    OptionsModel {
                        included: names_union(st.included, included),
                        excluded: names_union(st.excluded, excluded),
                        ..st
                    },
                ),
            }
        } else {
            Ok(OptionsModel { unrecognized: st.unrecognized.push(opt), ..st })
        }
    } else if resource_type_named(name) is Some {
        let bit = type_bit(resource_type_named(name)->0);
        if negated {
            Ok(OptionsModel { negative: st.negative | bit, ..st })
        } else {
            Ok(OptionsModel { positive: st.positive | bit, ..st })
        }
    } else if name == "third-party"@ {
        Ok(OptionsModel { third_party: Some(!negated), ..st })
    } else if name == "first-party"@ {
        Ok(OptionsModel { third_party: Some(negated), ..st })
    } else if name == "match-case"@ && !negated {
        Ok(OptionsModel { match_case: true, ..st })
    } else if name == "important"@ && !negated {
        Ok(OptionsModel { important: true, ..st })
    } else {
        Ok(OptionsModel { unrecognized: st.unrecognized.push(opt), ..st })
    }
}

/// Takes the options into account one after the other; the first that is
/// wrong decides the error.
pub open spec fn apply_options(opts: Seq<Seq<char>>) -> Result<OptionsModel, ParseError>
    decreases opts.len(),
{
    if opts.len() == 0 {
        Ok(no_options())
    } else {
        match apply_options(opts.drop_last()) {
            Err(e) => Err(e),
            Ok(st) => apply_option(st, opts.last()),
        }
    }
}

/// The resource types that the named and the negated types leave: the named
/// ones without the negated, or all without the negated where none is named.
/// Zero where no type is mentioned; `None` where none is left.
pub open spec fn resolve_types(positive: u16, negative: u16) -> Option<u16> {
    if positive == 0 && negative == 0 {
        Some(0u16)
    } else {
        let base = if positive == 0 {
            ALL_RESOURCE_TYPES
        } else {
            positive
        };
        let left = base & !negative & ALL_RESOURCE_TYPES;
        if left == 0 {
            None
        } else {
            Some(left)
        }
    }
}

/// The resource types that the named and the negated types leave.
pub fn resolved_types(positive: u16, negative: u16) -> (r: Option<u16>)
    ensures
        r == resolve_types(positive, negative),
        r matches Some(m) ==> m <= ALL_RESOURCE_TYPES,
{
    if positive == 0 && negative == 0 {
        Some(0)
    } else {
        let base = if positive == 0 {
            ALL_RESOURCE_TYPES
        } else {
            positive
        };
        let left = base & !negative & ALL_RESOURCE_TYPES;
        assert(base & !negative & 0x0FFFu16 <= 0x0FFFu16) by (bit_vector);
        if left == 0 {
            None
        } else {
            Some(left)
        }
    }
}

/// What an option list has said so far.
pub struct OptionState {
    pub included: DomainSet,
    pub excluded: DomainSet,
    pub positive: u16,
    pub negative: u16,
    pub third_party: Option<bool>,
    pub match_case: bool,
    pub important: bool,
    pub unrecognized: Vec<Vec<char>>,
}

impl View for OptionState {
    type V = OptionsModel;

    open spec fn view(&self) -> OptionsModel {
        OptionsModel {
            included: self.included@,
            excluded: self.excluded@,
            positive: self.positive,
            negative: self.negative,
            third_party: self.third_party,
            match_case: self.match_case,
            important: self.important,
            unrecognized: texts(self.unrecognized@),
        }
    }
}

/// Whether the result of reading options is the one that the model gives.
pub open spec fn options_agree(
    got: Result<OptionState, ParseError>,
    want: Result<OptionsModel, ParseError>,
) -> bool {
    match (got, want) {
        (Ok(g), Ok(w)) => g@ == w,
        (Err(g), Err(w)) => g == w,
        _ => false,
    }
}

impl OptionState {
    /// An option list that has said nothing.
    pub fn new() -> (r: OptionState)
        ensures
            r@ == no_options(),
    {
        let r = OptionState {
            included: DomainSet::new(),
            excluded: DomainSet::new(),
            positive: 0,
            negative: 0,
            third_party: None,
            match_case: false,
            important: false,
            unrecognized: Vec::new(),
        };
        assert(texts(r.unrecognized@) =~= Seq::<Seq<char>>::empty());
        r
    }

    /// Keeps an option that is not known, as written.
    fn keep_unrecognized(self, opt: &Vec<char>) -> (r: OptionState)
        ensures
            r@ == (OptionsModel { unrecognized: self@.unrecognized.push(opt@), ..self@ }),
    {
        let mut st = self;
        let ghost before = texts(st.unrecognized@);
        st.unrecognized.push(slice(opt, 0, opt.len()));
        assert(opt@.subrange(0, opt@.len() as int) =~= opt@);
        assert(texts(st.unrecognized@) =~= before.push(opt@));
        st
    }

    /// Takes one option into account.
    pub fn apply(self, opt: &Vec<char>) -> (r: Result<OptionState, ParseError>)
        ensures
            options_agree(r, apply_option(self@, opt@)),
    {
        let negated = opt.len() > 0 && opt[0] == '~';
        let body = if negated {
            slice(opt, 1, opt.len())
        } else {
            slice(opt, 0, opt.len())
        };
        assert(opt@.subrange(0, opt@.len() as int) =~= opt@);
        assert(body@ == option_body(opt@));
        let eq = find_char(&body, '=', 0);
        let name = slice(&body, 0, eq);
        let has_value = eq < body.len();
        if opt.len() == 0 || (has_value && eq + 1 == body.len()) {
            return Err(ParseError::UnterminatedOptions);
        }
        let mut st = self;
        if has_value {
            if text_is(&name, "domain") && !negated {
                let value = slice(&body, eq + 1, body.len());
                let entries = split_text(&value, '|');
                match read_scope(&entries) {
                    None => Err(ParseError::EmptyDomain),
                    Some(scope) => {
                        st.included = st.included.union(&scope.0);
                        st.excluded = st.excluded.union(&scope.1);
                        Ok(st)
                    },
                }
            } else {
                Ok(st.keep_unrecognized(opt))
            }
        } else {
            match resource_type_of(&name) {
                Some(t) => {
                    if negated {
                        st.negative = st.negative | mask_of_type(t);
                    } else {
                        st.positive = st.positive | mask_of_type(t);
                    }
                    Ok(st)
                },
                None => {
                    if text_is(&name, "third-party") {
                        st.third_party = Some(!negated);
                        Ok(st)
                    } else if text_is(&name, "first-party") {
                        st.third_party = Some(negated);
                        Ok(st)
                    } else if text_is(&name, "match-case") && !negated {
                        st.match_case = true;
                        Ok(st)
                    } else if text_is(&name, "important") && !negated {
                        st.important = true;
                        Ok(st)
                    } else {
                        Ok(st.keep_unrecognized(opt))
                    }
                },
            }
        }
    }
}

/// Reads an option list, given as its options.
pub fn read_options(opts: &Vec<Vec<char>>) -> (r: Result<OptionState, ParseError>)
    ensures
        options_agree(r, apply_options(texts(opts@))),
{
    let mut r: Result<OptionState, ParseError> = Ok(OptionState::new());
    let mut i: usize = 0;
    assert(texts(opts@).take(0) =~= Seq::<Seq<char>>::empty());
    while i < opts.len()
        invariant
            i <= opts.len(),
            options_agree(r, apply_options(texts(opts@).take(i as int))),
        decreases opts.len() - i,
    {
        assert(texts(opts@).take(i + 1).drop_last() =~= texts(opts@).take(i as int));
        assert(texts(opts@).take(i + 1).last() == opts@[i as int]@);
        r =
        match r {
            Err(e) => Err(e),
            Ok(st) => st.apply(&opts[i]),
        };
        i += 1;
    }
    assert(texts(opts@).take(i as int) =~= texts(opts@));
    r
}

} // verus!
