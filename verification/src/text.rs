//! Text as sequences of characters: the order used for canonical forms, and
//! the scanning helpers that the parsers share.

use crate::order::{lemma_lex_strict_total, lex_from, lex_lt, strict_total};
use vstd::prelude::*;

verus! {

/// How a value stands to another in a strict total order.
#[derive(Clone, Copy, Debug, PartialEq, Eq, Structural)]
pub enum Rank {
    Before,
    Same,
    After,
}

/// Characters are ordered by code point.
pub open spec fn char_lt(a: char, b: char) -> bool {
    (a as u32) < (b as u32)
}

/// Distinct characters have distinct code points.
pub proof fn lemma_char_code(x: char, y: char)
    ensures
        x as u32 == y as u32 ==> x == y,
{
}

/// Lexicographic order of texts by code point.
pub open spec fn text_lt(a: Seq<char>, b: Seq<char>) -> bool {
    lex_lt(|x: char, y: char| char_lt(x, y), a, b)
}

/// Lexicographic order of lists of texts.
pub open spec fn names_lt(a: Seq<Seq<char>>, b: Seq<Seq<char>>) -> bool {
    lex_lt(|x: Seq<char>, y: Seq<char>| text_lt(x, y), a, b)
}

/// The order of characters is a strict total order.
pub proof fn lemma_char_order()
    ensures
        strict_total(|x: char, y: char| char_lt(x, y)),
{
    let lt = |x: char, y: char| char_lt(x, y);
    assert forall|x: char, y: char| #[trigger] lt(x, y) || x == y || lt(y, x) by {
        lemma_char_code(x, y);
    }
}

/// The order of texts is a strict total order.
pub proof fn lemma_text_order()
    ensures
        strict_total(|x: Seq<char>, y: Seq<char>| text_lt(x, y)),
{
    lemma_char_order();
    lemma_lex_strict_total(|x: char, y: char| char_lt(x, y));
    let lex = |a: Seq<char>, b: Seq<char>| lex_lt(|x: char, y: char| char_lt(x, y), a, b);
    let lt = |x: Seq<char>, y: Seq<char>| text_lt(x, y);
    assert forall|x: Seq<char>, y: Seq<char>| #[trigger] lt(x, y) == lex(x, y) by {}
    assert forall|x: Seq<char>| !#[trigger] lt(x, x) by {
        assert(!lex(x, x));
    }
    assert forall|x: Seq<char>, y: Seq<char>, z: Seq<char>| #[trigger] lt(x, y) && #[trigger] lt(
        y,
        z,
    ) implies lt(x, z) by {
        assert(lex(x, y) && lex(y, z));
    }
    assert forall|x: Seq<char>, y: Seq<char>| #[trigger] lt(x, y) || x == y || lt(y, x) by {
        assert(lex(x, y) || x == y || lex(y, x));
    }
}

/// The order of lists of texts is a strict total order.
pub proof fn lemma_names_order()
    ensures
        strict_total(|x: Seq<Seq<char>>, y: Seq<Seq<char>>| names_lt(x, y)),
{
    lemma_text_order();
    let inner = |x: Seq<char>, y: Seq<char>| text_lt(x, y);
    lemma_lex_strict_total(inner);
    let lex = |a: Seq<Seq<char>>, b: Seq<Seq<char>>| lex_lt(inner, a, b);
    let lt = |x: Seq<Seq<char>>, y: Seq<Seq<char>>| names_lt(x, y);
    assert forall|x: Seq<Seq<char>>, y: Seq<Seq<char>>| #[trigger] lt(x, y) == lex(x, y) by {}
    assert forall|x: Seq<Seq<char>>| !#[trigger] lt(x, x) by {
        assert(!lex(x, x));
    }
    assert forall|x: Seq<Seq<char>>, y: Seq<Seq<char>>, z: Seq<Seq<char>>| #[trigger] lt(x, y)
        && #[trigger] lt(y, z) implies lt(x, z) by {
        assert(lex(x, y) && lex(y, z));
    }
    assert forall|x: Seq<Seq<char>>, y: Seq<Seq<char>>| #[trigger] lt(x, y) || x == y || lt(
        y,
        x,
    ) by {
        assert(lex(x, y) || x == y || lex(y, x));
    }
}

/// What `Rank` a comparison under `lt` must give.
pub open spec fn rank_of<T>(lt: spec_fn(T, T) -> bool, a: T, b: T) -> Rank {
    if a == b {
        Rank::Same
    } else if lt(a, b) {
        Rank::Before
    } else {
        Rank::After
    }
}

/// The characters of a string slice.
pub fn chars_of(s: &str) -> (v: Vec<char>)
    ensures
        v@ == s@,
{
    let mut v: Vec<char> = Vec::new();
    for c in it: s.chars()
        invariant
            v@ == it.seq().take(it.index() as int),
            it.seq() == s@,
    {
        v.push(c);
        assert(it.seq().take(it.index() + 1) =~= it.seq().take(it.index() as int).push(c));
    }
    assert(v@ =~= s@);
    v
}

/// A copy of a text.
pub fn copy_text(t: &Vec<char>) -> (v: Vec<char>)
    ensures
        v@ == t@,
{
    let mut v: Vec<char> = Vec::new();
    let mut i: usize = 0;
    while i < t.len()
        invariant
            i <= t.len(),
            v@ == t@.take(i as int),
        decreases t.len() - i,
    {
        v.push(t[i]);
        assert(t@.take(i + 1) =~= t@.take(i as int).push(t@[i as int]));
        i += 1;
    }
    assert(v@ =~= t@);
    v
}

/// Compares two texts in the lexicographic order by code point.
pub fn text_rank(a: &Vec<char>, b: &Vec<char>) -> (r: Rank)
    ensures
        r == rank_of(|x: Seq<char>, y: Seq<char>| text_lt(x, y), a@, b@),
{
    let ghost lt = |x: char, y: char| char_lt(x, y);
    let mut i: usize = 0;
    while i < a.len() && i < b.len()
        invariant
            i <= a.len(),
            i <= b.len(),
            lt == (|x: char, y: char| char_lt(x, y)),
            forall|j: int| 0 <= j < i ==> a@[j] == b@[j],
            lex_from(lt, a@, b@, 0) == lex_from(lt, a@, b@, i as int),
            lex_from(lt, b@, a@, 0) == lex_from(lt, b@, a@, i as int),
        decreases a.len() - i,
    {
        let x = a[i];
        let y = b[i];
        if x != y {
            proof {
                assert(a@ != b@);
                lemma_char_code(x, y);
            }
            if (x as u32) < (y as u32) {
                return Rank::Before;
            } else {
                assert(lt(y, x));
                return Rank::After;
            }
        }
        i += 1;
    }
    if i < b.len() {
        assert(a@.len() != b@.len());
        Rank::Before
    } else if i < a.len() {
        assert(a@.len() != b@.len());
        Rank::After
    } else {
        assert(a@ =~= b@);
        Rank::Same
    }
}

/// Whether two texts are the same.
pub fn text_eq(a: &Vec<char>, b: &Vec<char>) -> (r: bool)
    ensures
        r == (a@ == b@),
{
    if a.len() != b.len() {
        return false;
    }
    let mut i: usize = 0;
    while i < a.len()
        invariant
            i <= a.len(),
            a.len() == b.len(),
            forall|j: int| 0 <= j < i ==> a@[j] == b@[j],
        decreases a.len() - i,
    {
        if a[i] != b[i] {
            return false;
        }
        i += 1;
    }
    assert(a@ =~= b@);
    true
}

/// Space, tab, carriage return or line feed.
pub open spec fn is_blank(c: char) -> bool {
    c == ' ' || c == '\t' || c == '\r' || c == '\n'
}

/// The first position from `i` on that holds no blank.
pub open spec fn skip_blanks(s: Seq<char>, i: int) -> int
    decreases s.len() - i,
{
    if 0 <= i < s.len() && is_blank(s[i]) {
        skip_blanks(s, i + 1)
    } else {
        i
    }
}

/// The end of the text before the blanks that stand before position `j`.
pub open spec fn drop_blanks(s: Seq<char>, j: int) -> int
    decreases j,
{
    if 0 < j <= s.len() && is_blank(s[j - 1]) {
        drop_blanks(s, j - 1)
    } else {
        j
    }
}

/// The text without the blanks at its two ends.
pub open spec fn trim(s: Seq<char>) -> Seq<char> {
    let a = skip_blanks(s, 0);
    let b = drop_blanks(s, s.len() as int);
    if a < b {
        s.subrange(a, b)
    } else {
        Seq::empty()
    }
}

/// The pieces of `s` between the occurrences of `sep`; there is always one
/// piece more than there are separators.
pub open spec fn split(s: Seq<char>, sep: char) -> Seq<Seq<char>>
    decreases s.len(),
{
    if s.len() == 0 {
        seq![Seq::empty()]
    } else {
        let p = split(s.drop_last(), sep);
        if s.last() == sep {
            p.push(Seq::empty())
        } else {
            p.drop_last().push(p.last().push(s.last()))
        }
    }
}

/// No piece holds the separator.
pub proof fn lemma_split_pieces(s: Seq<char>, sep: char)
    ensures
        split(s, sep).len() > 0,
        forall|i: int| 0 <= i < split(s, sep).len() ==> !(#[trigger] split(s, sep)[i]).contains(sep),
    decreases s.len(),
{
    if s.len() > 0 {
        let p = split(s.drop_last(), sep);
        lemma_split_pieces(s.drop_last(), sep);
        let r = split(s, sep);
        assert forall|i: int| 0 <= i < r.len() implies !(#[trigger] r[i]).contains(sep) by {
            if i < p.len() - 1 {
                assert(r[i] == p[i]);
            } else if s.last() != sep {
                let piece = p.last().push(s.last());
                assert(r[i] == piece);
                if piece.contains(sep) {
                    let k = choose|k: int| 0 <= k < piece.len() && piece[k] == sep;
                    assert(p[p.len() - 1][k] == sep);
                    assert(p[p.len() - 1].contains(sep));
                }
            } else if i == p.len() - 1 {
                assert(r[i] == p[i]);
            }
        }
    }
}

/// The first position from `i` on that holds `c`, or the length of `s`.
pub open spec fn find_from(s: Seq<char>, c: char, i: int) -> int
    decreases s.len() - i,
{
    if 0 <= i < s.len() && s[i] != c {
        find_from(s, c, i + 1)
    } else {
        i
    }
}

/// The views of a list of texts.
pub open spec fn texts(v: Seq<Vec<char>>) -> Seq<Seq<char>> {
    Seq::new(v.len(), |i: int| v[i]@)
}

/// The characters of `s` from `from` up to `to`.
pub fn slice(s: &Vec<char>, from: usize, to: usize) -> (v: Vec<char>)
    requires
        from <= to <= s@.len(),
    ensures
        v@ == s@.subrange(from as int, to as int),
{
    let mut v: Vec<char> = Vec::new();
    let mut i: usize = from;
    while i < to
        invariant
            from <= i <= to,
            to <= s@.len(),
            v@ == s@.subrange(from as int, i as int),
        decreases to - i,
    {
        v.push(s[i]);
        assert(s@.subrange(from as int, i + 1) =~= s@.subrange(from as int, i as int).push(
            s@[i as int],
        ));
        i += 1;
    }
    v
}

/// Whether `c` is a blank.
pub fn blank(c: char) -> (r: bool)
    ensures
        r == is_blank(c),
{
    c == ' ' || c == '\t' || c == '\r' || c == '\n'
}

/// The text without the blanks at its two ends.
pub fn trimmed(s: &Vec<char>) -> (v: Vec<char>)
    ensures
        v@ == trim(s@),
{
    let mut a: usize = 0;
    while a < s.len() && blank(s[a])
        invariant
            a <= s.len(),
            skip_blanks(s@, 0) == skip_blanks(s@, a as int),
        decreases s.len() - a,
    {
        a += 1;
    }
    let mut b: usize = s.len();
    while b > 0 && blank(s[b - 1])
        invariant
            b <= s.len(),
            drop_blanks(s@, s@.len() as int) == drop_blanks(s@, b as int),
        decreases b,
    {
        b -= 1;
    }
    if a < b {
        slice(s, a, b)
    } else {
        Vec::new()
    }
}

/// The pieces of `s` between the occurrences of `sep`.
pub fn split_text(s: &Vec<char>, sep: char) -> (parts: Vec<Vec<char>>)
    ensures
        texts(parts@) == split(s@, sep),
        parts@.len() > 0,
{
    let mut parts: Vec<Vec<char>> = Vec::new();
    let mut piece: Vec<char> = Vec::new();
    let mut i: usize = 0;
    assert(s@.take(0) =~= Seq::<char>::empty());
    assert(texts(parts@).push(piece@) =~= split(s@.take(0), sep));
    while i < s.len()
        invariant
            i <= s.len(),
            texts(parts@).push(piece@) == split(s@.take(i as int), sep),
        decreases s.len() - i,
    {
        let ghost before = texts(parts@);
        let ghost last = piece@;
        assert(s@.take(i + 1).drop_last() =~= s@.take(i as int));
        assert(s@.take(i + 1).last() == s@[i as int]);
        assert(before.push(last).drop_last() =~= before);
        if s[i] == sep {
            parts.push(piece);
            piece = Vec::new();
            assert(texts(parts@) =~= before.push(last));
        } else {
            piece.push(s[i]);
        }
        i += 1;
    }
    assert(s@.take(i as int) =~= s@);
    let ghost before = texts(parts@);
    parts.push(piece);
    assert(texts(parts@) =~= before.push(piece@));
    parts
}

/// The first position from `from` on that holds `c`, or the length of `s`.
pub fn find_char(s: &Vec<char>, c: char, from: usize) -> (i: usize)
    requires
        from <= s@.len(),
    ensures
        i == find_from(s@, c, from as int),
        from <= i <= s@.len(),
{
    let mut i: usize = from;
    while i < s.len() && s[i] != c
        invariant
            from <= i <= s.len(),
            find_from(s@, c, from as int) == find_from(s@, c, i as int),
        decreases s.len() - i,
    {
        i += 1;
    }
    i
}

/// Whether the text is the same as the string.
pub fn text_is(t: &Vec<char>, s: &str) -> (r: bool)
    ensures
        r == (t@ == s@),
{
    let v = chars_of(s);
    text_eq(t, &v)
}

} // verus!
