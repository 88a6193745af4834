//! Grammar of symbol names, contexts, and fully qualified symbols.
//!
//! A *name segment* is a non-empty run of characters whose first character is
//! alphabetic or `$` and whose remaining characters are alphabetic, decimal
//! digits, or `$`. Splitting a string on the context separator `` ` `` yields
//! its components; the classification of a string as a symbol, symbol name,
//! context, or relative context is decided entirely by which components are
//! name segments and which are empty.

use vstd::prelude::*;

verus! {

/// What `char::is_alphabetic` returns beyond the ASCII range.
pub uninterp spec fn alphabetic_beyond_ascii(c: char) -> bool;

/// Whether `c` has the Unicode `Alphabetic` property. On the ASCII range that
/// property holds exactly of the letters.
pub open spec fn char_alphabetic(c: char) -> bool {
    if (c as u32) < 128 {
        (65 <= c as u32 && c as u32 <= 90) || (97 <= c as u32 && c as u32 <= 122)
    } else {
        alphabetic_beyond_ascii(c)
    }
}

/// Relies on `char::is_alphabetic`: it tests the Unicode `Alphabetic`
/// property, which depends on the character alone, and on the ASCII range
/// holds exactly of `A`..`Z` and `a`..`z`.
#[verifier::external_body]
fn is_alphabetic_char(c: char) -> (r: bool)
    ensures
        r == char_alphabetic(c),
        (c as u32) >= 128 ==> r == alphabetic_beyond_ascii(c),
{
    c.is_alphabetic()
}

/// The context separator character.
pub open spec fn is_separator(c: char) -> bool {
    c == '`'
}

/// Valid first character of a name segment.
pub open spec fn is_name_first(c: char) -> bool {
    char_alphabetic(c) || c == '$'
}

/// Valid non-first character of a name segment.
pub open spec fn is_name_rest(c: char) -> bool {
    char_alphabetic(c) || (48 <= c as u32 && c as u32 <= 57) || c == '$'
}

/// A name segment: non-empty, a valid first character, valid rest characters.
pub open spec fn is_name_segment(s: Seq<char>) -> bool {
    &&& s.len() > 0
    &&& is_name_first(s[0])
    &&& forall|i: int| 1 <= i < s.len() ==> is_name_rest(#[trigger] s[i])
}

/// Index of the first separator in `s`, or `s.len()` if there is none.
pub open spec fn first_sep(s: Seq<char>) -> int
    decreases s.len(),
{
    if s.len() == 0 {
        0
    } else if is_separator(s[0]) {
        0
    } else {
        1 + first_sep(s.drop_first())
    }
}

/// The components of `s`: the (possibly empty) runs between separators.
/// Splitting always yields one component more than there are separators.
pub open spec fn components_of(s: Seq<char>) -> Seq<Seq<char>>
    decreases s.len() via components_of_decreases
{
    let i = first_sep(s);
    if i == s.len() {
        seq![s]
    } else {
        seq![s.take(i)] + components_of(s.skip(i + 1))
    }
}

#[via_fn]
proof fn components_of_decreases(s: Seq<char>) {
    lemma_first_sep_bounds(s);
}

pub proof fn lemma_first_sep_bounds(s: Seq<char>)
    ensures
        0 <= first_sep(s) <= s.len(),
        forall|k: int| 0 <= k < first_sep(s) ==> !is_separator(#[trigger] s[k]),
        first_sep(s) < s.len() ==> is_separator(s[first_sep(s)]),
    decreases s.len(),
{
    if s.len() > 0 && !is_separator(s[0]) {
        lemma_first_sep_bounds(s.drop_first());
        assert forall|k: int| 0 <= k < first_sep(s) implies !is_separator(#[trigger] s[k]) by {
            if k > 0 {
                assert(s[k] == s.drop_first()[k - 1]);
            }
        }
        if first_sep(s) < s.len() {
            assert(s[first_sep(s)] == s.drop_first()[first_sep(s) - 1]);
        }
    }
}

/// `first_sep` is determined by any witness position `j`.
pub proof fn lemma_first_sep_is(s: Seq<char>, j: int)
    requires
        0 <= j <= s.len(),
        forall|k: int| 0 <= k < j ==> !is_separator(#[trigger] s[k]),
        j < s.len() ==> is_separator(s[j]),
    ensures
        first_sep(s) == j,
    decreases s.len(),
{
    if s.len() > 0 && !is_separator(s[0]) {
        assert forall|k: int| 0 <= k < j - 1 implies !is_separator(#[trigger] s.drop_first()[k]) by {
            assert(s.drop_first()[k] == s[k + 1]);
        }
        if j - 1 < s.drop_first().len() {
            assert(s.drop_first()[j - 1] == s[j]);
        }
        lemma_first_sep_is(s.drop_first(), j - 1);
    }
}

/// Name characters are never the separator.
pub proof fn lemma_segment_has_no_separator(s: Seq<char>)
    requires
        is_name_segment(s),
    ensures
        forall|i: int| 0 <= i < s.len() ==> !is_separator(#[trigger] s[i]),
{
}

/// A string without separators is its own single component.
pub proof fn lemma_components_no_sep(s: Seq<char>)
    requires
        forall|i: int| 0 <= i < s.len() ==> !is_separator(#[trigger] s[i]),
    ensures
        components_of(s) == seq![s],
{
    lemma_first_sep_is(s, s.len() as int);
}

/// Splitting past a leading separator-free run and its separator.
pub proof fn lemma_components_split(a: Seq<char>, b: Seq<char>)
    requires
        forall|i: int| 0 <= i < a.len() ==> !is_separator(#[trigger] a[i]),
    ensures
        components_of(a + seq!['`'] + b) == seq![a] + components_of(b),
{
    let s = a + seq!['`'] + b;
    assert forall|i: int| 0 <= i < a.len() implies !is_separator(#[trigger] s[i]) by {
        assert(s[i] == a[i]);
    }
    assert(is_separator(s[a.len() as int]));
    lemma_first_sep_is(s, a.len() as int);
    assert(s.take(a.len() as int) =~= a);
    assert(s.skip(a.len() as int + 1) =~= b);
}

/// Index of the last separator in `s`, or `-1` if there is none.
pub open spec fn last_sep(s: Seq<char>) -> int
    decreases s.len(),
{
    if s.len() == 0 {
        -1
    } else if is_separator(s.last()) {
        s.len() - 1
    } else {
        last_sep(s.drop_last())
    }
}

/// Splitting yields at least one component.
pub proof fn lemma_components_nonempty(s: Seq<char>)
    ensures
        components_of(s).len() >= 1,
    decreases s.len(),
{
    lemma_first_sep_bounds(s);
    if first_sep(s) < s.len() {
        lemma_components_nonempty(s.skip(first_sep(s) + 1));
    }
}

/// The position `last_sep` names holds a separator, and none follows it.
pub proof fn lemma_last_sep_bounds(s: Seq<char>)
    ensures
        -1 <= last_sep(s) < s.len(),
        forall|k: int| last_sep(s) < k < s.len() ==> !is_separator(#[trigger] s[k]),
        last_sep(s) >= 0 ==> is_separator(s[last_sep(s)]),
    decreases s.len(),
{
    if s.len() > 0 && !is_separator(s.last()) {
        lemma_last_sep_bounds(s.drop_last());
        assert forall|k: int| last_sep(s) < k < s.len() implies !is_separator(#[trigger] s[k]) by {
            if k < s.len() - 1 {
                assert(s[k] == s.drop_last()[k]);
            }
        }
        if last_sep(s) >= 0 {
            assert(s[last_sep(s)] == s.drop_last()[last_sep(s)]);
        }
    }
}

/// `last_sep` is determined by any witness position `j`.
pub proof fn lemma_last_sep_is(s: Seq<char>, j: int)
    requires
        -1 <= j < s.len(),
        forall|k: int| j < k < s.len() ==> !is_separator(#[trigger] s[k]),
        j >= 0 ==> is_separator(s[j]),
    ensures
        last_sep(s) == j,
    decreases s.len(),
{
    if s.len() > 0 && !is_separator(s.last()) {
        lemma_last_sep_is(s.drop_last(), j);
    }
}

/// All components with index in `lo .. hi` are name segments.
pub open spec fn all_name_segments(cs: Seq<Seq<char>>, lo: int, hi: int) -> bool {
    forall|i: int| lo <= i < hi ==> is_name_segment(#[trigger] cs[i])
}

/// A symbol name: exactly one name segment, no separators at all.
pub open spec fn is_symbol_name_seq(s: Seq<char>) -> bool {
    let cs = components_of(s);
    cs.len() == 1 && is_name_segment(cs[0])
}

/// An absolute symbol: one or more `segment `` ` ``` pairs, then a segment.
pub open spec fn is_absolute_symbol_seq(s: Seq<char>) -> bool {
    let cs = components_of(s);
    cs.len() >= 2 && all_name_segments(cs, 0, cs.len() as int)
}

/// An absolute context: one or more `segment `` ` ``` pairs.
pub open spec fn is_absolute_context_seq(s: Seq<char>) -> bool {
    let cs = components_of(s);
    cs.len() >= 2 && all_name_segments(cs, 0, cs.len() - 1) && cs.last().len() == 0
}

/// A relative symbol: a separator, then `segment `` ` ``` pairs, then a segment.
pub open spec fn is_relative_symbol_seq(s: Seq<char>) -> bool {
    let cs = components_of(s);
    cs.len() >= 2 && cs[0].len() == 0 && all_name_segments(cs, 1, cs.len() as int)
}

/// A relative context: a separator, then one or more `segment `` ` ``` pairs.
pub open spec fn is_relative_context_seq(s: Seq<char>) -> bool {
    let cs = components_of(s);
    cs.len() >= 3 && cs[0].len() == 0 && all_name_segments(cs, 1, cs.len() - 1)
        && cs.last().len() == 0
}

/// The shape a string takes in the symbol grammar.
#[derive(Debug, Clone, Copy, PartialEq, Eq, Structural)]
pub enum SymbolLike {
    /// `` ctx`foo ``
    AbsoluteSymbol,
    /// `foo`
    SymbolName,
    /// `` `foo ``
    RelativeSymbol,
    /// `` ctx` ``
    AbsoluteContext,
    /// `` `ctx` ``
    RelativeContext,
}

/// The classification of `s`, or `None` if it fits no shape of the grammar.
pub open spec fn symbol_like_of(s: Seq<char>) -> Option<SymbolLike> {
    if is_symbol_name_seq(s) {
        Some(SymbolLike::SymbolName)
    } else if is_relative_context_seq(s) {
        Some(SymbolLike::RelativeContext)
    } else if is_relative_symbol_seq(s) {
        Some(SymbolLike::RelativeSymbol)
    } else if is_absolute_context_seq(s) {
        Some(SymbolLike::AbsoluteContext)
    } else if is_absolute_symbol_seq(s) {
        Some(SymbolLike::AbsoluteSymbol)
    } else {
        None
    }
}

/// A string is a symbol name exactly when it is a bare name segment.
pub proof fn lemma_symbol_name_iff_segment(s: Seq<char>)
    ensures
        is_symbol_name_seq(s) == is_name_segment(s),
{
    lemma_first_sep_bounds(s);
    if is_name_segment(s) {
        lemma_segment_has_no_separator(s);
        lemma_components_no_sep(s);
    } else if is_symbol_name_seq(s) {
        if first_sep(s) < s.len() {
            lemma_components_nonempty(s.skip(first_sep(s) + 1));
            assert(components_of(s).len() >= 2);
        }
        assert(components_of(s) == seq![s]);
    }
}

/// Each grammar shape is recovered exactly by the classification.
pub proof fn lemma_classification(s: Seq<char>)
    ensures
        (symbol_like_of(s) == Some(SymbolLike::SymbolName)) == is_symbol_name_seq(s),
        (symbol_like_of(s) == Some(SymbolLike::AbsoluteSymbol)) == is_absolute_symbol_seq(s),
        (symbol_like_of(s) == Some(SymbolLike::AbsoluteContext)) == is_absolute_context_seq(s),
        (symbol_like_of(s) == Some(SymbolLike::RelativeContext)) == is_relative_context_seq(s),
        (symbol_like_of(s) == Some(SymbolLike::RelativeSymbol)) == is_relative_symbol_seq(s),
{
    let cs = components_of(s);
    let n = cs.len() as int;
    assert(cs.last() == cs[n - 1]);
    if is_absolute_symbol_seq(s) {
        assert(is_name_segment(cs[0]));
        assert(is_name_segment(cs[n - 1]));
    }
    if is_absolute_context_seq(s) {
        assert(is_name_segment(cs[0]));
    }
    if is_relative_symbol_seq(s) && n >= 2 {
        assert(is_name_segment(cs[n - 1]));
    }
}

/// Where a valid absolute symbol splits at its last separator: the part up to
/// and including it is a valid absolute context, and the part after it is a
/// valid name segment.
pub proof fn lemma_symbol_decompose(s: Seq<char>)
    requires
        is_absolute_symbol_seq(s),
    ensures
        0 <= last_sep(s) < s.len(),
        is_absolute_context_seq(s.take(last_sep(s) + 1)),
        is_name_segment(s.skip(last_sep(s) + 1)),
        s.skip(last_sep(s) + 1) == components_of(s).last(),
    decreases s.len(),
{
    let cs = components_of(s);
    lemma_first_sep_bounds(s);
    let i = first_sep(s);
    assert(i < s.len());
    let c0 = s.take(i);
    let t = s.skip(i + 1);
    let ct = components_of(t);
    assert(cs == seq![c0] + ct);
    assert(cs[0] == c0);
    assert(is_name_segment(c0));
    lemma_segment_has_no_separator(c0);
    assert forall|k: int| 0 <= k < ct.len() implies is_name_segment(#[trigger] ct[k]) by {
        assert(ct[k] == cs[k + 1]);
    }
    if ct.len() == 1 {
        lemma_first_sep_bounds(t);
        if first_sep(t) < t.len() {
            lemma_components_nonempty(t.skip(first_sep(t) + 1));
        }
        assert(first_sep(t) == t.len());
        assert(ct[0] == t);
        lemma_segment_has_no_separator(t);
        assert forall|k: int| i < k < s.len() implies !is_separator(#[trigger] s[k]) by {
            assert(s[k] == t[k - i - 1]);
        }
        lemma_last_sep_is(s, i);
        let cp = s.take(i + 1);
        assert(cp =~= c0 + seq!['`'] + Seq::<char>::empty());
        lemma_components_split(c0, Seq::<char>::empty());
        lemma_components_no_sep(Seq::<char>::empty());
        let cc = components_of(cp);
        assert(cc == seq![c0] + seq![Seq::<char>::empty()]);
        assert(cc.len() == 2);
        assert(cc[0] == c0);
        assert(cc.last() == Seq::<char>::empty());
        assert(all_name_segments(cc, 0, 1));
        assert(is_absolute_context_seq(cp));
        assert(cs.last() == ct[0]);
    } else {
        assert(is_absolute_symbol_seq(t));
        lemma_symbol_decompose(t);
        lemma_last_sep_bounds(t);
        let jt = last_sep(t);
        assert(is_separator(t[jt]));
        assert(s[i + 1 + jt] == t[jt]);
        assert forall|k: int| i + 1 + jt < k < s.len() implies !is_separator(#[trigger] s[k]) by {
            assert(s[k] == t[k - i - 1]);
            lemma_segment_has_no_separator(t.skip(jt + 1));
            assert(t[k - i - 1] == t.skip(jt + 1)[k - i - 1 - (jt + 1)]);
        }
        assert(is_separator(s[i + 1 + jt]));
        lemma_last_sep_is(s, i + 1 + jt);
        let tp = t.take(jt + 1);
        let cp = s.take(i + 1 + jt + 1);
        assert(cp =~= c0 + seq!['`'] + tp);
        lemma_components_split(c0, tp);
        let cc = components_of(cp);
        let cct = components_of(tp);
        assert(cc == seq![c0] + cct);
        assert(cc.len() >= 3);
        assert(cc.last() == cct.last());
        assert(cct.last().len() == 0);
        assert forall|k: int| 0 <= k < cc.len() - 1 implies is_name_segment(#[trigger] cc[k]) by {
            if k >= 1 {
                assert(cc[k] == cct[k - 1]);
                assert(all_name_segments(cct, 0, cct.len() - 1));
            }
        }
        assert(is_absolute_context_seq(cp));
        assert(s.skip(i + 1 + jt + 1) =~= t.skip(jt + 1));
        assert(cs.last() == ct.last());
    }
}

/// Index of the first separator at or after `from`, or the length if none.
pub(crate) fn next_sep(s: &str, from: usize, len: usize) -> (j: usize)
    requires
        from <= len,
        len == s@.len(),
    ensures
        from <= j <= len,
        forall|k: int| from <= k < j ==> !is_separator(#[trigger] s@[k]),
        j < len ==> is_separator(s@[j as int]),
{
    let mut j: usize = from;
    while j < len
        invariant
            from <= j <= len,
            len == s@.len(),
            forall|k: int| from <= k < j ==> !is_separator(#[trigger] s@[k]),
        decreases len - j,
    {
        let c = s.get_char(j);
        if c == '`' {
            return j;
        }
        j = j + 1;
    }
    j
}

/// Whether the characters of `s` in `from .. to` form a name segment.
fn check_segment(s: &str, from: usize, to: usize) -> (r: bool)
    requires
        from <= to <= s@.len(),
    ensures
        r == is_name_segment(s@.subrange(from as int, to as int)),
{
    let ghost seg = s@.subrange(from as int, to as int);
    if from == to {
        return false;
    }
    let c0 = s.get_char(from);
    assert(c0 == seg[0]);
    let first_ok = if is_alphabetic_char(c0) {
        true
    } else {
        c0 == '$'
    };
    if !first_ok {
        return false;
    }
    let mut i: usize = from + 1;
    while i < to
        invariant
            from < i <= to <= s@.len(),
            seg == s@.subrange(from as int, to as int),
            is_name_first(seg[0]),
            forall|k: int| 1 <= k < i - from ==> is_name_rest(#[trigger] seg[k]),
        decreases to - i,
    {
        let c = s.get_char(i);
        assert(c == seg[i - from]);
        let ok = if is_alphabetic_char(c) {
            true
        } else if c == '$' {
            true
        } else {
            let u = c as u32;
            48 <= u && u <= 57
        };
        if !ok {
            return false;
        }
        i = i + 1;
    }
    true
}

/// How `components_of` steps past the component that ends at `j`.
pub proof fn lemma_components_unfold(s: Seq<char>, start: int, j: int)
    requires
        0 <= start <= j <= s.len(),
        forall|k: int| start <= k < j ==> !is_separator(#[trigger] s[k]),
        j < s.len() ==> is_separator(s[j]),
    ensures
        j == s.len() ==> components_of(s.skip(start)) == seq![s.skip(start)],
        j < s.len() ==> components_of(s.skip(start)) == seq![s.subrange(start, j)]
            + components_of(s.skip(j + 1)),
{
    let t = s.skip(start);
    assert forall|k: int| 0 <= k < j - start implies !is_separator(#[trigger] t[k]) by {
        assert(t[k] == s[k + start]);
    }
    if j < s.len() {
        assert(t[j - start] == s[j]);
    }
    lemma_first_sep_is(t, j - start);
    if j < s.len() {
        assert(t.take(j - start) =~= s.subrange(start, j));
        assert(t.skip(j - start + 1) =~= s.skip(j + 1));
    }
}

/// Parse `input` against the whole grammar and classify it.
pub fn parse_symbol_like(input: &str) -> (r: Option<SymbolLike>)
    ensures
        r == symbol_like_of(input@),
{
    let len = input.unicode_len();
    let ghost s = input@;
    let ghost cs = components_of(s);
    if len == 0 {
        proof {
            lemma_first_sep_is(s, 0);
            assert(cs == seq![s]);
            assert(!is_name_segment(cs[0]));
            assert(symbol_like_of(s) is None);
        }
        return None;
    }
    let mut start: usize = 0;
    let mut count: usize = 0;
    let ghost mut gcount: int = 0;
    let mut first_empty = false;
    let mut first_seg = false;
    let mut last_empty = false;
    let mut last_seg = false;
    let mut mid_all = true;
    proof {
        assert(s.skip(0) =~= s);
    }
    loop
        invariant_except_break
            start <= len,
            len == s.len(),
            s == input@,
            cs == components_of(s),
            components_of(s.skip(start as int)) == cs.skip(gcount),
            0 <= gcount < cs.len(),
            count == (if gcount <= 3 { gcount } else { 3int }),
            gcount >= 1 ==> first_empty == (cs[0].len() == 0),
            gcount >= 1 ==> first_seg == is_name_segment(cs[0]),
            gcount >= 1 ==> last_empty == (cs[gcount - 1].len() == 0),
            gcount >= 1 ==> last_seg == is_name_segment(cs[gcount - 1]),
            mid_all == all_name_segments(cs, 1, if gcount <= 1 { 1int } else { gcount - 1 }),
        ensures
            gcount == cs.len(),
            gcount >= 1,
            count == (if gcount <= 3 { gcount } else { 3int }),
            first_empty == (cs[0].len() == 0),
            first_seg == is_name_segment(cs[0]),
            last_empty == (cs[gcount - 1].len() == 0),
            last_seg == is_name_segment(cs[gcount - 1]),
            mid_all == all_name_segments(cs, 1, if gcount <= 1 { 1int } else { gcount - 1 }),
        decreases len - start,
    {
        let j = next_sep(input, start, len);
        let ghost comp = if j == len {
            s.skip(start as int)
        } else {
            s.subrange(start as int, j as int)
        };
        proof {
            lemma_components_unfold(s, start as int, j as int);
            if j == len {
                assert(cs.skip(gcount) == seq![comp]);
            }
            assert(cs.skip(gcount)[0] == cs[gcount]);
            assert(cs[gcount] == comp);
        }
        let seg = if j == len {
            let r = check_segment(input, start, len);
            proof {
                assert(s.subrange(start as int, len as int) =~= comp);
            }
            r
        } else {
            check_segment(input, start, j)
        };
        let is_empty_c = j == start;
        if count == 0 {
            first_empty = is_empty_c;
            first_seg = seg;
        } else if count >= 2 {
            mid_all = mid_all && last_seg;
        }
        last_empty = is_empty_c;
        last_seg = seg;
        proof {
            let newcount = gcount + 1;
            let hi = if newcount <= 1 { 1int } else { newcount - 1 };
            let oldhi = if gcount <= 1 { 1int } else { gcount - 1 };
            assert forall|i: int| 1 <= i < hi implies is_name_segment(#[trigger] cs[i]) || !mid_all by {
                if i < oldhi {
                } else {
                    assert(i == gcount - 1);
                }
            }
        }
        if count < 3 {
            count = count + 1;
        }
        proof {
            gcount = gcount + 1;
        }
        if j == len {
            proof {
                assert(cs.skip(gcount - 1).len() == 1);
            }
            break;
        }
        start = j + 1;
        proof {
            assert(cs.skip(gcount) =~= cs.skip(gcount - 1).skip(1));
        }
    }
    let r = if count == 1 {
        if first_seg {
            Some(SymbolLike::SymbolName)
        } else {
            None
        }
    } else if first_empty {
        if count >= 3 && last_empty && mid_all {
            Some(SymbolLike::RelativeContext)
        } else if mid_all && last_seg {
            Some(SymbolLike::RelativeSymbol)
        } else {
            None
        }
    } else if last_empty {
        if first_seg && mid_all {
            Some(SymbolLike::AbsoluteContext)
        } else {
            None
        }
    } else if first_seg && mid_all && last_seg {
        Some(SymbolLike::AbsoluteSymbol)
    } else {
        None
    };
    proof {
        let n = cs.len() as int;
        assert(cs.last() == cs[n - 1]);
        if n >= 2 {
            assert(all_name_segments(cs, 0, n) == (first_seg && mid_all && last_seg)) by {
                if first_seg && mid_all && last_seg {
                    assert forall|i: int| 0 <= i < n implies is_name_segment(#[trigger] cs[i]) by {
                        if i == 0 {
                        } else if i == n - 1 {
                        } else {
                            assert(1 <= i < n - 1);
                        }
                    }
                }
            }
            assert(all_name_segments(cs, 0, n - 1) == (first_seg && mid_all)) by {
                if first_seg && mid_all {
                    assert forall|i: int| 0 <= i < n - 1 implies is_name_segment(#[trigger] cs[i]) by {
                        if i == 0 {
                        } else {
                            assert(1 <= i < n - 1);
                        }
                    }
                } else {
                    if !first_seg {
                    } else {
                        assert(!all_name_segments(cs, 1, if n <= 1 { 1int } else { n - 1 }));
                    }
                }
            }
            assert(all_name_segments(cs, 1, n) == (mid_all && last_seg)) by {
                if mid_all && last_seg {
                    assert forall|i: int| 1 <= i < n implies is_name_segment(#[trigger] cs[i]) by {
                        if i == n - 1 {
                        } else {
                            assert(1 <= i < n - 1);
                        }
                    }
                }
            }
            if first_empty {
                assert(!is_name_segment(cs[0]));
            }
            if last_empty {
                assert(!is_name_segment(cs[n - 1]));
            }
        }
    }
    r
}

/// Whether `s` as a whole is a single name segment.
pub fn is_symbol_component(s: &str) -> (r: bool)
    ensures
        r == is_name_segment(s@),
{
    let len = s.unicode_len();
    let r = check_segment(s, 0, len);
    proof {
        assert(s@.subrange(0, s@.len() as int) =~= s@);
    }
    r
}




/// A name segment followed by a separator is a valid context.
pub proof fn lemma_segment_context(n: Seq<char>)
    requires
        is_name_segment(n),
    ensures
        is_absolute_context_seq(n + seq!['`']),
        components_of(n + seq!['`']) == seq![n, Seq::<char>::empty()],
{
    lemma_segment_has_no_separator(n);
    lemma_components_split(n, Seq::<char>::empty());
    lemma_components_no_sep(Seq::<char>::empty());
    assert(n + seq!['`'] =~= n + seq!['`'] + Seq::<char>::empty());
    let cs = components_of(n + seq!['`']);
    assert(cs == seq![n] + seq![Seq::<char>::empty()]);
    assert(cs[0] == n);
    assert(cs.last() == Seq::<char>::empty());
    assert(all_name_segments(cs, 0, 1));
}

/// Appending a name segment and a separator to a context yields a context.
pub proof fn lemma_context_join(c: Seq<char>, n: Seq<char>)
    requires
        is_absolute_context_seq(c),
        is_name_segment(n),
    ensures
        is_absolute_context_seq(c + n + seq!['`']),
    decreases c.len(),
{
    let cs = components_of(c);
    lemma_first_sep_bounds(c);
    let i = first_sep(c);
    if i == c.len() {
        assert(cs.len() == 1);
    }
    let c0 = c.take(i);
    let t = c.skip(i + 1);
    let ct = components_of(t);
    assert(cs == seq![c0] + ct);
    assert(cs[0] == c0);
    assert(is_name_segment(c0));
    lemma_segment_has_no_separator(c0);
    let w = c + n + seq!['`'];
    assert(w =~= c0 + seq!['`'] + (t + n + seq!['`']));
    lemma_components_split(c0, t + n + seq!['`']);
    let cw = components_of(w);
    assert(cw == seq![c0] + components_of(t + n + seq!['`']));
    if ct.len() == 1 {
        lemma_first_sep_bounds(t);
        if first_sep(t) < t.len() {
            lemma_components_nonempty(t.skip(first_sep(t) + 1));
        }
        assert(ct[0] == t);
        assert(cs.last() == t);
        assert(t.len() == 0);
        assert(t + n + seq!['`'] =~= n + seq!['`']);
        lemma_segment_context(n);
        let cc = components_of(n + seq!['`']);
        assert(cw == seq![c0] + cc);
        assert(cw.len() == 3);
        assert(cw[0] == c0);
        assert(cw[1] == n);
        assert(cw.last() == Seq::<char>::empty());
        assert forall|k: int| 0 <= k < cw.len() - 1 implies is_name_segment(#[trigger] cw[k]) by {
        }
        assert(is_absolute_context_seq(w));
    } else {
        assert forall|k: int| 0 <= k < ct.len() - 1 implies is_name_segment(#[trigger] ct[k]) by {
            assert(ct[k] == cs[k + 1]);
            assert(all_name_segments(cs, 0, cs.len() - 1));
        }
        assert(ct.last() == cs.last());
        assert(is_absolute_context_seq(t));
        lemma_context_join(t, n);
        let cc = components_of(t + n + seq!['`']);
        assert(cw == seq![c0] + cc);
        assert(cw.len() >= 3);
        assert(cw.last() == cc.last());
        assert forall|k: int| 0 <= k < cw.len() - 1 implies is_name_segment(#[trigger] cw[k]) by {
            if k >= 1 {
                assert(cw[k] == cc[k - 1]);
                assert(all_name_segments(cc, 0, cc.len() - 1));
            }
        }
        assert(is_absolute_context_seq(w));
    }
}

/// Index of the last separator in `s`, found by scanning from the end.
pub(crate) fn find_last_sep(s: &str, len: usize) -> (j: usize)
    requires
        len == s@.len(),
        last_sep(s@) >= 0,
    ensures
        j as int == last_sep(s@),
        j < len,
{
    proof {
        lemma_last_sep_bounds(s@);
    }
    let mut i: usize = len;
    while i > 0
        invariant
            i <= len,
            len == s@.len(),
            last_sep(s@) >= 0,
            forall|k: int| i <= k < len ==> !is_separator(#[trigger] s@[k]),
        decreases i,
    {
        let c = s.get_char(i - 1);
        if c == '`' {
            proof {
                lemma_last_sep_is(s@, i as int - 1);
            }
            return i - 1;
        }
        i = i - 1;
    }
    proof {
        lemma_last_sep_is(s@, -1);
    }
    vstd::pervasive::unreached()
}


/// Prefixing segments-with-separators by a context yields an absolute
/// symbol, and the components concatenate.
pub proof fn lemma_context_prepend(c: Seq<char>, t: Seq<char>)
    requires
        is_absolute_context_seq(c),
        components_of(t).len() >= 1,
        all_name_segments(components_of(t), 0, components_of(t).len() as int),
    ensures
        is_absolute_symbol_seq(c + t),
        components_of(c + t) == components_of(c).drop_last() + components_of(t),
    decreases c.len(),
{
    let cs = components_of(c);
    lemma_first_sep_bounds(c);
    let i = first_sep(c);
    if i == c.len() {
        assert(cs.len() == 1);
    }
    let c0 = c.take(i);
    let crest = c.skip(i + 1);
    let cr = components_of(crest);
    assert(cs == seq![c0] + cr);
    assert(cs[0] == c0);
    assert(is_name_segment(c0));
    lemma_segment_has_no_separator(c0);
    let w = c + t;
    assert(w =~= c0 + seq!['`'] + (crest + t));
    lemma_components_split(c0, crest + t);
    let cw = components_of(w);
    assert(cw == seq![c0] + components_of(crest + t));
    if cr.len() == 1 {
        lemma_first_sep_bounds(crest);
        if first_sep(crest) < crest.len() {
            lemma_components_nonempty(crest.skip(first_sep(crest) + 1));
        }
        assert(cr[0] == crest);
        assert(cs.last() == crest);
        assert(crest.len() == 0);
        assert(crest + t =~= t);
        assert(cw == seq![c0] + components_of(t));
        assert(cw.len() >= 2);
        assert forall|k: int| 0 <= k < cw.len() implies is_name_segment(#[trigger] cw[k]) by {
            if k >= 1 {
                assert(cw[k] == components_of(t)[k - 1]);
            }
        }
        assert(cs.drop_last() =~= seq![c0]);
        assert(cw =~= cs.drop_last() + components_of(t));
    } else {
        assert forall|k: int| 0 <= k < cr.len() - 1 implies is_name_segment(#[trigger] cr[k]) by {
            assert(cr[k] == cs[k + 1]);
            assert(all_name_segments(cs, 0, cs.len() - 1));
        }
        assert(cr.last() == cs.last());
        assert(is_absolute_context_seq(crest));
        lemma_context_prepend(crest, t);
        let cc = components_of(crest + t);
        assert(cc == cr.drop_last() + components_of(t));
        assert(cw == seq![c0] + cc);
        assert(cw.len() >= 2);
        assert forall|k: int| 0 <= k < cw.len() implies is_name_segment(#[trigger] cw[k]) by {
            if k >= 1 {
                assert(cw[k] == cc[k - 1]);
                if k - 1 < cr.len() - 1 {
                    assert(cc[k - 1] == cr[k - 1]);
                } else {
                    assert(cc[k - 1] == components_of(t)[k - 1 - (cr.len() - 1)]);
                }
            }
        }
        assert(cs.drop_last() =~= seq![c0] + cr.drop_last());
        assert(cw =~= cs.drop_last() + components_of(t));
    }
}

} // verus!
