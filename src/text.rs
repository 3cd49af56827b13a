//! Text primitives: trimming and case folding from std, display width from
//! `unicode-width`, and small verified helpers on character sequences.

use vstd::prelude::*;
use unicode_width::UnicodeWidthStr;

verus! {

/// What `str::trim` leaves of a string.
pub uninterp spec fn trim_of(s: Seq<char>) -> Seq<char>;

/// What `str::to_lowercase` makes of a string.
pub uninterp spec fn lower_of(s: Seq<char>) -> Seq<char>;

/// The column count that `unicode-width` gives a string.
pub uninterp spec fn width_of(s: Seq<char>) -> nat;

/// Relies on `str::trim`: the result depends on the characters alone, and
/// nothing is left of an empty string.
#[verifier::external_body]
pub(crate) fn trim(s: &str) -> (r: &str)
    ensures
        r@ == trim_of(s@),
        s@.len() == 0 ==> r@.len() == 0,
{
    s.trim()
}

/// Relies on `str::to_lowercase`: the result depends on the characters alone.
#[verifier::external_body]
pub(crate) fn to_lowercase(s: &str) -> (r: String)
    ensures
        r@ == lower_of(s@),
{
    s.to_lowercase()
}

/// Relies on `unicode_width::UnicodeWidthStr::width`: the result depends on
/// the characters alone, and an empty string is zero columns wide.
#[verifier::external_body]
pub(crate) fn display_width(s: &str) -> (r: usize)
    ensures
        r == width_of(s@),
        s@.len() == 0 ==> r == 0,
{
    UnicodeWidthStr::width(s)
}

/// Whether `s` is empty once trimmed.
pub fn is_blank(s: &str) -> (r: bool)
    ensures
        r == (trim_of(s@).len() == 0),
{
    trim(s).unicode_len() == 0
}

/// Index `i` holds the first tab of `s`.
pub open spec fn first_tab(s: Seq<char>, i: int) -> bool {
    &&& 0 <= i < s.len()
    &&& s[i] == '\t'
    &&& forall|j: int| 0 <= j < i ==> s[j] != '\t'
}

/// Whether `s` holds a tab.
pub open spec fn has_tab(s: Seq<char>) -> bool {
    exists|i: int| 0 <= i < s.len() && s[i] == '\t'
}

/// The index of the first tab of `s`.
pub open spec fn tab_index(s: Seq<char>) -> int {
    choose|i: int| first_tab(s, i)
}

/// The text of `s` before its first tab, or all of `s` if it has none.
pub open spec fn first_field_of(s: Seq<char>) -> Seq<char> {
    if has_tab(s) {
        s.subrange(0, tab_index(s))
    } else {
        s
    }
}

/// The index of the first tab of `s`, if any.
pub fn find_tab(s: &str) -> (r: Option<usize>)
    ensures
        match r {
            Some(i) => first_tab(s@, i as int) && has_tab(s@) && tab_index(s@) == i,
            None => !has_tab(s@),
        },
{
    let n = s.unicode_len();
    let mut i: usize = 0;
    while i < n
        invariant
            n == s@.len(),
            i <= n,
            forall|j: int| 0 <= j < i ==> s@[j] != '\t',
        decreases n - i,
    {
        if s.get_char(i) == '\t' {
            assert(first_tab(s@, i as int));
            assert(forall|c: int| first_tab(s@, c) ==> c == i);
            return Some(i);
        }
        i = i + 1;
    }
    None
}

/// The text of `s` before its first tab, or all of `s` if it has none.
pub fn first_field(s: &str) -> (r: String)
    ensures
        r@ == first_field_of(s@),
{
    match find_tab(s) {
        Some(i) => String::from_str(s.substring_char(0, i)),
        None => String::from_str(s),
    }
}

/// The trimmed text before and after the first tab of `s`, when `s` has a
/// tab and neither part is blank.
pub open spec fn tab_pair_of(s: Seq<char>) -> Option<(Seq<char>, Seq<char>)> {
    if has_tab(s) {
        let a = trim_of(s.subrange(0, tab_index(s)));
        let b = trim_of(s.subrange(tab_index(s) + 1, s.len() as int));
        if a.len() == 0 || b.len() == 0 {
            None
        } else {
            Some((a, b))
        }
    } else {
        None
    }
}

/// Splits `s` at its first tab into two trimmed, non-blank parts.
pub fn split_tab_pair(s: &str) -> (r: Option<(String, String)>)
    ensures
        match r {
            Some(p) => tab_pair_of(s@) == Some((p.0@, p.1@)),
            None => tab_pair_of(s@) is None,
        },
{
    match find_tab(s) {
        Some(i) => {
            let n = s.unicode_len();
            let a = trim(s.substring_char(0, i));
            let b = trim(s.substring_char(i + 1, n));
            if a.unicode_len() == 0 || b.unicode_len() == 0 {
                None
            } else {
                Some((String::from_str(a), String::from_str(b)))
            }
        },
        None => None,
    }
}

/// Relies on `String::push`: appends `c`.
#[verifier::external_body]
pub(crate) fn push_char(s: &mut String, c: char)
    ensures
        final(s)@ == old(s)@.push(c),
{
    s.push(c)
}

/// Relies on `String::pop`: removes and returns the last character, or
/// returns none and leaves an empty string as it is.
#[verifier::external_body]
pub(crate) fn pop_char(s: &mut String) -> (r: Option<char>)
    ensures
        old(s)@.len() == 0 ==> r is None && final(s)@ == old(s)@,
        old(s)@.len() > 0 ==> r == Some(old(s)@.last()) && final(s)@ == old(s)@.drop_last(),
{
    s.pop()
}

} // verus!
