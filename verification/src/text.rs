//! Character classes and string helpers shared by the sub-scanners.

use vstd::prelude::*;
use vstd::string::StrSliceExecFns;

verus! {

/// The result of `char::is_whitespace` on a character.
pub uninterp spec fn char_is_whitespace(c: char) -> bool;

/// Relies on `char::is_whitespace`: whether the character has the Unicode
/// `White_Space` property, a function of the character alone.
pub assume_specification[ char::is_whitespace ](c: char) -> (r: bool)
    ensures
        r == char_is_whitespace(c),
;

/// The result of `char::is_alphabetic` on a character.
pub uninterp spec fn char_is_alphabetic(c: char) -> bool;

/// Relies on `char::is_alphabetic`: whether the character has the Unicode
/// `Alphabetic` property, a function of the character alone.
pub assume_specification[ char::is_alphabetic ](c: char) -> (r: bool)
    ensures
        r == char_is_alphabetic(c),
;

/// The result of `char::is_alphanumeric` on a character.
pub uninterp spec fn char_is_alphanumeric(c: char) -> bool;

/// Relies on `char::is_alphanumeric`: whether the character is alphabetic or
/// numeric per Unicode, a function of the character alone.
pub assume_specification[ char::is_alphanumeric ](c: char) -> (r: bool)
    ensures
        r == char_is_alphanumeric(c),
;

/// A decimal digit `'0'..='9'`.
pub open spec fn char_is_digit(c: char) -> bool {
    '0' <= c && c <= '9'
}

/// A character that may continue an identifier: alphanumeric or underscore.
pub open spec fn ident_char(c: char) -> bool {
    char_is_alphanumeric(c) || c == '_'
}

/// Number of leading elements of `s` satisfying `pred`.
pub open spec fn run_len<A>(s: Seq<A>, pred: spec_fn(A) -> bool) -> nat
    decreases s.len(),
{
    if s.len() > 0 && pred(s[0]) {
        1 + run_len(s.drop_first(), pred)
    } else {
        0
    }
}

pub proof fn lemma_run_len_le<A>(s: Seq<A>, pred: spec_fn(A) -> bool)
    ensures
        run_len(s, pred) <= s.len(),
    decreases s.len(),
{
    if s.len() > 0 && pred(s[0]) {
        lemma_run_len_le(s.drop_first(), pred);
    }
}

/// A scan that saw `pred` hold on the first `i` elements and fail on the
/// next one (or hit the end) has found exactly the leading run.
pub proof fn lemma_run_len_is<A>(s: Seq<A>, pred: spec_fn(A) -> bool, i: int)
    requires
        0 <= i <= s.len(),
        forall|j: int| 0 <= j < i ==> pred(s[j]),
        i < s.len() ==> !pred(s[i]),
    ensures
        run_len(s, pred) == i,
    decreases i,
{
    if i == 0 {
        assert(s.len() == 0 || !pred(s[0]));
    } else {
        assert(pred(s[0]));
        let t = s.drop_first();
        assert forall|j: int| 0 <= j < i - 1 implies pred(t[j]) by {
            assert(t[j] == s[j + 1]);
        }
        assert(i - 1 < t.len() ==> !pred(t[i - 1]));
        lemma_run_len_is(t, pred, i - 1);
    }
}

/// Every element inside the leading run satisfies `pred`.
pub proof fn lemma_run_len_holds<A>(s: Seq<A>, pred: spec_fn(A) -> bool, j: int)
    requires
        0 <= j < run_len(s, pred),
    ensures
        pred(s[j]),
    decreases j,
{
    lemma_run_len_le(s, pred);
    if j > 0 {
        lemma_run_len_holds(s.drop_first(), pred, j - 1);
        assert(s.drop_first()[j - 1] == s[j]);
    }
}

/// Whether `p` is a prefix of `s`, by characters.
pub fn str_has_prefix(s: &str, p: &str) -> (r: bool)
    ensures
        r == p@.is_prefix_of(s@),
{
    let sl = s.unicode_len();
    let pl = p.unicode_len();
    if pl > sl {
        return false;
    }
    let mut i: usize = 0;
    while i < pl
        invariant
            0 <= i <= pl,
            pl <= sl,
            pl == p@.len(),
            sl == s@.len(),
            forall|j: int| 0 <= j < i ==> p@[j] == s@[j],
        decreases pl - i,
    {
        if s.get_char(i) != p.get_char(i) {
            assert(!p@.is_prefix_of(s@)) by {
                assert(p@[i as int] != s@.subrange(0, pl as int)[i as int]);
            }
            return false;
        }
        i += 1;
    }
    assert(p@ =~= s@.subrange(0, pl as int));
    true
}

} // verus!
