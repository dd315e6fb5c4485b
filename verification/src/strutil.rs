//! Character and string helpers shared by the scanner and the printer:
//! conversions between `String` and `Vec<char>`, space trimming, and
//! membership of a name in an allow-list.

use vstd::prelude::*;

verus! {

/// Name for the result of `char::is_alphanumeric`, which depends on the
/// character alone (a Unicode property table lookup).
pub uninterp spec fn unicode_alphanumeric(c: char) -> bool;

/// Relies on char::is_alphanumeric: whether the character is alphanumeric
/// under Unicode, a function of the character alone.
#[verifier::external_body]
pub(crate) fn char_is_alphanumeric(c: char) -> (r: bool)
    ensures
        r == unicode_alphanumeric(c),
{
    c.is_alphanumeric()
}

/// Relies on str::chars: the iterator yields exactly the characters of the
/// string, in order; collected into a vector they are the string's view.
#[verifier::external_body]
pub(crate) fn str_chars(s: &str) -> (r: Vec<char>)
    ensures
        r@ == s@,
{
    s.chars().collect()
}

/// Relies on String's FromIterator<char>: collecting an iterator of
/// characters builds the string of exactly those characters, in order.
#[verifier::external_body]
pub(crate) fn chars_to_string(v: &Vec<char>) -> (r: String)
    ensures
        r@ == v@,
{
    v.iter().collect()
}

/// Spec: `s` without its leading spaces.
pub open spec fn strip_leading_spaces(s: Seq<char>) -> Seq<char>
    decreases s.len(),
{
    if s.len() > 0 && s[0] == ' ' {
        strip_leading_spaces(s.skip(1))
    } else {
        s
    }
}

/// Spec: `s` without its trailing spaces.
pub open spec fn strip_trailing_spaces(s: Seq<char>) -> Seq<char>
    decreases s.len(),
{
    if s.len() > 0 && s.last() == ' ' {
        strip_trailing_spaces(s.drop_last())
    } else {
        s
    }
}

/// Spec: `s` without leading and trailing spaces.
pub open spec fn trim_spaces(s: Seq<char>) -> Seq<char> {
    strip_trailing_spaces(strip_leading_spaces(s))
}

proof fn lemma_strip_leading_is_skip(s: Seq<char>, k: int)
    requires
        0 <= k <= s.len(),
        forall|i: int| 0 <= i < k ==> s[i] == ' ',
        k == s.len() || s[k] != ' ',
    ensures
        strip_leading_spaces(s) == s.skip(k),
    decreases k,
{
    if k == 0 {
        assert(s.skip(0) == s);
    } else {
        lemma_strip_leading_is_skip(s.skip(1), k - 1);
        assert(s.skip(1).skip(k - 1) == s.skip(k));
    }
}

proof fn lemma_strip_trailing_is_take(s: Seq<char>, m: int)
    requires
        0 <= m <= s.len(),
        forall|i: int| m <= i < s.len() ==> s[i] == ' ',
        m == 0 || s[m - 1] != ' ',
    ensures
        strip_trailing_spaces(s) == s.take(m),
    decreases s.len() - m,
{
    if m == s.len() {
        assert(s.take(m) == s);
    } else {
        assert(s.last() == ' ');
        lemma_strip_trailing_is_take(s.drop_last(), m);
        assert(s.drop_last().take(m) == s.take(m));
    }
}

/// A copy of `v` without its leading spaces.
pub(crate) fn strip_leading_spaces_vec(v: &Vec<char>) -> (r: Vec<char>)
    ensures
        r@ == strip_leading_spaces(v@),
{
    let mut start: usize = 0;
    while start < v.len() && v[start] == ' '
        invariant
            0 <= start <= v.len(),
            forall|i: int| 0 <= i < start ==> v@[i] == ' ',
        decreases v.len() - start,
    {
        start += 1;
    }
    proof {
        lemma_strip_leading_is_skip(v@, start as int);
    }
    let mut r: Vec<char> = Vec::new();
    let mut i: usize = start;
    while i < v.len()
        invariant
            start <= i <= v.len(),
            r@ == v@.subrange(start as int, i as int),
        decreases v.len() - i,
    {
        r.push(v[i]);
        i += 1;
        proof {
            assert(r@ == v@.subrange(start as int, i as int));
        }
    }
    proof {
        assert(v@.subrange(start as int, v@.len() as int) == v@.skip(start as int));
    }
    r
}

/// A copy of `v` without leading and trailing spaces.
pub(crate) fn trim_spaces_vec(v: &Vec<char>) -> (r: Vec<char>)
    ensures
        r@ == trim_spaces(v@),
{
    let mut start: usize = 0;
    while start < v.len() && v[start] == ' '
        invariant
            0 <= start <= v.len(),
            forall|i: int| 0 <= i < start ==> v@[i] == ' ',
        decreases v.len() - start,
    {
        start += 1;
    }
    let mut end: usize = v.len();
    while end > start && v[end - 1] == ' '
        invariant
            start <= end <= v.len(),
            forall|i: int| end <= i < v.len() ==> v@[i] == ' ',
        decreases end,
    {
        end -= 1;
    }
    proof {
        lemma_strip_leading_is_skip(v@, start as int);
        let stripped = v@.skip(start as int);
        lemma_strip_trailing_is_take(stripped, end - start);
        assert(stripped.take(end - start) == v@.subrange(start as int, end as int));
    }
    let mut r: Vec<char> = Vec::new();
    let mut i: usize = start;
    while i < end
        invariant
            start <= i <= end <= v.len(),
            r@ == v@.subrange(start as int, i as int),
        decreases end - i,
    {
        r.push(v[i]);
        i += 1;
        proof {
            assert(r@ == v@.subrange(start as int, i as int));
        }
    }
    r
}

/// True when the string `s` occurs in `v`.
pub(crate) fn vec_contains_string(v: &Vec<String>, s: &String) -> (r: bool)
    ensures
        r == v.deep_view().contains(s@),
{
    let mut i: usize = 0;
    while i < v.len()
        invariant
            0 <= i <= v.len(),
            forall|j: int| 0 <= j < i ==> v.deep_view()[j] != s@,
        decreases v.len() - i,
    {
        if v[i].eq(s) {
            assert(v.deep_view()[i as int] == s@);
            return true;
        }
        i += 1;
    }
    false
}

} // verus!
