//! Substring search over strings, counted in characters. The demangled
//! names in the debug information are matched and sliced with these.

use vstd::prelude::*;

verus! {

/// Whether `pat` occurs in `s` starting at position `i`.
pub open spec fn is_match_at(s: Seq<char>, pat: Seq<char>, i: int) -> bool {
    0 <= i && i + pat.len() <= s.len() && s.subrange(i, i + pat.len()) == pat
}

/// The first position at or after `i` where `pat` occurs in `s`.
pub open spec fn first_match_from(s: Seq<char>, pat: Seq<char>, i: int) -> Option<int>
    decreases s.len() + 1 - i,
{
    if i < 0 || i + pat.len() > s.len() {
        None
    } else if is_match_at(s, pat, i) {
        Some(i)
    } else {
        first_match_from(s, pat, i + 1)
    }
}

/// Whether `pat` occurs anywhere in `s`.
pub open spec fn spec_contains(s: Seq<char>, pat: Seq<char>) -> bool {
    first_match_from(s, pat, 0) is Some
}

/// The last position at or before `i` where `pat` occurs in `s`.
pub open spec fn last_match_at_or_before(s: Seq<char>, pat: Seq<char>, i: int) -> Option<int>
    decreases i + 1,
{
    if i < 0 {
        None
    } else if is_match_at(s, pat, i) {
        Some(i)
    } else {
        last_match_at_or_before(s, pat, i - 1)
    }
}

/// The last position where `pat` occurs in `s`.
pub open spec fn spec_last_match(s: Seq<char>, pat: Seq<char>) -> Option<int> {
    last_match_at_or_before(s, pat, s.len() - pat.len())
}

/// A found first position is a match position.
pub proof fn lemma_first_match_is_match(s: Seq<char>, pat: Seq<char>, i: int, j: int)
    requires
        first_match_from(s, pat, i) == Some(j),
    ensures
        is_match_at(s, pat, j),
        i <= j,
    decreases s.len() + 1 - i,
{
    if !(i < 0 || i + pat.len() > s.len()) && !is_match_at(s, pat, i) {
        lemma_first_match_is_match(s, pat, i + 1, j);
    }
}

/// A found last position is a match position.
pub proof fn lemma_last_match_is_match(s: Seq<char>, pat: Seq<char>, i: int, j: int)
    requires
        last_match_at_or_before(s, pat, i) == Some(j),
    ensures
        is_match_at(s, pat, j),
        j <= i,
    decreases i + 1,
{
    if i >= 0 && !is_match_at(s, pat, i) {
        lemma_last_match_is_match(s, pat, i - 1, j);
    }
}

/// Whether `pat` occurs in `s` at position `i`.
pub fn match_at(s: &str, pat: &str, i: usize) -> (r: bool)
    requires
        i + pat@.len() <= s@.len(),
        s@.len() <= usize::MAX,
    ensures
        r == is_match_at(s@, pat@, i as int),
{
    let m = pat.unicode_len();
    let mut j: usize = 0;
    while j < m
        invariant
            j <= m,
            m == pat@.len(),
            i + m <= s@.len(),
            s@.len() <= usize::MAX,
            forall|q: int| 0 <= q < j ==> s@[i + q] == pat@[q],
        decreases m - j,
    {
        if s.get_char(i + j) != pat.get_char(j) {
            proof {
                assert(s@.subrange(i as int, i + m)[j as int] == s@[i + j]);
            }
            return false;
        }
        j += 1;
    }
    proof {
        assert(s@.subrange(i as int, i + m) =~= pat@);
    }
    true
}

/// The first position where `pat` occurs in `s`, if any.
pub fn find_first(s: &str, pat: &str) -> (r: Option<usize>)
    ensures
        match r {
            Some(i) => first_match_from(s@, pat@, 0) == Some(i as int),
            None => first_match_from(s@, pat@, 0) is None,
        },
{
    let n = s.unicode_len();
    let m = pat.unicode_len();
    if m > n {
        return None;
    }
    let mut i: usize = 0;
    while i < n - m
        invariant
            n == s@.len(),
            m == pat@.len(),
            m <= n,
            i <= n - m,
            first_match_from(s@, pat@, 0) == first_match_from(s@, pat@, i as int),
        decreases n - m - i,
    {
        if match_at(s, pat, i) {
            return Some(i);
        }
        i += 1;
    }
    if match_at(s, pat, i) {
        return Some(i);
    }
    proof {
        assert(first_match_from(s@, pat@, i as int + 1) is None);
    }
    None
}

/// Whether `pat` occurs anywhere in `s`.
pub fn contains_str(s: &str, pat: &str) -> (r: bool)
    ensures
        r == spec_contains(s@, pat@),
{
    match find_first(s, pat) {
        Some(_) => true,
        None => false,
    }
}

/// The last position where `pat` occurs in `s`, if any.
pub fn find_last(s: &str, pat: &str) -> (r: Option<usize>)
    ensures
        match r {
            Some(i) => spec_last_match(s@, pat@) == Some(i as int),
            None => spec_last_match(s@, pat@) is None,
        },
{
    let n = s.unicode_len();
    let m = pat.unicode_len();
    if m > n {
        proof {
            assert(last_match_at_or_before(s@, pat@, s@.len() - pat@.len()) is None);
        }
        return None;
    }
    let mut i: usize = n - m;
    loop
        invariant
            n == s@.len(),
            m == pat@.len(),
            m <= n,
            i <= n - m,
            spec_last_match(s@, pat@) == last_match_at_or_before(s@, pat@, i as int),
        decreases i + 1,
    {
        if match_at(s, pat, i) {
            return Some(i);
        }
        proof {
            assert(last_match_at_or_before(s@, pat@, i as int) == last_match_at_or_before(
                s@,
                pat@,
                i as int - 1,
            ));
        }
        if i == 0 {
            proof {
                assert(last_match_at_or_before(s@, pat@, -1) is None);
            }
            return None;
        }
        i -= 1;
    }
}

/// The characters of `s` from position `from` up to `to`, as an owned
/// string.
pub fn substring(s: &str, from: usize, to: usize) -> (r: String)
    requires
        from <= to <= s@.len(),
    ensures
        r@ == s@.subrange(from as int, to as int),
{
    let sub = s.substring_char(from, to);
    String::from_str(sub)
}

} // verus!
