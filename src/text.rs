//! Character-level scanning: substring search, whitespace runs and splitting.
use vstd::prelude::*;

verus! {

/// `pat` occurs in `s` starting at index `i`.
pub open spec fn occurs_at(s: Seq<char>, i: int, pat: Seq<char>) -> bool {
    0 <= i && i + pat.len() <= s.len() && s.subrange(i, i + pat.len()) == pat
}

/// The first index `k >= i` at which `pat` occurs in `s`.
pub open spec fn find_from(s: Seq<char>, pat: Seq<char>, i: int) -> Option<int>
    decreases s.len() + 1 - i,
{
    if i < 0 || i + pat.len() > s.len() {
        None
    } else if occurs_at(s, i, pat) {
        Some(i)
    } else {
        find_from(s, pat, i + 1)
    }
}

/// The separators skipped before a member declaration.
pub open spec fn is_line_space(c: char) -> bool {
    c == '\r' || c == '\n' || c == '\t'
}

/// The first index `k >= i` whose character is not a line space (or `s.len()`).
pub open spec fn skip_line_space(s: Seq<char>, i: int) -> int
    decreases s.len() - i,
{
    if i < 0 || i >= s.len() || !is_line_space(s[i]) {
        i
    } else {
        skip_line_space(s, i + 1)
    }
}

/// The pieces of `s` from index `i` on, cut at every space.
pub open spec fn split_from(s: Seq<char>, i: int) -> Seq<Seq<char>>
    decreases s.len() + 1 - i,
{
    match find_from(s, seq![' '], i) {
        None => seq![s.subrange(i, s.len() as int)],
        Some(p) => if i <= p < s.len() {
            seq![s.subrange(i, p)] + split_from(s, p + 1)
        } else {
            seq![s.subrange(i, s.len() as int)]
        },
    }
}

/// What `find_from` returns is an occurrence at or after the start.
pub proof fn lemma_find_from(s: Seq<char>, pat: Seq<char>, i: int)
    ensures
        match find_from(s, pat, i) {
            Some(k) => i <= k && occurs_at(s, k, pat) && k + pat.len() <= s.len(),
            None => true,
        },
    decreases s.len() + 1 - i,
{
    if i < 0 || i + pat.len() > s.len() {
    } else if occurs_at(s, i, pat) {
    } else {
        lemma_find_from(s, pat, i + 1);
    }
}

/// Skipping line spaces stays within the text.
pub proof fn lemma_skip_line_space(s: Seq<char>, i: int)
    requires
        0 <= i <= s.len(),
    ensures
        i <= skip_line_space(s, i) <= s.len(),
    decreases s.len() - i,
{
    if i < s.len() && is_line_space(s[i]) {
        lemma_skip_line_space(s, i + 1);
    }
}

/// Whether `pat` occurs in `s` at index `i`.
pub fn matches_at(s: &[char], pat: &[char], i: usize) -> (r: bool)
    requires
        i + pat@.len() <= s@.len(),
    ensures
        r == occurs_at(s@, i as int, pat@),
{
    let mut j: usize = 0;
    while j < pat.len()
        invariant
            j <= pat@.len(),
            i + pat@.len() <= s@.len(),
            s@.len() == s.len(),
            forall|k: int| 0 <= k < j ==> s@[i + k] == pat@[k],
        decreases pat@.len() - j,
    {
        if s[i + j] != pat[j] {
            assert(s@.subrange(i as int, i + pat@.len())[j as int] != pat@[j as int]);
            return false;
        }
        j += 1;
    }
    assert(s@.subrange(i as int, i + pat@.len()) =~= pat@);
    true
}

/// The first index at or after `from` where `pat` occurs in `s`.
pub fn find_at(s: &[char], pat: &[char], from: usize) -> (r: Option<usize>)
    ensures
        match r {
            Some(k) => find_from(s@, pat@, from as int) == Some(k as int),
            None => find_from(s@, pat@, from as int) is None,
        },
{
    let mut i: usize = from;
    while pat.len() <= s.len() && i <= s.len() - pat.len()
        invariant
            from <= i,
            find_from(s@, pat@, from as int) == find_from(s@, pat@, i as int),
        decreases s@.len() + 1 - i,
    {
        if matches_at(s, pat, i) {
            return Some(i);
        }
        assert(pat@.len() > 0) by {
            if pat@.len() == 0 {
                assert(s@.subrange(i as int, i as int) =~= pat@);
            }
        }
        i += 1;
    }
    None
}

/// The first index at or after `from` whose character is not a line space.
pub fn skip_space_at(s: &[char], from: usize) -> (r: usize)
    requires
        from <= s@.len(),
    ensures
        r == skip_line_space(s@, from as int),
{
    let mut i: usize = from;
    while i < s.len() && (s[i] == '\r' || s[i] == '\n' || s[i] == '\t')
        invariant
            from <= i <= s@.len(),
            skip_line_space(s@, from as int) == skip_line_space(s@, i as int),
        decreases s@.len() - i,
    {
        i += 1;
    }
    i
}

/// Relies on `str::chars`, collected into a `Vec`: the characters of `s`.
#[verifier::external_body]
pub(crate) fn chars_of(s: &str) -> (r: Vec<char>)
    ensures
        r@ == s@,
{
    s.chars().collect()
}

/// Relies on `String::from_iter`: a `String` holding the characters of `s`.
#[verifier::external_body]
pub(crate) fn string_of(s: &[char]) -> (r: String)
    ensures
        r@ == s@,
{
    String::from_iter(s)
}

} // verus!
