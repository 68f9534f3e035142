use vstd::prelude::*;

use crate::paths::views;

verus! {

/// `pat` occurs in `s` starting at byte `i`.
pub open spec fn occurs_at(s: Seq<u8>, pat: Seq<u8>, i: int) -> bool {
    0 <= i && i + pat.len() <= s.len() && s.subrange(i, i + pat.len()) == pat
}

/// `pat` occurs anywhere in `s`: plain substring containment, with no regard
/// for path components.
pub open spec fn contains(s: Seq<u8>, pat: Seq<u8>) -> bool {
    exists|i: int| occurs_at(s, pat, i)
}

/// The canonical path `path` is excluded by one of the canonical `patterns`.
pub open spec fn excluded_by(path: Seq<u8>, patterns: Seq<Seq<u8>>) -> bool {
    exists|k: int| 0 <= k < patterns.len() && contains(path, #[trigger] patterns[k])
}

fn occurs_at_exec(s: &[u8], pat: &[u8], i: usize) -> (r: bool)
    requires
        i + pat@.len() <= s@.len(),
    ensures
        r == occurs_at(s@, pat@, i as int),
{
    let n = s.len();
    let mut j: usize = 0;
    while j < pat.len()
        invariant
            n == s@.len(),
            i + pat@.len() <= s@.len(),
            j <= pat@.len(),
            forall|k: int| 0 <= k < j ==> s@[i + k] == pat@[k],
        decreases pat@.len() - j,
    {
        if s[i + j] != pat[j] {
            assert(s@.subrange(i as int, i + pat@.len())[j as int] != pat@[j as int]);
            return false;
        }
        j = j + 1;
    }
    assert(s@.subrange(i as int, i + pat@.len()) =~= pat@);
    true
}

/// Whether `pat` occurs anywhere in `s`.
pub fn contains_bytes(s: &[u8], pat: &[u8]) -> (r: bool)
    ensures
        r == contains(s@, pat@),
{
    if pat.len() > s.len() {
        return false;
    }
    let last = s.len() - pat.len();
    let mut i: usize = 0;
    while i < last
        invariant
            last == s@.len() - pat@.len(),
            i <= last,
            forall|k: int| 0 <= k < i ==> !occurs_at(s@, pat@, k),
        decreases last - i,
    {
        if occurs_at_exec(s, pat, i) {
            return true;
        }
        i = i + 1;
    }
    occurs_at_exec(s, pat, last)
}

/// Whether the canonical path `path` contains any of the canonical exclusion
/// `patterns` as a substring. An empty list excludes nothing.
pub fn is_excluded(path: &[u8], patterns: &Vec<Vec<u8>>) -> (r: bool)
    ensures
        r == excluded_by(path@, views(patterns@)),
{
    let mut k: usize = 0;
    while k < patterns.len()
        invariant
            k <= patterns@.len(),
            forall|m: int| 0 <= m < k ==> !contains(path@, #[trigger] patterns@[m]@),
        decreases patterns@.len() - k,
    {
        if contains_bytes(path, patterns[k].as_slice()) {
            assert(contains(path@, views(patterns@)[k as int]));
            return true;
        }
        k = k + 1;
    }
    assert(!excluded_by(path@, views(patterns@))) by {
        assert forall|m: int| 0 <= m < patterns@.len() implies !contains(path@, #[trigger] views(patterns@)[m]) by {
            assert(views(patterns@)[m] == patterns@[m]@);
        }
    }
    false
}

/// Exclusion goes by substring: a path that holds a pattern anywhere, inside
/// a file or directory name or across separators, is excluded.
pub proof fn lemma_excluded_by_substring(before: Seq<u8>, pat: Seq<u8>, after: Seq<u8>, patterns: Seq<Seq<u8>>)
    requires
        patterns.contains(pat),
    ensures
        excluded_by(before + pat + after, patterns),
{
    let path = before + pat + after;
    assert(path.subrange(before.len() as int, before.len() + pat.len() as int) =~= pat);
    assert(occurs_at(path, pat, before.len() as int));
    let k = choose|k: int| 0 <= k < patterns.len() && patterns[k] == pat;
    assert(contains(path, patterns[k]));
}

} // verus!
