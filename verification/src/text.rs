//! Character-level text utilities: equality, pattern search and digit
//! parsing over `&str`, specified against the `Seq<char>` views.

use vstd::prelude::*;

verus! {

/// Character-for-character equality of two string slices.
pub fn str_eq(a: &str, b: &str) -> (r: bool)
    ensures
        r == (a@ == b@),
{
    let la = a.unicode_len();
    let lb = b.unicode_len();
    if la != lb {
        return false;
    }
    let mut i: usize = 0;
    while i < la
        invariant
            i <= la,
            la == a@.len(),
            lb == b@.len(),
            la == lb,
            forall|k: int| 0 <= k < i ==> a@[k] == b@[k],
        decreases la - i,
    {
        if a.get_char(i) != b.get_char(i) {
            return false;
        }
        i += 1;
    }
    proof {
        assert(a@ =~= b@);
    }
    true
}

/// The pattern occurs in `s` at position `i`.
pub open spec fn match_at(s: Seq<char>, pat: Seq<char>, i: int) -> bool {
    &&& 0 <= i
    &&& i + pat.len() <= s.len()
    &&& s.subrange(i, i + pat.len()) == pat
}

/// The first position at or after `from` where the (non-empty) pattern
/// occurs, if any.
pub open spec fn find_at_or_after(s: Seq<char>, pat: Seq<char>, from: int) -> Option<int>
    decreases s.len() - from,
{
    if pat.len() == 0 || from + pat.len() > s.len() {
        None
    } else if match_at(s, pat, from) {
        Some(from)
    } else {
        find_at_or_after(s, pat, from + 1)
    }
}

/// What a found (or missed) position means: it matches, nothing earlier
/// does, and a miss means nothing at or after `from` matches.
pub proof fn lemma_find_at_or_after(s: Seq<char>, pat: Seq<char>, from: int)
    requires
        pat.len() > 0,
    ensures
        match find_at_or_after(s, pat, from) {
            Some(i) => from <= i && match_at(s, pat, i) && forall|k: int|
                from <= k < i ==> !match_at(s, pat, k),
            None => forall|k: int| from <= k ==> !match_at(s, pat, k),
        },
    decreases s.len() - from,
{
    if from + pat.len() > s.len() {
        assert forall|k: int| from <= k implies !match_at(s, pat, k) by {
            assert(k + pat.len() > s.len());
        }
    } else if match_at(s, pat, from) {
    } else {
        lemma_find_at_or_after(s, pat, from + 1);
    }
}

/// Checks whether the pattern occurs at position `i`.
pub fn pattern_at(s: &str, pat: &str, i: usize) -> (r: bool)
    requires
        i <= s@.len(),
    ensures
        r == match_at(s@, pat@, i as int),
{
    let slen = s.unicode_len();
    let plen = pat.unicode_len();
    if plen > slen - i {
        return false;
    }
    let mut j: usize = 0;
    while j < plen
        invariant
            j <= plen,
            plen == pat@.len(),
            slen == s@.len(),
            i + plen <= slen,
            forall|k: int| 0 <= k < j ==> s@[i + k] == pat@[k],
        decreases plen - j,
    {
        if s.get_char(i + j) != pat.get_char(j) {
            proof {
                assert(s@.subrange(i as int, i + pat@.len())[j as int] == s@[i + j]);
            }
            return false;
        }
        j += 1;
    }
    proof {
        assert(s@.subrange(i as int, i + pat@.len()) =~= pat@);
    }
    true
}

/// Finds the first occurrence of the pattern at or after `from`.
pub fn find_from(s: &str, pat: &str, from: usize) -> (r: Option<usize>)
    ensures
        r is Some <==> find_at_or_after(s@, pat@, from as int) is Some,
        r matches Some(i) ==> i as int == find_at_or_after(s@, pat@, from as int)->0
            && from <= i && i + pat@.len() <= s@.len(),
{
    let slen = s.unicode_len();
    let plen = pat.unicode_len();
    if plen == 0 || plen > slen || from > slen - plen {
        proof {
            assert(find_at_or_after(s@, pat@, from as int) is None);
        }
        return None;
    }
    let mut i: usize = from;
    while i <= slen - plen
        invariant
            from <= i,
            plen <= slen,
            slen == s@.len(),
            plen == pat@.len(),
            find_at_or_after(s@, pat@, from as int) == find_at_or_after(s@, pat@, i as int),
        decreases slen - i,
    {
        if pattern_at(s, pat, i) {
            return Some(i);
        }
        proof {
            assert(find_at_or_after(s@, pat@, i as int) == find_at_or_after(
                s@,
                pat@,
                i as int + 1,
            ));
        }
        i += 1;
    }
    proof {
        assert(find_at_or_after(s@, pat@, i as int) is None);
    }
    None
}

/// Copies the character range `[from, to)` of `s` into an owned string.
pub fn substring_string(s: &str, from: usize, to: usize) -> (r: String)
    requires
        from <= to <= s@.len(),
    ensures
        r@ == s@.subrange(from as int, to as int),
{
    s.substring_char(from, to).to_owned()
}

} // verus!
