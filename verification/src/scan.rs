//! Plain-text scanning primitives shared by the identifier resolver, the
//! manifest extractor and the timed-text decoder: substring occurrence,
//! leftmost search, and suffix matching over character sequences.

use vstd::prelude::*;

verus! {

/// `p` occurs in `s` starting exactly at index `i`.
pub open spec fn has_prefix_at(s: Seq<char>, i: int, p: Seq<char>) -> bool {
    &&& 0 <= i
    &&& i + p.len() <= s.len()
    &&& s.subrange(i, i + p.len()) == p
}

/// Index of the leftmost occurrence of the non-empty pattern `p` in `s` at or
/// after `i`, or `None` when there is no such occurrence.
pub open spec fn find_from(s: Seq<char>, i: int, p: Seq<char>) -> Option<int>
    decreases s.len() - i,
{
    if i < 0 || p.len() == 0 || i + p.len() > s.len() {
        None
    } else if has_prefix_at(s, i, p) {
        Some(i)
    } else {
        find_from(s, i + 1, p)
    }
}

/// `s` ends with the suffix `p`.
pub open spec fn ends_with(s: Seq<char>, p: Seq<char>) -> bool {
    has_prefix_at(s, s.len() - p.len(), p)
}

/// A found occurrence lies within bounds, matches, and is the leftmost one.
pub proof fn lemma_find_from_found(s: Seq<char>, i: int, p: Seq<char>)
    requires
        0 <= i,
    ensures
        find_from(s, i, p) matches Some(j) ==> {
            &&& i <= j
            &&& j + p.len() <= s.len()
            &&& has_prefix_at(s, j, p)
            &&& forall|k: int| i <= k < j ==> !has_prefix_at(s, k, p)
        },
    decreases s.len() - i,
{
    if !(i < 0 || p.len() == 0 || i + p.len() > s.len()) && !has_prefix_at(s, i, p) {
        lemma_find_from_found(s, i + 1, p);
    }
}

/// When no occurrence starts before `j`, the search from `i` and from `j` agree.
pub proof fn lemma_find_from_step(s: Seq<char>, i: int, j: int, p: Seq<char>)
    requires
        0 <= i <= j,
        forall|k: int| i <= k < j ==> !has_prefix_at(s, k, p),
    ensures
        find_from(s, i, p) == find_from(s, j, p),
    decreases j - i,
{
    if i < j {
        if p.len() == 0 || i + p.len() > s.len() {
            assert(j + p.len() > s.len() || p.len() == 0);
            lemma_find_from_none_short(s, j, p);
        } else {
            lemma_find_from_step(s, i + 1, j, p);
        }
    }
}

/// A search whose window no longer fits finds nothing.
proof fn lemma_find_from_none_short(s: Seq<char>, j: int, p: Seq<char>)
    requires
        0 <= j,
        p.len() == 0 || j + p.len() > s.len(),
    ensures
        find_from(s, j, p) is None,
    decreases s.len() - j,
{
    if !(j < 0 || p.len() == 0 || j + p.len() > s.len()) {
        lemma_find_from_none_short(s, j + 1, p);
    }
}

/// When the search fails, the pattern occurs nowhere at or after `i`.
pub proof fn lemma_find_from_none(s: Seq<char>, i: int, p: Seq<char>)
    requires
        0 <= i,
        p.len() > 0,
    ensures
        find_from(s, i, p) is None ==> forall|k: int| i <= k ==> !has_prefix_at(s, k, p),
    decreases s.len() - i,
{
    if i + p.len() <= s.len() && !has_prefix_at(s, i, p) {
        lemma_find_from_none(s, i + 1, p);
    }
}

/// Does `p` occur in `s` starting exactly at `j`? Character-by-character check.
pub fn starts_with_at(s: &str, j: usize, p: &str, n: usize, m: usize) -> (r: bool)
    requires
        n == s@.len(),
        m == p@.len(),
        j <= n,
    ensures
        r == has_prefix_at(s@, j as int, p@),
{
    if m > n - j {
        return false;
    }
    let mut k: usize = 0;
    while k < m
        invariant
            n == s@.len(),
            m == p@.len(),
            j + m <= n,
            0 <= k <= m,
            forall|t: int| 0 <= t < k ==> s@[j + t] == p@[t],
        decreases m - k,
    {
        if s.get_char(j + k) != p.get_char(k) {
            proof {
                assert(s@.subrange(j as int, j + m)[k as int] == s@[j + k]);
            }
            return false;
        }
        k += 1;
    }
    proof {
        assert(s@.subrange(j as int, j + m) =~= p@);
    }
    true
}

/// Leftmost occurrence of `p` in `s` at or after `from`, as `find_from` gives it.
pub fn find_sub(s: &str, from: usize, p: &str) -> (r: Option<usize>)
    ensures
        match r {
            Some(j) => find_from(s@, from as int, p@) == Some(j as int),
            None => find_from(s@, from as int, p@) is None,
        },
{
    let n = s.unicode_len();
    let m = p.unicode_len();
    if m == 0 || m > n || from > n - m {
        proof {
            lemma_find_from_none_short(s@, from as int, p@);
        }
        return None;
    }
    let mut j = from;
    while j <= n - m
        invariant
            n == s@.len(),
            m == p@.len(),
            0 < m <= n,
            from <= j,
            forall|k: int| from <= k < j ==> !has_prefix_at(s@, k, p@),
        decreases n - j,
    {
        if starts_with_at(s, j, p, n, m) {
            proof {
                lemma_find_from_step(s@, from as int, j as int, p@);
            }
            return Some(j);
        }
        j += 1;
    }
    proof {
        lemma_find_from_step(s@, from as int, j as int, p@);
        lemma_find_from_none_short(s@, j as int, p@);
    }
    None
}

/// Does `s` end with the suffix `p`?
pub fn str_ends_with(s: &str, p: &str) -> (r: bool)
    ensures
        r == ends_with(s@, p@),
{
    let n = s.unicode_len();
    let m = p.unicode_len();
    if m > n {
        return false;
    }
    starts_with_at(s, n - m, p, n, m)
}

} // verus!
