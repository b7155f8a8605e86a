//! Case-insensitive substring matching over character sequences.
//!
//! A post matches a search term when the term is empty or occurs as a
//! case-insensitive (ASCII folding) substring of the post's title or body.

use vstd::prelude::*;
use crate::models::PostV;

verus! {

/// ASCII case folding: an upper-case ASCII letter folds to its lower-case
/// counterpart; every other character is unchanged.
pub open spec fn lower(c: char) -> char {
    if 'A' <= c && c <= 'Z' {
        ((c as u8) + 32) as char
    } else {
        c
    }
}

/// The term occurs, after case folding, at position `k` of `hay`.
pub open spec fn match_at(needle: Seq<char>, hay: Seq<char>, k: int) -> bool {
    &&& 0 <= k
    &&& k + needle.len() <= hay.len()
    &&& forall|j: int| 0 <= j < needle.len() ==> lower(hay[k + j]) == lower(needle[j])
}

/// The term occurs somewhere in `hay`, compared case-insensitively.
pub open spec fn is_substring_ci(needle: Seq<char>, hay: Seq<char>) -> bool {
    exists|k: int| match_at(needle, hay, k)
}

/// The matching rule of the listing: an empty term matches everything,
/// otherwise the term must occur case-insensitively in the title or the
/// body.
pub open spec fn post_matches(p: PostV, term: Seq<char>) -> bool {
    ||| term.len() == 0
    ||| is_substring_ci(term, p.title)
    ||| is_substring_ci(term, p.body)
}

/// Folds one character, as `lower` does.
pub fn lower_char(c: char) -> (r: char)
    ensures
        r == lower(c),
{
    if 'A' <= c && c <= 'Z' {
        ((c as u8) + 32) as char
    } else {
        c
    }
}

/// Decides whether `needle` occurs case-insensitively in `hay`.
pub fn matches_ci(needle: &str, hay: &str) -> (b: bool)
    ensures
        b == is_substring_ci(needle@, hay@),
{
    let n = needle.unicode_len();
    let h = hay.unicode_len();
    if n > h {
        assert(forall|k: int| !match_at(needle@, hay@, k));
        return false;
    }
    let mut k: usize = 0;
    while k <= h - n
        invariant
            n <= h,
            h == hay@.len(),
            n == needle@.len(),
            k <= h - n + 1,
            forall|kk: int| 0 <= kk < k ==> !match_at(needle@, hay@, kk),
        decreases h - n + 1 - k,
    {
        let mut j: usize = 0;
        let mut all_eq: bool = true;
        while j < n
            invariant
                n <= h,
                h == hay@.len(),
                n == needle@.len(),
                k + n <= h,
                j <= n,
                all_eq == forall|jj: int| 0 <= jj < j ==> lower(hay@[k + jj]) == lower(
                    needle@[jj],
                ),
            decreases n - j,
        {
            let hc = hay.get_char(k + j);
            let nc = needle.get_char(j);
            if lower_char(hc) != lower_char(nc) {
                assert(lower(hay@[k + j as int]) != lower(needle@[j as int]));
                all_eq = false;
                j = n;
            } else {
                assert(all_eq ==> forall|jj: int|
                    0 <= jj < j + 1 ==> lower(hay@[k + jj]) == lower(needle@[jj]));
                j = j + 1;
            }
        }
        if all_eq {
            assert(match_at(needle@, hay@, k as int));
            return true;
        }
        k = k + 1;
    }
    assert(forall|kk: int| match_at(needle@, hay@, kk) ==> 0 <= kk < k);
    return false;
}

} // verus!
