//! Substring search over character sequences.
//!
//! The portal's responses are classified purely by literal substring search,
//! so this module is the foundation of everything else: a specification of
//! "needle occurs at position i", a deterministic spec-level `find_first`,
//! and verified executable search over `&str`.

use vstd::prelude::*;
use vstd::string::StrSliceExecFns;

verus! {

/// `n` occurs in `h` starting at position `i`.
pub open spec fn match_at(h: Seq<char>, n: Seq<char>, i: int) -> bool {
    &&& 0 <= i
    &&& i + n.len() <= h.len()
    &&& h.subrange(i, i + n.len() as int) == n
}

/// `n` occurs somewhere in `h`.
pub open spec fn contains_seq(h: Seq<char>, n: Seq<char>) -> bool {
    exists|i: int| match_at(h, n, i)
}

/// `i` is the first position at which `n` occurs in `h`.
pub open spec fn first_match_at(h: Seq<char>, n: Seq<char>, i: int) -> bool {
    &&& match_at(h, n, i)
    &&& forall|j: int| 0 <= j < i ==> !match_at(h, n, j)
}

/// Position of the first occurrence of `n` in `h`, if any.
pub open spec fn find_first(h: Seq<char>, n: Seq<char>) -> Option<int>
    decreases h.len(),
{
    if match_at(h, n, 0) {
        Some(0)
    } else if h.len() == 0 {
        None
    } else {
        match find_first(h.skip(1), n) {
            Some(i) => Some(i + 1),
            None => None,
        }
    }
}

/// A match in the tail shifted by one is a match in the whole, and conversely.
proof fn lemma_match_at_skip(h: Seq<char>, n: Seq<char>, j: int)
    requires
        h.len() > 0,
        0 <= j,
    ensures
        match_at(h.skip(1), n, j) <==> match_at(h, n, j + 1),
{
    if match_at(h.skip(1), n, j) {
        assert(h.subrange(j + 1, j + 1 + n.len()) =~= h.skip(1).subrange(j, j + n.len()));
    }
    if match_at(h, n, j + 1) {
        assert(h.skip(1).subrange(j, j + n.len()) =~= h.subrange(j + 1, j + 1 + n.len()));
    }
}

/// `find_first` returns the first occurrence when one exists, `None` otherwise.
pub proof fn lemma_find_first_correct(h: Seq<char>, n: Seq<char>)
    ensures
        match find_first(h, n) {
            Some(i) => first_match_at(h, n, i),
            None => forall|i: int| !match_at(h, n, i),
        },
    decreases h.len(),
{
    if match_at(h, n, 0) {
    } else if h.len() == 0 {
        assert forall|i: int| !match_at(h, n, i) by {
            if 0 <= i && i + n.len() <= h.len() {
                assert(i == 0);
            }
        }
    } else {
        lemma_find_first_correct(h.skip(1), n);
        match find_first(h.skip(1), n) {
            Some(i) => {
                lemma_match_at_skip(h, n, i);
                assert forall|j: int| 0 <= j < i + 1 implies !match_at(h, n, j) by {
                    if j > 0 {
                        lemma_match_at_skip(h, n, j - 1);
                    }
                }
            },
            None => {
                assert forall|i: int| !match_at(h, n, i) by {
                    if i > 0 {
                        lemma_match_at_skip(h, n, i - 1);
                    }
                }
            },
        }
    }
}

/// If `i` is a first occurrence, `find_first` returns exactly `i`.
pub proof fn lemma_find_first_of_first(h: Seq<char>, n: Seq<char>, i: int)
    requires
        first_match_at(h, n, i),
    ensures
        find_first(h, n) == Some(i),
{
    lemma_find_first_correct(h, n);
    match find_first(h, n) {
        Some(k) => {
            if k < i {
                assert(match_at(h, n, k));
            } else if k > i {
                assert(match_at(h, n, i));
            }
        },
        None => {
            assert(match_at(h, n, i));
        },
    }
}

/// `n` occurs in `h` exactly when `find_first` finds a position.
pub proof fn lemma_contains_iff_found(h: Seq<char>, n: Seq<char>)
    ensures
        contains_seq(h, n) <==> find_first(h, n) is Some,
{
    lemma_find_first_correct(h, n);
    match find_first(h, n) {
        Some(i) => {
            assert(match_at(h, n, i));
        },
        None => {},
    }
}

/// Position of the first occurrence of `needle` in `haystack`, by characters.
pub fn find_str(haystack: &str, needle: &str) -> (r: Option<usize>)
    ensures
        match r {
            Some(i) => find_first(haystack@, needle@) == Some(i as int),
            None => find_first(haystack@, needle@) is None,
        },
{
    let hl = haystack.unicode_len();
    let nl = needle.unicode_len();
    if nl > hl {
        proof {
            lemma_find_first_correct(haystack@, needle@);
            if let Some(i) = find_first(haystack@, needle@) {
                assert(match_at(haystack@, needle@, i));
            }
        }
        return None;
    }
    let mut i: usize = 0;
    while i <= hl - nl
        invariant
            nl <= hl,
            hl == haystack@.len(),
            nl == needle@.len(),
            i <= hl - nl + 1,
            forall|j: int| 0 <= j < i ==> !match_at(haystack@, needle@, j),
        decreases hl - nl - i + 1,
    {
        let mut k: usize = 0;
        let mut matched = true;
        while k < nl
            invariant
                nl <= hl,
                hl == haystack@.len(),
                nl == needle@.len(),
                i <= hl - nl,
                k <= nl,
                matched ==> forall|m: int| 0 <= m < k ==> haystack@[i + m] == needle@[m],
                !matched ==> !match_at(haystack@, needle@, i as int) && nl >= 1,
            decreases nl - k,
        {
            if haystack.get_char(i + k) != needle.get_char(k) {
                proof {
                    if match_at(haystack@, needle@, i as int) {
                        assert(haystack@.subrange(i as int, i + nl)[k as int] == needle@[k as int]);
                    }
                }
                matched = false;
                k = nl;
            } else {
                k = k + 1;
            }
        }
        if matched {
            proof {
                assert(haystack@.subrange(i as int, i + nl) =~= needle@);
                lemma_find_first_of_first(haystack@, needle@, i as int);
            }
            return Some(i);
        }
        assert(nl >= 1);
        i = i + 1;
    }
    proof {
        assert forall|j: int| !match_at(haystack@, needle@, j) by {
            if 0 <= j && j + needle@.len() <= haystack@.len() {
                assert(j < i);
            }
        }
        lemma_find_first_correct(haystack@, needle@);
        if let Some(j) = find_first(haystack@, needle@) {
            assert(match_at(haystack@, needle@, j));
        }
    }
    None
}

/// Whether `needle` occurs anywhere in `haystack`.
pub fn str_contains(haystack: &str, needle: &str) -> (r: bool)
    ensures
        r == contains_seq(haystack@, needle@),
{
    let found = find_str(haystack, needle);
    proof {
        lemma_contains_iff_found(haystack@, needle@);
    }
    found.is_some()
}

} // verus!
