//! Substring containment, with an optional case-insensitive mode. In
//! case-insensitive mode both the line and the query are lowercased for
//! the comparison only; the original text is untouched.

use crate::casefold::{lower_of, lowercase};
use vstd::prelude::*;

verus! {

/// `needle` occurs in `hay` starting at position `i`.
pub open spec fn contains_at(hay: Seq<char>, needle: Seq<char>, i: int) -> bool {
    &&& 0 <= i
    &&& i + needle.len() <= hay.len()
    &&& hay.subrange(i, i + needle.len() as int) == needle
}

/// `needle` occurs somewhere in `hay` as a contiguous subsequence.
pub open spec fn contains_seq(hay: Seq<char>, needle: Seq<char>) -> bool {
    exists|i: int| contains_at(hay, needle, i)
}

/// The comparison key of a piece of text: the text itself when matching
/// case-sensitively, its lowercase form when matching
/// case-insensitively.
pub open spec fn key_of(s: Seq<char>, case_insensitive: bool) -> Seq<char> {
    if case_insensitive {
        lower_of(s)
    } else {
        s
    }
}

/// A line matches a query when the line's comparison key contains the
/// query's comparison key.
pub open spec fn line_matches(line: Seq<char>, query: Seq<char>, case_insensitive: bool) -> bool {
    contains_seq(key_of(line, case_insensitive), key_of(query, case_insensitive))
}

/// In case-sensitive mode the empty query matches every line.
pub proof fn lemma_empty_query_matches(line: Seq<char>, query: Seq<char>)
    requires
        query.len() == 0,
    ensures
        line_matches(line, query, false),
{
    assert(line.subrange(0, 0) =~= query);
    assert(contains_at(line, query, 0));
}

/// Whether the characters of `hay` starting at `at` spell out `needle`.
fn matches_at(hay: &str, needle: &str, at: usize) -> (r: bool)
    requires
        at + needle@.len() <= hay@.len(),
    ensures
        r == contains_at(hay@, needle@, at as int),
{
    let n = hay.unicode_len();
    let m = needle.unicode_len();
    let mut j: usize = 0;
    while j < m
        invariant
            n == hay@.len(),
            m == needle@.len(),
            at + m <= n,
            0 <= j <= m,
            forall|j2: int| 0 <= j2 < j ==> hay@[at + j2] == needle@[j2],
        decreases m - j,
    {
        let ch = hay.get_char(at + j);
        let cn = needle.get_char(j);
        if ch != cn {
            proof {
                if contains_at(hay@, needle@, at as int) {
                    assert(hay@.subrange(at as int, at + needle@.len() as int)[j as int]
                        == needle@[j as int]);
                }
            }
            return false;
        }
        j = j + 1;
    }
    proof {
        assert(hay@.subrange(at as int, at + needle@.len() as int) =~= needle@);
    }
    true
}

/// Exact substring containment on the characters as given.
fn str_contains(hay: &str, needle: &str) -> (r: bool)
    ensures
        r == contains_seq(hay@, needle@),
{
    let n = hay.unicode_len();
    let m = needle.unicode_len();
    if m == 0 {
        proof {
            assert(hay@.subrange(0, 0) =~= needle@);
            assert(contains_at(hay@, needle@, 0));
        }
        return true;
    }
    if m > n {
        proof {
            assert forall|i2: int| !contains_at(hay@, needle@, i2) by {}
        }
        return false;
    }
    let mut i: usize = 0;
    while i <= n - m
        invariant
            n == hay@.len(),
            m == needle@.len(),
            1 <= m <= n,
            0 <= i <= n - m + 1,
            forall|i2: int| 0 <= i2 < i ==> !contains_at(hay@, needle@, i2),
        decreases n - m + 1 - i,
    {
        if matches_at(hay, needle, i) {
            return true;
        }
        i = i + 1;
    }
    proof {
        assert forall|i2: int| !contains_at(hay@, needle@, i2) by {
            if contains_at(hay@, needle@, i2) {
                assert(0 <= i2 < i);
            }
        }
    }
    false
}

/// Executable match test for one line, proved to agree with
/// `line_matches`. In case-insensitive mode the line and the query are
/// lowercased and the containment test runs on the lowercase keys.
pub fn line_contains(line: &str, query: &str, case_insensitive: bool) -> (r: bool)
    ensures
        r == line_matches(line@, query@, case_insensitive),
{
    if case_insensitive {
        let line_key = lowercase(line);
        let query_key = lowercase(query);
        str_contains(line_key.as_str(), query_key.as_str())
    } else {
        str_contains(line, query)
    }
}

} // verus!
