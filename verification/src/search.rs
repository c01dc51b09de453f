//! The search engine: the ordered sequence of lines of a text that
//! contain a query, together with the properties that pin that sequence
//! down exactly — soundness, completeness, and order preservation.

use crate::casefold::lower_of;
use crate::lines::{lines_of, split_lines};
use crate::matching::{contains_seq, lemma_empty_query_matches, line_contains, line_matches};
use vstd::prelude::*;

verus! {

/// An ordered sequence of matching lines, each borrowing a contiguous
/// span of the searched text. Original line order is preserved; nothing
/// is reordered or deduplicated. It must be consumed while the text it
/// borrows from is alive — the borrow checker enforces that.
pub type MatchSet<'a> = Vec<&'a str>;

/// The lines among `ls` that match the query, kept in their original
/// order, duplicates included.
pub open spec fn matching_lines(ls: Seq<Seq<char>>, query: Seq<char>, case_insensitive: bool) -> Seq<
    Seq<char>,
>
    decreases ls.len(),
{
    if ls.len() == 0 {
        Seq::empty()
    } else if line_matches(ls.last(), query, case_insensitive) {
        matching_lines(ls.drop_last(), query, case_insensitive) + seq![ls.last()]
    } else {
        matching_lines(ls.drop_last(), query, case_insensitive)
    }
}

/// The positions among `ls` whose line matches the query, in increasing
/// order.
pub open spec fn match_positions(ls: Seq<Seq<char>>, query: Seq<char>, case_insensitive: bool) -> Seq<
    int,
>
    decreases ls.len(),
{
    if ls.len() == 0 {
        Seq::empty()
    } else if line_matches(ls.last(), query, case_insensitive) {
        match_positions(ls.drop_last(), query, case_insensitive) + seq![ls.len() - 1]
    } else {
        match_positions(ls.drop_last(), query, case_insensitive)
    }
}

/// What `search` returns: the matching lines of the text, in text order.
pub open spec fn search_result(query: Seq<char>, text: Seq<char>, case_insensitive: bool) -> Seq<
    Seq<char>,
> {
    matching_lines(lines_of(text), query, case_insensitive)
}

/// Every recorded match position is a position of `ls`, and they are
/// strictly increasing: matches are reported in original order.
pub proof fn lemma_match_positions_increasing(ls: Seq<Seq<char>>, query: Seq<char>, ci: bool)
    ensures
        forall|k: int|
            0 <= k < match_positions(ls, query, ci).len() ==> 0 <= #[trigger] match_positions(
                ls,
                query,
                ci,
            )[k] < ls.len(),
        forall|k1: int, k2: int|
            0 <= k1 < k2 < match_positions(ls, query, ci).len() ==> match_positions(ls, query, ci)[k1]
                < match_positions(ls, query, ci)[k2],
    decreases ls.len(),
{
    if ls.len() > 0 {
        lemma_match_positions_increasing(ls.drop_last(), query, ci);
        let prefix = match_positions(ls.drop_last(), query, ci);
        let whole = match_positions(ls, query, ci);
        assert forall|k: int| 0 <= k < whole.len() implies 0 <= #[trigger] whole[k] < ls.len() by {
            if k < prefix.len() {
                assert(whole[k] == prefix[k]);
            }
        }
        assert forall|k1: int, k2: int| 0 <= k1 < k2 < whole.len() implies whole[k1]
            < whole[k2] by {
            assert(whole[k1] == prefix[k1]);
            if k2 < prefix.len() {
                assert(whole[k2] == prefix[k2]);
            }
        }
    }
}

/// A position is recorded if and only if its line matches: the search
/// keeps every matching line and nothing else.
pub proof fn lemma_match_positions_exact(ls: Seq<Seq<char>>, query: Seq<char>, ci: bool)
    ensures
        forall|j: int|
            #[trigger] match_positions(ls, query, ci).contains(j) ==> 0 <= j < ls.len()
                && line_matches(ls[j], query, ci),
        forall|j: int|
            0 <= j < ls.len() && #[trigger] line_matches(ls[j], query, ci) ==> match_positions(
                ls,
                query,
                ci,
            ).contains(j),
    decreases ls.len(),
{
    if ls.len() > 0 {
        lemma_match_positions_exact(ls.drop_last(), query, ci);
        let prefix = match_positions(ls.drop_last(), query, ci);
        let whole = match_positions(ls, query, ci);
        assert(forall|x: int| 0 <= x < ls.len() - 1 ==> #[trigger] ls.drop_last()[x] == ls[x]);
        assert forall|j: int| #[trigger] whole.contains(j) implies 0 <= j < ls.len()
            && line_matches(ls[j], query, ci) by {
            let k = choose|k: int| 0 <= k < whole.len() && whole[k] == j;
            if k < prefix.len() {
                assert(prefix[k] == j);
                assert(prefix.contains(j));
            } else {
                assert(j == ls.len() - 1);
            }
        }
        assert forall|j: int|
            0 <= j < ls.len() && #[trigger] line_matches(ls[j], query, ci) implies whole.contains(
            j,
        ) by {
            if j == ls.len() - 1 {
                assert(line_matches(ls.last(), query, ci));
                assert(whole[whole.len() - 1] == j);
            } else {
                assert(ls.drop_last()[j] == ls[j]);
                assert(prefix.contains(j));
                let k = choose|k: int| 0 <= k < prefix.len() && prefix[k] == j;
                assert(whole[k] == j);
            }
        }
    }
}

/// The matching lines are exactly the lines at the recorded positions,
/// in that order.
pub proof fn lemma_matching_lines_at_positions(ls: Seq<Seq<char>>, query: Seq<char>, ci: bool)
    ensures
        matching_lines(ls, query, ci).len() == match_positions(ls, query, ci).len(),
        forall|k: int|
            0 <= k < matching_lines(ls, query, ci).len() ==> #[trigger] matching_lines(
                ls,
                query,
                ci,
            )[k] == ls[match_positions(ls, query, ci)[k]],
    decreases ls.len(),
{
    if ls.len() > 0 {
        lemma_matching_lines_at_positions(ls.drop_last(), query, ci);
        lemma_match_positions_increasing(ls.drop_last(), query, ci);
        assert(forall|x: int| 0 <= x < ls.len() - 1 ==> ls.drop_last()[x] == ls[x]);
    }
}

/// The full characterization of a search result: it has one entry per
/// recorded match position, each entry is the original line at its
/// position, the positions are strictly increasing, and a position is
/// recorded exactly when its line matches.
pub proof fn lemma_search_characterization(query: Seq<char>, text: Seq<char>, ci: bool)
    ensures
        search_result(query, text, ci).len() == match_positions(lines_of(text), query, ci).len(),
        forall|k: int|
            0 <= k < search_result(query, text, ci).len() ==> #[trigger] search_result(
                query,
                text,
                ci,
            )[k] == lines_of(text)[match_positions(lines_of(text), query, ci)[k]],
        forall|k: int|
            0 <= k < match_positions(lines_of(text), query, ci).len() ==> 0
                <= #[trigger] match_positions(lines_of(text), query, ci)[k] < lines_of(text).len(),
        forall|k1: int, k2: int|
            0 <= k1 < k2 < match_positions(lines_of(text), query, ci).len() ==> match_positions(
                lines_of(text),
                query,
                ci,
            )[k1] < match_positions(lines_of(text), query, ci)[k2],
        forall|j: int|
            #[trigger] match_positions(lines_of(text), query, ci).contains(j) ==> 0 <= j
                < lines_of(text).len() && line_matches(lines_of(text)[j], query, ci),
        forall|j: int|
            0 <= j < lines_of(text).len() && #[trigger] line_matches(lines_of(text)[j], query, ci)
                ==> match_positions(lines_of(text), query, ci).contains(j),
{
    lemma_matching_lines_at_positions(lines_of(text), query, ci);
    lemma_match_positions_increasing(lines_of(text), query, ci);
    lemma_match_positions_exact(lines_of(text), query, ci);
}

/// Soundness: every returned line is a line of the text, kept exactly as
/// it stands there, and it matches the query. In case-insensitive mode
/// this is what makes the output show the original, unfolded line.
pub proof fn lemma_search_sound(query: Seq<char>, text: Seq<char>, ci: bool)
    ensures
        forall|k: int|
            0 <= k < search_result(query, text, ci).len() ==> lines_of(text).contains(
                #[trigger] search_result(query, text, ci)[k],
            ) && line_matches(search_result(query, text, ci)[k], query, ci),
{
    lemma_search_characterization(query, text, ci);
    let ls = lines_of(text);
    let r = search_result(query, text, ci);
    let pos = match_positions(ls, query, ci);
    assert forall|k: int| 0 <= k < r.len() implies ls.contains(#[trigger] r[k]) && line_matches(
        r[k],
        query,
        ci,
    ) by {
        assert(pos.contains(pos[k]));
        assert(ls[pos[k]] == r[k]);
    }
}

/// Completeness: every line of the text that matches the query appears
/// in the result.
pub proof fn lemma_search_complete(query: Seq<char>, text: Seq<char>, ci: bool)
    ensures
        forall|j: int|
            0 <= j < lines_of(text).len() && #[trigger] line_matches(lines_of(text)[j], query, ci)
                ==> search_result(query, text, ci).contains(lines_of(text)[j]),
{
    lemma_search_characterization(query, text, ci);
    let ls = lines_of(text);
    let r = search_result(query, text, ci);
    let pos = match_positions(ls, query, ci);
    assert forall|j: int|
        0 <= j < ls.len() && #[trigger] line_matches(ls[j], query, ci) implies r.contains(
        ls[j],
    ) by {
        assert(pos.contains(j));
        let k = choose|k: int| 0 <= k < pos.len() && pos[k] == j;
        assert(r[k] == ls[j]);
    }
}

/// Case-sensitive search returns the lines that contain the query
/// verbatim — every such line, and no other.
pub proof fn lemma_case_sensitive_exact(query: Seq<char>, text: Seq<char>)
    ensures
        forall|k: int|
            0 <= k < search_result(query, text, false).len() ==> lines_of(text).contains(
                #[trigger] search_result(query, text, false)[k],
            ) && contains_seq(search_result(query, text, false)[k], query),
        forall|j: int|
            0 <= j < lines_of(text).len() && #[trigger] contains_seq(lines_of(text)[j], query)
                ==> search_result(query, text, false).contains(lines_of(text)[j]),
{
    lemma_search_sound(query, text, false);
    lemma_search_complete(query, text, false);
    assert forall|j: int|
        0 <= j < lines_of(text).len() && #[trigger] contains_seq(
            lines_of(text)[j],
            query,
        ) implies search_result(query, text, false).contains(lines_of(text)[j]) by {
        assert(line_matches(lines_of(text)[j], query, false));
    }
}

/// Case-insensitive search returns the lines whose lowercase form
/// contains the lowercase query — every such line, and no other — and
/// each returned line is the original line of the text, not its
/// lowercase form.
pub proof fn lemma_case_insensitive_exact(query: Seq<char>, text: Seq<char>)
    ensures
        forall|k: int|
            0 <= k < search_result(query, text, true).len() ==> lines_of(text).contains(
                #[trigger] search_result(query, text, true)[k],
            ) && contains_seq(lower_of(search_result(query, text, true)[k]), lower_of(query)),
        forall|j: int|
            0 <= j < lines_of(text).len() && #[trigger] contains_seq(
                lower_of(lines_of(text)[j]),
                lower_of(query),
            ) ==> search_result(query, text, true).contains(lines_of(text)[j]),
{
    lemma_search_sound(query, text, true);
    lemma_search_complete(query, text, true);
    assert forall|j: int|
        0 <= j < lines_of(text).len() && #[trigger] contains_seq(
            lower_of(lines_of(text)[j]),
            lower_of(query),
        ) implies search_result(query, text, true).contains(lines_of(text)[j]) by {
        assert(line_matches(lines_of(text)[j], query, true));
    }
}

/// In case-sensitive mode the empty query matches every line, so the
/// search returns every line of the text, in order, exactly once.
pub proof fn lemma_empty_query_returns_all(text: Seq<char>)
    ensures
        search_result(Seq::empty(), text, false) == lines_of(text),
{
    lemma_matching_lines_all(lines_of(text));
}

proof fn lemma_matching_lines_all(ls: Seq<Seq<char>>)
    ensures
        matching_lines(ls, Seq::empty(), false) == ls,
    decreases ls.len(),
{
    if ls.len() == 0 {
        assert(matching_lines(ls, Seq::empty(), false) =~= ls);
    } else {
        lemma_matching_lines_all(ls.drop_last());
        lemma_empty_query_matches(ls.last(), Seq::empty());
        assert(matching_lines(ls, Seq::empty(), false) =~= ls);
    }
}

/// An empty text has no lines, so no query matches anything in it.
pub proof fn lemma_empty_text_no_matches(query: Seq<char>, ci: bool)
    ensures
        search_result(query, Seq::empty(), ci) == Seq::<Seq<char>>::empty(),
{
}

/// Running the search twice on the same text with the same configuration
/// yields the same matches: the result is a function of the query, the
/// text and the case policy alone.
pub proof fn lemma_search_deterministic(
    query: Seq<char>,
    text: Seq<char>,
    ci: bool,
    r1: Seq<Seq<char>>,
    r2: Seq<Seq<char>>,
)
    requires
        r1 == search_result(query, text, ci),
        r2 == search_result(query, text, ci),
    ensures
        r1 == r2,
{
}

/// `search(query, text, case_insensitive)` returns the lines of `text`
/// that contain `query`, in original order. The returned slices borrow
/// from `text`; no line is copied or re-cased.
pub fn search<'a>(query: &str, text: &'a str, case_insensitive: bool) -> (r: MatchSet<'a>)
    ensures
        r.deep_view() == search_result(query@, text@, case_insensitive),
{
    let lines = split_lines(text);
    let ghost ls: Seq<Seq<char>> = lines.deep_view();
    let mut r: MatchSet<'a> = Vec::new();
    let mut k: usize = 0;
    while k < lines.len()
        invariant
            ls == lines.deep_view(),
            ls == lines_of(text@),
            lines@.len() == ls.len(),
            0 <= k <= ls.len(),
            r.deep_view() == matching_lines(ls.take(k as int), query@, case_insensitive),
        decreases ls.len() - k,
    {
        let line = lines[k];
        let matched = line_contains(line, query, case_insensitive);
        if matched {
            r.push(line);
        }
        proof {
            let taken = ls.take(k + 1);
            assert(taken.drop_last() =~= ls.take(k as int));
            assert(taken.last() == ls[k as int]);
            assert(line@ == ls[k as int]);
            if matched {
                assert(r.deep_view() =~= matching_lines(ls.take(k as int), query@, case_insensitive)
                    + seq![line@]);
            }
        }
        k = k + 1;
    }
    proof {
        assert(ls.take(ls.len() as int) =~= ls);
    }
    r
}

} // verus!
