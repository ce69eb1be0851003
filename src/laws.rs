//! What holds of every search.
use vstd::prelude::*;

use crate::search::{line_matches, lower_of, matches_query, matching_lines};
use crate::text::{has_substring, lines_of};

verus! {

/// `r` is `lines` with exactly the lines that satisfy `p` kept, each kept
/// line where it was relative to the others.
pub open spec fn is_selection(
    r: Seq<Seq<char>>,
    lines: Seq<Seq<char>>,
    p: spec_fn(Seq<char>) -> bool,
) -> bool {
    exists|ix: Seq<int>| is_selection_at(r, lines, p, ix)
}

/// `r` is the selection of `lines` by `p`, and `ix` gives the place in
/// `lines` of each line of `r`.
pub open spec fn is_selection_at(
    r: Seq<Seq<char>>,
    lines: Seq<Seq<char>>,
    p: spec_fn(Seq<char>) -> bool,
    ix: Seq<int>,
) -> bool {
    &&& ix.len() == r.len()
    &&& forall|k: int| 0 <= k < ix.len() ==> 0 <= #[trigger] ix[k] < lines.len() && r[k] == lines[ix[k]]
    &&& forall|k1: int, k2: int| 0 <= k1 < k2 < ix.len() ==> ix[k1] < ix[k2]
    &&& forall|j: int| 0 <= j < lines.len() ==> (p(#[trigger] lines[j]) <==> ix.contains(j))
}

/// How many times `x` stands in `s`.
pub open spec fn count_of(s: Seq<Seq<char>>, x: Seq<char>) -> nat
    decreases s.len(),
{
    if s.len() == 0 {
        0
    } else {
        count_of(s.drop_last(), x) + if s.last() == x {
            1nat
        } else {
            0nat
        }
    }
}

/// Filtering keeps exactly the lines that pass, in their order.
pub proof fn lemma_filter_is_selection(lines: Seq<Seq<char>>, p: spec_fn(Seq<char>) -> bool)
    ensures
        is_selection(lines.filter(p), lines, p),
    decreases lines.len(),
{
    reveal(Seq::filter);
    let r = lines.filter(p);
    if lines.len() == 0 {
        assert(r.len() == 0);
        let ix = Seq::<int>::empty();
        assert(is_selection_at(r, lines, p, ix));
    } else {
        let front = lines.drop_last();
        let n = front.len() as int;
        lemma_filter_is_selection(front, p);
        let rf = front.filter(p);
        let ixf = choose|ix: Seq<int>| is_selection_at(rf, front, p, ix);
        if p(lines.last()) {
            let ix = ixf.push(n);
            assert forall|k: int| 0 <= k < ix.len() implies 0 <= #[trigger] ix[k] < lines.len() && r[k] == lines[ix[k]] by {
                if k < ixf.len() {
                    assert(ixf[k] == ix[k]);
                }
            }
            assert forall|j: int| 0 <= j < lines.len() implies (p(#[trigger] lines[j]) <==> ix.contains(j)) by {
                if j < n {
                    assert(front[j] == lines[j]);
                    if ixf.contains(j) {
                        let k = choose|k: int| 0 <= k < ixf.len() && ixf[k] == j;
                        assert(ix[k] == j);
                    }
                    if ix.contains(j) {
                        let k = choose|k: int| 0 <= k < ix.len() && ix[k] == j;
                        assert(k < ixf.len());
                        assert(ixf[k] == j);
                    }
                } else {
                    assert(ix[ix.len() - 1] == j);
                }
            }
            assert(is_selection_at(r, lines, p, ix));
        } else {
            let ix = ixf;
            assert forall|j: int| 0 <= j < lines.len() implies (p(#[trigger] lines[j]) <==> ix.contains(j)) by {
                if j < n {
                    assert(front[j] == lines[j]);
                } else {
                    if ix.contains(j) {
                        let k = choose|k: int| 0 <= k < ix.len() && ix[k] == j;
                        assert(ix[k] < front.len());
                    }
                }
            }
            assert(is_selection_at(r, lines, p, ix));
        }
    }
}

/// A case-sensitive search keeps exactly the lines of the text in which the
/// query occurs character for character, and keeps them in their order.
pub proof fn lemma_exact_search_selects(query: Seq<char>, text: Seq<char>)
    ensures
        is_selection(
            matching_lines(query, text, false),
            lines_of(text),
            |line: Seq<char>| has_substring(line, query),
        ),
{
    let p = |line: Seq<char>| has_substring(line, query);
    assert(matches_query(query, false) =~= p);
    lemma_filter_is_selection(lines_of(text), p);
}

/// Ignoring case keeps every line that the case-sensitive search finds,
/// where lowercasing keeps the lowercased query in that line.
pub proof fn lemma_ignore_case_keeps_exact_matches(query: Seq<char>, text: Seq<char>)
    requires
        forall|line: Seq<char>|
            lines_of(text).contains(line) && has_substring(line, query) ==> has_substring(
                #[trigger] lower_of(line),
                lower_of(query),
            ),
    ensures
        forall|line: Seq<char>|
            #[trigger] matching_lines(query, text, false).contains(line) ==> matching_lines(
                query,
                text,
                true,
            ).contains(line),
{
    broadcast use Seq::lemma_filter_contains_rev;

    let lines = lines_of(text);
    assert forall|line: Seq<char>| #[trigger]
        matching_lines(query, text, false).contains(line) implies matching_lines(
        query,
        text,
        true,
    ).contains(line) by {
        let exact = matching_lines(query, text, false);
        let k = choose|k: int| 0 <= k < exact.len() && exact[k] == line;
        lines.lemma_filter_pred(matches_query(query, false), k);
        let j = choose|j: int| 0 <= j < lines.len() && lines[j] == line;
        lines.lemma_filter_contains(matches_query(query, true), j);
    }
}

/// A search depends on its inputs alone: two searches on the same query,
/// text and case mode give the same lines.
pub proof fn lemma_search_is_deterministic(
    query: Seq<char>,
    text: Seq<char>,
    ignore_case: bool,
    first: Seq<Seq<char>>,
    second: Seq<Seq<char>>,
)
    requires
        first == matching_lines(query, text, ignore_case),
        second == matching_lines(query, text, ignore_case),
    ensures
        first == second,
{
}

/// An empty text has no matching lines.
pub proof fn lemma_empty_text_has_no_match(query: Seq<char>, ignore_case: bool)
    ensures
        matching_lines(query, seq![], ignore_case) == Seq::<Seq<char>>::empty(),
{
    reveal(Seq::filter);
    assert(!exists|i: int| crate::text::is_first_newline(seq![], i));
}

/// Filtering keeps every copy of a line that passes.
proof fn lemma_filter_keeps_count(
    lines: Seq<Seq<char>>,
    p: spec_fn(Seq<char>) -> bool,
    x: Seq<char>,
)
    requires
        p(x),
    ensures
        count_of(lines.filter(p), x) == count_of(lines, x),
    decreases lines.len(),
{
    reveal(Seq::filter);
    if lines.len() > 0 {
        lemma_filter_keeps_count(lines.drop_last(), p, x);
        let front = lines.drop_last().filter(p);
        if p(lines.last()) {
            assert(front.push(lines.last()).drop_last() =~= front);
        }
    }
}

/// Every text occurs in itself.
pub proof fn lemma_has_itself(s: Seq<char>)
    ensures
        has_substring(s, s),
{
    let i: int = 0;
    assert(s.subrange(i, i + s.len()) =~= s);
}

/// A line equal to the query matches, once for each time it stands in the
/// text: once when it stands there once.
pub proof fn lemma_query_line_matches(query: Seq<char>, text: Seq<char>, ignore_case: bool)
    ensures
        count_of(matching_lines(query, text, ignore_case), query) == count_of(lines_of(text), query),
        lines_of(text).contains(query) ==> matching_lines(query, text, ignore_case).contains(query),
{
    lemma_has_itself(query);
    lemma_has_itself(lower_of(query));
    assert(line_matches(query, query, ignore_case));
    lemma_filter_keeps_count(lines_of(text), matches_query(query, ignore_case), query);
    if lines_of(text).contains(query) {
        let j = choose|j: int| 0 <= j < lines_of(text).len() && lines_of(text)[j] == query;
        lines_of(text).lemma_filter_contains(matches_query(query, ignore_case), j);
    }
}

} // verus!
