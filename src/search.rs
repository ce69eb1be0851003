//! The search engine: the lines of a text that contain a query.
use vstd::prelude::*;

use crate::text::{
    contains, has_substring, lemma_lines_of_last, lemma_lines_of_split, lines_of,
    split_first_newline, strip_cr,
};

verus! {

/// What `str::to_lowercase` gives for a string: it depends on the characters alone.
pub uninterp spec fn lower_of(s: Seq<char>) -> Seq<char>;

/// Relies on `str::to_lowercase` for the lowercase form of a string.
#[verifier::external_body]
fn lowercase(s: &str) -> (r: String)
    ensures
        r@ == lower_of(s@),
{
    s.to_lowercase()
}

/// Whether `line` is a match for `query`: it contains the query, after both
/// are lowercased when `ignore_case` holds.
pub open spec fn line_matches(line: Seq<char>, query: Seq<char>, ignore_case: bool) -> bool {
    if ignore_case {
        has_substring(lower_of(line), lower_of(query))
    } else {
        has_substring(line, query)
    }
}

/// The test that selects the matching lines.
pub open spec fn matches_query(query: Seq<char>, ignore_case: bool) -> spec_fn(Seq<char>) -> bool {
    |line: Seq<char>| line_matches(line, query, ignore_case)
}

/// The lines of `text` that match `query`, in their order in the text.
pub open spec fn matching_lines(query: Seq<char>, text: Seq<char>, ignore_case: bool) -> Seq<Seq<char>> {
    lines_of(text).filter(matches_query(query, ignore_case))
}

/// Whether the lowercased `line` contains the lowercased query: both are
/// given already lowercased.
pub fn matches_folded(folded_line: &str, folded_query: &str) -> (r: bool)
    ensures
        r == has_substring(folded_line@, folded_query@),
{
    contains(folded_line, folded_query)
}

/// The lines of `contents` that contain `query`, in order, each a view into
/// `contents`; with `ignore_case` both sides are lowercased for the
/// comparison only.
pub fn search<'a>(query: &str, contents: &'a str, ignore_case: bool) -> (r: Vec<&'a str>)
    ensures
        r.deep_view() == matching_lines(query@, contents@, ignore_case),
{
    broadcast use Seq::filter_distributes_over_add;

    let folded_query = if ignore_case {
        lowercase(query)
    } else {
        String::new()
    };
    let ghost pred = matches_query(query@, ignore_case);
    let mut result: Vec<&'a str> = Vec::new();
    let mut rest: &'a str = contents;
    loop
        invariant
            ignore_case ==> folded_query@ == lower_of(query@),
            pred == matches_query(query@, ignore_case),
            matching_lines(query@, contents@, ignore_case) == result.deep_view() + lines_of(
                rest@,
            ).filter(pred),
        decreases rest@.len(),
    {
        match split_first_newline(rest) {
            Some((head, tail)) => {
                let line = strip_cr(head);
                proof {
                    lemma_lines_of_split(rest@, head@, tail@);
                    reveal_with_fuel(Seq::filter, 2);
                }
                let hit = if ignore_case {
                    let folded_line = lowercase(line);
                    matches_folded(folded_line.as_str(), folded_query.as_str())
                } else {
                    contains(line, query)
                };
                let ghost before = result.deep_view();
                if hit {
                    result.push(line);
                    assert(result.deep_view() =~= before.push(line@));
                }
                assert(seq![line@].filter(pred) =~= (if hit { seq![line@] } else { seq![] }));
                rest = tail;
            },
            None => {
                proof {
                    lemma_lines_of_last(rest@);
                    reveal_with_fuel(Seq::filter, 2);
                }
                let ghost start = result.deep_view();
                if !rest.is_empty() {
                    let hit = if ignore_case {
                        let folded_line = lowercase(rest);
                        matches_folded(folded_line.as_str(), folded_query.as_str())
                    } else {
                        contains(rest, query)
                    };
                    let ghost before = result.deep_view();
                    if hit {
                        result.push(rest);
                        assert(result.deep_view() =~= before.push(rest@));
                    }
                    assert(seq![rest@].filter(pred) =~= (if hit { seq![rest@] } else { seq![] }));
                    assert(start + lines_of(rest@).filter(pred) =~= result.deep_view());
                } else {
                    assert(start + lines_of(rest@).filter(pred) =~= result.deep_view());
                }
                return result;
            },
        }
    }
}

} // verus!
