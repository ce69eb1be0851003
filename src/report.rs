//! What a run reports for one file.
use vstd::prelude::*;

verus! {

/// The header line for a file with matches: its name and a colon.
pub open spec fn header(filename: Seq<char>) -> Seq<char> {
    filename + seq![':']
}

/// The lines to print for `filename` whose matching lines are `matches`:
/// nothing when there are none, else the header and then each match in order.
pub open spec fn report_lines(filename: Seq<char>, matches: Seq<Seq<char>>) -> Seq<Seq<char>> {
    if matches.len() == 0 {
        seq![]
    } else {
        seq![header(filename)] + matches
    }
}

/// The lines to print for one file, given its matching lines.
pub fn report(filename: &str, matches: &Vec<&str>) -> (r: Vec<String>)
    ensures
        r.deep_view() == report_lines(filename@, matches.deep_view()),
{
    let mut r: Vec<String> = Vec::new();
    if matches.len() == 0 {
        assert(r.deep_view() =~= report_lines(filename@, matches.deep_view()));
        return r;
    }
    proof {
        reveal_strlit(":");
    }
    let mut head = String::new();
    head.append(filename);
    head.append(":");
    assert(head@ =~= header(filename@));
    r.push(head);
    assert(r.deep_view() =~= seq![header(filename@)] + matches.deep_view().take(0));
    for i in 0..matches.len()
        invariant
            r.deep_view() =~= seq![header(filename@)] + matches.deep_view().take(i as int),
    {
        let mut line = String::new();
        line.append(matches[i]);
        let ghost before = r.deep_view();
        r.push(line);
        assert(r.deep_view() =~= before.push(matches[i as int]@));
        assert(matches.deep_view().take(i + 1) =~= matches.deep_view().take(i as int).push(
            matches[i as int]@,
        ));
    }
    assert(matches.deep_view().take(matches.len() as int) =~= matches.deep_view());
    r
}

} // verus!
