//! Characters, substrings and the splitting of a text into lines.
use vstd::prelude::*;
use vstd::string::*;

verus! {

/// `q` occurs in `s` as a contiguous run of characters.
pub open spec fn has_substring(s: Seq<char>, q: Seq<char>) -> bool {
    exists|i: int| 0 <= i && i + q.len() <= s.len() && #[trigger] s.subrange(i, i + q.len()) == q
}

/// The characters of `s`, in order.
pub fn chars_of(s: &str) -> (r: Vec<char>)
    ensures
        r@ == s@,
{
    let mut r: Vec<char> = Vec::new();
    for c in it: s.chars()
        invariant
            it.seq() == s@,
            r@ == it.seq().subrange(0, it.index() as int),
    {
        r.push(c);
    }
    r
}

/// `needle` occurs in `hay` starting at position `at`.
fn occurs_at(hay: &Vec<char>, needle: &Vec<char>, at: usize) -> (r: bool)
    requires
        at + needle@.len() <= hay@.len(),
    ensures
        r == (hay@.subrange(at as int, at + needle@.len()) == needle@),
{
    let n = hay.len();
    let mut j: usize = 0;
    while j < needle.len()
        invariant
            n == hay@.len(),
            at + needle@.len() <= hay@.len(),
            j <= needle@.len(),
            forall|k: int| 0 <= k < j ==> hay@[at + k] == needle@[k],
        decreases needle@.len() - j,
    {
        if hay[at + j] != needle[j] {
            assert(hay@.subrange(at as int, at + needle@.len())[j as int] != needle@[j as int]);
            return false;
        }
        j = j + 1;
    }
    assert(hay@.subrange(at as int, at + needle@.len()) =~= needle@);
    true
}

/// Whether `query` occurs in `line`, character for character.
pub fn contains(line: &str, query: &str) -> (r: bool)
    ensures
        r == has_substring(line@, query@),
{
    let hay = chars_of(line);
    let needle = chars_of(query);
    if needle.len() > hay.len() {
        return false;
    }
    let last = hay.len() - needle.len();
    let mut at: usize = 0;
    loop
        invariant
            hay@ == line@,
            needle@ == query@,
            last == hay@.len() - needle@.len(),
            at <= last,
            forall|i: int| 0 <= i < at ==> #[trigger] hay@.subrange(i, i + needle@.len()) != needle@,
        decreases last - at,
    {
        if occurs_at(&hay, &needle, at) {
            return true;
        }
        if at == last {
            return false;
        }
        at = at + 1;
    }
}

/// `i` is the position of the first newline of `s`.
pub open spec fn is_first_newline(s: Seq<char>, i: int) -> bool {
    0 <= i < s.len() && s[i] == '\n' && !s.take(i).contains('\n')
}

/// `l` without the one carriage return that may end it.
pub open spec fn without_cr(l: Seq<char>) -> Seq<char> {
    if l.len() > 0 && l.last() == '\r' {
        l.drop_last()
    } else {
        l
    }
}

/// The lines of `s`: each newline ends a line and is dropped together with
/// a carriage return just before it; what follows the last newline is a
/// line of its own unless it is empty.
pub open spec fn lines_of(s: Seq<char>) -> Seq<Seq<char>>
    decreases s.len(),
{
    if exists|i: int| is_first_newline(s, i) {
        let i = choose|i: int| is_first_newline(s, i);
        seq![without_cr(s.take(i))] + lines_of(s.skip(i + 1))
    } else if s.len() == 0 {
        seq![]
    } else {
        seq![s]
    }
}

/// Splitting `head + '\n' + tail`, where `head` has no newline, gives the
/// line `head` followed by the lines of `tail`.
pub proof fn lemma_lines_of_split(s: Seq<char>, head: Seq<char>, tail: Seq<char>)
    requires
        s == head + seq!['\n'] + tail,
        !head.contains('\n'),
    ensures
        lines_of(s) == seq![without_cr(head)] + lines_of(tail),
{
    let n = head.len() as int;
    assert(s.take(n) =~= head);
    assert(s.skip(n + 1) =~= tail);
    assert(is_first_newline(s, n));
    let i = choose|i: int| is_first_newline(s, i);
    if i < n {
        assert(head[i] == '\n');
    } else if i > n {
        assert(s.take(i)[n] == '\n');
    }
}

/// A text without a newline is one line, or none when it is empty.
pub proof fn lemma_lines_of_last(s: Seq<char>)
    requires
        !s.contains('\n'),
    ensures
        lines_of(s) == (if s.len() == 0 { seq![] } else { seq![s] }),
{
    assert forall|i: int| !is_first_newline(s, i) by {
        if 0 <= i < s.len() && s[i] == '\n' {
            assert(s.contains('\n'));
        }
    }
}

/// Relies on `str::split_once`: it splits at the first occurrence of the
/// delimiter, and returns `None` where the delimiter does not occur.
#[verifier::external_body]
pub(crate) fn split_first_newline<'a>(s: &'a str) -> (r: Option<(&'a str, &'a str)>)
    ensures
        r is None <==> !s@.contains('\n'),
        r matches Some((a, b)) ==> s@ == a@ + seq!['\n'] + b@ && !a@.contains('\n'),
{
    s.split_once('\n')
}

/// The line `l` with a final carriage return removed.
pub fn strip_cr<'a>(l: &'a str) -> (r: &'a str)
    ensures
        r@ == without_cr(l@),
{
    let n = l.unicode_len();
    if n > 0 && l.get_char(n - 1) == '\r' {
        l.substring_char(0, n - 1)
    } else {
        l
    }
}

} // verus!
