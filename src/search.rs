//! Picking out the lines of a text that contain a query.
use vstd::prelude::*;

use crate::text::{contains, lines, lines_of, occurs_in, views};

verus! {

/// The lowercase form of a text, as Unicode's case mapping gives it.
pub uninterp spec fn lower_of(s: Seq<char>) -> Seq<char>;

/// Relies on `str::to_lowercase`: a new string, the lowercase form of `s`,
/// which depends on the characters of `s` alone; the empty string stays empty.
#[verifier::external_body]
fn lowercase(s: &str) -> (r: String)
    ensures
        r@ == lower_of(s@),
        s@.len() == 0 ==> r@.len() == 0,
{
    s.to_lowercase()
}

/// Holds of a line that contains `query` exactly.
pub open spec fn containing(query: Seq<char>) -> spec_fn(Seq<char>) -> bool {
    |line: Seq<char>| occurs_in(query, line)
}

/// Holds of a line whose lowercase form contains `folded_query`, itself the
/// lowercase form of a query.
pub open spec fn containing_folded(folded_query: Seq<char>) -> spec_fn(Seq<char>) -> bool {
    |line: Seq<char>| occurs_in(folded_query, lower_of(line))
}

/// The lines of `contents` that contain `query`, in order.
pub open spec fn matching_lines(query: Seq<char>, contents: Seq<char>) -> Seq<Seq<char>> {
    lines_of(contents).filter(containing(query))
}

/// The lines of `contents` that contain `query` when both are lowercased, in
/// order and as they stand in `contents`.
pub open spec fn matching_lines_folded(query: Seq<char>, contents: Seq<char>) -> Seq<Seq<char>> {
    lines_of(contents).filter(containing_folded(lower_of(query)))
}

/// Filtering with a test that every item passes keeps the sequence whole.
proof fn lemma_filter_keeps_all(ls: Seq<Seq<char>>, pred: spec_fn(Seq<char>) -> bool)
    requires
        forall|l: Seq<char>| #[trigger] pred(l),
    ensures
        ls.filter(pred) == ls,
    decreases ls.len(),
{
    reveal(Seq::filter);
    if ls.len() > 0 {
        lemma_filter_keeps_all(ls.drop_last(), pred);
        assert(ls.drop_last().push(ls.last()) =~= ls);
    }
}

/// The empty query occurs in every line.
proof fn lemma_empty_occurs_everywhere()
    ensures
        forall|line: Seq<char>| #[trigger] occurs_in(Seq::empty(), line),
{
    assert forall|line: Seq<char>| #[trigger] occurs_in(Seq::empty(), line) by {
        assert(line.subrange(0, 0 + Seq::<char>::empty().len() as int) =~= Seq::<char>::empty());
    }
}

/// The empty query matches every line: the search gives back each line of
/// the text, unchanged and in order.
pub proof fn empty_query_matches_every_line(contents: Seq<char>)
    ensures
        matching_lines(Seq::empty(), contents) == lines_of(contents),
{
    lemma_empty_occurs_everywhere();
    lemma_filter_keeps_all(lines_of(contents), containing(Seq::empty()));
}

/// Searching depends on the query and the text alone: two searches of the
/// same text for the same query give the same lines, in either mode.
pub proof fn search_is_deterministic(
    query: Seq<char>,
    contents: Seq<char>,
    first: Seq<Seq<char>>,
    second: Seq<Seq<char>>,
)
    requires
        first == matching_lines(query, contents) && second == matching_lines(query, contents)
            || first == matching_lines_folded(query, contents) && second
            == matching_lines_folded(query, contents),
    ensures
        first == second,
{
}

/// Filtering keeps no item that was not there before.
proof fn lemma_filter_within(ls: Seq<Seq<char>>, pred: spec_fn(Seq<char>) -> bool, l: Seq<char>)
    requires
        ls.filter(pred).contains(l),
    ensures
        ls.contains(l),
    decreases ls.len(),
{
    reveal(Seq::filter);
    if ls.len() > 0 {
        let rest = ls.drop_last().filter(pred);
        if l != ls.last() {
            if pred(ls.last()) {
                let j = choose|j: int| 0 <= j < ls.filter(pred).len() && ls.filter(pred)[j] == l;
                assert(rest[j] == l);
            }
            lemma_filter_within(ls.drop_last(), pred, l);
            let k = choose|k: int| 0 <= k < ls.drop_last().len() && ls.drop_last()[k] == l;
            assert(ls[k] == l);
        } else {
            assert(ls[ls.len() - 1] == l);
        }
    }
}

/// A line of the text is among the lines that the search gives back exactly
/// when it contains the query; there are no more of them than lines.
pub proof fn matches_are_lines_containing_query(
    query: Seq<char>,
    contents: Seq<char>,
    line: Seq<char>,
)
    ensures
        matching_lines(query, contents).len() <= lines_of(contents).len(),
        matching_lines(query, contents).contains(line) <==> lines_of(contents).contains(line)
            && occurs_in(query, line),
{
    broadcast use vstd::seq_lib::group_filter_ensures;

    let ls = lines_of(contents);
    let pred = containing(query);
    ls.lemma_filter_len(pred);
    if matching_lines(query, contents).contains(line) {
        lemma_filter_within(ls, pred, line);
        let j = choose|j: int|
            0 <= j < ls.filter(pred).len() && ls.filter(pred)[j] == line;
        assert(pred(ls.filter(pred)[j]));
    }
    if ls.contains(line) && occurs_in(query, line) {
        let k = choose|k: int| 0 <= k < ls.len() && ls[k] == line;
        assert(pred(ls[k]));
    }
}

/// The lines of `contents` that contain `query`, with case as it stands.
pub fn search<'a>(query: &str, contents: &'a str) -> (r: Vec<&'a str>)
    ensures
        views(r@) == matching_lines(query@, contents@),
        query@.len() == 0 ==> views(r@) == lines_of(contents@),
{
    let all = lines(contents);
    let ghost pred = containing(query@);
    let mut r: Vec<&'a str> = Vec::new();
    let mut i: usize = 0;
    assert(views(all@).take(0) =~= Seq::<Seq<char>>::empty());
    while i < all.len()
        invariant
            i <= all@.len(),
            pred == containing(query@),
            views(r@) == views(all@).take(i as int).filter(pred),
        decreases all@.len() - i,
    {
        let line = all[i];
        let ghost done = views(r@);
        let ghost seen = views(all@).take(i + 1);
        assert(seen.drop_last() =~= views(all@).take(i as int));
        assert(seen.last() == line@);
        reveal(Seq::filter);
        if contains(line, query) {
            r.push(line);
            assert(views(r@) =~= done.push(line@));
        }
        i = i + 1;
    }
    assert(views(all@).take(i as int) =~= views(all@));
    proof {
        if query@.len() == 0 {
            assert(query@ =~= Seq::<char>::empty());
            empty_query_matches_every_line(contents@);
        }
    }
    r
}

/// The lines of `contents` that contain `query` when both are lowercased.
/// The lines come back as they stand in `contents`, in order.
pub fn search_case_insensitive<'a>(query: &str, contents: &'a str) -> (r: Vec<&'a str>)
    ensures
        views(r@) == matching_lines_folded(query@, contents@),
        query@.len() == 0 ==> views(r@) == lines_of(contents@),
{
    let folded_query = lowercase(query);
    let all = lines(contents);
    let ghost pred = containing_folded(lower_of(query@));
    let mut r: Vec<&'a str> = Vec::new();
    let mut i: usize = 0;
    assert(views(all@).take(0) =~= Seq::<Seq<char>>::empty());
    while i < all.len()
        invariant
            i <= all@.len(),
            folded_query@ == lower_of(query@),
            pred == containing_folded(lower_of(query@)),
            views(r@) == views(all@).take(i as int).filter(pred),
        decreases all@.len() - i,
    {
        let line = all[i];
        let ghost done = views(r@);
        let ghost seen = views(all@).take(i + 1);
        assert(seen.drop_last() =~= views(all@).take(i as int));
        assert(seen.last() == line@);
        reveal(Seq::filter);
        let folded_line = lowercase(line);
        if contains(folded_line.as_str(), folded_query.as_str()) {
            r.push(line);
            assert(views(r@) =~= done.push(line@));
        }
        i = i + 1;
    }
    assert(views(all@).take(i as int) =~= views(all@));
    proof {
        if query@.len() == 0 {
            assert(folded_query@ =~= Seq::<char>::empty());
            lemma_empty_occurs_everywhere();
            lemma_filter_keeps_all(views(all@), pred);
        }
    }
    r
}

} // verus!
