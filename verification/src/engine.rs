//! The line search engine: case-sensitive and case-insensitive filtering of a
//! text buffer's lines against a query.

use vstd::prelude::*;

use crate::config::Config;
use crate::text::contains_seq;
use crate::text::contains_str;
use crate::text::lemma_filter_subsequence;
use crate::text::lines_of;
use crate::text::split_lines;
use crate::text::subsequence_of;

verus! {

/// The lowered form of a sequence of characters, as simple case folding
/// produces it.
pub uninterp spec fn lower_of(s: Seq<char>) -> Seq<char>;

/// Relies on str::to_lowercase: the lowered form depends on the characters
/// alone.
#[verifier::external_body]
fn to_lower(s: &str) -> (r: String)
    ensures
        r@ == lower_of(s@),
{
    s.to_lowercase()
}

/// The predicate satisfied by the lines that a case-sensitive search returns.
pub open spec fn match_pred(query: Seq<char>) -> spec_fn(Seq<char>) -> bool {
    |line: Seq<char>| contains_seq(line, query)
}

/// The predicate satisfied by the lines that a case-insensitive search
/// returns: the lowered line contains the lowered query.
pub open spec fn ci_match_pred(query: Seq<char>) -> spec_fn(Seq<char>) -> bool {
    |line: Seq<char>| contains_seq(lower_of(line), lower_of(query))
}

/// The lines of `contents` that contain `query` verbatim, in their original
/// order.
pub open spec fn search_spec(query: Seq<char>, contents: Seq<char>) -> Seq<Seq<char>> {
    lines_of(contents).filter(match_pred(query))
}

/// The lines of `contents` whose lowered form contains the lowered `query`,
/// in their original order.
pub open spec fn search_ci_spec(query: Seq<char>, contents: Seq<char>) -> Seq<Seq<char>> {
    lines_of(contents).filter(ci_match_pred(query))
}

/// Case-sensitive search: returns, in order, the lines of `contents` that
/// contain `query` verbatim.
pub fn search<'a>(query: &str, contents: &'a str) -> (r: Vec<&'a str>)
    ensures
        r.deep_view() == search_spec(query@, contents@),
{
    let lines = split_lines(contents);
    let mut out: Vec<&'a str> = Vec::new();
    let mut k: usize = 0;
    proof {
        reveal(Seq::filter);
        assert(out.deep_view() =~= Seq::<Seq<char>>::empty());
        assert(lines.deep_view().take(0) =~= Seq::<Seq<char>>::empty());
        assert(Seq::<Seq<char>>::empty().filter(match_pred(query@)) =~= Seq::<Seq<char>>::empty());
    }
    while k < lines.len()
        invariant
            lines.deep_view() == lines_of(contents@),
            k <= lines@.len(),
            out.deep_view() == lines.deep_view().take(k as int).filter(match_pred(query@)),
        decreases lines@.len() - k,
    {
        let line = lines[k];
        let ghost pre = out.deep_view();
        if contains_str(line, query) {
            out.push(line);
            proof {
                assert(out.deep_view() =~= pre.push(line@));
            }
        }
        proof {
            reveal(Seq::filter);
            let dv = lines.deep_view();
            let t = dv.take(k + 1);
            assert(t.drop_last() =~= dv.take(k as int));
            assert(t.last() == line@);
            if match_pred(query@)(line@) {
                assert(t.filter(match_pred(query@)) == t.drop_last().filter(match_pred(query@))
                    .push(line@));
            } else {
                assert(t.filter(match_pred(query@)) == t.drop_last().filter(match_pred(query@)));
            }
        }
        k += 1;
    }
    proof {
        assert(lines.deep_view().take(lines@.len() as int) =~= lines.deep_view());
    }
    out
}

/// Case-insensitive search: returns, in order, the lines of `contents` whose
/// lowered form contains the lowered `query`.  The emitted lines are the
/// original, unlowered views.
pub fn search_case_insensitive<'a>(query: &str, contents: &'a str) -> (r: Vec<&'a str>)
    ensures
        r.deep_view() == search_ci_spec(query@, contents@),
{
    let lowered_query = to_lower(query);
    let lines = split_lines(contents);
    let mut out: Vec<&'a str> = Vec::new();
    let mut k: usize = 0;
    proof {
        reveal(Seq::filter);
        assert(out.deep_view() =~= Seq::<Seq<char>>::empty());
        assert(lines.deep_view().take(0) =~= Seq::<Seq<char>>::empty());
        assert(Seq::<Seq<char>>::empty().filter(ci_match_pred(query@)) =~= Seq::<
            Seq<char>,
        >::empty());
    }
    while k < lines.len()
        invariant
            lowered_query@ == lower_of(query@),
            lines.deep_view() == lines_of(contents@),
            k <= lines@.len(),
            out.deep_view() == lines.deep_view().take(k as int).filter(ci_match_pred(query@)),
        decreases lines@.len() - k,
    {
        let line = lines[k];
        let lowered_line = to_lower(line);
        let ghost pre = out.deep_view();
        if contains_str(lowered_line.as_str(), lowered_query.as_str()) {
            out.push(line);
            proof {
                assert(out.deep_view() =~= pre.push(line@));
            }
        }
        proof {
            reveal(Seq::filter);
            let dv = lines.deep_view();
            let t = dv.take(k + 1);
            assert(t.drop_last() =~= dv.take(k as int));
            assert(t.last() == line@);
            if ci_match_pred(query@)(line@) {
                assert(t.filter(ci_match_pred(query@)) == t.drop_last().filter(
                    ci_match_pred(query@),
                ).push(line@));
            } else {
                assert(t.filter(ci_match_pred(query@)) == t.drop_last().filter(
                    ci_match_pred(query@),
                ));
            }
        }
        k += 1;
    }
    proof {
        assert(lines.deep_view().take(lines@.len() as int) =~= lines.deep_view());
    }
    out
}

/// Law: with an empty query, a case-sensitive search returns every line of
/// the text, in order.
pub proof fn lemma_empty_query_returns_all_lines(query: Seq<char>, contents: Seq<char>)
    requires
        query.len() == 0,
    ensures
        search_spec(query, contents) == lines_of(contents),
{
    let lines = lines_of(contents);
    assert forall|i: int| 0 <= i < lines.len() implies match_pred(query)(lines[i]) by {
        crate::text::lemma_empty_contained(lines[i], query);
    }
    crate::text::lemma_filter_all(lines, match_pred(query));
}

/// Law: every line that a case-sensitive search returns contains the query
/// verbatim, and every line that a case-insensitive search returns contains
/// the lowered query once lowered itself.
pub proof fn lemma_results_match_query(query: Seq<char>, contents: Seq<char>)
    ensures
        forall|i: int|
            0 <= i < search_spec(query, contents).len() ==> contains_seq(
                #[trigger] search_spec(query, contents)[i],
                query,
            ),
        forall|i: int|
            0 <= i < search_ci_spec(query, contents).len() ==> contains_seq(
                lower_of(#[trigger] search_ci_spec(query, contents)[i]),
                lower_of(query),
            ),
{
    let lines = lines_of(contents);
    let r = search_spec(query, contents);
    assert forall|i: int| 0 <= i < r.len() implies contains_seq(r[i], query) by {
        lines.lemma_filter_pred(match_pred(query), i);
    }
    let rci = search_ci_spec(query, contents);
    assert forall|i: int| 0 <= i < rci.len() implies contains_seq(
        lower_of(rci[i]),
        lower_of(query),
    ) by {
        lines.lemma_filter_pred(ci_match_pred(query), i);
    }
}

/// Law: in either mode, the result keeps the text's original line order and
/// holds no line that is not a line of the text.
pub proof fn lemma_results_ordered_from_text(query: Seq<char>, contents: Seq<char>)
    ensures
        subsequence_of(search_spec(query, contents), lines_of(contents)),
        subsequence_of(search_ci_spec(query, contents), lines_of(contents)),
        forall|i: int|
            0 <= i < search_spec(query, contents).len() ==> lines_of(contents).contains(
                #[trigger] search_spec(query, contents)[i],
            ),
        forall|i: int|
            0 <= i < search_ci_spec(query, contents).len() ==> lines_of(contents).contains(
                #[trigger] search_ci_spec(query, contents)[i],
            ),
{
    let lines = lines_of(contents);
    lemma_filter_subsequence(lines, match_pred(query));
    lemma_filter_subsequence(lines, ci_match_pred(query));
    let r = search_spec(query, contents);
    assert forall|i: int| 0 <= i < r.len() implies lines.contains(r[i]) by {
        assert(r.contains(r[i]));
        lines.lemma_filter_contains_rev(match_pred(query), r[i]);
    }
    let rci = search_ci_spec(query, contents);
    assert forall|i: int| 0 <= i < rci.len() implies lines.contains(rci[i]) by {
        assert(rci.contains(rci[i]));
        lines.lemma_filter_contains_rev(ci_match_pred(query), rci[i]);
    }
}

/// Runs the search that `config` calls for over `contents`.
pub fn run_search<'a>(config: &Config, contents: &'a str) -> (r: Vec<&'a str>)
    ensures
        config.case_sensitive ==> r.deep_view() == search_spec(config.query@, contents@),
        !config.case_sensitive ==> r.deep_view() == search_ci_spec(config.query@, contents@),
{
    if config.case_sensitive {
        search(config.query.as_str(), contents)
    } else {
        search_case_insensitive(config.query.as_str(), contents)
    }
}

} // verus!
