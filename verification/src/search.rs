//! The search engine: the lines of the contents that contain the query,
//! with exact comparison or after lowercasing of both sides.

use vstd::prelude::*;

use crate::config::Config;
use crate::lines::spec_lines;
use crate::lines::split_lines;
use crate::text::contains_seq;
use crate::text::lemma_contains_empty;
use crate::text::lower_of;
use crate::text::lowercase;
use crate::text::str_contains;

verus! {

/// The predicate a line must meet to match `query` exactly: it contains
/// the query as-is.
pub open spec fn exact_match(query: Seq<char>) -> spec_fn(Seq<char>) -> bool {
    |l: Seq<char>| contains_seq(l, query)
}

/// The predicate a line must meet to match `query` case-insensitively: its
/// lowercase form contains the lowercase form of the query.
pub open spec fn folded_match(query: Seq<char>) -> spec_fn(Seq<char>) -> bool {
    |l: Seq<char>| contains_seq(lower_of(l), lower_of(query))
}

/// The lines of `contents` that contain `query` exactly, in order.
pub open spec fn sensitive_matches(query: Seq<char>, contents: Seq<char>) -> Seq<Seq<char>> {
    spec_lines(contents).filter(exact_match(query))
}

/// The lines of `contents` whose lowercase form contains the lowercase form
/// of `query`, in order.
pub open spec fn insensitive_matches(query: Seq<char>, contents: Seq<char>) -> Seq<Seq<char>> {
    spec_lines(contents).filter(folded_match(query))
}

/// One step of filtering from the front: the filtered prefix of length
/// `i + 1` extends the filtered prefix of length `i` with `s[i]` exactly
/// when `s[i]` meets the predicate.
proof fn lemma_filter_take_step(s: Seq<Seq<char>>, pred: spec_fn(Seq<char>) -> bool, i: int)
    requires
        0 <= i < s.len(),
    ensures
        s.take(i + 1).filter(pred) == if pred(s[i]) {
            s.take(i).filter(pred).push(s[i])
        } else {
            s.take(i).filter(pred)
        },
{
    reveal(Seq::filter);
    assert(s.take(i + 1).drop_last() =~= s.take(i));
    assert(s.take(i + 1).last() == s[i]);
}

/// Every element of a filtered sequence is an element of the sequence it
/// was filtered from.
proof fn lemma_filter_membership(s: Seq<Seq<char>>, pred: spec_fn(Seq<char>) -> bool, i: int)
    requires
        0 <= i < s.filter(pred).len(),
    ensures
        s.contains(s.filter(pred)[i]),
    decreases s.len(),
{
    reveal(Seq::filter);
    let x = s.filter(pred)[i];
    if s.len() > 0 {
        let sub = s.drop_last().filter(pred);
        if pred(s.last()) && i == sub.len() {
            assert(s[s.len() - 1] == x);
        } else {
            lemma_filter_membership(s.drop_last(), pred, i);
            let j = choose|j: int| 0 <= j < s.drop_last().len() && s.drop_last()[j] == x;
            assert(s[j] == x);
        }
    }
}

/// Filtering with a predicate that every element meets returns the sequence
/// unchanged.
proof fn lemma_filter_all(s: Seq<Seq<char>>, pred: spec_fn(Seq<char>) -> bool)
    requires
        forall|i: int| 0 <= i < s.len() ==> pred(#[trigger] s[i]),
    ensures
        s.filter(pred) == s,
    decreases s.len(),
{
    reveal(Seq::filter);
    if s.len() == 0 {
        assert(s.filter(pred) =~= s);
    } else {
        lemma_filter_all(s.drop_last(), pred);
        assert(s.filter(pred) =~= s);
    }
}

/// Soundness and completeness of the case-sensitive search: every returned
/// line is a line of the contents and contains the query exactly, and every
/// line of the contents that contains the query exactly appears in the
/// result. The result is the line sequence filtered in place, so original
/// order is kept and a repeated matching line appears once per occurrence.
pub proof fn lemma_search_characterization(query: Seq<char>, contents: Seq<char>)
    ensures
        forall|i: int|
            0 <= i < sensitive_matches(query, contents).len() ==> contains_seq(
                #[trigger] sensitive_matches(query, contents)[i],
                query,
            ),
        forall|i: int|
            0 <= i < sensitive_matches(query, contents).len() ==> spec_lines(contents).contains(
                #[trigger] sensitive_matches(query, contents)[i],
            ),
        forall|i: int|
            0 <= i < spec_lines(contents).len() && contains_seq(
                #[trigger] spec_lines(contents)[i],
                query,
            ) ==> sensitive_matches(query, contents).contains(spec_lines(contents)[i]),
{
    let pred = exact_match(query);
    let all = spec_lines(contents);
    let m = sensitive_matches(query, contents);
    assert forall|i: int| 0 <= i < m.len() implies contains_seq(m[i], query) && all.contains(
        m[i],
    ) by {
        all.lemma_filter_pred(pred, i);
        lemma_filter_membership(all, pred, i);
    }
    assert forall|i: int| 0 <= i < all.len() && contains_seq(all[i], query) implies m.contains(
        all[i],
    ) by {
        assert(pred(all[i]));
        all.lemma_filter_contains(pred, i);
    }
}

/// Characterization of the case-insensitive search: every returned line is
/// a line of the contents, and its lowercase form contains the lowercase
/// form of the query; every line of the contents whose lowercase form
/// contains the lowercase form of the query appears in the result.
pub proof fn lemma_insensitive_characterization(query: Seq<char>, contents: Seq<char>)
    ensures
        forall|i: int|
            0 <= i < insensitive_matches(query, contents).len() ==> contains_seq(
                lower_of(#[trigger] insensitive_matches(query, contents)[i]),
                lower_of(query),
            ),
        forall|i: int|
            0 <= i < insensitive_matches(query, contents).len() ==> spec_lines(contents).contains(
                #[trigger] insensitive_matches(query, contents)[i],
            ),
        forall|i: int|
            0 <= i < spec_lines(contents).len() && contains_seq(
                lower_of(#[trigger] spec_lines(contents)[i]),
                lower_of(query),
            ) ==> insensitive_matches(query, contents).contains(spec_lines(contents)[i]),
{
    let pred = folded_match(query);
    let all = spec_lines(contents);
    let m = insensitive_matches(query, contents);
    assert forall|i: int| 0 <= i < m.len() implies contains_seq(lower_of(m[i]), lower_of(query))
        && all.contains(m[i]) by {
        all.lemma_filter_pred(pred, i);
        lemma_filter_membership(all, pred, i);
    }
    assert forall|i: int| 0 <= i < all.len() && contains_seq(
        lower_of(all[i]),
        lower_of(query),
    ) implies m.contains(all[i]) by {
        assert(pred(all[i]));
        all.lemma_filter_contains(pred, i);
    }
}

/// Both search functions are pure: their results are functions of the query
/// and the contents alone, so two calls on identical inputs return the same
/// ordered sequence of lines.
pub proof fn lemma_search_deterministic(
    query: Seq<char>,
    contents: Seq<char>,
    r1: Seq<Seq<char>>,
    r2: Seq<Seq<char>>,
)
    requires
        r1 == sensitive_matches(query, contents) && r2 == sensitive_matches(query, contents) || r1
            == insensitive_matches(query, contents) && r2 == insensitive_matches(query, contents),
    ensures
        r1 == r2,
{
}

/// An empty query matches every line: the case-sensitive search returns all
/// lines of the contents, in order. The case-insensitive function states
/// the same of itself in its own `ensures`: that lowercasing keeps an empty
/// query empty is known where the lowercasing is called.
pub proof fn lemma_empty_query_matches_all(query: Seq<char>, contents: Seq<char>)
    requires
        query.len() == 0,
    ensures
        sensitive_matches(query, contents) == spec_lines(contents),
{
    let all = spec_lines(contents);
    assert forall|i: int| 0 <= i < all.len() implies exact_match(query)(#[trigger] all[i]) by {
        lemma_contains_empty(all[i], query);
    }
    lemma_filter_all(all, exact_match(query));
}

/// Every line of `contents` that contains `query` as an exact substring,
/// in original order; each returned slice borrows from `contents`. An
/// empty query matches every line.
pub fn search<'a>(query: &str, contents: &'a str) -> (r: Vec<&'a str>)
    ensures
        r.deep_view() == sensitive_matches(query@, contents@),
        query@.len() == 0 ==> r.deep_view() == spec_lines(contents@),
{
    let lines = split_lines(contents);
    let ghost all = lines.deep_view();
    let ghost pred = exact_match(query@);
    let n = lines.len();
    let mut r: Vec<&'a str> = Vec::new();
    let mut idx: usize = 0;
    proof {
        assert(all.take(0) =~= Seq::<Seq<char>>::empty());
        reveal(Seq::filter);
        assert(r.deep_view() =~= all.take(0).filter(pred));
    }
    while idx < n
        invariant
            idx <= n,
            n == lines@.len(),
            all == lines.deep_view(),
            all == spec_lines(contents@),
            pred == exact_match(query@),
            r.deep_view() == all.take(idx as int).filter(pred),
        decreases n - idx,
    {
        let line = lines[idx];
        proof {
            assert(all[idx as int] == line@);
            lemma_filter_take_step(all, pred, idx as int);
        }
        if str_contains(line, query) {
            let ghost pre = r.deep_view();
            r.push(line);
            proof {
                assert(r.deep_view() =~= pre.push(line@));
            }
        }
        idx = idx + 1;
    }
    proof {
        assert(all.take(n as int) =~= all);
        if query@.len() == 0 {
            lemma_empty_query_matches_all(query@, contents@);
        }
    }
    r
}

/// Every line of `contents` whose lowercase form contains the lowercase
/// form of `query`, in original order; the returned lines keep their
/// original casing and borrow from `contents`. An empty query matches
/// every line.
pub fn search_case_insensitive<'a>(query: &str, contents: &'a str) -> (r: Vec<&'a str>)
    ensures
        r.deep_view() == insensitive_matches(query@, contents@),
        query@.len() == 0 ==> r.deep_view() == spec_lines(contents@),
{
    let lquery = lowercase(query);
    let lines = split_lines(contents);
    let ghost all = lines.deep_view();
    let ghost pred = folded_match(query@);
    let n = lines.len();
    let mut r: Vec<&'a str> = Vec::new();
    let mut idx: usize = 0;
    proof {
        assert(all.take(0) =~= Seq::<Seq<char>>::empty());
        reveal(Seq::filter);
        assert(r.deep_view() =~= all.take(0).filter(pred));
    }
    while idx < n
        invariant
            idx <= n,
            n == lines@.len(),
            all == lines.deep_view(),
            all == spec_lines(contents@),
            pred == folded_match(query@),
            lquery@ == lower_of(query@),
            r.deep_view() == all.take(idx as int).filter(pred),
        decreases n - idx,
    {
        let line = lines[idx];
        proof {
            assert(all[idx as int] == line@);
            lemma_filter_take_step(all, pred, idx as int);
        }
        let lline = lowercase(line);
        if str_contains(lline.as_str(), lquery.as_str()) {
            let ghost pre = r.deep_view();
            r.push(line);
            proof {
                assert(r.deep_view() =~= pre.push(line@));
            }
        }
        idx = idx + 1;
    }
    proof {
        assert(all.take(n as int) =~= all);
        if query@.len() == 0 {
            assert(lower_of(query@).len() == 0);
            assert forall|i: int| 0 <= i < all.len() implies folded_match(query@)(
                #[trigger] all[i],
            ) by {
                lemma_contains_empty(lower_of(all[i]), lower_of(query@));
            }
            lemma_filter_all(all, folded_match(query@));
        }
    }
    r
}

/// The matching lines for a built configuration: case-insensitive when the
/// configuration says so, case-sensitive otherwise; an empty query matches
/// every line either way.
pub fn matching_lines<'a>(config: &Config, contents: &'a str) -> (r: Vec<&'a str>)
    ensures
        config.ignore_case ==> r.deep_view() == insensitive_matches(config.query@, contents@),
        !config.ignore_case ==> r.deep_view() == sensitive_matches(config.query@, contents@),
        config.query@.len() == 0 ==> r.deep_view() == spec_lines(contents@),
{
    if config.ignore_case {
        search_case_insensitive(config.query.as_str(), contents)
    } else {
        search(config.query.as_str(), contents)
    }
}

} // verus!
