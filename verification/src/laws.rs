//! Properties of the matcher, stated and proved once and for all inputs.

use crate::matcher::filter_lines;
use crate::matcher::has_substring;
use crate::matcher::lower_char;
use crate::matcher::lower_seq;
use crate::matcher::matches_exact;
use crate::matcher::matches_ignoring_case;
use crate::matcher::occurs_at;
use crate::matcher::search_ci_spec;
use crate::matcher::search_spec;
use crate::matcher::split_lines;
use vstd::prelude::*;

verus! {

/// The elements of `a` stand in `b`, in the same order: `a` is obtained
/// from `b` by leaving elements out. The definition matches greedily, which
/// the lemmas below account for.
pub open spec fn is_subsequence_of(a: Seq<Seq<char>>, b: Seq<Seq<char>>) -> bool
    decreases b.len(), a.len(),
{
    if a.len() == 0 {
        true
    } else if b.len() == 0 {
        false
    } else if a[0] == b[0] {
        is_subsequence_of(a.skip(1), b.skip(1))
    } else {
        is_subsequence_of(a, b.skip(1))
    }
}

/// Dropping the first element keeps a sequence a subsequence.
proof fn lemma_subseq_skip_first(a: Seq<Seq<char>>, b: Seq<Seq<char>>)
    requires
        is_subsequence_of(a, b),
        a.len() > 0,
    ensures
        is_subsequence_of(a.skip(1), b),
    decreases b.len(), 1int,
{
    if a[0] == b[0] {
        lemma_subseq_weaken_b(a.skip(1), b);
    } else {
        lemma_subseq_skip_first(a, b.skip(1));
        lemma_subseq_weaken_b(a.skip(1), b);
    }
}

/// A subsequence of `b` without its first element is a subsequence of `b`.
proof fn lemma_subseq_weaken_b(a: Seq<Seq<char>>, b: Seq<Seq<char>>)
    requires
        b.len() > 0,
        is_subsequence_of(a, b.skip(1)),
    ensures
        is_subsequence_of(a, b),
    decreases b.len(), 0int,
{
    if a.len() == 0 {
    } else if a[0] == b[0] {
        lemma_subseq_skip_first(a, b.skip(1));
    }
}

/// Every line that `filter_lines` keeps satisfies the predicate, stands in
/// the input, and the kept lines form a subsequence of the input: they come
/// in their original order.
proof fn lemma_filter_lines_sound(lines: Seq<Seq<char>>, pred: spec_fn(Seq<char>) -> bool)
    ensures
        forall|i: int|
            0 <= i < filter_lines(lines, pred).len() ==> pred(
                #[trigger] filter_lines(lines, pred)[i],
            ),
        forall|i: int|
            0 <= i < filter_lines(lines, pred).len() ==> lines.contains(
                #[trigger] filter_lines(lines, pred)[i],
            ),
        is_subsequence_of(filter_lines(lines, pred), lines),
    decreases lines.len(),
{
    if lines.len() == 0 {
    } else {
        let rest = lines.skip(1);
        lemma_filter_lines_sound(rest, pred);
        let f = filter_lines(lines, pred);
        let fr = filter_lines(rest, pred);
        if pred(lines[0]) {
            assert(f == seq![lines[0]] + fr);
            assert forall|i: int| 0 <= i < f.len() implies pred(#[trigger] f[i]) by {
                if i > 0 {
                    assert(f[i] == fr[i - 1]);
                }
            }
            assert forall|i: int| 0 <= i < f.len() implies lines.contains(#[trigger] f[i]) by {
                if i == 0 {
                    assert(lines[0] == f[0]);
                } else {
                    assert(f[i] == fr[i - 1]);
                    let j = choose|j: int| 0 <= j < rest.len() && rest[j] == fr[i - 1];
                    assert(lines[j + 1] == f[i]);
                }
            }
            assert(f.skip(1) =~= fr);
            assert(is_subsequence_of(f, lines));
        } else {
            assert(f == fr);
            assert forall|i: int| 0 <= i < f.len() implies lines.contains(#[trigger] f[i]) by {
                let j = choose|j: int| 0 <= j < rest.len() && rest[j] == f[i];
                assert(lines[j + 1] == f[i]);
            }
            lemma_subseq_weaken_b(f, lines);
        }
    }
}

/// What `search` returns is sound: every returned line contains the query,
/// every returned line is a line of the text, and the returned lines form a
/// subsequence of the text's lines, so they keep their original order.
pub proof fn lemma_search_sound(query: Seq<char>, text: Seq<char>)
    ensures
        forall|i: int|
            0 <= i < search_spec(query, text).len() ==> has_substring(
                #[trigger] search_spec(query, text)[i],
                query,
            ),
        forall|i: int|
            0 <= i < search_spec(query, text).len() ==> split_lines(text).contains(
                #[trigger] search_spec(query, text)[i],
            ),
        is_subsequence_of(search_spec(query, text), split_lines(text)),
{
    let pred = matches_exact(query);
    lemma_filter_lines_sound(split_lines(text), pred);
    assert forall|i: int| 0 <= i < search_spec(query, text).len() implies has_substring(
        #[trigger] search_spec(query, text)[i],
        query,
    ) by {
        assert(pred(search_spec(query, text)[i]));
    }
}

/// A filter with a weaker predicate keeps at least as many lines.
proof fn lemma_filter_lines_monotone(
    lines: Seq<Seq<char>>,
    narrow: spec_fn(Seq<char>) -> bool,
    wide: spec_fn(Seq<char>) -> bool,
)
    requires
        forall|l: Seq<char>| #[trigger] narrow(l) ==> wide(l),
    ensures
        filter_lines(lines, narrow).len() <= filter_lines(lines, wide).len(),
    decreases lines.len(),
{
    if lines.len() == 0 {
    } else {
        lemma_filter_lines_monotone(lines.skip(1), narrow, wide);
    }
}

/// Exact containment survives ASCII lowering of both sides.
proof fn lemma_has_substring_lower(line: Seq<char>, query: Seq<char>)
    requires
        has_substring(line, query),
    ensures
        has_substring(lower_seq(line), lower_seq(query)),
{
    let i = choose|i: int| occurs_at(line, query, i);
    assert(lower_seq(line).subrange(i, i + query.len() as int) =~= lower_seq(query)) by {
        assert forall|k: int| 0 <= k < query.len() implies lower_seq(line).subrange(
            i,
            i + query.len() as int,
        )[k] == lower_seq(query)[k] by {
            assert(line.subrange(i, i + query.len() as int)[k] == query[k]);
        }
    }
    assert(occurs_at(lower_seq(line), lower_seq(query), i));
}

/// Case-insensitive matching is at least as permissive as exact matching:
/// for the same query and text it returns at least as many lines.
pub proof fn lemma_case_insensitive_superset(query: Seq<char>, text: Seq<char>)
    ensures
        search_spec(query, text).len() <= search_ci_spec(query, text).len(),
{
    let narrow = matches_exact(query);
    let wide = matches_ignoring_case(query);
    assert forall|l: Seq<char>| #[trigger] narrow(l) implies wide(l) by {
        if has_substring(l, query) {
            lemma_has_substring_lower(l, query);
        }
    }
    lemma_filter_lines_monotone(split_lines(text), narrow, wide);
}

/// Searching is idempotent: two results of searching the same text for the
/// same query are the same sequence of lines, each being `search_spec` of
/// the inputs by the contract of `search`.
pub proof fn lemma_search_deterministic(
    query: Seq<char>,
    text: Seq<char>,
    first: Seq<Seq<char>>,
    second: Seq<Seq<char>>,
)
    requires
        first == search_spec(query, text),
        second == search_spec(query, text),
    ensures
        first == second,
{
}

/// A filter whose predicate accepts every line keeps them all.
proof fn lemma_filter_lines_all(lines: Seq<Seq<char>>, pred: spec_fn(Seq<char>) -> bool)
    requires
        forall|i: int| 0 <= i < lines.len() ==> pred(#[trigger] lines[i]),
    ensures
        filter_lines(lines, pred) == lines,
    decreases lines.len(),
{
    if lines.len() == 0 {
        assert(filter_lines(lines, pred) =~= lines);
    } else {
        lemma_filter_lines_all(lines.skip(1), pred);
        assert(pred(lines[0]));
        assert(seq![lines[0]] + lines.skip(1) =~= lines);
    }
}

/// An empty query matches every line: searching for it returns every line
/// of the text unchanged.
pub proof fn lemma_empty_query_matches_all(query: Seq<char>, text: Seq<char>)
    requires
        query.len() == 0,
    ensures
        search_spec(query, text) == split_lines(text),
{
    let pred = matches_exact(query);
    assert forall|i: int| 0 <= i < split_lines(text).len() implies pred(
        #[trigger] split_lines(text)[i],
    ) by {
        let l = split_lines(text)[i];
        assert(l.subrange(0, 0) =~= query);
        assert(occurs_at(l, query, 0));
    }
    lemma_filter_lines_all(split_lines(text), pred);
}

/// An empty text has no lines, so searching it returns the empty sequence,
/// whatever the query.
pub proof fn lemma_empty_text(query: Seq<char>)
    ensures
        search_spec(query, Seq::empty()) == Seq::<Seq<char>>::empty(),
{
    assert(split_lines(Seq::<char>::empty()) =~= Seq::<Seq<char>>::empty());
    assert(filter_lines(Seq::<Seq<char>>::empty(), matches_exact(query)) =~= Seq::<
        Seq<char>,
    >::empty());
}

} // verus!
