//! Line-oriented substring matching.
//!
//! The model works on `Seq<char>`: `split_lines` gives the lines of a text,
//! `has_substring` says that a query occurs in a line, and `filter_lines`
//! keeps the lines a predicate accepts, in their original order. The
//! executable functions `search` and `search_case_insensitive` return the
//! matching lines of a text as slices of the original, and their contracts
//! tie the result to the model.

use crate::config::Config;
use vstd::prelude::*;

verus! {

/// `query` occurs in `line` as a contiguous substring starting at `i`.
pub open spec fn occurs_at(line: Seq<char>, query: Seq<char>, i: int) -> bool {
    0 <= i && i + query.len() <= line.len() && line.subrange(i, i + query.len()) == query
}

/// `line` contains `query` as a contiguous substring.
pub open spec fn has_substring(line: Seq<char>, query: Seq<char>) -> bool {
    exists|i: int| occurs_at(line, query, i)
}

/// The ASCII-lowered form of one character. Characters outside `'A'..='Z'`
/// are unchanged: case folding here is ASCII-only, a documented limitation
/// of the case-insensitive mode.
pub open spec fn lower_char(c: char) -> char {
    if 'A' <= c && c <= 'Z' {
        ((c as u8) + 32) as char
    } else {
        c
    }
}

/// The ASCII-lowered form of a character sequence.
pub open spec fn lower_seq(s: Seq<char>) -> Seq<char> {
    s.map_values(|c: char| lower_char(c))
}

/// A line with one trailing carriage return removed, as happens to a line
/// that ended in `"\r\n"`.
pub open spec fn chop_cr(line: Seq<char>) -> Seq<char> {
    if line.len() > 0 && line.last() == '\r' {
        line.drop_last()
    } else {
        line
    }
}

/// The lines of `text`, given that the characters of `cur` have already been
/// read off the front of the current line. A line ends at `'\n'`, and a
/// `"\r\n"` ending leaves no `'\r'` on the line; text after the last `'\n'`
/// forms a final line only when it is non-empty.
pub open spec fn split_lines_from(text: Seq<char>, cur: Seq<char>) -> Seq<Seq<char>>
    decreases text.len(),
{
    if text.len() == 0 {
        if cur.len() == 0 {
            Seq::empty()
        } else {
            seq![cur]
        }
    } else if text[0] == '\n' {
        seq![chop_cr(cur)] + split_lines_from(text.skip(1), Seq::empty())
    } else {
        split_lines_from(text.skip(1), cur.push(text[0]))
    }
}

/// The lines of `text`.
pub open spec fn split_lines(text: Seq<char>) -> Seq<Seq<char>> {
    split_lines_from(text, Seq::empty())
}

/// The lines among `lines` that `pred` accepts, in their original order.
pub open spec fn filter_lines(lines: Seq<Seq<char>>, pred: spec_fn(Seq<char>) -> bool) -> Seq<
    Seq<char>,
>
    decreases lines.len(),
{
    if lines.len() == 0 {
        Seq::empty()
    } else if pred(lines[0]) {
        seq![lines[0]] + filter_lines(lines.skip(1), pred)
    } else {
        filter_lines(lines.skip(1), pred)
    }
}

/// Acceptance by exact containment of `query`.
pub open spec fn matches_exact(query: Seq<char>) -> spec_fn(Seq<char>) -> bool {
    |line: Seq<char>| has_substring(line, query)
}

/// Acceptance by containment of `query` with ASCII case ignored.
pub open spec fn matches_ignoring_case(query: Seq<char>) -> spec_fn(Seq<char>) -> bool {
    |line: Seq<char>| has_substring(lower_seq(line), lower_seq(query))
}

/// What `search` returns: the lines of `text` that contain `query`.
pub open spec fn search_spec(query: Seq<char>, text: Seq<char>) -> Seq<Seq<char>> {
    filter_lines(split_lines(text), matches_exact(query))
}

/// What `search_case_insensitive` returns: the lines of `text` that contain
/// `query` with ASCII case ignored, themselves in their original casing.
pub open spec fn search_ci_spec(query: Seq<char>, text: Seq<char>) -> Seq<Seq<char>> {
    filter_lines(split_lines(text), matches_ignoring_case(query))
}

/// The views of a sequence of string slices.
pub open spec fn views_of(lines: Seq<&str>) -> Seq<Seq<char>> {
    lines.map_values(|s: &str| s@)
}

/// The characters of `s` as a vector.
fn chars_of(s: &str) -> (v: Vec<char>)
    ensures
        v@ == s@,
{
    let n = s.unicode_len();
    let mut v: Vec<char> = Vec::new();
    let mut i: usize = 0;
    while i < n
        invariant
            n == s@.len(),
            i <= n,
            v@ == s@.subrange(0, i as int),
        decreases n - i,
    {
        let c = s.get_char(i);
        v.push(c);
        assert(v@ =~= s@.subrange(0, (i + 1) as int));
        i = i + 1;
    }
    assert(v@ =~= s@);
    v
}

/// Whether `query` occurs in `line` at position `i`.
fn occurs_at_exec(line: &Vec<char>, query: &Vec<char>, i: usize) -> (b: bool)
    requires
        i + query@.len() <= line@.len(),
    ensures
        b == occurs_at(line@, query@, i as int),
{
    let llen = line.len();
    let qlen = query.len();
    let mut j: usize = 0;
    while j < qlen
        invariant
            llen == line@.len(),
            qlen == query@.len(),
            i + qlen <= llen,
            j <= qlen,
            forall|k: int| 0 <= k < j ==> line@[i + k] == query@[k],
        decreases qlen - j,
    {
        if line[i + j] != query[j] {
            assert(line@.subrange(i as int, i + query@.len())[j as int] != query@[j as int]);
            return false;
        }
        j = j + 1;
    }
    assert(line@.subrange(i as int, i + query@.len()) =~= query@);
    true
}

/// Whether `query` occurs anywhere in `line`.
fn vec_has_substring(line: &Vec<char>, query: &Vec<char>) -> (b: bool)
    ensures
        b == has_substring(line@, query@),
{
    if query.len() > line.len() {
        assert(forall|i: int| !occurs_at(line@, query@, i));
        return false;
    }
    let end = line.len() - query.len();
    let mut i: usize = 0;
    loop
        invariant
            query@.len() <= line@.len(),
            end == line@.len() - query@.len(),
            i <= end,
            forall|k: int| 0 <= k < i ==> !occurs_at(line@, query@, k),
        decreases end - i,
    {
        if occurs_at_exec(line, query, i) {
            assert(has_substring(line@, query@));
            return true;
        }
        if i == end {
            assert(forall|k: int| !occurs_at(line@, query@, k));
            return false;
        }
        i = i + 1;
    }
}

/// The ASCII-lowered form of one character.
fn lower_char_exec(c: char) -> (r: char)
    ensures
        r == lower_char(c),
{
    if 'A' <= c && c <= 'Z' {
        assert(c as u8 <= 90);
        ((c as u8) + 32) as char
    } else {
        c
    }
}

/// The ASCII-lowered form of a character vector.
fn lower_vec(v: &Vec<char>) -> (r: Vec<char>)
    ensures
        r@ == lower_seq(v@),
{
    let n = v.len();
    let mut r: Vec<char> = Vec::new();
    let mut i: usize = 0;
    while i < n
        invariant
            n == v@.len(),
            i <= n,
            r@.len() == i,
            forall|k: int| 0 <= k < i ==> r@[k] == lower_char(v@[k]),
        decreases n - i,
    {
        let c = lower_char_exec(v[i]);
        r.push(c);
        i = i + 1;
    }
    assert(r@ =~= lower_seq(v@));
    r
}

/// The lines of `contents`, as slices of it.
fn split_lines_exec<'a>(contents: &'a str) -> (lines: Vec<&'a str>)
    ensures
        views_of(lines@) == split_lines(contents@),
{
    let n = contents.unicode_len();
    let cv = chars_of(contents);
    let mut lines: Vec<&'a str> = Vec::new();
    let mut pos: usize = 0;
    let mut line_start: usize = 0;
    proof {
        assert(contents@.skip(0) =~= contents@);
        assert(contents@.subrange(0, 0) =~= Seq::<char>::empty());
        assert(views_of(lines@) =~= Seq::<Seq<char>>::empty());
        assert(views_of(lines@) + split_lines(contents@) =~= split_lines(contents@));
    }
    while pos < n
        invariant
            cv@ == contents@,
            n == contents@.len(),
            line_start <= pos <= n,
            views_of(lines@) + split_lines_from(
                contents@.skip(pos as int),
                contents@.subrange(line_start as int, pos as int),
            ) == split_lines(contents@),
        decreases n - pos,
    {
        let ghost t = contents@;
        let ghost cur = t.subrange(line_start as int, pos as int);
        assert(t.skip(pos as int)[0] == t[pos as int]);
        assert(t.skip(pos as int).skip(1) =~= t.skip(pos as int + 1));
        let c = cv[pos];
        if c == '\n' {
            let line_end = if pos > line_start && cv[pos - 1] == '\r' {
                pos - 1
            } else {
                pos
            };
            proof {
                assert(chop_cr(cur) =~= t.subrange(line_start as int, line_end as int));
            }
            let line = contents.substring_char(line_start, line_end);
            let ghost old_lines = lines@;
            lines.push(line);
            proof {
                assert(split_lines_from(t.skip(pos as int), cur) == seq![chop_cr(cur)]
                    + split_lines_from(t.skip(pos as int + 1), Seq::empty()));
                assert(views_of(lines@) =~= views_of(old_lines).push(line@));
                assert(t.subrange(pos as int + 1, pos as int + 1) =~= Seq::<char>::empty());
                assert(views_of(lines@) + split_lines_from(
                    t.skip(pos as int + 1),
                    t.subrange(pos as int + 1, pos as int + 1),
                ) =~= views_of(old_lines) + split_lines_from(t.skip(pos as int), cur));
            }
            pos = pos + 1;
            line_start = pos;
        } else {
            proof {
                assert(cur.push(t[pos as int]) =~= t.subrange(line_start as int, pos as int + 1));
                assert(split_lines_from(t.skip(pos as int), cur) == split_lines_from(
                    t.skip(pos as int + 1),
                    t.subrange(line_start as int, pos as int + 1),
                ));
            }
            pos = pos + 1;
        }
    }
    let ghost t = contents@;
    assert(t.skip(n as int) =~= Seq::<char>::empty());
    if line_start < n {
        let line = contents.substring_char(line_start, n);
        let ghost old_lines = lines@;
        lines.push(line);
        proof {
            assert(views_of(lines@) =~= views_of(old_lines).push(line@));
            assert(views_of(old_lines).push(line@) =~= views_of(old_lines) + seq![
                t.subrange(line_start as int, n as int),
            ]);
        }
    } else {
        assert(views_of(lines@) + Seq::<Seq<char>>::empty() =~= views_of(lines@));
    }
    lines
}

/// Returns every line of `contents` that contains `query` as an exact
/// substring, in the order the lines stand in `contents`.
pub fn search<'a>(query: &str, contents: &'a str) -> (result: Vec<&'a str>)
    ensures
        views_of(result@) == search_spec(query@, contents@),
{
    let qv = chars_of(query);
    let lines = split_lines_exec(contents);
    let mut result: Vec<&'a str> = Vec::new();
    let ghost lviews = views_of(lines@);
    let ghost pred = matches_exact(query@);
    proof {
        assert(lviews.skip(0) =~= lviews);
        assert(views_of(result@) + filter_lines(lviews, pred) =~= filter_lines(lviews, pred));
    }
    let mut idx: usize = 0;
    while idx < lines.len()
        invariant
            qv@ == query@,
            lviews == views_of(lines@),
            lviews == split_lines(contents@),
            pred == matches_exact(query@),
            idx <= lines@.len(),
            views_of(result@) + filter_lines(lviews.skip(idx as int), pred) == search_spec(
                query@,
                contents@,
            ),
        decreases lines@.len() - idx,
    {
        let line = lines[idx];
        assert(line@ == lviews[idx as int]);
        let lv = chars_of(line);
        let ghost old_result = result@;
        if vec_has_substring(&lv, &qv) {
            result.push(line);
            assert(views_of(result@) =~= views_of(old_result).push(line@));
        }
        proof {
            let rest = lviews.skip(idx as int);
            assert(rest[0] == lviews[idx as int]);
            assert(rest.skip(1) =~= lviews.skip(idx as int + 1));
            assert(views_of(result@) + filter_lines(lviews.skip(idx as int + 1), pred)
                =~= views_of(old_result) + filter_lines(rest, pred));
        }
        idx = idx + 1;
    }
    assert(lviews.skip(lines@.len() as int) =~= Seq::<Seq<char>>::empty());
    assert(views_of(result@) + Seq::<Seq<char>>::empty() =~= views_of(result@));
    result
}

/// Returns every line of `contents` that contains `query` when ASCII case
/// is ignored in both, in the order the lines stand in `contents`. The
/// returned lines keep their original casing.
pub fn search_case_insensitive<'a>(query: &str, contents: &'a str) -> (result: Vec<&'a str>)
    ensures
        views_of(result@) == search_ci_spec(query@, contents@),
{
    let qv = chars_of(query);
    let lq = lower_vec(&qv);
    let lines = split_lines_exec(contents);
    let mut result: Vec<&'a str> = Vec::new();
    let ghost lviews = views_of(lines@);
    let ghost pred = matches_ignoring_case(query@);
    proof {
        assert(lviews.skip(0) =~= lviews);
        assert(views_of(result@) + filter_lines(lviews, pred) =~= filter_lines(lviews, pred));
    }
    let mut idx: usize = 0;
    while idx < lines.len()
        invariant
            lq@ == lower_seq(query@),
            lviews == views_of(lines@),
            lviews == split_lines(contents@),
            pred == matches_ignoring_case(query@),
            idx <= lines@.len(),
            views_of(result@) + filter_lines(lviews.skip(idx as int), pred) == search_ci_spec(
                query@,
                contents@,
            ),
        decreases lines@.len() - idx,
    {
        let line = lines[idx];
        assert(line@ == lviews[idx as int]);
        let lv = chars_of(line);
        let ll = lower_vec(&lv);
        let ghost old_result = result@;
        if vec_has_substring(&ll, &lq) {
            result.push(line);
            assert(views_of(result@) =~= views_of(old_result).push(line@));
        }
        proof {
            let rest = lviews.skip(idx as int);
            assert(rest[0] == lviews[idx as int]);
            assert(rest.skip(1) =~= lviews.skip(idx as int + 1));
            assert(views_of(result@) + filter_lines(lviews.skip(idx as int + 1), pred)
                =~= views_of(old_result) + filter_lines(rest, pred));
        }
        idx = idx + 1;
    }
    assert(lviews.skip(lines@.len() as int) =~= Seq::<Seq<char>>::empty());
    assert(views_of(result@) + Seq::<Seq<char>>::empty() =~= views_of(result@));
    result
}

/// Runs the search that `config` asks for over `contents`: exact matching
/// when `config.case_sensitive` holds, matching with ASCII case ignored
/// otherwise.
pub fn run_search<'a>(config: &Config, contents: &'a str) -> (result: Vec<&'a str>)
    ensures
        config.case_sensitive ==> views_of(result@) == search_spec(config.query@, contents@),
        !config.case_sensitive ==> views_of(result@) == search_ci_spec(config.query@, contents@),
{
    if config.case_sensitive {
        search(config.query.as_str(), contents)
    } else {
        search_case_insensitive(config.query.as_str(), contents)
    }
}

} // verus!
