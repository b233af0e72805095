//! The line search engine.
//!
//! [`search`] scans a text line by line and reports every line containing a
//! query string, in file order, each paired with its 1-based line number.
//! The expected result is pinned down by the spec function
//! [`search_matches`]; the lemmas at the end of this module characterize it.

use vstd::prelude::*;

use crate::text::line_matches;
use crate::text::lines_of;
use crate::text::str_has_substring;

verus! {

/// One reported match: a line of the searched text, paired with its 1-based
/// position in that text.
#[derive(Debug, Eq)]
pub struct Output {
    pub line_number: usize,
    pub line: String,
}

impl View for Output {
    type V = (int, Seq<char>);

    open spec fn view(&self) -> (int, Seq<char>) {
        (self.line_number as int, self.line@)
    }
}

impl DeepView for Output {
    type V = (int, Seq<char>);

    open spec fn deep_view(&self) -> (int, Seq<char>) {
        self.view()
    }
}

impl Output {
    /// Pairs a line with its line number.
    pub fn new(line_number: usize, line: String) -> (r: Self)
        ensures
            r.line_number == line_number,
            r.line == line,
    {
        Output { line_number, line }
    }
}

impl PartialEq for Output {
    fn eq(&self, other: &Self) -> (r: bool) {
        self.line_number == other.line_number && self.line == other.line
    }
}

impl vstd::std_specs::cmp::PartialEqSpecImpl for Output {
    open spec fn obeys_eq_spec() -> bool {
        true
    }

    open spec fn eq_spec(&self, other: &Self) -> bool {
        self.line_number == other.line_number && self.line@ == other.line@
    }
}

/// The matches among `lines`, in order, the first line carrying the number
/// `first_number` and each later line the next number up.
pub open spec fn matches_from(
    lines: Seq<Seq<char>>,
    query: Seq<char>,
    ignore_case: bool,
    first_number: int,
) -> Seq<(int, Seq<char>)>
    decreases lines.len(),
{
    if lines.len() == 0 {
        Seq::empty()
    } else {
        let rest = matches_from(lines.skip(1), query, ignore_case, first_number + 1);
        if line_matches(lines[0], query, ignore_case) {
            seq![(first_number, lines[0])] + rest
        } else {
            rest
        }
    }
}

/// What a search returns: the lines of `contents` that satisfy the query
/// predicate, in file order, numbered from 1.
pub open spec fn search_matches(
    query: Seq<char>,
    contents: Seq<char>,
    ignore_case: bool,
) -> Seq<(int, Seq<char>)> {
    matches_from(lines_of(contents), query, ignore_case, 1)
}

/// Searches `contents` line by line for `query` and returns every line that
/// contains it, paired with its 1-based line number, in file order.
///
/// `config` selects the comparison mode: `Some(true)` lowercase-folds both
/// query and line before comparing, `Some(false)` and `None` compare exactly.
pub fn search(query: &str, contents: &str, config: Option<bool>) -> (r: Vec<Output>)
    ensures
        r.deep_view() == search_matches(query@, contents@, config.unwrap_or(false)),
{
    let ignore_case = config.unwrap_or(false);
    let lines = crate::text::split_lines(contents);
    let ghost all = lines.deep_view();
    let mut out: Vec<Output> = Vec::new();
    let mut k: usize = 0;
    proof {
        assert(out.deep_view() =~~= Seq::<(int, Seq<char>)>::empty());
        assert(all.skip(0) =~~= all);
        assert(Seq::<(int, Seq<char>)>::empty() + matches_from(all, query@, ignore_case, 1)
            =~~= matches_from(all, query@, ignore_case, 1));
    }
    while k < lines.len()
        invariant
            all == lines.deep_view(),
            all == lines_of(contents@),
            all.len() == lines@.len(),
            forall|j: int| 0 <= j < all.len() ==> all[j] == lines@[j]@,
            k <= lines.len(),
            ignore_case == config.unwrap_or(false),
            out.deep_view() + matches_from(all.skip(k as int), query@, ignore_case, k + 1)
                == matches_from(all, query@, ignore_case, 1),
        decreases lines.len() - k,
    {
        let ghost rest = all.skip(k as int);
        let ghost dv = out.deep_view();
        proof {
            assert(rest[0] == all[k as int]);
            assert(rest.skip(1) =~~= all.skip(k + 1));
        }
        if str_has_substring(lines[k].as_str(), query, ignore_case) {
            let m = Output { line_number: k + 1, line: lines[k].clone() };
            proof {
                assert(m@ == (k + 1int, all[k as int]));
            }
            out.push(m);
            proof {
                assert(out.deep_view() =~~= dv.push((k + 1int, all[k as int])));
                assert(dv.push((k + 1int, all[k as int])) =~~= dv + seq![(k + 1int, all[k as int])]);
                assert(matches_from(rest, query@, ignore_case, k + 1) == seq![
                    (k + 1int, all[k as int]),
                ] + matches_from(rest.skip(1), query@, ignore_case, k + 2));
            }
        } else {
            proof {
                assert(matches_from(rest, query@, ignore_case, k + 1) == matches_from(
                    rest.skip(1),
                    query@,
                    ignore_case,
                    k + 2,
                ));
            }
        }
        k += 1;
    }
    proof {
        assert(all.skip(all.len() as int) =~~= Seq::<Seq<char>>::empty());
        assert(out.deep_view() + Seq::<(int, Seq<char>)>::empty() =~~= out.deep_view());
    }
    out
}

/// Every reported match is a line of `lines` satisfying the query predicate,
/// paired with its position counted from `first`.
pub open spec fn reports_only_matches(
    ms: Seq<(int, Seq<char>)>,
    lines: Seq<Seq<char>>,
    query: Seq<char>,
    ignore_case: bool,
    first: int,
) -> bool {
    forall|j: int|
        0 <= j < ms.len() ==> {
            &&& first <= (#[trigger] ms[j]).0 < first + lines.len()
            &&& ms[j].1 == lines[ms[j].0 - first]
            &&& line_matches(ms[j].1, query, ignore_case)
        }
}

/// Every line of `lines` satisfying the query predicate is reported, paired
/// with its position counted from `first`.
pub open spec fn reports_all_matches(
    ms: Seq<(int, Seq<char>)>,
    lines: Seq<Seq<char>>,
    query: Seq<char>,
    ignore_case: bool,
    first: int,
) -> bool {
    forall|i: int|
        0 <= i < lines.len() && line_matches(#[trigger] lines[i], query, ignore_case)
            ==> ms.contains((first + i, lines[i]))
}

/// The reported line numbers strictly increase: file order is kept and no
/// line is reported twice.
pub open spec fn strictly_increasing_numbers(ms: Seq<(int, Seq<char>)>) -> bool {
    forall|j1: int, j2: int|
        #![trigger ms[j1], ms[j2]]
        0 <= j1 < j2 < ms.len() ==> ms[j1].0 < ms[j2].0
}

/// `matches_from` reports exactly the matching lines, in order.
proof fn lemma_matches_from_exact(
    lines: Seq<Seq<char>>,
    query: Seq<char>,
    ignore_case: bool,
    first: int,
)
    ensures
        reports_only_matches(
            matches_from(lines, query, ignore_case, first),
            lines,
            query,
            ignore_case,
            first,
        ),
        reports_all_matches(
            matches_from(lines, query, ignore_case, first),
            lines,
            query,
            ignore_case,
            first,
        ),
        strictly_increasing_numbers(matches_from(lines, query, ignore_case, first)),
    decreases lines.len(),
{
    let ms = matches_from(lines, query, ignore_case, first);
    if lines.len() == 0 {
        assert(ms.len() == 0);
    } else {
        let tail = lines.skip(1);
        lemma_matches_from_exact(tail, query, ignore_case, first + 1);
        let rest = matches_from(tail, query, ignore_case, first + 1);
        assert(forall|i: int| 1 <= i < lines.len() ==> lines[i] == #[trigger] tail[i - 1]);
        if line_matches(lines[0], query, ignore_case) {
            assert(ms == seq![(first, lines[0])] + rest);
            assert(forall|j: int| 1 <= j < ms.len() ==> #[trigger] ms[j] == rest[j - 1]);
            assert forall|i: int|
                0 <= i < lines.len() && line_matches(lines[i], query, ignore_case)
                implies ms.contains((first + i, lines[i])) by {
                if i == 0 {
                    assert(ms[0] == (first + 0, lines[0]));
                } else {
                    assert(rest.contains((first + 1 + (i - 1), tail[i - 1])));
                    let j = choose|j: int|
                        0 <= j < rest.len() && rest[j] == (first + i, lines[i]);
                    assert(ms[j + 1] == (first + i, lines[i]));
                }
            }
        } else {
            assert(ms == rest);
            assert forall|i: int|
                0 <= i < lines.len() && line_matches(lines[i], query, ignore_case)
                implies ms.contains((first + i, lines[i])) by {
                assert(i != 0);
                assert(rest.contains((first + 1 + (i - 1), tail[i - 1])));
            }
        }
    }
}

/// The case-sensitive search returns exactly the lines of `contents` that
/// contain `query` as an exact substring, in file order, each with its
/// correct 1-based line number.
pub proof fn lemma_search_case_sensitive(query: Seq<char>, contents: Seq<char>)
    ensures
        reports_only_matches(
            search_matches(query, contents, false),
            lines_of(contents),
            query,
            false,
            1,
        ),
        reports_all_matches(
            search_matches(query, contents, false),
            lines_of(contents),
            query,
            false,
            1,
        ),
        strictly_increasing_numbers(search_matches(query, contents, false)),
        forall|l: Seq<char>|
            #[trigger] line_matches(l, query, false) == crate::text::has_substring(l, query),
{
    lemma_matches_from_exact(lines_of(contents), query, false, 1);
}

/// The case-insensitive search returns exactly the lines of `contents` whose
/// lowercase-folded form contains the lowercase-folded `query`, in file
/// order, each with its correct 1-based line number.
pub proof fn lemma_search_case_insensitive(query: Seq<char>, contents: Seq<char>)
    ensures
        reports_only_matches(
            search_matches(query, contents, true),
            lines_of(contents),
            query,
            true,
            1,
        ),
        reports_all_matches(
            search_matches(query, contents, true),
            lines_of(contents),
            query,
            true,
            1,
        ),
        strictly_increasing_numbers(search_matches(query, contents, true)),
        forall|l: Seq<char>|
            #[trigger] line_matches(l, query, true) == crate::text::has_substring(
                crate::text::lower_text(l),
                crate::text::lower_text(query),
            ),
{
    lemma_matches_from_exact(lines_of(contents), query, true, 1);
}

/// Searching is a pure function: two results that the contract of `search`
/// describes for identical arguments are identical.
pub proof fn lemma_search_deterministic(
    query: Seq<char>,
    contents: Seq<char>,
    ignore_case: bool,
    r1: Seq<(int, Seq<char>)>,
    r2: Seq<(int, Seq<char>)>,
)
    requires
        r1 == search_matches(query, contents, ignore_case),
        r2 == search_matches(query, contents, ignore_case),
    ensures
        r1 == r2,
{
}

/// An empty text has no lines, so a search over it reports nothing, whatever
/// the query.
pub proof fn lemma_empty_contents(query: Seq<char>, ignore_case: bool)
    ensures
        search_matches(query, Seq::empty(), ignore_case) == Seq::<(int, Seq<char>)>::empty(),
{
    assert(lines_of(Seq::empty()) == Seq::<Seq<char>>::empty());
}

/// Helper for `lemma_empty_query`: when every line matches, the matches are
/// all the lines, numbered consecutively.
proof fn lemma_matches_from_all_match(
    lines: Seq<Seq<char>>,
    query: Seq<char>,
    ignore_case: bool,
    first: int,
)
    requires
        forall|i: int| 0 <= i < lines.len() ==> line_matches(#[trigger] lines[i], query, ignore_case),
    ensures
        matches_from(lines, query, ignore_case, first).len() == lines.len(),
        forall|i: int|
            0 <= i < lines.len() ==> #[trigger] matches_from(lines, query, ignore_case, first)[i]
                == (first + i, lines[i]),
    decreases lines.len(),
{
    if lines.len() > 0 {
        let tail = lines.skip(1);
        assert(forall|i: int| 0 <= i < tail.len() ==> #[trigger] tail[i] == lines[i + 1]);
        lemma_matches_from_all_match(tail, query, ignore_case, first + 1);
    }
}

/// The empty query matches every line: a search for it reports every line of
/// the text, numbered consecutively from 1.
pub proof fn lemma_empty_query(contents: Seq<char>, ignore_case: bool)
    ensures
        search_matches(Seq::empty(), contents, ignore_case).len() == lines_of(contents).len(),
        forall|i: int|
            0 <= i < lines_of(contents).len() ==> #[trigger] search_matches(
                Seq::empty(),
                contents,
                ignore_case,
            )[i] == (i + 1, lines_of(contents)[i]),
{
    assert forall|i: int| 0 <= i < lines_of(contents).len() implies line_matches(
        #[trigger] lines_of(contents)[i],
        Seq::empty(),
        ignore_case,
    ) by {
        let l = lines_of(contents)[i];
        let fl = crate::text::fold_text(l, ignore_case);
        let fq = crate::text::fold_text(Seq::empty(), ignore_case);
        assert(fq =~= Seq::<char>::empty());
        assert(fl.subrange(0, 0) =~= fq);
        assert(crate::text::match_at(fl, fq, 0));
    }
    lemma_matches_from_all_match(lines_of(contents), Seq::empty(), ignore_case, 1);
}

/// `a` can be had from `b` by deleting entries: `b` contains all of `a`, in
/// `a`'s order.
pub open spec fn is_subsequence_of<T>(a: Seq<T>, b: Seq<T>) -> bool
    decreases a.len() + b.len(),
{
    if a.len() == 0 {
        true
    } else if b.len() == 0 {
        false
    } else {
        (a[0] == b[0] && is_subsequence_of(a.skip(1), b.skip(1))) || is_subsequence_of(
            a,
            b.skip(1),
        )
    }
}

/// Helper for `lemma_case_insensitive_superset`, by induction over the lines.
proof fn lemma_matches_from_case_subsequence(lines: Seq<Seq<char>>, query: Seq<char>, first: int)
    ensures
        is_subsequence_of(
            matches_from(lines, query, false, first),
            matches_from(lines, query, true, first),
        ),
    decreases lines.len(),
{
    let a = matches_from(lines, query, false, first);
    let b = matches_from(lines, query, true, first);
    if lines.len() == 0 {
        assert(a.len() == 0);
    } else {
        lemma_matches_from_case_subsequence(lines.skip(1), query, first + 1);
        let ra = matches_from(lines.skip(1), query, false, first + 1);
        let rb = matches_from(lines.skip(1), query, true, first + 1);
        crate::text::lemma_case_sensitive_implies_insensitive(lines[0], query);
        if line_matches(lines[0], query, false) {
            assert(a == seq![(first, lines[0])] + ra);
            assert(b == seq![(first, lines[0])] + rb);
            assert(a.skip(1) =~~= ra);
            assert(b.skip(1) =~~= rb);
            assert(a[0] == b[0] && is_subsequence_of(a.skip(1), b.skip(1)));
        } else if line_matches(lines[0], query, true) {
            assert(a == ra);
            assert(b == seq![(first, lines[0])] + rb);
            assert(b.skip(1) =~~= rb);
            assert(is_subsequence_of(a, b.skip(1)));
            assert(b.len() > 0);
        }
    }
}

/// Case-insensitivity only widens a search: the case-sensitive result is a
/// subsequence of the case-insensitive result over the same inputs.
pub proof fn lemma_case_insensitive_superset(query: Seq<char>, contents: Seq<char>)
    ensures
        is_subsequence_of(
            search_matches(query, contents, false),
            search_matches(query, contents, true),
        ),
{
    lemma_matches_from_case_subsequence(lines_of(contents), query, 1);
}

} // verus!
