//! Character folding, substring matching and line splitting.
//!
//! These are the text primitives underneath the search engine: simple
//! (ASCII-only) lowercase folding, substring containment, and splitting a
//! text into lines at `\n` or `\r\n` breaks, the final break optional.

use vstd::prelude::*;

verus! {

/// Simple lowercase folding of one character: the twenty-six ASCII capital
/// letters map to their lowercase forms, every other character is unchanged.
pub open spec fn lower_char(c: char) -> char {
    match c {
        'A' => 'a',
        'B' => 'b',
        'C' => 'c',
        'D' => 'd',
        'E' => 'e',
        'F' => 'f',
        'G' => 'g',
        'H' => 'h',
        'I' => 'i',
        'J' => 'j',
        'K' => 'k',
        'L' => 'l',
        'M' => 'm',
        'N' => 'n',
        'O' => 'o',
        'P' => 'p',
        'Q' => 'q',
        'R' => 'r',
        'S' => 's',
        'T' => 't',
        'U' => 'u',
        'V' => 'v',
        'W' => 'w',
        'X' => 'x',
        'Y' => 'y',
        'Z' => 'z',
        _ => c,
    }
}

/// Lowercase folding applied to each character of a text.
pub open spec fn lower_text(s: Seq<char>) -> Seq<char> {
    s.map_values(|c: char| lower_char(c))
}

/// One character under the comparison mode: folded when `ignore_case` is
/// set, unchanged otherwise.
pub open spec fn fold_char(c: char, ignore_case: bool) -> char {
    if ignore_case {
        lower_char(c)
    } else {
        c
    }
}

/// A text under the comparison mode: folded when `ignore_case` is set,
/// unchanged otherwise.
pub open spec fn fold_text(s: Seq<char>, ignore_case: bool) -> Seq<char> {
    if ignore_case {
        lower_text(s)
    } else {
        s
    }
}

/// `pat` occurs in `text` starting at position `i`.
pub open spec fn match_at(text: Seq<char>, pat: Seq<char>, i: int) -> bool {
    &&& 0 <= i
    &&& i + pat.len() <= text.len()
    &&& text.subrange(i, i + pat.len()) == pat
}

/// `pat` occurs somewhere in `text`. The empty pattern occurs in every text.
pub open spec fn has_substring(text: Seq<char>, pat: Seq<char>) -> bool {
    exists|i: int| match_at(text, pat, i)
}

/// A line satisfies the query predicate: under case-insensitive comparison
/// both line and query are lowercase-folded first, otherwise the match is
/// exact.
pub open spec fn line_matches(line: Seq<char>, query: Seq<char>, ignore_case: bool) -> bool {
    has_substring(fold_text(line, ignore_case), fold_text(query, ignore_case))
}

/// An exact substring occurrence survives lowercase folding: a line that
/// matches a query case-sensitively also matches it case-insensitively.
pub proof fn lemma_case_sensitive_implies_insensitive(line: Seq<char>, query: Seq<char>)
    ensures
        line_matches(line, query, false) ==> line_matches(line, query, true),
{
    if line_matches(line, query, false) {
        let i = choose|i: int| match_at(line, query, i);
        assert forall|k: int| 0 <= k < query.len() implies lower_text(line).subrange(
            i,
            i + query.len(),
        )[k] == lower_text(query)[k] by {
            assert(line.subrange(i, i + query.len())[k] == line[i + k]);
        }
        assert(lower_text(line).subrange(i, i + query.len()) =~= lower_text(query));
        assert(match_at(lower_text(line), lower_text(query), i));
    }
}

/// A carriage return left at the end of a line by a `\r\n` break is not part
/// of the line.
pub open spec fn strip_carriage_return(line: Seq<char>) -> Seq<char> {
    if line.len() > 0 && line.last() == '\r' {
        line.drop_last()
    } else {
        line
    }
}

/// The lines of `s` after the already-accumulated line fragment `cur`: each
/// `\n` ends a line (a `\r` directly before it is dropped), and characters
/// after the last break form a final line only if there are any.
pub open spec fn split_rest(s: Seq<char>, cur: Seq<char>) -> Seq<Seq<char>>
    decreases s.len(),
{
    if s.len() == 0 {
        if cur.len() == 0 {
            Seq::empty()
        } else {
            seq![cur]
        }
    } else if s[0] == '\n' {
        seq![strip_carriage_return(cur)] + split_rest(s.skip(1), Seq::empty())
    } else {
        split_rest(s.skip(1), cur.push(s[0]))
    }
}

/// The lines of a text: split at `\n` or `\r\n` breaks, each line excluding
/// its break, a final break optional. The empty text has no lines.
pub open spec fn lines_of(s: Seq<char>) -> Seq<Seq<char>> {
    split_rest(s, Seq::empty())
}

/// Executable lowercase folding under the comparison mode.
fn fold_char_exec(c: char, ignore_case: bool) -> (r: char)
    ensures
        r == fold_char(c, ignore_case),
{
    if !ignore_case {
        return c;
    }
    match c {
        'A' => 'a',
        'B' => 'b',
        'C' => 'c',
        'D' => 'd',
        'E' => 'e',
        'F' => 'f',
        'G' => 'g',
        'H' => 'h',
        'I' => 'i',
        'J' => 'j',
        'K' => 'k',
        'L' => 'l',
        'M' => 'm',
        'N' => 'n',
        'O' => 'o',
        'P' => 'p',
        'Q' => 'q',
        'R' => 'r',
        'S' => 's',
        'T' => 't',
        'U' => 'u',
        'V' => 'v',
        'W' => 'w',
        'X' => 'x',
        'Y' => 'y',
        'Z' => 'z',
        _ => c,
    }
}

/// Whether `pat` occurs in `text` at position `i`, under the comparison mode.
fn check_match_at(text: &str, pat: &str, ignore_case: bool, i: usize) -> (r: bool)
    requires
        i + pat@.len() <= text@.len(),
        text@.len() <= usize::MAX,
    ensures
        r == match_at(fold_text(text@, ignore_case), fold_text(pat@, ignore_case), i as int),
{
    let ghost ftext = fold_text(text@, ignore_case);
    let ghost fpat = fold_text(pat@, ignore_case);
    let m = pat.unicode_len();
    let mut j: usize = 0;
    while j < m
        invariant
            j <= m,
            m == pat@.len(),
            i + m <= text@.len(),
            text@.len() <= usize::MAX,
            ftext == fold_text(text@, ignore_case),
            fpat == fold_text(pat@, ignore_case),
            forall|k: int| 0 <= k < j ==> ftext[i + k] == fpat[k],
        decreases m - j,
    {
        let tc = fold_char_exec(text.get_char(i + j), ignore_case);
        let pc = fold_char_exec(pat.get_char(j), ignore_case);
        if tc != pc {
            proof {
                assert(ftext[i + j] != fpat[j as int]);
                assert(!match_at(ftext, fpat, i as int)) by {
                    if match_at(ftext, fpat, i as int) {
                        assert(ftext.subrange(i as int, i + fpat.len())[j as int] == ftext[i + j]);
                    }
                }
            }
            return false;
        }
        j += 1;
    }
    proof {
        assert(ftext.subrange(i as int, i + fpat.len()) =~= fpat);
    }
    true
}

/// Whether `pat` occurs anywhere in `text`, under the comparison mode.
pub(crate) fn str_has_substring(text: &str, pat: &str, ignore_case: bool) -> (r: bool)
    ensures
        r == line_matches(text@, pat@, ignore_case),
{
    let ghost ftext = fold_text(text@, ignore_case);
    let ghost fpat = fold_text(pat@, ignore_case);
    let n = text.unicode_len();
    let m = pat.unicode_len();
    if m > n {
        proof {
            assert forall|i: int| !match_at(ftext, fpat, i) by {}
        }
        return false;
    }
    if m == 0 {
        proof {
            assert(ftext.subrange(0, 0) =~= fpat);
            assert(match_at(ftext, fpat, 0));
        }
        return true;
    }
    let mut i: usize = 0;
    while i <= n - m
        invariant
            1 <= m <= n,
            n == text@.len(),
            m == pat@.len(),
            i <= n - m + 1,
            ftext == fold_text(text@, ignore_case),
            fpat == fold_text(pat@, ignore_case),
            forall|k: int| 0 <= k < i ==> !match_at(ftext, fpat, k),
        decreases n - m + 1 - i,
    {
        if check_match_at(text, pat, ignore_case, i) {
            return true;
        }
        i += 1;
    }
    proof {
        assert forall|k: int| !match_at(ftext, fpat, k) by {
            if 0 <= k < i {
                assert(!match_at(ftext, fpat, k));
            }
        }
    }
    false
}

/// The lines of `contents`, as owned strings.
pub(crate) fn split_lines(contents: &str) -> (r: Vec<String>)
    ensures
        r.deep_view() == lines_of(contents@),
{
    let n = contents.unicode_len();
    let mut lines: Vec<String> = Vec::new();
    let mut start: usize = 0;
    let mut i: usize = 0;
    proof {
        assert(lines.deep_view() =~~= Seq::<Seq<char>>::empty());
        assert(Seq::<Seq<char>>::empty() + lines_of(contents@) =~~= lines_of(contents@));
        assert(contents@.skip(0) =~= contents@);
        assert(contents@.subrange(0, 0) =~= Seq::<char>::empty());
    }
    while i < n
        invariant
            n == contents@.len(),
            start <= i <= n,
            lines.deep_view() + split_rest(
                contents@.skip(i as int),
                contents@.subrange(start as int, i as int),
            ) == lines_of(contents@),
        decreases n - i,
    {
        let ghost cur = contents@.subrange(start as int, i as int);
        let ghost rest = contents@.skip(i as int);
        let ghost dv = lines.deep_view();
        proof {
            assert(rest[0] == contents@[i as int]);
            assert(rest.skip(1) =~= contents@.skip(i + 1));
        }
        if contents.get_char(i) == '\n' {
            let line_end = if i > start && contents.get_char(i - 1) == '\r' {
                i - 1
            } else {
                i
            };
            let line = contents.substring_char(start, line_end).to_owned();
            proof {
                if i > start && contents@[i - 1] == '\r' {
                    assert(cur.last() == '\r');
                    assert(strip_carriage_return(cur) =~= contents@.subrange(
                        start as int,
                        i - 1,
                    ));
                } else {
                    assert(strip_carriage_return(cur) == cur);
                }
                assert(line@ == strip_carriage_return(cur));
            }
            lines.push(line);
            proof {
                assert(lines.deep_view() =~~= dv.push(strip_carriage_return(cur)));
                assert(split_rest(rest, cur) == seq![strip_carriage_return(cur)] + split_rest(
                    rest.skip(1),
                    Seq::empty(),
                ));
                assert(dv.push(strip_carriage_return(cur)) + split_rest(
                    contents@.skip(i + 1),
                    Seq::empty(),
                ) =~~= dv + split_rest(rest, cur));
                assert(contents@.subrange(i + 1, i + 1) =~= Seq::<char>::empty());
            }
            start = i + 1;
        } else {
            proof {
                assert(split_rest(rest, cur) == split_rest(rest.skip(1), cur.push(rest[0])));
                assert(cur.push(contents@[i as int]) =~= contents@.subrange(start as int, i + 1));
            }
        }
        i += 1;
    }
    let ghost cur = contents@.subrange(start as int, n as int);
    proof {
        assert(contents@.skip(n as int) =~= Seq::<char>::empty());
    }
    if start < n {
        let line = contents.substring_char(start, n).to_owned();
        let ghost dv = lines.deep_view();
        proof {
            assert(split_rest(Seq::empty(), cur) == seq![cur]);
        }
        lines.push(line);
        proof {
            assert(lines.deep_view() =~~= dv.push(cur));
            assert(dv.push(cur) =~~= dv + seq![cur]);
        }
    } else {
        proof {
            assert(cur.len() == 0);
            assert(split_rest(Seq::empty(), cur) == Seq::<Seq<char>>::empty());
            assert(lines.deep_view() + Seq::<Seq<char>>::empty() =~~= lines.deep_view());
        }
    }
    lines
}

} // verus!
