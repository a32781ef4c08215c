//! Literal substring matching over byte sequences, and the subset of a
//! sequence of lines that match a pattern.

use vstd::prelude::*;

verus! {

/// The pattern occurs in `text` starting at offset `i`.
pub open spec fn is_match_at(text: Seq<u8>, pattern: Seq<u8>, i: int) -> bool {
    &&& 0 <= i
    &&& i + pattern.len() <= text.len()
    &&& text.subrange(i, i + pattern.len()) == pattern
}

/// The pattern occurs somewhere in `text` as a contiguous substring
/// (literal bytes, case-sensitive).
pub open spec fn contains_pattern(text: Seq<u8>, pattern: Seq<u8>) -> bool {
    exists|i: int| is_match_at(text, pattern, i)
}

/// The empty pattern is a substring of every text (at offset 0).
pub proof fn lemma_empty_pattern_matches(text: Seq<u8>, pattern: Seq<u8>)
    requires
        pattern.len() == 0,
    ensures
        contains_pattern(text, pattern),
{
    assert(text.subrange(0, 0) =~= pattern);
    assert(is_match_at(text, pattern, 0));
}

/// A pattern longer than the text cannot occur in it.
pub proof fn lemma_pattern_longer_than_text(text: Seq<u8>, pattern: Seq<u8>)
    requires
        pattern.len() > text.len(),
    ensures
        !contains_pattern(text, pattern),
{
}

/// Checks whether the pattern occurs in `text` at offset `i`.
fn match_at(text: &Vec<u8>, pattern: &Vec<u8>, i: usize) -> (b: bool)
    requires
        i + pattern@.len() <= text@.len(),
    ensures
        b == is_match_at(text@, pattern@, i as int),
{
    let tlen: usize = text.len();
    let plen: usize = pattern.len();
    let mut j: usize = 0;
    while j < plen
        invariant
            tlen == text@.len(),
            plen == pattern@.len(),
            i + plen <= tlen,
            0 <= j <= plen,
            forall|k: int| 0 <= k < j ==> text@[i + k] == pattern@[k],
        decreases plen - j,
    {
        if text[i + j] != pattern[j] {
            assert(!is_match_at(text@, pattern@, i as int)) by {
                assert(text@.subrange(i as int, i + pattern@.len())[j as int] == text@[i + j]);
            }
            return false;
        }
        j += 1;
    }
    assert(text@.subrange(i as int, i + pattern@.len()) =~= pattern@);
    true
}

/// Whether `line` contains `pattern` as a contiguous substring.
pub fn line_matches(line: &Vec<u8>, pattern: &Vec<u8>) -> (b: bool)
    ensures
        b == contains_pattern(line@, pattern@),
{
    if pattern.len() > line.len() {
        proof {
            lemma_pattern_longer_than_text(line@, pattern@);
        }
        return false;
    }
    let last_start: usize = line.len() - pattern.len();
    let mut i: usize = 0;
    loop
        invariant
            pattern@.len() <= line@.len(),
            last_start == line@.len() - pattern@.len(),
            0 <= i <= last_start,
            forall|k: int| 0 <= k < i ==> !is_match_at(line@, pattern@, k),
        ensures
            forall|k: int| 0 <= k <= last_start ==> !is_match_at(line@, pattern@, k),
        decreases last_start - i,
    {
        if match_at(line, pattern, i) {
            return true;
        }
        if i == last_start {
            break;
        }
        i += 1;
    }
    false
}

/// The subsequence of `lines`, in order, whose members contain `pattern`.
pub open spec fn matches_of(lines: Seq<Seq<u8>>, pattern: Seq<u8>) -> Seq<Seq<u8>>
    decreases lines.len(),
{
    if lines.len() == 0 {
        Seq::empty()
    } else if contains_pattern(lines.last(), pattern) {
        matches_of(lines.drop_last(), pattern).push(lines.last())
    } else {
        matches_of(lines.drop_last(), pattern)
    }
}

/// There are never more matching lines than lines.
pub proof fn lemma_matches_of_len(lines: Seq<Seq<u8>>, pattern: Seq<u8>)
    ensures
        matches_of(lines, pattern).len() <= lines.len(),
    decreases lines.len(),
{
    if lines.len() > 0 {
        lemma_matches_of_len(lines.drop_last(), pattern);
    }
}

/// The matching lines are exactly the lines for which `contains_pattern`
/// holds, filtered in their original order.
pub proof fn lemma_matches_of_is_filter(lines: Seq<Seq<u8>>, pattern: Seq<u8>)
    ensures
        matches_of(lines, pattern) == lines.filter(|l: Seq<u8>| contains_pattern(l, pattern)),
    decreases lines.len(),
{
    reveal(Seq::filter);
    if lines.len() > 0 {
        lemma_matches_of_is_filter(lines.drop_last(), pattern);
    }
}

/// An empty sequence of lines has no matches, whatever the pattern.
pub proof fn lemma_no_lines_no_matches(lines: Seq<Seq<u8>>, pattern: Seq<u8>)
    requires
        lines.len() == 0,
    ensures
        matches_of(lines, pattern) =~= Seq::<Seq<u8>>::empty(),
{
}

/// The empty pattern matches every line.
pub proof fn lemma_empty_pattern_matches_all(lines: Seq<Seq<u8>>, pattern: Seq<u8>)
    requires
        pattern.len() == 0,
    ensures
        matches_of(lines, pattern) == lines,
    decreases lines.len(),
{
    if lines.len() > 0 {
        lemma_empty_pattern_matches_all(lines.drop_last(), pattern);
        lemma_empty_pattern_matches(lines.last(), pattern);
        assert(matches_of(lines, pattern) =~= lines);
    } else {
        assert(matches_of(lines, pattern) =~= lines);
    }
}

/// A pattern longer than every line matches none of them.
pub proof fn lemma_pattern_longer_than_all(lines: Seq<Seq<u8>>, pattern: Seq<u8>)
    requires
        forall|i: int| 0 <= i < lines.len() ==> pattern.len() > lines[i].len(),
    ensures
        matches_of(lines, pattern) =~= Seq::<Seq<u8>>::empty(),
    decreases lines.len(),
{
    if lines.len() > 0 {
        assert(forall|i: int|
            0 <= i < lines.drop_last().len() ==> pattern.len() > lines.drop_last()[i].len());
        lemma_pattern_longer_than_all(lines.drop_last(), pattern);
        lemma_pattern_longer_than_text(lines.last(), pattern);
    }
}

/// Collects, in order, the lines that contain the pattern.
pub fn find_matches(lines: &Vec<Vec<u8>>, pattern: &Vec<u8>) -> (r: Vec<Vec<u8>>)
    ensures
        r.deep_view() == matches_of(lines.deep_view(), pattern@),
{
    let mut r: Vec<Vec<u8>> = Vec::new();
    let n: usize = lines.len();
    let mut i: usize = 0;
    assert(r.deep_view() =~= matches_of(lines.deep_view().subrange(0, 0), pattern@));
    while i < n
        invariant
            n == lines@.len(),
            0 <= i <= n,
            r.deep_view() == matches_of(lines.deep_view().subrange(0, i as int), pattern@),
        decreases n - i,
    {
        let ghost prefix = lines.deep_view().subrange(0, i as int);
        let ghost next = lines.deep_view().subrange(0, i + 1);
        proof {
            assert(next.drop_last() =~= prefix);
            assert(next.last() == lines.deep_view()[i as int]);
            assert(lines.deep_view()[i as int] =~= lines@[i as int]@);
        }
        if line_matches(&lines[i], pattern) {
            let c = lines[i].clone();
            proof {
                assert(c@ =~= lines@[i as int]@);
                assert(c.deep_view() =~= lines.deep_view()[i as int]);
            }
            let ghost old_r = r.deep_view();
            r.push(c);
            proof {
                assert(r.deep_view() =~~= old_r.push(lines.deep_view()[i as int]));
            }
        }
        i += 1;
    }
    proof {
        assert(lines.deep_view().subrange(0, n as int) =~= lines.deep_view());
    }
    r
}

} // verus!
