//! One run of the search: the outcome of reading each line, the streaming
//! searcher that emits one output line per match, the whole-run result, and
//! the mapping of errors to messages and exit codes.

use vstd::prelude::*;
use crate::matcher::contains_pattern;
use crate::matcher::line_matches;
use crate::matcher::matches_of;
use crate::matcher::lemma_matches_of_len;
use crate::output::format_spec;
use crate::output::format_match;

verus! {

/// What reading one line of the file yielded: the line's bytes (without its
/// terminator), or a read failure (an I/O error or invalid encoding).
pub enum ReadOutcome {
    Line(Vec<u8>),
    ReadFailure,
}

/// Why a run failed. Opening the file can fail before any line is read;
/// reading can fail in the middle of the stream. Zero matches is success,
/// not an error.
#[derive(Clone, Copy, Debug, PartialEq, Eq, Structural)]
pub enum SearchError {
    FileOpenError,
    LineReadError,
}

/// Every read outcome is a line: the whole file was read without error.
pub open spec fn all_lines(reads: Seq<ReadOutcome>) -> bool {
    forall|i: int| 0 <= i < reads.len() ==> reads[i] is Line
}

/// The bytes of each read outcome, position by position (meaningful where
/// the outcome is a line).
pub open spec fn read_views(reads: Seq<ReadOutcome>) -> Seq<Seq<u8>> {
    Seq::new(reads.len(), |i: int| reads[i]->Line_0@)
}

/// Everything the run prints for `lines`: one output line per matching
/// line, in file order, the k-th match labelled with index k.
pub open spec fn formatted_output(lines: Seq<Seq<u8>>, pattern: Seq<u8>) -> Seq<Seq<u8>>
    decreases lines.len(),
{
    if lines.len() == 0 {
        Seq::empty()
    } else if contains_pattern(lines.last(), pattern) {
        formatted_output(lines.drop_last(), pattern).push(
            format_spec(matches_of(lines.drop_last(), pattern).len(), lines.last()),
        )
    } else {
        formatted_output(lines.drop_last(), pattern)
    }
}

/// There is exactly one printed line per matching line, and the k-th
/// printed line is the k-th matching line under its `Match k: ` label:
/// what is printed is the subset of lines that contain the pattern, in
/// their original order.
pub proof fn lemma_output_matches_filter(lines: Seq<Seq<u8>>, pattern: Seq<u8>)
    ensures
        formatted_output(lines, pattern).len() == matches_of(lines, pattern).len(),
        forall|k: int|
            0 <= k < matches_of(lines, pattern).len() ==> formatted_output(lines, pattern)[k]
                == format_spec(k as nat, matches_of(lines, pattern)[k]),
    decreases lines.len(),
{
    if lines.len() > 0 {
        lemma_output_matches_filter(lines.drop_last(), pattern);
    }
}

/// Searching is a function of the lines and the pattern alone: two runs
/// over an unmodified file with the same pattern print the same output.
pub proof fn lemma_search_idempotent(
    lines: Seq<Seq<u8>>,
    pattern: Seq<u8>,
    first: Seq<Seq<u8>>,
    second: Seq<Seq<u8>>,
)
    requires
        first == formatted_output(lines, pattern),
        second == formatted_output(lines, pattern),
    ensures
        first == second,
{
}

/// The streaming part of one invocation: holds the pattern and the next
/// match index, and turns one line at a time into at most one output line.
pub struct Searcher {
    pattern: Vec<u8>,
    match_index: u64,
}

impl Searcher {
    /// The pattern this searcher was built with.
    pub closed spec fn pattern_view(&self) -> Seq<u8> {
        self.pattern@
    }

    /// How many matches have been emitted so far; also the index the next
    /// match will carry.
    pub closed spec fn emitted(&self) -> nat {
        self.match_index as nat
    }

    pub fn new(pattern: Vec<u8>) -> (s: Searcher)
        ensures
            s.pattern_view() == pattern@,
            s.emitted() == 0,
    {
        Searcher { pattern, match_index: 0 }
    }

    /// The number of matches emitted so far.
    pub fn match_count(&self) -> (c: u64)
        ensures
            c as nat == self.emitted(),
    {
        self.match_index
    }

    /// Tests one line: if it contains the pattern, returns the output line
    /// `Match <index>: <line>` and counts the match; otherwise changes
    /// nothing.
    pub fn process_line(&mut self, line: &Vec<u8>) -> (out: Option<Vec<u8>>)
        requires
            old(self).emitted() < u64::MAX,
        ensures
            final(self).pattern_view() == old(self).pattern_view(),
            contains_pattern(line@, old(self).pattern_view()) ==> {
                &&& out is Some
                &&& out->0@ == format_spec(old(self).emitted(), line@)
                &&& final(self).emitted() == old(self).emitted() + 1
            },
            !contains_pattern(line@, old(self).pattern_view()) ==> {
                &&& out is None
                &&& *final(self) == *old(self)
            },
    {
        if line_matches(line, &self.pattern) {
            let formatted = format_match(self.match_index, line);
            self.match_index = self.match_index + 1;
            Some(formatted)
        } else {
            None
        }
    }
}

/// Runs the search over the outcomes of reading each line of the file, in
/// file order. Returns what the run prints and its result: the number of
/// matches if every line was read, or a read error at the first failed
/// read, with exactly the matches before the failure printed.
pub fn search_lines(reads: &Vec<ReadOutcome>, pattern: &Vec<u8>) -> (r: (
    Vec<Vec<u8>>,
    Result<u64, SearchError>,
))
    ensures
        all_lines(reads@) ==> {
            &&& r.1 == Ok::<u64, SearchError>(
                matches_of(read_views(reads@), pattern@).len() as u64,
            )
            &&& r.0.deep_view() == formatted_output(read_views(reads@), pattern@)
        },
        !all_lines(reads@) ==> {
            &&& r.1 == Err::<u64, SearchError>(SearchError::LineReadError)
            &&& exists|k: int|
                {
                    &&& 0 <= k < reads@.len()
                    &&& !(reads@[k] is Line)
                    &&& forall|j: int| 0 <= j < k ==> reads@[j] is Line
                    &&& r.0.deep_view() == formatted_output(
                        read_views(reads@).subrange(0, k),
                        pattern@,
                    )
                }
        },
{
    let n: usize = reads.len();
    let mut out: Vec<Vec<u8>> = Vec::new();
    let owned_pattern = pattern.clone();
    proof {
        assert(owned_pattern@ =~= pattern@);
    }
    let mut searcher = Searcher::new(owned_pattern);
    let mut i: usize = 0;
    assert(out.deep_view() =~= formatted_output(read_views(reads@).subrange(0, 0), pattern@));
    while i < n
        invariant
            n == reads@.len(),
            0 <= i <= n,
            searcher.pattern_view() == pattern@,
            forall|j: int| 0 <= j < i ==> reads@[j] is Line,
            searcher.emitted() == matches_of(
                read_views(reads@).subrange(0, i as int),
                pattern@,
            ).len(),
            out.deep_view() == formatted_output(
                read_views(reads@).subrange(0, i as int),
                pattern@,
            ),
        decreases n - i,
    {
        let ghost prefix = read_views(reads@).subrange(0, i as int);
        let ghost next = read_views(reads@).subrange(0, i + 1);
        proof {
            assert(next.drop_last() =~= prefix);
            assert(next.last() == read_views(reads@)[i as int]);
            lemma_matches_of_len(prefix, pattern@);
        }
        match &reads[i] {
            ReadOutcome::Line(line) => {
                proof {
                    assert(reads@[i as int]->Line_0@ == line@);
                    assert(next.last() == line@);
                }
                let emitted = searcher.process_line(line);
                match emitted {
                    Option::Some(f) => {
                        let ghost old_out = out.deep_view();
                        out.push(f);
                        proof {
                            assert(out.deep_view() =~~= old_out.push(f@));
                        }
                    },
                    Option::None => {},
                }
            },
            ReadOutcome::ReadFailure => {
                proof {
                    let k = i as int;
                    assert(!(reads@[k] is Line));
                    assert(!all_lines(reads@));
                }
                return (out, Err(SearchError::LineReadError));
            },
        }
        i += 1;
    }
    proof {
        assert(read_views(reads@).subrange(0, n as int) =~= read_views(reads@));
    }
    let count = searcher.match_count();
    (out, Ok(count))
}

/// The bytes of `"could not open file: "`.
pub open spec fn open_error_label() -> Seq<u8> {
    seq![
        99u8, 111u8, 117u8, 108u8, 100u8, 32u8, 110u8, 111u8, 116u8, 32u8, 111u8, 112u8, 101u8,
        110u8, 32u8, 102u8, 105u8, 108u8, 101u8, 58u8, 32u8,
    ]
}

/// The bytes of `"could not read line from file: "`.
pub open spec fn read_error_label() -> Seq<u8> {
    seq![
        99u8, 111u8, 117u8, 108u8, 100u8, 32u8, 110u8, 111u8, 116u8, 32u8, 114u8, 101u8, 97u8,
        100u8, 32u8, 108u8, 105u8, 110u8, 101u8, 32u8, 102u8, 114u8, 111u8, 109u8, 32u8, 102u8,
        105u8, 108u8, 101u8, 58u8, 32u8,
    ]
}

/// The message reported when the file cannot be opened:
/// `could not open file: <path>`. It always contains the offending path.
pub fn open_error_message(path: &Vec<u8>) -> (r: Vec<u8>)
    ensures
        r@ == open_error_label() + path@,
        contains_pattern(r@, path@),
{
    let mut r: Vec<u8> = Vec::new();
    r.push(99);
    r.push(111);
    r.push(117);
    r.push(108);
    r.push(100);
    r.push(32);
    r.push(110);
    r.push(111);
    r.push(116);
    r.push(32);
    r.push(111);
    r.push(112);
    r.push(101);
    r.push(110);
    r.push(32);
    r.push(102);
    r.push(105);
    r.push(108);
    r.push(101);
    r.push(58);
    r.push(32);
    proof {
        assert(r@ =~= open_error_label());
    }
    let ghost head = r@;
    let n: usize = path.len();
    let mut i: usize = 0;
    while i < n
        invariant
            n == path@.len(),
            0 <= i <= n,
            head == open_error_label(),
            r@ == head + path@.subrange(0, i as int),
        decreases n - i,
    {
        r.push(path[i]);
        proof {
            assert(r@ =~= head + path@.subrange(0, i + 1));
        }
        i += 1;
    }
    proof {
        assert(path@.subrange(0, n as int) =~= path@);
        assert(r@ =~= open_error_label() + path@);
        let start = open_error_label().len() as int;
        assert(r@.subrange(start, start + path@.len()) =~= path@);
        assert(crate::matcher::is_match_at(r@, path@, start));
    }
    r
}

/// The message reported when a line cannot be read mid-stream:
/// `could not read line from file: <path>`. It always contains the
/// offending path.
pub fn read_error_message(path: &Vec<u8>) -> (r: Vec<u8>)
    ensures
        r@ == read_error_label() + path@,
        contains_pattern(r@, path@),
{
    let mut r: Vec<u8> = Vec::new();
    r.push(99);
    r.push(111);
    r.push(117);
    r.push(108);
    r.push(100);
    r.push(32);
    r.push(110);
    r.push(111);
    r.push(116);
    r.push(32);
    r.push(114);
    r.push(101);
    r.push(97);
    r.push(100);
    r.push(32);
    r.push(108);
    r.push(105);
    r.push(110);
    r.push(101);
    r.push(32);
    r.push(102);
    r.push(114);
    r.push(111);
    r.push(109);
    r.push(32);
    r.push(102);
    r.push(105);
    r.push(108);
    r.push(101);
    r.push(58);
    r.push(32);
    proof {
        assert(r@ =~= read_error_label());
    }
    let ghost head = r@;
    let n: usize = path.len();
    let mut i: usize = 0;
    while i < n
        invariant
            n == path@.len(),
            0 <= i <= n,
            head == read_error_label(),
            r@ == head + path@.subrange(0, i as int),
        decreases n - i,
    {
        r.push(path[i]);
        proof {
            assert(r@ =~= head + path@.subrange(0, i + 1));
        }
        i += 1;
    }
    proof {
        assert(path@.subrange(0, n as int) =~= path@);
        assert(r@ =~= read_error_label() + path@);
        let start = read_error_label().len() as int;
        assert(r@.subrange(start, start + path@.len()) =~= path@);
        assert(crate::matcher::is_match_at(r@, path@, start));
    }
    r
}

/// The process exit code for the outcome of a run: 0 exactly on success
/// (zero matches included), 1 when the file could not be opened, 2 when a
/// line could not be read.
pub fn exit_code(r: &Result<u64, SearchError>) -> (c: u8)
    ensures
        c == 0 <==> r is Ok,
        *r == Err::<u64, SearchError>(SearchError::FileOpenError) ==> c == 1,
        *r == Err::<u64, SearchError>(SearchError::LineReadError) ==> c == 2,
{
    match r {
        Ok(_) => 0,
        Err(SearchError::FileOpenError) => 1,
        Err(SearchError::LineReadError) => 2,
    }
}

} // verus!
