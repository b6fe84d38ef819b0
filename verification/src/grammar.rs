//! Mathematical model of the shell grammar: an ordered-choice (PEG) parser
//! written as spec functions over `Seq<char>`.
//!
//! Every rule takes the input and a cursor position and yields either the
//! position after the match (with the matched value) or `None` for no match.
//! Repetition is greedy and committed: a failed iteration backtracks to the
//! position before that iteration, never further.
use crate::ast::{SpecJob, SpecPipeline};
use vstd::prelude::*;

verus! {

// ----------------------------------------------------------------------------
// Character classes
// ----------------------------------------------------------------------------
/// Horizontal whitespace between words.
pub open spec fn is_space_char(c: char) -> bool {
    c == ' ' || c == '\t'
}

/// A line end: a lone CR and a lone LF each count.
pub open spec fn is_line_end(c: char) -> bool {
    c == '\r' || c == '\n'
}

/// A character that may stand in a bare (unquoted) word: anything but
/// whitespace, line ends, the comment and separator signs, and the pipeline
/// operators.
pub open spec fn is_word_char(c: char) -> bool {
    !is_space_char(c) && !is_line_end(c) && c != '#' && c != ';' && c != '&' && c != '|' && c
        != '<' && c != '>'
}

// ----------------------------------------------------------------------------
// Maximal character runs (the greedy `[class]*` of the grammar)
// ----------------------------------------------------------------------------
/// First position at or after `i` that does not hold a whitespace character.
pub open spec fn run_space(s: Seq<char>, i: int) -> int
    decreases s.len() - i when 0 <= i <= s.len()
{
    if i == s.len() || !is_space_char(s[i]) {
        i
    } else {
        run_space(s, i + 1)
    }
}

/// First position at or after `i` that holds a line end (or the end of input):
/// how far a comment reaches.
pub open spec fn run_nonline(s: Seq<char>, i: int) -> int
    decreases s.len() - i when 0 <= i <= s.len()
{
    if i == s.len() || is_line_end(s[i]) {
        i
    } else {
        run_nonline(s, i + 1)
    }
}

/// First position at or after `i` that does not hold a bare-word character.
pub open spec fn run_word(s: Seq<char>, i: int) -> int
    decreases s.len() - i when 0 <= i <= s.len()
{
    if i == s.len() || !is_word_char(s[i]) {
        i
    } else {
        run_word(s, i + 1)
    }
}

/// First position at or after `i` that holds the quote character `q` (or the
/// end of input): how far the body of a quoted word reaches.
pub open spec fn run_nonquote(s: Seq<char>, i: int, q: char) -> int
    decreases s.len() - i when 0 <= i <= s.len()
{
    if i == s.len() || s[i] == q {
        i
    } else {
        run_nonquote(s, i + 1, q)
    }
}

// ----------------------------------------------------------------------------
// Properties of the maximal runs
// ----------------------------------------------------------------------------
pub proof fn lemma_run_space_bounds(s: Seq<char>, i: int)
    requires
        0 <= i <= s.len(),
    ensures
        i <= run_space(s, i) <= s.len(),
        forall|k: int| i <= k < run_space(s, i) ==> is_space_char(#[trigger] s[k]),
        run_space(s, i) < s.len() ==> !is_space_char(s[run_space(s, i)]),
    decreases s.len() - i,
{
    if i == s.len() || !is_space_char(s[i]) {
    } else {
        lemma_run_space_bounds(s, i + 1);
    }
}

pub proof fn lemma_run_nonline_bounds(s: Seq<char>, i: int)
    requires
        0 <= i <= s.len(),
    ensures
        i <= run_nonline(s, i) <= s.len(),
        forall|k: int| i <= k < run_nonline(s, i) ==> !is_line_end(#[trigger] s[k]),
        run_nonline(s, i) < s.len() ==> is_line_end(s[run_nonline(s, i)]),
    decreases s.len() - i,
{
    if i == s.len() || is_line_end(s[i]) {
    } else {
        lemma_run_nonline_bounds(s, i + 1);
    }
}

/// A maximal run of bare-word characters ends exactly at the first position
/// whose character leaves the class (or at the end of input).
pub proof fn lemma_run_word_is(s: Seq<char>, i: int, j: int)
    requires
        0 <= i <= j <= s.len(),
        forall|k: int| i <= k < j ==> is_word_char(#[trigger] s[k]),
        j == s.len() || !is_word_char(s[j]),
    ensures
        run_word(s, i) == j,
    decreases j - i,
{
    if i < j {
        assert(is_word_char(s[i]));
        lemma_run_word_is(s, i + 1, j);
    }
}

pub proof fn lemma_run_space_is(s: Seq<char>, i: int, j: int)
    requires
        0 <= i <= j <= s.len(),
        forall|k: int| i <= k < j ==> is_space_char(#[trigger] s[k]),
        j == s.len() || !is_space_char(s[j]),
    ensures
        run_space(s, i) == j,
    decreases j - i,
{
    if i < j {
        assert(is_space_char(s[i]));
        lemma_run_space_is(s, i + 1, j);
    }
}

pub proof fn lemma_run_nonquote_is(s: Seq<char>, i: int, j: int, q: char)
    requires
        0 <= i <= j <= s.len(),
        forall|k: int| i <= k < j ==> #[trigger] s[k] != q,
        j == s.len() || s[j] == q,
    ensures
        run_nonquote(s, i, q) == j,
    decreases j - i,
{
    if i < j {
        assert(s[i] != q);
        lemma_run_nonquote_is(s, i + 1, j, q);
    }
}

// ----------------------------------------------------------------------------
// Tokens
// ----------------------------------------------------------------------------
/// `whitespace`: one or more spaces or tabs.
pub open spec fn ws(s: Seq<char>, i: int) -> Option<int> {
    let j = run_space(s, i);
    if j > i {
        Some(j)
    } else {
        None
    }
}

/// `whitespace?`.
pub open spec fn ws_opt(s: Seq<char>, i: int) -> int {
    run_space(s, i)
}

/// `comment`: `#` followed by everything up to (not including) the line end.
pub open spec fn comment(s: Seq<char>, i: int) -> Option<int> {
    if i < s.len() && s[i] == '#' {
        Some(run_nonline(s, i + 1))
    } else {
        None
    }
}

/// `comment?`.
pub open spec fn comment_opt(s: Seq<char>, i: int) -> int {
    match comment(s, i) {
        Some(j) => j,
        None => i,
    }
}

/// `unused`: whitespace with an optional trailing comment, or a bare comment.
pub open spec fn unused(s: Seq<char>, i: int) -> Option<int> {
    match ws(s, i) {
        Some(j) => Some(comment_opt(s, j)),
        None => comment(s, i),
    }
}

/// `unused*`, greedy.
pub open spec fn unused_star(s: Seq<char>, i: int) -> int
    decreases s.len() - i when 0 <= i <= s.len()
{
    match unused(s, i) {
        Some(j) => if i < j <= s.len() {
            unused_star(s, j)
        } else {
            i
        },
        None => i,
    }
}

/// `newline`: a single CR or LF.
pub open spec fn newline(s: Seq<char>, i: int) -> Option<int> {
    if i < s.len() && is_line_end(s[i]) {
        Some(i + 1)
    } else {
        None
    }
}

/// `job_ending`: `;` or a newline.
pub open spec fn job_ending(s: Seq<char>, i: int) -> Option<int> {
    if i < s.len() && (s[i] == ';' || is_line_end(s[i])) {
        Some(i + 1)
    } else {
        None
    }
}

/// `job_ending*`, greedy.
pub open spec fn job_endings_star(s: Seq<char>, i: int) -> int
    decreases s.len() - i when 0 <= i <= s.len()
{
    match job_ending(s, i) {
        Some(j) => if i < j <= s.len() {
            job_endings_star(s, j)
        } else {
            i
        },
        None => i,
    }
}

/// `job_ending+`.
pub open spec fn job_ending_plus(s: Seq<char>, i: int) -> Option<int> {
    match job_ending(s, i) {
        Some(j) => Some(job_endings_star(s, j)),
        None => None,
    }
}

// ----------------------------------------------------------------------------
// Words
// ----------------------------------------------------------------------------
/// A quoted word with delimiter `q`: the opening quote, a nonempty run of
/// characters other than `q` (taken verbatim, with no escape processing), and
/// the closing quote. Yields the run with the quotes stripped.
pub open spec fn quoted_word(s: Seq<char>, i: int, q: char) -> Option<(int, Seq<char>)> {
    if i < s.len() && s[i] == q {
        let j = run_nonquote(s, i + 1, q);
        if i + 1 < j && j < s.len() {
            Some((j + 1, s.subrange(i + 1, j)))
        } else {
            None
        }
    } else {
        None
    }
}

/// A bare word: a nonempty maximal run of bare-word characters.
pub open spec fn bare_word(s: Seq<char>, i: int) -> Option<(int, Seq<char>)> {
    let j = run_word(s, i);
    if j > i {
        Some((j, s.subrange(i, j)))
    } else {
        None
    }
}

/// `word`: double-quoted, else single-quoted, else bare — in that order.
pub open spec fn word(s: Seq<char>, i: int) -> Option<(int, Seq<char>)> {
    match quoted_word(s, i, '"') {
        Some(r) => Some(r),
        None => match quoted_word(s, i, '\'') {
            Some(r) => Some(r),
            None => bare_word(s, i),
        },
    }
}

// ----------------------------------------------------------------------------
// Jobs
// ----------------------------------------------------------------------------
/// `(whitespace word)*`, greedy with committed iterations: the further words
/// of a job after its first one.
pub open spec fn words_rest(s: Seq<char>, i: int) -> (int, Seq<Seq<char>>)
    decreases s.len() - i when 0 <= i <= s.len()
{
    match ws(s, i) {
        Some(k) => match word(s, k) {
            Some((j, w)) => if i < j <= s.len() {
                let (e, rest) = words_rest(s, j);
                (e, seq![w] + rest)
            } else {
                (i, Seq::empty())
            },
            None => (i, Seq::empty()),
        },
        None => (i, Seq::empty()),
    }
}

/// `job`: one or more words joined by mandatory whitespace, then an optional
/// background marker `&`, adjacent to the last word or after whitespace.
pub open spec fn job(s: Seq<char>, i: int) -> Option<(int, SpecJob)> {
    match word(s, i) {
        None => None,
        Some((j, w0)) => {
            let (e, rest) = words_rest(s, j);
            let all = seq![w0] + rest;
            let k = ws_opt(s, e);
            if k < s.len() && s[k] == '&' {
                Some((k + 1, SpecJob { command: all[0], args: all.drop_first(), background: true }))
            } else {
                Some((e, SpecJob { command: all[0], args: all.drop_first(), background: false }))
            }
        },
    }
}

// ----------------------------------------------------------------------------
// Pipelines
// ----------------------------------------------------------------------------
/// The pipe separator: `|` with optional whitespace on both sides.
pub open spec fn pipe_sep(s: Seq<char>, i: int) -> Option<int> {
    let k = ws_opt(s, i);
    if k < s.len() && s[k] == '|' {
        Some(ws_opt(s, k + 1))
    } else {
        None
    }
}

/// `(pipe_sep job)*`, greedy with committed iterations.
pub open spec fn jobs_rest(s: Seq<char>, i: int) -> (int, Seq<SpecJob>)
    decreases s.len() - i when 0 <= i <= s.len()
{
    match pipe_sep(s, i) {
        Some(k) => match job(s, k) {
            Some((j, jb)) => if i < j <= s.len() {
                let (e, rest) = jobs_rest(s, j);
                (e, seq![jb] + rest)
            } else {
                (i, Seq::empty())
            },
            None => (i, Seq::empty()),
        },
        None => (i, Seq::empty()),
    }
}

/// One redirection token: the marker character `c` (`<` or `>`), optional
/// whitespace, then the file word.
pub open spec fn redir_file(s: Seq<char>, i: int, c: char) -> Option<(int, Seq<char>)> {
    if i < s.len() && s[i] == c {
        word(s, ws_opt(s, i + 1))
    } else {
        None
    }
}

/// The redirection clause, normalized to `(stdin_file, stdout_file)`. Ordered
/// choice: stdin first then optional stdout; else stdout first then optional
/// stdin; else neither. This makes `< A > B` and `> B < A` equivalent.
pub open spec fn redirect(s: Seq<char>, i: int) -> (int, Option<Seq<char>>, Option<Seq<char>>) {
    match redir_file(s, i, '<') {
        Some((j, fin)) => {
            let k = ws_opt(s, j);
            match redir_file(s, k, '>') {
                Some((m, fout)) => (m, Some(fin), Some(fout)),
                None => (k, Some(fin), None),
            }
        },
        None => match redir_file(s, i, '>') {
            Some((j, fout)) => {
                let k = ws_opt(s, j);
                match redir_file(s, k, '<') {
                    Some((m, fin)) => (m, Some(fin), Some(fout)),
                    None => (k, None, Some(fout)),
                }
            },
            None => (i, None, None),
        },
    }
}

/// `pipeline`: optional leading whitespace, one or more jobs separated by
/// pipes, optional whitespace, the redirection clause, optional whitespace,
/// and an optional trailing comment.
pub open spec fn pipeline(s: Seq<char>, i: int) -> Option<(int, SpecPipeline)> {
    let i1 = ws_opt(s, i);
    match job(s, i1) {
        None => None,
        Some((j, j0)) => {
            let (e, rest) = jobs_rest(s, j);
            let (e2, fin, fout) = redirect(s, ws_opt(s, e));
            let e3 = comment_opt(s, ws_opt(s, e2));
            Some((e3, SpecPipeline { jobs: seq![j0] + rest, stdin_file: fin, stdout_file: fout }))
        },
    }
}

// ----------------------------------------------------------------------------
// Scripts
// ----------------------------------------------------------------------------
/// `(unused* newline)*`: blank and comment-only lines before the first
/// pipeline. A line that does not end in a newline is left for the pipeline.
pub open spec fn lead_skip(s: Seq<char>, i: int) -> int
    decreases s.len() - i when 0 <= i <= s.len()
{
    let k = unused_star(s, i);
    match newline(s, k) {
        Some(m) => if i < m <= s.len() {
            lead_skip(s, m)
        } else {
            i
        },
        None => i,
    }
}

/// `(job_ending+ unused*)*`, greedy with committed iterations.
pub open spec fn sep_star(s: Seq<char>, i: int) -> int
    decreases s.len() - i when 0 <= i <= s.len()
{
    match job_ending_plus(s, i) {
        Some(k) => {
            let m = unused_star(s, k);
            if i < m <= s.len() {
                sep_star(s, m)
            } else {
                m
            }
        },
        None => i,
    }
}

/// The pipeline separator `(job_ending+ unused*)+`: at least one run of job
/// endings, with blank and comment-only lines tolerated in between.
pub open spec fn sep_plus(s: Seq<char>, i: int) -> Option<int> {
    match job_ending(s, i) {
        Some(_) => Some(sep_star(s, i)),
        None => None,
    }
}

/// `(sep_plus pipeline)*`, greedy with committed iterations: the further
/// pipelines of a script after its first one.
pub open spec fn pipes_rest(s: Seq<char>, i: int) -> (int, Seq<SpecPipeline>)
    decreases s.len() - i when 0 <= i <= s.len()
{
    match sep_plus(s, i) {
        Some(k) => match pipeline(s, k) {
            Some((j, p)) => if i < j <= s.len() {
                let (e, rest) = pipes_rest(s, j);
                (e, seq![p] + rest)
            } else {
                (i, Seq::empty())
            },
            None => (i, Seq::empty()),
        },
        None => (i, Seq::empty()),
    }
}

/// `(newline unused*)*`: blank and comment-only lines after the last pipeline.
pub open spec fn trail_skip(s: Seq<char>, i: int) -> int
    decreases s.len() - i when 0 <= i <= s.len()
{
    match newline(s, i) {
        Some(k) => {
            let m = unused_star(s, k);
            if i < m <= s.len() {
                trail_skip(s, m)
            } else {
                m
            }
        },
        None => i,
    }
}

pub proof fn lemma_unused_bounds(s: Seq<char>, i: int)
    requires
        0 <= i <= s.len(),
    ensures
        unused(s, i) matches Some(j) ==> i < j <= s.len(),
{
    lemma_run_space_bounds(s, i);
    let k = run_space(s, i);
    if k < s.len() && s[k] == '#' {
        lemma_run_nonline_bounds(s, k + 1);
    }
}

pub proof fn lemma_unused_star_bounds(s: Seq<char>, i: int)
    requires
        0 <= i <= s.len(),
    ensures
        i <= unused_star(s, i) <= s.len(),
    decreases s.len() - i,
{
    lemma_unused_bounds(s, i);
    match unused(s, i) {
        Some(j) => {
            lemma_unused_star_bounds(s, j);
        },
        None => {},
    }
}

pub proof fn lemma_lead_skip_bounds(s: Seq<char>, i: int)
    requires
        0 <= i <= s.len(),
    ensures
        i <= lead_skip(s, i) <= s.len(),
    decreases s.len() - i,
{
    lemma_unused_star_bounds(s, i);
    let k = unused_star(s, i);
    match newline(s, k) {
        Some(m) => {
            lemma_lead_skip_bounds(s, m);
        },
        None => {},
    }
}

/// The whole script: leading blank/comment lines, one or more pipelines
/// separated by job endings, trailing blank/comment lines. A script that the
/// grammar does not match in full yields the empty sequence — total parse
/// failure is deliberately swallowed so that unparsable input never aborts
/// the host.
pub open spec fn script(s: Seq<char>) -> Seq<SpecPipeline> {
    let i = lead_skip(s, 0);
    match pipeline(s, i) {
        None => Seq::empty(),
        Some((j, p)) => {
            let (e, rest) = pipes_rest(s, j);
            let f = trail_skip(s, e);
            if f == s.len() {
                seq![p] + rest
            } else {
                Seq::empty()
            }
        },
    }
}

} // verus!
