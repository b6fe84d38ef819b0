//! Executable recursive-descent parser, proved equal to the grammar model in
//! [`crate::grammar`]: every rule function returns exactly what its spec
//! counterpart denotes.
use crate::ast::{opt_view, Job, Pipeline};
use crate::grammar::{
    comment, comment_opt, is_line_end, is_space_char, is_word_char, job, job_ending,
    job_ending_plus, job_endings_star, jobs_rest, lead_skip, newline, pipe_sep, pipeline, pipes_rest,
    quoted_word, redir_file, redirect, run_nonline, run_nonquote, run_space, run_word, script,
    sep_plus, sep_star, trail_skip, unused, unused_star, word, words_rest, ws, ws_opt,
};
use vstd::prelude::*;
use vstd::string::StrSliceExecFns;
use vstd::string::StringExecFns;

verus! {

// ----------------------------------------------------------------------------
// Maximal character runs
// ----------------------------------------------------------------------------
fn scan_space(s: &str, n: usize, i: usize) -> (j: usize)
    requires
        n == s@.len(),
        i <= n,
    ensures
        i <= j <= n,
        j as int == run_space(s@, i as int),
{
    let mut j = i;
    while j < n && is_space_exec(s.get_char(j))
        invariant
            n == s@.len(),
            i <= j <= n,
            run_space(s@, i as int) == run_space(s@, j as int),
        decreases n - j,
    {
        j = j + 1;
    }
    j
}

fn scan_nonline(s: &str, n: usize, i: usize) -> (j: usize)
    requires
        n == s@.len(),
        i <= n,
    ensures
        i <= j <= n,
        j as int == run_nonline(s@, i as int),
{
    let mut j = i;
    while j < n && !is_line_end_exec(s.get_char(j))
        invariant
            n == s@.len(),
            i <= j <= n,
            run_nonline(s@, i as int) == run_nonline(s@, j as int),
        decreases n - j,
    {
        j = j + 1;
    }
    j
}

fn scan_word(s: &str, n: usize, i: usize) -> (j: usize)
    requires
        n == s@.len(),
        i <= n,
    ensures
        i <= j <= n,
        j as int == run_word(s@, i as int),
{
    let mut j = i;
    while j < n && is_word_char_exec(s.get_char(j))
        invariant
            n == s@.len(),
            i <= j <= n,
            run_word(s@, i as int) == run_word(s@, j as int),
        decreases n - j,
    {
        j = j + 1;
    }
    j
}

fn scan_nonquote(s: &str, n: usize, i: usize, q: char) -> (j: usize)
    requires
        n == s@.len(),
        i <= n,
    ensures
        i <= j <= n,
        j as int == run_nonquote(s@, i as int, q),
{
    let mut j = i;
    while j < n && s.get_char(j) != q
        invariant
            n == s@.len(),
            i <= j <= n,
            run_nonquote(s@, i as int, q) == run_nonquote(s@, j as int, q),
        decreases n - j,
    {
        j = j + 1;
    }
    j
}

fn is_space_exec(c: char) -> (b: bool)
    ensures
        b == is_space_char(c),
{
    c == ' ' || c == '\t'
}

fn is_line_end_exec(c: char) -> (b: bool)
    ensures
        b == is_line_end(c),
{
    c == '\r' || c == '\n'
}

fn is_word_char_exec(c: char) -> (b: bool)
    ensures
        b == is_word_char(c),
{
    !(c == ' ' || c == '\t' || c == '\r' || c == '\n' || c == '#' || c == ';' || c == '&' || c
        == '|' || c == '<' || c == '>')
}

// ----------------------------------------------------------------------------
// Tokens
// ----------------------------------------------------------------------------
fn p_comment(s: &str, n: usize, i: usize) -> (r: Option<usize>)
    requires
        n == s@.len(),
        i <= n,
    ensures
        r is None ==> comment(s@, i as int) is None,
        r matches Some(j) ==> comment(s@, i as int) == Some(j as int) && i < j <= n,
{
    if i < n && s.get_char(i) == '#' {
        Some(scan_nonline(s, n, i + 1))
    } else {
        None
    }
}

fn p_comment_opt(s: &str, n: usize, i: usize) -> (j: usize)
    requires
        n == s@.len(),
        i <= n,
    ensures
        i <= j <= n,
        j as int == comment_opt(s@, i as int),
{
    match p_comment(s, n, i) {
        Some(j) => j,
        None => i,
    }
}

fn p_unused(s: &str, n: usize, i: usize) -> (r: Option<usize>)
    requires
        n == s@.len(),
        i <= n,
    ensures
        r is None ==> unused(s@, i as int) is None,
        r matches Some(j) ==> unused(s@, i as int) == Some(j as int) && i < j <= n,
{
    let k = scan_space(s, n, i);
    if k > i {
        Some(p_comment_opt(s, n, k))
    } else {
        p_comment(s, n, i)
    }
}

fn p_unused_star(s: &str, n: usize, i: usize) -> (j: usize)
    requires
        n == s@.len(),
        i <= n,
    ensures
        i <= j <= n,
        j as int == unused_star(s@, i as int),
    decreases n - i,
{
    match p_unused(s, n, i) {
        Some(k) => p_unused_star(s, n, k),
        None => i,
    }
}

fn p_job_endings_star(s: &str, n: usize, i: usize) -> (j: usize)
    requires
        n == s@.len(),
        i <= n,
    ensures
        i <= j <= n,
        j as int == job_endings_star(s@, i as int),
    decreases n - i,
{
    if i < n {
        let c = s.get_char(i);
        if c == ';' || c == '\r' || c == '\n' {
            return p_job_endings_star(s, n, i + 1);
        }
    }
    i
}

// ----------------------------------------------------------------------------
// Words
// ----------------------------------------------------------------------------
fn p_quoted(s: &str, n: usize, i: usize, q: char) -> (r: Option<(usize, String)>)
    requires
        n == s@.len(),
        i <= n,
    ensures
        r is None ==> quoted_word(s@, i as int, q) is None,
        r matches Some((j, w)) ==> quoted_word(s@, i as int, q) == Some(((j as int), w@)) && i < j
            <= n,
{
    if i < n && s.get_char(i) == q {
        let j = scan_nonquote(s, n, i + 1, q);
        if i + 1 < j && j < n {
            let body = s.substring_char(i + 1, j);
            Some((j + 1, String::from_str(body)))
        } else {
            None
        }
    } else {
        None
    }
}

fn p_word(s: &str, n: usize, i: usize) -> (r: Option<(usize, String)>)
    requires
        n == s@.len(),
        i <= n,
    ensures
        r is None ==> word(s@, i as int) is None,
        r matches Some((j, w)) ==> word(s@, i as int) == Some(((j as int), w@)) && i < j <= n,
{
    match p_quoted(s, n, i, '"') {
        Some(r) => Some(r),
        None => match p_quoted(s, n, i, '\'') {
            Some(r) => Some(r),
            None => {
                let j = scan_word(s, n, i);
                if j > i {
                    Some((j, String::from_str(s.substring_char(i, j))))
                } else {
                    None
                }
            },
        },
    }
}

// ----------------------------------------------------------------------------
// Jobs
// ----------------------------------------------------------------------------
fn p_words_rest(s: &str, n: usize, i: usize) -> (r: (usize, Vec<String>))
    requires
        n == s@.len(),
        i <= n,
    ensures
        i <= r.0 <= n,
        r.0 as int == words_rest(s@, i as int).0,
        r.1@.map_values(|a: String| a@) == words_rest(s@, i as int).1,
    decreases n - i,
{
    let k = scan_space(s, n, i);
    if k > i {
        match p_word(s, n, k) {
            Some((j, w)) => {
                let (e, mut rest) = p_words_rest(s, n, j);
                let ghost rest_view = rest@.map_values(|a: String| a@);
                rest.insert(0, w);
                proof {
                    assert(rest@.map_values(|a: String| a@) =~= seq![w@] + rest_view);
                }
                (e, rest)
            },
            None => {
                let r: Vec<String> = Vec::new();
                proof {
                    assert(r@.map_values(|a: String| a@) =~= Seq::<Seq<char>>::empty());
                }
                (i, r)
            },
        }
    } else {
        let r: Vec<String> = Vec::new();
        proof {
            assert(r@.map_values(|a: String| a@) =~= Seq::<Seq<char>>::empty());
        }
        (i, r)
    }
}

fn p_job(s: &str, n: usize, i: usize) -> (r: Option<(usize, Job)>)
    requires
        n == s@.len(),
        i <= n,
    ensures
        r is None ==> job(s@, i as int) is None,
        r matches Some((j, jb)) ==> job(s@, i as int) == Some(((j as int), jb@)) && i < j <= n,
{
    match p_word(s, n, i) {
        None => None,
        Some((j0, w0)) => {
            let ghost w0v = w0@;
            let (e, rest) = p_words_rest(s, n, j0);
            let ghost restv = rest@.map_values(|a: String| a@);
            let ghost all = seq![w0v] + words_rest(s@, j0 as int).1;
            proof {
                assert(all[0] == w0v);
                assert(all.drop_first() =~= restv);
            }
            let k = scan_space(s, n, e);
            if k < n && s.get_char(k) == '&' {
                let jb = Job { command: w0, args: rest, background: true };
                Some((k + 1, jb))
            } else {
                let jb = Job { command: w0, args: rest, background: false };
                Some((e, jb))
            }
        },
    }
}

// ----------------------------------------------------------------------------
// Pipelines
// ----------------------------------------------------------------------------
fn p_pipe_sep(s: &str, n: usize, i: usize) -> (r: Option<usize>)
    requires
        n == s@.len(),
        i <= n,
    ensures
        r is None ==> pipe_sep(s@, i as int) is None,
        r matches Some(j) ==> pipe_sep(s@, i as int) == Some(j as int) && i < j <= n,
{
    let k = scan_space(s, n, i);
    if k < n && s.get_char(k) == '|' {
        Some(scan_space(s, n, k + 1))
    } else {
        None
    }
}

fn p_jobs_rest(s: &str, n: usize, i: usize) -> (r: (usize, Vec<Job>))
    requires
        n == s@.len(),
        i <= n,
    ensures
        i <= r.0 <= n,
        r.0 as int == jobs_rest(s@, i as int).0,
        r.1@.map_values(|j: Job| j@) == jobs_rest(s@, i as int).1,
    decreases n - i,
{
    match p_pipe_sep(s, n, i) {
        Some(k) => match p_job(s, n, k) {
            Some((j, jb)) => {
                let ghost jbv = jb@;
                let (e, mut rest) = p_jobs_rest(s, n, j);
                let ghost rest_view = rest@.map_values(|x: Job| x@);
                rest.insert(0, jb);
                proof {
                    assert(rest@.map_values(|x: Job| x@) =~= seq![jbv] + rest_view);
                }
                (e, rest)
            },
            None => {
                let r: Vec<Job> = Vec::new();
                proof {
                    assert(r@.map_values(|x: Job| x@) =~= Seq::<crate::ast::SpecJob>::empty());
                }
                (i, r)
            },
        },
        None => {
            let r: Vec<Job> = Vec::new();
            proof {
                assert(r@.map_values(|x: Job| x@) =~= Seq::<crate::ast::SpecJob>::empty());
            }
            (i, r)
        },
    }
}

fn p_redir_file(s: &str, n: usize, i: usize, c: char) -> (r: Option<(usize, String)>)
    requires
        n == s@.len(),
        i <= n,
    ensures
        r is None ==> redir_file(s@, i as int, c) is None,
        r matches Some((j, w)) ==> redir_file(s@, i as int, c) == Some(((j as int), w@)) && i < j
            <= n,
{
    if i < n && s.get_char(i) == c {
        let k = scan_space(s, n, i + 1);
        p_word(s, n, k)
    } else {
        None
    }
}

fn p_redirect(s: &str, n: usize, i: usize) -> (r: (usize, Option<String>, Option<String>))
    requires
        n == s@.len(),
        i <= n,
    ensures
        i <= r.0 <= n,
        redirect(s@, i as int) == ((r.0 as int), opt_view(r.1), opt_view(r.2)),
{
    match p_redir_file(s, n, i, '<') {
        Some((j, fin)) => {
            let k = scan_space(s, n, j);
            match p_redir_file(s, n, k, '>') {
                Some((m, fout)) => (m, Some(fin), Some(fout)),
                None => (k, Some(fin), None),
            }
        },
        None => match p_redir_file(s, n, i, '>') {
            Some((j, fout)) => {
                let k = scan_space(s, n, j);
                match p_redir_file(s, n, k, '<') {
                    Some((m, fin)) => (m, Some(fin), Some(fout)),
                    None => (k, None, Some(fout)),
                }
            },
            None => (i, None, None),
        },
    }
}

fn p_pipeline(s: &str, n: usize, i: usize) -> (r: Option<(usize, Pipeline)>)
    requires
        n == s@.len(),
        i <= n,
    ensures
        r is None ==> pipeline(s@, i as int) is None,
        r matches Some((j, p)) ==> pipeline(s@, i as int) == Some(((j as int), p@)) && i < j <= n,
{
    let i1 = scan_space(s, n, i);
    match p_job(s, n, i1) {
        None => None,
        Some((j, j0)) => {
            let ghost j0v = j0@;
            let (e, mut jobs) = p_jobs_rest(s, n, j);
            let ghost rest_view = jobs@.map_values(|x: Job| x@);
            jobs.insert(0, j0);
            proof {
                assert(jobs@.map_values(|x: Job| x@) =~= seq![j0v] + rest_view);
            }
            let e1 = scan_space(s, n, e);
            let (e2, fin, fout) = p_redirect(s, n, e1);
            let e3 = p_comment_opt(s, n, scan_space(s, n, e2));
            let p = Pipeline { jobs, stdin_file: fin, stdout_file: fout };
            Some((e3, p))
        },
    }
}

// ----------------------------------------------------------------------------
// Scripts
// ----------------------------------------------------------------------------
fn p_lead_skip(s: &str, n: usize, i: usize) -> (j: usize)
    requires
        n == s@.len(),
        i <= n,
    ensures
        i <= j <= n,
        j as int == lead_skip(s@, i as int),
    decreases n - i,
{
    let k = p_unused_star(s, n, i);
    if k < n {
        let c = s.get_char(k);
        if c == '\r' || c == '\n' {
            return p_lead_skip(s, n, k + 1);
        }
    }
    i
}

fn p_sep_star(s: &str, n: usize, i: usize) -> (j: usize)
    requires
        n == s@.len(),
        i <= n,
    ensures
        i <= j <= n,
        j as int == sep_star(s@, i as int),
        job_ending(s@, i as int) is Some ==> i < j,
    decreases n - i,
{
    if i < n {
        let c = s.get_char(i);
        if c == ';' || c == '\r' || c == '\n' {
            let k = p_job_endings_star(s, n, i + 1);
            let m = p_unused_star(s, n, k);
            return p_sep_star(s, n, m);
        }
    }
    i
}

fn p_sep_plus(s: &str, n: usize, i: usize) -> (r: Option<usize>)
    requires
        n == s@.len(),
        i <= n,
    ensures
        r is None ==> sep_plus(s@, i as int) is None,
        r matches Some(j) ==> sep_plus(s@, i as int) == Some(j as int) && i < j <= n,
{
    if i < n {
        let c = s.get_char(i);
        if c == ';' || c == '\r' || c == '\n' {
            return Some(p_sep_star(s, n, i));
        }
    }
    None
}

fn p_pipes_rest(s: &str, n: usize, i: usize) -> (r: (usize, Vec<Pipeline>))
    requires
        n == s@.len(),
        i <= n,
    ensures
        i <= r.0 <= n,
        r.0 as int == pipes_rest(s@, i as int).0,
        r.1@.map_values(|p: Pipeline| p@) == pipes_rest(s@, i as int).1,
    decreases n - i,
{
    match p_sep_plus(s, n, i) {
        Some(k) => match p_pipeline(s, n, k) {
            Some((j, p)) => {
                let ghost pv = p@;
                let (e, mut rest) = p_pipes_rest(s, n, j);
                let ghost rest_view = rest@.map_values(|x: Pipeline| x@);
                rest.insert(0, p);
                proof {
                    assert(rest@.map_values(|x: Pipeline| x@) =~= seq![pv] + rest_view);
                }
                (e, rest)
            },
            None => {
                let r: Vec<Pipeline> = Vec::new();
                proof {
                    assert(r@.map_values(|x: Pipeline| x@) =~= Seq::<
                        crate::ast::SpecPipeline,
                    >::empty());
                }
                (i, r)
            },
        },
        None => {
            let r: Vec<Pipeline> = Vec::new();
            proof {
                assert(r@.map_values(|x: Pipeline| x@) =~= Seq::<
                    crate::ast::SpecPipeline,
                >::empty());
            }
            (i, r)
        },
    }
}

fn p_trail_skip(s: &str, n: usize, i: usize) -> (j: usize)
    requires
        n == s@.len(),
        i <= n,
    ensures
        i <= j <= n,
        j as int == trail_skip(s@, i as int),
    decreases n - i,
{
    if i < n {
        let c = s.get_char(i);
        if c == '\r' || c == '\n' {
            let m = p_unused_star(s, n, i + 1);
            return p_trail_skip(s, n, m);
        }
    }
    i
}

/// Parses a whole script into its pipelines, in source order. Input that the
/// grammar does not match in full yields an empty sequence: total parse
/// failure is swallowed so that malformed or empty input never aborts the
/// host shell.
pub fn parse(code: &str) -> (r: Vec<Pipeline>)
    ensures
        r@.map_values(|p: Pipeline| p@) == script(code@),
{
    let n = code.unicode_len();
    let i = p_lead_skip(code, n, 0);
    match p_pipeline(code, n, i) {
        None => {
            let r: Vec<Pipeline> = Vec::new();
            proof {
                assert(r@.map_values(|x: Pipeline| x@) =~= Seq::<
                    crate::ast::SpecPipeline,
                >::empty());
            }
            r
        },
        Some((j, p)) => {
            let ghost pv = p@;
            let (e, mut rest) = p_pipes_rest(code, n, j);
            let f = p_trail_skip(code, n, e);
            if f == n {
                let ghost rest_view = rest@.map_values(|x: Pipeline| x@);
                rest.insert(0, p);
                proof {
                    assert(rest@.map_values(|x: Pipeline| x@) =~= seq![pv] + rest_view);
                }
                rest
            } else {
                let r: Vec<Pipeline> = Vec::new();
                proof {
                    assert(r@.map_values(|x: Pipeline| x@) =~= Seq::<
                        crate::ast::SpecPipeline,
                    >::empty());
                }
                r
            }
        },
    }
}

} // verus!
