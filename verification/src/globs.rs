//! Glob expansion of a job's argument words: an argument holding a glob
//! metacharacter is replaced, in place, by the paths the filesystem glob
//! service yields for it; every other argument — and every pattern with no
//! match or a pattern error — is kept unchanged.
use crate::ast::{Job, Pipeline, SpecJob};
use vstd::prelude::*;
use vstd::string::StrSliceExecFns;

verus! {

/// A glob metacharacter: an argument holding one is a pattern.
pub open spec fn is_glob_char(c: char) -> bool {
    c == '?' || c == '*' || c == '['
}

/// Whether an argument word is a glob pattern.
pub open spec fn is_glob_word(s: Seq<char>) -> bool {
    exists|k: int| 0 <= k < s.len() && is_glob_char(s[k])
}

pub fn word_has_glob(s: &String) -> (b: bool)
    ensures
        b == is_glob_word(s@),
{
    let st = s.as_str();
    let n = st.unicode_len();
    let mut i: usize = 0;
    while i < n
        invariant
            n == s@.len(),
            st@ == s@,
            i <= n,
            forall|k: int| 0 <= k < i ==> !is_glob_char(s@[k]),
        decreases n - i,
    {
        let c = st.get_char(i);
        if c == '?' || c == '*' || c == '[' {
            return true;
        }
        i = i + 1;
    }
    false
}

/// View of the matches the glob service returned for one pattern.
pub open spec fn matches_view(m: Option<Vec<String>>) -> Option<Seq<Seq<char>>> {
    match m {
        Some(v) => Some(v@.map_values(|a: String| a@)),
        None => None,
    }
}

/// The words that replace one argument, given the matches the glob service
/// returned for it (`None`: the service rejected the pattern). A non-pattern
/// argument, a rejected pattern and a pattern with no match each stay a
/// single unchanged word; a matched pattern becomes its match list.
pub open spec fn expansion_of(arg: Seq<char>, m: Option<Seq<Seq<char>>>) -> Seq<Seq<char>> {
    if is_glob_word(arg) {
        match m {
            Some(v) => if v.len() > 0 {
                v
            } else {
                seq![arg]
            },
            None => seq![arg],
        }
    } else {
        seq![arg]
    }
}

/// Relies on glob::glob: yields the paths matching the pattern, read from the
/// filesystem; `None` stands for a rejected pattern, and entries the walk
/// could not read are left out. What comes back depends on the machine's
/// filesystem, so nothing more is promised of it.
#[verifier::external_body]
fn glob_matches(pattern: &String) -> Option<Vec<String>> {
    match glob::glob(pattern.as_str()) {
        Err(_) => None,
        Ok(paths) => {
            let mut out: Vec<String> = Vec::new();
            for p in paths {
                match p {
                    Ok(pb) => out.push(pb.to_string_lossy().into_owned()),
                    Err(_) => {},
                }
            }
            Some(out)
        },
    }
}

/// Replaces one argument by its expansion, given the matches the glob service
/// returned for it.
pub fn expand_word(arg: String, m: Option<Vec<String>>) -> (r: Vec<String>)
    ensures
        r@.map_values(|a: String| a@) == expansion_of(arg@, matches_view(m)),
{
    if word_has_glob(&arg) {
        match m {
            Some(v) => {
                if v.len() > 0 {
                    v
                } else {
                    one_word(arg)
                }
            },
            None => one_word(arg),
        }
    } else {
        one_word(arg)
    }
}

fn one_word(arg: String) -> (r: Vec<String>)
    ensures
        r@.map_values(|a: String| a@) =~= seq![arg@],
{
    let ghost v = arg@;
    let mut r: Vec<String> = Vec::new();
    r.push(arg);
    proof {
        assert(r@.map_values(|a: String| a@) =~= seq![v]);
    }
    r
}

/// The replacement list for one argument is acceptable: a pattern is replaced
/// by at least one word (its matches, or itself when nothing matched); any
/// other argument stays exactly itself.
pub open spec fn arg_expansion_ok(arg: Seq<char>, part: Seq<Seq<char>>) -> bool {
    if is_glob_word(arg) {
        part.len() >= 1
    } else {
        part == seq![arg]
    }
}

/// How a job's argument list may change under glob expansion: each original
/// argument is replaced, in place and in order, by an acceptable replacement
/// list, and nothing else appears.
pub open spec fn args_expanded(before: Seq<Seq<char>>, after: Seq<Seq<char>>) -> bool {
    exists|parts: Seq<Seq<Seq<char>>>|
        {
            &&& parts.len() == before.len()
            &&& after == parts.flatten()
            &&& (forall|i: int|
                0 <= i < before.len() ==> arg_expansion_ok(before[i], #[trigger] parts[i]))
        }
}

/// Expands every argument of the job through the glob service. The command
/// word is excluded: it is a program lookup key, not a filesystem pattern.
pub fn expand_job(job: &mut Job)
    ensures
        final (job)@.command == old(job)@.command,
        final (job)@.background == old(job)@.background,
        args_expanded(old(job)@.args, final (job)@.args),
{
    let mut out: Vec<String> = Vec::new();
    let ghost mut parts: Seq<Seq<Seq<char>>> = Seq::empty();
    let mut i: usize = 0;
    proof {
        assert(out@.map_values(|a: String| a@) =~= parts.flatten());
    }
    while i < job.args.len()
        invariant
            i <= job.args.len(),
            job.command == old(job).command,
            job.background == old(job).background,
            job.args == old(job).args,
            parts.len() == i,
            out@.map_values(|a: String| a@) == parts.flatten(),
            forall|k: int|
                0 <= k < i ==> arg_expansion_ok(old(job)@.args[k], #[trigger] parts[k]),
        decreases job.args.len() - i,
    {
        let arg = job.args[i].clone();
        let ghost argv = arg@;
        let part: Vec<String> = if word_has_glob(&arg) {
            let m = glob_matches(&arg);
            expand_word(arg, m)
        } else {
            expand_word(arg, None)
        };
        let ghost partv = part@.map_values(|a: String| a@);
        proof {
            assert(argv == old(job)@.args[i as int]);
            assert(arg_expansion_ok(argv, partv)) by {
                if !is_glob_word(argv) {
                    assert(partv == seq![argv]);
                }
            }
            parts.lemma_flatten_push(partv);
        }
        let ghost old_out = out@.map_values(|a: String| a@);
        let mut rest = part;
        out.append(&mut rest);
        proof {
            assert(out@.map_values(|a: String| a@) =~= old_out + partv);
            parts = parts.push(partv);
        }
        i = i + 1;
    }
    job.args = out;
    proof {
        assert(final (job)@.args == parts.flatten());
        assert(parts.len() == old(job)@.args.len());
        assert(args_expanded(old(job)@.args, final (job)@.args));
    }
}

/// Expands the arguments of every job of the pipeline, preserving job order,
/// command words, background flags and the redirection files.
pub fn expand_pipeline(p: &mut Pipeline)
    ensures
        final (p).stdin_file == old(p).stdin_file,
        final (p).stdout_file == old(p).stdout_file,
        final (p)@.jobs.len() == old(p)@.jobs.len(),
        forall|k: int|
            0 <= k < old(p)@.jobs.len() ==> job_expanded(
                old(p)@.jobs[k],
                #[trigger] final (p)@.jobs[k],
            ),
{
    let ghost orig = p.jobs@;
    let mut done: Vec<Job> = Vec::new();
    while p.jobs.len() > 0
        invariant
            p.stdin_file == old(p).stdin_file,
            p.stdout_file == old(p).stdout_file,
            orig == old(p).jobs@,
            done@.len() + p.jobs@.len() == orig.len(),
            p.jobs@ == orig.subrange(done@.len() as int, orig.len() as int),
            forall|k: int| 0 <= k < done@.len() ==> job_expanded(orig[k]@, #[trigger] done@[k]@),
        decreases p.jobs.len(),
    {
        let ghost d = done@.len() as int;
        let mut jb = p.jobs.remove(0);
        proof {
            assert(jb == orig[d]);
        }
        expand_job(&mut jb);
        done.push(jb);
        proof {
            assert(p.jobs@ =~= orig.subrange(d + 1, orig.len() as int));
        }
    }
    p.jobs = done;
    proof {
        assert(forall|k: int|
            0 <= k < orig.len() ==> #[trigger] final (p)@.jobs[k] == final (p).jobs@[k]@);
        assert(forall|k: int|
            0 <= k < orig.len() ==> #[trigger] old(p)@.jobs[k] == orig[k]@);
    }
}

/// How one job may change under glob expansion: same command, same
/// background flag, arguments expanded in place.
pub open spec fn job_expanded(before: SpecJob, after: SpecJob) -> bool {
    &&& after.command == before.command
    &&& after.background == before.background
    &&& args_expanded(before.args, after.args)
}

} // verus!
