//! Result types of the parse: jobs, pipelines, and the command descriptor
//! handed to a process-execution collaborator.
use vstd::prelude::*;

verus! {

/// Mathematical model of a [`Job`]: the command word, the remaining argument
/// words, and whether the job runs in the background.
#[verifier::ext_equal]
pub struct SpecJob {
    pub command: Seq<char>,
    pub args: Seq<Seq<char>>,
    pub background: bool,
}

/// Mathematical model of a [`Pipeline`]: its jobs in order and the optional
/// redirection files, normalized as (stdin, stdout).
#[verifier::ext_equal]
pub struct SpecPipeline {
    pub jobs: Seq<SpecJob>,
    pub stdin_file: Option<Seq<char>>,
    pub stdout_file: Option<Seq<char>>,
}

/// One command invocation: a program name, its arguments and a
/// background-execution flag.
pub struct Job {
    pub command: String,
    pub args: Vec<String>,
    pub background: bool,
}

/// One or more jobs joined by pipes, plus optional file redirection of the
/// whole pipeline's standard input and output.
pub struct Pipeline {
    pub jobs: Vec<Job>,
    pub stdin_file: Option<String>,
    pub stdout_file: Option<String>,
}

pub open spec fn opt_view(o: Option<String>) -> Option<Seq<char>> {
    match o {
        Some(s) => Some(s@),
        None => None,
    }
}

impl View for Job {
    type V = SpecJob;

    open spec fn view(&self) -> SpecJob {
        SpecJob {
            command: self.command@,
            args: self.args@.map_values(|a: String| a@),
            background: self.background,
        }
    }
}

impl View for Pipeline {
    type V = SpecPipeline;

    open spec fn view(&self) -> SpecPipeline {
        SpecPipeline {
            jobs: self.jobs@.map_values(|j: Job| j@),
            stdin_file: opt_view(self.stdin_file),
            stdout_file: opt_view(self.stdout_file),
        }
    }
}

impl Job {
    /// A foreground job running `command` with the given arguments.
    pub fn new(command: String, args: Vec<String>) -> (j: Job)
        ensures
            j@.command == command@,
            j@.args == args@.map_values(|a: String| a@),
            j@.background == false,
    {
        Job { command, args, background: false }
    }
}

/// An external-process invocation descriptor: the program to look up and the
/// argument vector to hand it, in order.
pub struct Command {
    pub program: String,
    pub args: Vec<String>,
}

/// Maps a finished job to its invocation descriptor: the program is the
/// command word, the arguments are the job's argument words unchanged.
pub fn build_command(job: &Job) -> (c: Command)
    ensures
        c.program@ == job@.command,
        c.args@.map_values(|a: String| a@) == job@.args,
{
    let mut args: Vec<String> = Vec::new();
    let mut i: usize = 0;
    while i < job.args.len()
        invariant
            i <= job.args.len(),
            args@ =~= job.args@.subrange(0, i as int),
        decreases job.args.len() - i,
    {
        args.push(job.args[i].clone());
        i = i + 1;
    }
    proof {
        assert(args@ =~= job.args@);
        assert(args@.map_values(|a: String| a@) =~= job.args@.map_values(|a: String| a@));
    }
    Command { program: job.command.clone(), args }
}

} // verus!
