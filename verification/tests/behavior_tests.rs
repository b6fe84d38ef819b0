use shparse::{build_command, expand_job, expand_pipeline, expand_word, parse, Job};

// ----------------------------------------------------------------------------
// Pipelines, redirection, background
// ----------------------------------------------------------------------------
#[test]
fn pipeline_with_redirections() {
    let pipelines = parse("cat | echo hi | cat < in > out");
    assert_eq!(1, pipelines.len());
    assert_eq!(3, pipelines[0].jobs.len());
    assert_eq!("cat", pipelines[0].jobs[0].command);
    assert_eq!("echo", pipelines[0].jobs[1].command);
    assert_eq!("hi", pipelines[0].jobs[1].args[0]);
    assert_eq!("cat", pipelines[0].jobs[2].command);
    assert_eq!(Some("in".to_string()), pipelines[0].stdin_file);
    assert_eq!(Some("out".to_string()), pipelines[0].stdout_file);
}

#[test]
fn redirection_order_is_irrelevant() {
    let forward = parse("cmd < A > B");
    let backward = parse("cmd > B < A");
    assert_eq!(1, forward.len());
    assert_eq!(1, backward.len());
    assert_eq!(Some("A".to_string()), forward[0].stdin_file);
    assert_eq!(Some("B".to_string()), forward[0].stdout_file);
    assert_eq!(forward[0].stdin_file, backward[0].stdin_file);
    assert_eq!(forward[0].stdout_file, backward[0].stdout_file);
}

#[test]
fn stdin_redirection_alone() {
    let pipelines = parse("wc -l < data.txt");
    assert_eq!(1, pipelines.len());
    assert_eq!(Some("data.txt".to_string()), pipelines[0].stdin_file);
    assert_eq!(None, pipelines[0].stdout_file);
}

#[test]
fn background_marker_adjacent() {
    let pipelines = parse("echo a&");
    assert_eq!(1, pipelines.len());
    assert!(pipelines[0].jobs[0].background);
    assert_eq!("echo", pipelines[0].jobs[0].command);
    assert_eq!("a", pipelines[0].jobs[0].args[0]);
}

#[test]
fn background_marker_spaced() {
    let pipelines = parse("echo a &");
    assert_eq!(1, pipelines.len());
    assert!(pipelines[0].jobs[0].background);
}

#[test]
fn no_background_marker() {
    let pipelines = parse("echo a");
    assert_eq!(1, pipelines.len());
    assert!(!pipelines[0].jobs[0].background);
}

#[test]
fn quoted_argument_taken_verbatim() {
    let pipelines = parse("echo 'a#b;c d'");
    assert_eq!(1, pipelines.len());
    assert_eq!(1, pipelines[0].jobs[0].args.len());
    assert_eq!("a#b;c d", pipelines[0].jobs[0].args[0]);
}

#[test]
fn comment_lines_between_pipelines() {
    let pipelines = parse("echo one\n# a comment\n\t# another\necho two");
    assert_eq!(2, pipelines.len());
    assert_eq!("one", pipelines[0].jobs[0].args[0]);
    assert_eq!("two", pipelines[1].jobs[0].args[0]);
}

#[test]
fn semicolons_and_newlines_mix() {
    let pipelines = parse("a;b\nc;;\n\nd");
    assert_eq!(4, pipelines.len());
    assert_eq!("d", pipelines[3].jobs[0].command);
}

#[test]
fn carriage_return_is_a_line_end() {
    let pipelines = parse("echo\rcat");
    assert_eq!(2, pipelines.len());
}

#[test]
fn pipe_without_spaces() {
    let pipelines = parse("a|b|c");
    assert_eq!(1, pipelines.len());
    assert_eq!(3, pipelines[0].jobs.len());
    assert_eq!("b", pipelines[0].jobs[1].command);
}

#[test]
fn redirection_without_spaces() {
    let pipelines = parse("sort<in>out");
    assert_eq!(1, pipelines.len());
    assert_eq!("sort", pipelines[0].jobs[0].command);
    assert_eq!(Some("in".to_string()), pipelines[0].stdin_file);
    assert_eq!(Some("out".to_string()), pipelines[0].stdout_file);
}

#[test]
fn indented_comments_only() {
    let pipelines = parse("  # x\n\t# y\n");
    assert_eq!(0, pipelines.len());
}

// ----------------------------------------------------------------------------
// Malformed input is swallowed to an empty result
// ----------------------------------------------------------------------------
#[test]
fn dangling_pipe_yields_nothing() {
    let pipelines = parse("echo |");
    assert_eq!(0, pipelines.len());
}

#[test]
fn dangling_redirection_yields_nothing() {
    let pipelines = parse("cmd <");
    assert_eq!(0, pipelines.len());
}

#[test]
fn unclosed_quote_is_a_bare_word() {
    // A lone quote cannot open a quoted word, so it is lexed bare.
    let pipelines = parse("echo 'oops");
    assert_eq!(1, pipelines.len());
    assert_eq!("'oops", pipelines[0].jobs[0].args[0]);
}

// ----------------------------------------------------------------------------
// Glob expansion
// ----------------------------------------------------------------------------
#[test]
fn nonglob_argument_kept_even_with_matches() {
    let out = expand_word(
        "plain.txt".to_string(),
        Some(vec!["a".to_string(), "b".to_string()]),
    );
    assert_eq!(vec!["plain.txt".to_string()], out);
}

#[test]
fn matched_pattern_becomes_its_matches() {
    let out = expand_word(
        "src/*.rs".to_string(),
        Some(vec!["src/a.rs".to_string(), "src/b.rs".to_string(), "src/c.rs".to_string()]),
    );
    // one slot becomes exactly N slots: the count grows by N - 1
    assert_eq!(3, out.len());
    assert_eq!(vec!["src/a.rs".to_string(), "src/b.rs".to_string(), "src/c.rs".to_string()], out);
}

#[test]
fn unmatched_pattern_kept() {
    let out = expand_word("*.nope".to_string(), Some(vec![]));
    assert_eq!(vec!["*.nope".to_string()], out);
}

#[test]
fn rejected_pattern_kept() {
    let out = expand_word("[broken".to_string(), None);
    assert_eq!(vec!["[broken".to_string()], out);
}

#[test]
fn expand_job_keeps_literals() {
    let mut pipelines = parse("cp notes.txt backup.txt");
    let job = &mut pipelines[0].jobs[0];
    expand_job(job);
    assert_eq!("cp", job.command);
    assert_eq!(vec!["notes.txt".to_string(), "backup.txt".to_string()], job.args);
}

#[test]
fn expand_job_keeps_unmatched_pattern() {
    let mut pipelines = parse("ls zz_no_such_prefix_*");
    let job = &mut pipelines[0].jobs[0];
    expand_job(job);
    assert_eq!(vec!["zz_no_such_prefix_*".to_string()], job.args);
}

#[test]
fn expand_pipeline_keeps_structure() {
    let mut pipelines = parse("echo x | tr a b < in > out");
    expand_pipeline(&mut pipelines[0]);
    assert_eq!(2, pipelines[0].jobs.len());
    assert_eq!(Some("in".to_string()), pipelines[0].stdin_file);
    assert_eq!(Some("out".to_string()), pipelines[0].stdout_file);
    assert_eq!(vec!["x".to_string()], pipelines[0].jobs[0].args);
}

// ----------------------------------------------------------------------------
// Command descriptors
// ----------------------------------------------------------------------------
#[test]
fn command_built_from_job() {
    let job = Job::new(
        "grep".to_string(),
        vec!["-n".to_string(), "todo".to_string()],
    );
    let c = build_command(&job);
    assert_eq!("grep", c.program);
    assert_eq!(vec!["-n".to_string(), "todo".to_string()], c.args);
}

#[test]
fn command_built_from_parsed_job() {
    let pipelines = parse("tail -f log.txt &");
    let c = build_command(&pipelines[0].jobs[0]);
    assert_eq!("tail", c.program);
    assert_eq!(vec!["-f".to_string(), "log.txt".to_string()], c.args);
    assert!(pipelines[0].jobs[0].background);
}
