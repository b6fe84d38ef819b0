use shparse::parse;

#[test]
fn single_job_no_args() {
    let pipelines = parse("cat");
    assert_eq!(1, pipelines.len());
    assert_eq!("cat", pipelines[0].jobs[0].command);
    assert_eq!(0, pipelines[0].jobs[0].args.len());
}

#[test]
fn single_job_with_args() {
    let pipelines = parse("ls -al dir");
    assert_eq!(1, pipelines.len());
    assert_eq!("ls", pipelines[0].jobs[0].command);
    assert_eq!("-al", pipelines[0].jobs[0].args[0]);
    assert_eq!("dir", pipelines[0].jobs[0].args[1]);
}

#[test]
fn multiple_jobs_with_args() {
    let pipelines = parse("ls -al;cat tmp.txt");
    assert_eq!(2, pipelines.len());
    assert_eq!("ls", pipelines[0].jobs[0].command);
    assert_eq!("-al", pipelines[0].jobs[0].args[0]);
    assert_eq!("cat", pipelines[1].jobs[0].command);
    assert_eq!("tmp.txt", pipelines[1].jobs[0].args[0]);
}

#[test]
fn parse_empty_string() {
    let pipelines = parse("");
    assert_eq!(0, pipelines.len());
}

#[test]
fn multiple_white_space_between_words() {
    let pipelines = parse("ls \t -al\t\tdir");
    assert_eq!(1, pipelines.len());
    assert_eq!("ls", pipelines[0].jobs[0].command);
    assert_eq!("-al", pipelines[0].jobs[0].args[0]);
    assert_eq!("dir", pipelines[0].jobs[0].args[1]);
}

#[test]
fn trailing_whitespace() {
    let pipelines = parse("ls -al\t ");
    assert_eq!(1, pipelines.len());
    assert_eq!("ls", pipelines[0].jobs[0].command);
    assert_eq!("-al", pipelines[0].jobs[0].args[0]);
}

#[test]
fn double_quoting() {
    let pipelines = parse("echo \"Hello World\"");
    assert_eq!(1, pipelines[0].jobs[0].args.len());
    assert_eq!("Hello World", pipelines[0].jobs[0].args[0]);
}

#[test]
fn all_whitespace() {
    let pipelines = parse("  \t ");
    assert_eq!(0, pipelines.len());
}

#[test]
fn lone_comment() {
    let pipelines = parse("# ; \t as!!+dfa");
    assert_eq!(0, pipelines.len());
}

#[test]
fn command_followed_by_comment() {
    let pipelines = parse("cat # ; \t as!!+dfa");
    assert_eq!(1, pipelines.len());
    assert_eq!(0, pipelines[0].jobs[0].args.len());
}

#[test]
fn multiple_newlines() {
    let pipelines = parse("echo\n\ncat");
    assert_eq!(2, pipelines.len());
}

#[test]
fn leading_whitespace() {
    let pipelines = parse("    \techo");
    assert_eq!(1, pipelines.len());
    assert_eq!("echo", pipelines[0].jobs[0].command);
}

#[test]
fn indentation_on_multiple_lines() {
    let pipelines = parse("echo\n  cat");
    assert_eq!(2, pipelines.len());
    assert_eq!("echo", pipelines[0].jobs[0].command);
    assert_eq!("cat", pipelines[1].jobs[0].command);
}

#[test]
fn single_quoting() {
    let pipelines = parse("echo '#!!;\"\\'");
    assert_eq!("#!!;\"\\", pipelines[0].jobs[0].args[0]);
}

#[test]
fn mixed_quoted_and_unquoted() {
    let pipelines = parse("echo '#!!;\"\\' and \t some \"more' 'stuff\"");
    assert_eq!("#!!;\"\\", pipelines[0].jobs[0].args[0]);
    assert_eq!("and", pipelines[0].jobs[0].args[1]);
    assert_eq!("some", pipelines[0].jobs[0].args[2]);
    assert_eq!("more' 'stuff", pipelines[0].jobs[0].args[3]);
}

#[test]
fn several_blank_lines() {
    let pipelines = parse("\n\n\n");
    assert_eq!(0, pipelines.len());
}

#[test]
fn full_script() {
    let pipelines = parse(
        r#"if a == a
  echo true a == a

  if b != b
    echo true b != b
  else
    echo false b != b

    if 3 > 2
      echo true 3 > 2
    else
      echo false 3 > 2
    fi
  fi
else
  echo false a == a
fi
"#,
    );
    // Every nonblank line is one pipeline; none is silently dropped.
    assert_eq!(15, pipelines.len());
}

#[test]
fn leading_and_trailing_junk() {
    let pipelines = parse(
        r#"

# comment
   # comment
  

    if a == a   
  echo true a == a  # Line ending commment

  if b != b
    echo true b != b
  else
    echo false b != b

    if 3 > 2
      echo true 3 > 2
    else
      echo false 3 > 2
    fi
  fi
else
  echo false a == a
      fi     

# comment

"#,
    );
    assert_eq!(15, pipelines.len());
}
