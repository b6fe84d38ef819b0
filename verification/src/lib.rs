//! Syntax front end of a command shell: an ordered-choice (PEG) parser that
//! turns script text into pipelines of jobs, a glob expander for argument
//! words, and a builder for executable-command descriptors.
pub mod ast;
pub mod globs;
pub mod grammar;
pub mod laws;
pub mod parser;

pub use globs::{expand_job, expand_pipeline, expand_word, word_has_glob};
pub use parser::parse;
pub use ast::{build_command, Command, Job, Pipeline, SpecJob, SpecPipeline};
