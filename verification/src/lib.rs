//! The language-processing and job-control core of an interactive command
//! shell: the command-line grammar, the expansions applied before a command
//! runs, and the bookkeeping that decides what is run, with which
//! redirections, and in which order.

pub mod text;
pub mod ast;
pub mod strmap;
pub mod expand;
pub mod grammar;
pub mod parser;
pub mod redirect;
pub mod alias;
pub mod globbing;
pub mod path;
pub mod jobs;
pub mod job_control;
pub mod registry;
pub mod state;
pub mod engine;
pub mod builtins;
pub mod locality;
pub mod spelling;
pub mod wellformed;
pub mod writer;
