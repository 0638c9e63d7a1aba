//! Core of a POSIX-style command-line shell: the layered variable database,
//! pipeline status bookkeeping, job table, and the scanners and parsers that
//! feed them.

pub mod array;
pub mod braced_param;
pub mod child;
pub mod clock;
pub mod command;
pub mod completion;
pub mod database;
pub mod element_list;
pub mod file_check;
pub mod random;
pub mod redirect;
pub mod variable;
pub mod feeder;
pub mod jobs;
pub mod pairs;
pub mod parser_args;
pub mod paths;
pub mod pipeline;
pub mod scanner;
pub mod substitution;
pub mod subword;
pub mod sys;
pub mod text;
pub mod utils;
