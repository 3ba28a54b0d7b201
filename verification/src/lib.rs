//! A small interactive command interpreter: a startup-file parser for the
//! search path, exported environment variables and command aliases, and a
//! statement interpreter that tokenizes input lines, expands aliases,
//! dispatches the `cd` builtin and classifies the outcome of path search.
pub mod config;
pub mod prompt;
pub mod search;
pub mod statement;
pub mod strutil;
