//! Usage statistics for the fetch programs of a machine: the programs on
//! the search path whose names end with `fetch`, how often the shell
//! history shows each of them, and a report on the least and the most used.
//!
//! The library computes on plain values. Reading the search path, the
//! directories and the files, running commands and printing are left to
//! the program that uses it. Only the home directory of the user does the
//! library ask for itself.
//!
//! - `config`: the search path and the place of the history log.
//! - `scan`: the fetch programs among the entries of the directories.
//! - `history`: the usage table and the counts that the history gives.
//! - `sysinfo`: the name of the distribution and the uptime.
//! - `report`: the merged usage table and the lines of the report.
//! - `names`: the set of program names.
//! - `text`: tokens, suffixes, numerals and the order of names.

pub mod config;
pub mod history;
pub mod names;
pub mod report;
pub mod scan;
pub mod sysinfo;
pub mod text;
