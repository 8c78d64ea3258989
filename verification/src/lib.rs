//! Reading netctl profile files.
//!
//! A profile file sets one option per line, as `key=value`. `parse::parse_line`
//! reads one line, `profile::get_profile` a whole file and
//! `profile::list_profiles` a set of files. What each of them returns is
//! stated over functions on character sequences that say what a line sets and
//! what a file describes; `laws` proves what follows from those for every
//! line and every file.

pub mod connection;
pub mod laws;
pub mod parse;
pub mod profile;
pub mod text;
