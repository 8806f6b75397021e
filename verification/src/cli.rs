//! The command-line configuration as plain values.
//!
//! The surrounding program parses its arguments into these structs; the
//! library's resolution functions read the templates and separators from
//! them.

use vstd::prelude::*;

verus! {

/// How the input is cut into entries.
pub struct EntriesOptions {
    /// Separator between entries; each entry is then split by the argument
    /// separator to produce the command's arguments.
    pub entries_separator: String,
    /// Load all input as a single entry.
    pub single_entry: bool,
    /// When positive, split the input into entries of this many arguments.
    pub entry_size: usize,
}

/// The whole command-line configuration: the command to run, the argument
/// templates, the separators, and where the input comes from.
pub struct Cli {
    /// The command to run once per entry.
    pub cmd: String,
    /// Argument templates, resolved for every entry and passed to the
    /// command.
    pub args_templates: Vec<String>,
    /// Separator between arguments within one entry.
    pub args_separator: String,
    /// Print the command with its resolved arguments instead of running it.
    pub debug: bool,
    /// Read the input from this file instead of standard input.
    pub args_file: Option<String>,
    /// How the input is cut into entries.
    pub entries: EntriesOptions,
}

} // verus!
