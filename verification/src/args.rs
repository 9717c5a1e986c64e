//! The command line as values: the view to show, the output mode and the
//! options of the process listing.

use vstd::prelude::*;

verus! {

/// One invocation of the tool.
#[derive(Debug, Clone, PartialEq)]
pub struct Cli {
    /// The view to show; `None` asks for the summary.
    pub command: Option<Commands>,
    /// Emit JSON in place of the text report.
    pub json: bool,
    /// Seconds between two cycles; `None` runs a single cycle.
    pub watch: Option<u64>,
    /// Path of the file that each cycle overwrites; `None` prints.
    pub output: Option<String>,
}

/// The views.
#[derive(Debug, Clone, PartialEq)]
pub enum Commands {
    System,
    Cpu,
    Memory,
    Disks,
    Network,
    Components,
    Processes {
        /// Keep the processes whose name contains this text.
        filter: Option<String>,
        /// Show at most this many processes.
        limit: Option<usize>,
        /// The order of the listing.
        sort: SortBy,
    },
}

/// The orders of the process listing.
#[derive(Copy, Clone, Debug, PartialEq, Eq, PartialOrd, Ord)]
pub enum SortBy {
    Cpu,
    Memory,
    Pid,
    Name,
}

} // verus!
