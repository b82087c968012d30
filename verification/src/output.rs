//! What don's merged output stream hands the interface.
use vstd::prelude::*;

verus! {

/// The number of a line in the merged stream. Numbers ascend; a gap is a line
/// that was dropped.
#[derive(Debug, Clone, Copy, PartialEq, Eq, PartialOrd, Ord, Hash, Structural)]
pub struct LogId(pub u64);

/// The name that don's own lines are filed under.
pub const LIFECYCLE_EVENT_NAME: &'static str = "don";

/// One line of the merged stream, rendered upstream.
#[derive(Debug)]
pub struct FormattedLogLine {
    /// The process that printed it.
    pub name: String,
    /// Whether it is one of don's own notices.
    pub is_lifecycle: bool,
    /// Whether it is shown only in verbose mode.
    pub is_verbose: bool,
    /// The rendered name column, escapes and all.
    pub prefix: Vec<u8>,
    /// The rendered message, escapes and all.
    pub bytes: Vec<u8>,
}

/// What the merged stream hands over.
#[derive(Debug)]
pub enum MergedEvent {
    /// A line.
    Line(LogId, FormattedLogLine),
    /// Lines were dropped; the stream goes on at a number.
    Dropped { count: u64, resumed_at: LogId },
}

} // verus!
