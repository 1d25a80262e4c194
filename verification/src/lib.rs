//! Finding large, stale files and walking an operator through deleting them.
//!
//! The crate holds the rules of the tool and none of its input or output:
//! how a byte count is written for people, when a file is old enough to be
//! offered, how the offered files are ranked, what the chart of one page
//! shows, and how the session moves from one operator command to the next.

pub mod text;
pub mod size;
pub mod time;
pub mod files;
pub mod sort;
pub mod scan;
pub mod chart;
pub mod command;
pub mod session;
pub mod notice;
