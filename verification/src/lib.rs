//! Resolution of launch commands for captured desktop windows.
//!
//! Given a window's metadata (class string, optional application
//! identifiers, process id) and a read-only view of the installed
//! application descriptors, the library decides how an equivalent
//! application could be relaunched: either through a desktop descriptor
//! file or through a raw command line recovered from the process table.
//! Similarity scores are computed in fixed-point arithmetic, scaled by
//! one million (micros), so that every score and every decision is
//! verified exactly.

pub mod cmdline;
pub mod config;
pub mod find_command;
pub mod index;
pub mod partial_match;
pub mod session;
pub mod shell;
pub mod similarity;
pub mod text;
pub mod window;
