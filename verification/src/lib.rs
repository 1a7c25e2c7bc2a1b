//! A personal bookmark log for shell commands: the rules by which a line of
//! shell history becomes a command, a command and its tag become a line of
//! the log, and an action on the command line becomes a change of the log.

pub mod entry;
pub mod error;
pub mod router;
pub mod shell;
pub mod store;
pub mod text;
