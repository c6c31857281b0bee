//! Interactive launcher core for named terminal-multiplexer sessions.
//!
//! The crate holds the verified logic of the launcher: the line protocol
//! spoken with the external session tool, the decisions of the session
//! controller, the directory-path autocompletion engine, and the action
//! flow. Process execution, prompting and filesystem reads live outside,
//! in thin glue that hands this crate plain values.

pub mod action;
pub mod completion;
pub mod control;
pub mod flow;
pub mod paths;
pub mod protocol;
pub mod text;
