//! A terminal session launcher that unifies a terminal-multiplexer session
//! manager and a directory-frecency tracker into one "list then connect"
//! workflow: list existing sessions and frecency-ranked directories, and
//! resolve a selected or typed line to a single session — attach if it
//! exists, else create it at an inferred working directory and attach.

pub mod cli;
pub mod connect;
pub mod list;
pub mod shell;
pub mod text;
pub mod tmux;
pub mod zoxide;
