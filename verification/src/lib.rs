//! The decisions of a client that has chess positions analysed by UCI engines.
//!
//! Nothing here reads or writes: the modules say what is to be written to an
//! engine, what the lines that it writes stand for, how the machine is shared
//! out among the engines, and what a worker, the task that owns an engine and
//! the main loop do next.

pub mod actor;
pub mod commands;
pub mod config;
pub mod decimal;
pub mod matrix;
pub mod moves;
pub mod resources;
pub mod search;
pub mod session;
pub mod supervisor;
pub mod text;
pub mod uci;
pub mod work;
pub mod worker;
