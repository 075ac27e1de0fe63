//! The core of ZeroSh, a small job-control shell.

pub mod effects;
pub mod error;
pub mod job;
pub mod launch;
pub mod laws;
pub mod message;
pub mod number;
pub mod os;
pub mod parser;
pub mod process;
pub mod shell;
pub mod table;
pub mod text;
pub mod worker;
