//! An SSH server manager with fuzzy matching: the rules behind `sgo`.

pub mod commands;
pub mod config;
pub mod form;
pub mod matcher;
pub mod place;
pub mod pty;
pub mod quote;
pub mod ssh;
pub mod text;
pub mod tunnel;
