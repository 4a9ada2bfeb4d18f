//! An SSH honeypot's session simulator: a fake file system, a bash-like
//! shell, built-in commands, the SCP and SFTP receivers and the audit trail
//! that records what a visitor did.

pub mod text;
pub mod file_system;
pub mod audit;
pub mod state;
pub mod connection;
pub mod command;
pub mod shell;
pub mod sftp;
pub mod handler;
