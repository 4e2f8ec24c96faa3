//! Core of an iobs file synchronisation tool.
//!
//! The configuration comes from `config`, over `cli` (the command line) and
//! `ini` (the file). `iobs`, `multipart` and `history` say which requests a
//! transfer takes, `http` which of them are made again, and `token` signs them.
//! `progress` and `tasks` show how far a transfer has come, `commands` and
//! `session` what the command line and the window ask for. The other modules
//! are what these are made of.

pub mod base64;
pub mod binary;
pub mod civil;
pub mod cli;
pub mod clock;
pub mod commands;
pub mod config;
pub mod digits;
pub mod error;
pub mod history;
pub mod http;
pub mod ini;
pub mod iobs;
pub mod json;
pub mod log;
pub mod multipart;
pub mod order;
pub mod percent;
pub mod progress;
pub mod session;
pub mod sha1;
pub mod size;
pub mod table;
pub mod tasks;
pub mod text;
pub mod token;
