//! Verified core of a home server control panel: terminal scrollback,
//! path allowlisting, request validation and the parsing of systemd output.

pub mod text;
pub mod scrollback;
pub mod error;
pub mod services;
pub mod servers;
pub mod auth;
pub mod password;
pub mod paths;
pub mod files;
pub mod overview;
pub mod ordering;
pub mod types;
pub mod protocol;
pub mod terminal;
pub mod terminal_table;
pub mod process;
pub mod config;
pub mod state;
