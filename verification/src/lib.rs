//! Verified core of the agentrec command-line tool: pure formatting, parsing,
//! path and decision logic, with the file system, clock and process edges
//! kept at the boundary.

pub mod text;
pub mod fmt;
pub mod record;
pub mod config;
pub mod hookcmds;
pub mod paths;
pub mod daemon;
pub mod doctorcmd;
pub mod strmap;
pub mod importcmd;
pub mod session;
pub mod initcmd;
pub mod loglock;
pub mod doc;
pub mod statuscmd;
