//! The decision logic of `neko`, a command line tool that puts a port of a
//! sandbox or of this machine on the web.
//!
//! Everything here computes on plain values and is proved against its
//! contract. Sockets, files, processes and the terminal belong to the program
//! around this library.

pub mod calendar;
pub mod commands;
pub mod connector;
pub mod dist;
pub mod forward;
pub mod github;
pub mod headers;
pub mod json;
pub mod login;
pub mod mascot;
pub mod mount;
pub mod number;
pub mod paths;
pub mod relay;
pub mod run;
pub mod store;
pub mod term;
pub mod text;
pub mod tunnel;
pub mod upgrade;
pub mod wire;
