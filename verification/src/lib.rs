//! The logic of an HTTP server that hands a patched payload to a console game's updater.
//!
//! The library reads the command line, signs and checks the payload, builds the update
//! manifest, turns received bytes into requests, decides the answer to each, and builds the
//! records of the log. Sockets, files and clocks belong to the program around it.

pub mod config;
pub mod connection;
pub mod encoding;
pub mod exchange;
pub mod log;
pub mod manifest;
pub mod reply;
pub mod request;
pub mod signing;
pub mod start;
pub mod text;
