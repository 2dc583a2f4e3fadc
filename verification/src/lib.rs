//! Verified core of `port`, a terminal tool that lists the TCP ports that
//! user processes listen on and kills the process behind a chosen port.
//!
//! The library holds the logic: parsing of the kernel's socket tables and of
//! the output of `ss` and `docker ps`, the filtering of system services, the
//! state machine of the interactive list, and the text that the screen shows.
//! Reading `/proc`, running commands, sending signals and drawing the
//! terminal are left to the program around it.

pub mod app;
pub mod events;
pub mod filter;
pub mod laws;
pub mod ports;
pub mod process;
pub mod text;
pub mod ui;
