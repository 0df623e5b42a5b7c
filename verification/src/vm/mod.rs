//! Hardware-isolated microVMs on libkrun.

pub mod bootstrap;
pub mod config;
pub mod cstring;
pub mod error;
pub mod exit;
pub mod gvproxy;
pub mod launch;
pub mod poll;
pub mod running;
pub mod session;
