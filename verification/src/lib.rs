//! Host-side logic of the OpenShell VM stack.

pub mod cli;
pub mod compute;
pub mod config;
pub mod container_env;
pub mod fault;
pub mod gateway;
pub mod oci;
pub mod path;
pub mod state_disk;
pub mod string_map;
pub mod text;
pub mod vm;
