//! From an OCI image reference to a cached read-only root file system and the
//! launch metadata that the guest runs it with.

pub mod archive;
pub mod cache;
pub mod client;
pub mod compat;
pub mod flatten;
pub mod fs_image;
pub mod metadata;
pub mod pipeline;
