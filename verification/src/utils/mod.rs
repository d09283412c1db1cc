//! The container codec and its collaborators.
pub mod context;
pub mod decode;
pub mod encode;
pub mod error;
pub mod from_toml;
pub mod laws;
pub mod package;
pub mod pkcs;
