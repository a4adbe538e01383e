//! A credential helper's library: a persistent store holding one token per
//! server address, and the quoting of text for HCL configuration files.
pub mod hcl;
pub mod install;
pub mod store;
