//! Verified core of the stryke Spark client.

pub mod call;
pub mod error;
pub mod exports;
pub mod helper;
pub mod ident;
pub mod json;
pub mod launch;
pub mod master;
pub mod memory;
pub mod names;
pub mod opts;
pub mod requests;
pub mod text;
pub mod wire;
