//! Verified core of a terminal system-information fetch tool.
pub mod text;
pub mod color;
pub mod config;
pub mod display;
pub mod sysinfo;
pub mod order;
pub mod logo;
pub mod fetch;
pub mod literal;
pub mod ident;
