//! Facts about the running system, gathered from the text of the operating
//! system's descriptors and formatted for display beside a logo.
pub mod error;
pub mod hardware;
pub mod identity;
pub mod number;
pub mod packages;
pub mod render;
pub mod shell;
pub mod text;
pub mod uptime;
