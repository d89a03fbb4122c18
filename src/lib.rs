//! Runtime state for a web framework: the path resolver, CSRF tokens,
//! the audit log and the recent-error ring.

pub mod audit;
pub mod clock;
pub mod csrf;
pub mod errors;
pub mod expire;
pub mod hex;
pub mod mac;
pub mod mail;
pub mod paths;
pub mod text;
pub mod types;
pub mod urlencoded;
