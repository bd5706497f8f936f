//! Content discovery for web servers: candidate paths are derived from a
//! wordlist, each one is probed, and the answers worth a look are reported.

pub mod args;
pub mod error;
pub mod scanner;
pub mod text;
pub mod url;
