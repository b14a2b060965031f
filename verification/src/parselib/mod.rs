//! Finding the words of a command line that an argument claims.

pub mod utils;
pub mod matcher;
pub mod laws;
