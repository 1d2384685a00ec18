//! The bidirectional traceback search.

pub mod laws;
pub mod state;
pub mod traceback;
