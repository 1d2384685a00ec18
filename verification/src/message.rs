//! What travels with a message: packets, reports and the edges they run along.

pub mod messaging;
