//! Privacy-preserving traceback for end-to-end encrypted messaging.
//!
//! A sender threads a per-hop tag key through a chain of block-cipher
//! encryptions and leaves one short opaque tag per hop in a membership index.
//! From one report (a tag key and the message) the search rebuilds the
//! forwarding graph of that message, without any record of messages or of
//! who talks to whom beyond those tags.
//!
//! - [`tool`]: the cryptographic primitives, the key chain and the tag scheme.
//! - [`message`]: packets and reports; sending, receiving, reporting.
//! - [`db`]: the membership index, the identity keys and the neighbor index,
//!   in their exact in-memory forms.
//! - [`trace`]: the bidirectional search, round by round and as a whole, and
//!   what holds of every trace.
//! - [`fuzzy_traceback`], [`confidence`]: the tables of a trace against an
//!   index that may answer falsely, and what the confidence of a traced node
//!   is computed from.
//! - [`simulation`], [`evaluation`], [`rwc_eval`], [`visualize`]: helpers for
//!   simulated traces and evaluation runs.

pub mod confidence;
pub mod db;
pub mod evaluation;
pub mod fuzzy_traceback;
pub mod message;
pub mod rwc_eval;
pub mod simulation;
pub mod tool;
pub mod trace;
pub mod visualize;
