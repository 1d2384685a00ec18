//! Cryptographic primitives (`utils`) and the key-chain and tag scheme built on
//! them (`algos`).

pub mod utils;
pub mod algos;
