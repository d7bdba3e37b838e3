//! Carry propagation for integers that are encrypted digit by digit.
//!
//! An integer is held as a sequence of blocks, least significant first, each block one
//! ciphertext of the single-block scheme in `concrete_shortint`. Homomorphic additions let
//! the blocks accumulate more than a digit. The server key of this crate fixes how far a
//! block may go, and its propagation functions bring every block back to a single digit,
//! moving each carry into the next block.
//!
//! - `server_key` holds the key and the operations: key generation, the trivial zero, and
//!   propagation, step by step or as a full pass, sequential or concurrent.
//! - `ciphertext` and `client_key` hold the two other types.
//! - `headroom` is the bound that the key sets on a block.
//! - `propagation` says what a step and a pass do to the degrees of the blocks.
//! - `digits` is the arithmetic of the ripple on plain numbers.
//! - `decryption` says what a pass does to the numbers in the blocks, provided that the
//!   single-block scheme is exact.
//! - `shortint` is the single-block scheme as this library sees it, with the contracts
//!   that are taken on trust.

pub mod ciphertext;
pub mod client_key;
pub mod decryption;
pub mod digits;
pub mod headroom;
pub mod propagation;
pub mod server_key;
pub mod shortint;

pub use ciphertext::{Ciphertext, KeyId};
pub use client_key::ClientKey;
/// Error returned when the carry buffer is full.
pub use concrete_shortint::CheckError;
pub use server_key::ServerKey;
