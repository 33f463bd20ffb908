//! The Keccak-256 chiplets.

pub mod balance;
pub mod digest;
pub mod node;
pub mod node_laws;
pub mod node_meaning;
pub mod permutation;
pub mod reference;
pub mod round;
pub mod round_meaning;
pub mod round_rules;
pub mod sponge;
pub mod sponge_laws;
pub mod sponge_meaning;
pub mod sponge_rules;
pub mod words;
