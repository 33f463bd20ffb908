//! Hashers and the tables they share: the 64-bit memory bus, the input chunk tape, and Keccak.

pub mod chunk;
pub mod chunk_node;
pub mod chunk_node_sponge;
pub mod keccak;
pub mod memory64;
pub mod tape_laws;
