//! The precompile chiplets: hash, byte-lookup, and elliptic-curve tables, and the bus messages
//! that tie them together.

pub mod air;
pub mod byte_pair_laws;
pub mod byte_pair_lut;
pub mod ec;
pub mod encoding_laws;
pub mod extension;
pub mod field;
pub mod fixed;
pub mod fixed_laws;
pub mod hash;
pub mod logup;
pub mod math;
pub mod meaning;
pub mod prime;
pub mod relations;
pub mod security;
pub mod security_laws;
pub mod trace;
pub mod transcript;
pub mod uint;
pub mod utils;
