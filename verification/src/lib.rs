pub mod hir;
pub mod precompiles;
pub mod registry;
pub mod text;
