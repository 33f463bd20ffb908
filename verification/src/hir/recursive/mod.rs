pub mod assemble;
pub mod builder;
pub mod definitions;
pub mod exact;
pub mod graph;
pub mod group;
pub mod identity;
pub mod invariance;
pub mod key;
pub mod laws;
pub mod likeness;
pub mod meaning;
pub mod quotient;
pub mod rank;
pub mod rules;
pub mod scope;
pub mod shown;
pub mod spelling;
pub mod template;
