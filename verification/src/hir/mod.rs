pub mod alignment;
pub mod codec;
pub mod copy;
pub mod enum_rules;
pub mod enum_type;
pub mod function_type;
pub mod kinds;
pub mod layout;
pub mod layout_laws;
pub mod messages;
pub mod metrics;
pub mod recursive;
pub mod render;
pub mod shape;
pub mod struct_type;
pub mod types;
pub mod unfold;
