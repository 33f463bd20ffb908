//! Package metadata, and where it is looked up.
pub mod query;
pub mod record;
pub mod requirements;
pub mod semver;
pub mod store;
pub mod versions;
