pub mod defaults;
pub mod fuzzy;
pub mod registry;
pub mod types;
