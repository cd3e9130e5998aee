pub mod registry;
pub mod session;
pub mod shell;
pub mod types;
