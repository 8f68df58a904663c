pub mod taxonomy;
pub mod catalogue;
pub mod registry;
pub mod context;
pub mod config;
