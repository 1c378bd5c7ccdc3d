pub mod config;
pub mod error;
pub mod query;
pub mod text;
pub mod ts;
pub mod written;
