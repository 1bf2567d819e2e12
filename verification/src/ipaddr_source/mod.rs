pub mod error;
pub mod interface;
pub mod web_source;
