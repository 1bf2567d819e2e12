pub mod config;
pub mod credential;
pub mod ip;
pub mod ipaddr_source;
pub mod protocol;
pub mod provider;
pub mod types;
pub mod update;
