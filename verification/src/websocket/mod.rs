pub mod connection;
pub mod types;
