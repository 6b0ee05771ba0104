pub mod channel;
pub mod engine;
pub mod store;
pub mod table;
pub mod types;
pub mod utils;
pub mod websocket;
