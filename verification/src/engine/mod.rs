pub mod check_balance;
pub mod core_matching;
pub mod create_order;
pub mod delete_order;
pub mod engine;
pub mod get_depth;
pub mod helper;
pub mod laws;
pub mod liquidation;
pub mod model;
pub mod position;
pub mod types;
