pub mod store;

pub use self::store::{DataTypes, RequestType};
