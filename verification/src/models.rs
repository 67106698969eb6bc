pub mod data;
pub mod message;

pub use self::data::ULogData;
pub use self::message::{MessageType, ULogMessage};
