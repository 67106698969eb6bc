pub mod dataset;
pub mod header;
pub mod message;
