//! Reading of PX4 ULog flight logs.
//!
//! The heart of the crate is `stream_parser`: a parser that takes the log
//! in pieces, frames its records, keeps the message formats that it
//! defines, lays them out flat, and hands out the data records and the
//! logged lines. `parser` and `models` hold what a reader needs that seeks
//! in a log file; `full_parser` gathers the values of the data records
//! field by field; `unpack` reads little-endian numbers.

pub mod full_parser;
pub mod models;
pub mod parser;
pub mod stream_parser;
pub mod text;
pub mod unpack;
