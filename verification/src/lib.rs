//! The core of a Gate.io order book client: what the exchange's messages mean,
//! how a local order book is kept in step with them, and which requests go out.

pub mod amount;
pub mod asset;
pub mod book_laws;
pub mod connection;
pub mod decimal;
pub mod gate;
pub mod gate_laws;
pub mod history;
pub mod http;
pub mod input_laws;
pub mod json;
pub mod ladder;
pub mod laws;
pub mod market;
pub mod order;
pub mod request_laws;
pub mod snapshot;
pub mod symbol;
pub mod text;
pub mod tracking;
pub mod update;
