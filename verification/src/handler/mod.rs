//! What the server does with each command: the state it leaves and the reply it writes.

pub mod common;
pub mod storage;
pub mod retrieval;
pub mod arith;
pub mod keyed;
pub mod admin;
pub mod dispatch;
