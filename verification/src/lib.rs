//! Core of a peer-to-peer query-propagation node: typed values and rows,
//! a boolean expression evaluator, a per-table subscription index, an
//! append-only in-memory store, and the state machine of the connection
//! multiplexer. All I/O lives outside this crate; everything here is
//! plain data and verified logic.

pub mod constraint;
pub mod db;
pub mod expression;
pub mod insert_query;
pub mod messaging;
pub mod row;
pub mod runtime;
pub mod select_index;
pub mod select_query;
pub mod statement;
pub mod string_map;
pub mod tcp_stream_message;
pub mod values;
