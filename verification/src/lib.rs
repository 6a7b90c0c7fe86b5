//! Per-connection protocol multiplexer for a peer-to-peer networking node,
//! together with the transaction-validity value types, transaction-pool
//! sizing parameters, and the pure part of the node's system RPC service.

pub mod handler;
pub mod pool_params;
pub mod scale;
pub mod system;
pub mod transaction_validity;
