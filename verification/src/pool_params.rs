//! Command-line parameters that size the node's transaction pool, and the
//! pool configuration computed from them.

use vstd::prelude::*;

verus! {

/// Size limit of one pool queue.
#[derive(Debug, Clone, Copy, PartialEq, Eq, Structural)]
pub struct PoolLimit {
    /// Maximum number of transactions in the queue.
    pub count: usize,
    /// Maximum total size in bytes of the queued transactions.
    pub total_bytes: usize,
}

/// Limits of the transaction pool's ready and future queues.
#[derive(Debug, Clone, Copy, PartialEq, Eq, Structural)]
pub struct TransactionPoolOptions {
    /// Limits of the ready queue.
    pub ready: PoolLimit,
    /// Limits of the future queue.
    pub future: PoolLimit,
}

/// Parameters used to create the pool configuration.
#[derive(Debug, Clone, Copy, PartialEq, Eq, Structural)]
pub struct TransactionPoolParams {
    /// Maximum number of transactions in the transaction pool.
    pub pool_limit: usize,
    /// Maximum number of kilobytes of all transactions stored in the pool.
    pub pool_kbytes: usize,
}

impl TransactionPoolParams {
    /// Fills the pool configuration from the parameters: the ready queue
    /// takes the configured count and byte total, the future queue a
    /// tenth of each.
    pub fn transaction_pool(&self) -> (r: TransactionPoolOptions)
        requires
            self.pool_kbytes * 1024 <= usize::MAX,
        ensures
            r.ready.count == self.pool_limit,
            r.ready.total_bytes == self.pool_kbytes * 1024,
            r.future.count == self.pool_limit / 10,
            r.future.total_bytes == self.pool_kbytes * 1024 / 10,
    {
        let total = self.pool_kbytes * 1024;
        let factor: usize = 10;
        TransactionPoolOptions {
            ready: PoolLimit { count: self.pool_limit, total_bytes: total },
            future: PoolLimit { count: self.pool_limit / factor, total_bytes: total / factor },
        }
    }
}

} // verus!
