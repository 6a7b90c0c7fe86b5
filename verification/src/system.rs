//! The pure part of the node's system RPC service: the static node
//! information its simple queries answer with, and the translation of a
//! background worker's reply into an RPC response.  The channels that
//! carry requests to the worker live with the RPC server, outside this
//! library.

use vstd::prelude::*;

verus! {

/// Static information about the running node.
#[derive(Debug, Clone, PartialEq, Eq)]
pub struct SystemInfo {
    /// Implementation name.
    pub impl_name: String,
    /// Implementation version.
    pub impl_version: String,
    /// Name of the chain the node follows.
    pub chain_name: String,
    /// Chain properties, carried opaquely as their textual form.
    pub properties: String,
}

impl SystemInfo {
    /// The node's name, as the RPC reports it.
    pub fn system_name(&self) -> (r: String)
        ensures
            r == self.impl_name,
    {
        self.impl_name.clone()
    }

    /// The node's version, as the RPC reports it.
    pub fn system_version(&self) -> (r: String)
        ensures
            r == self.impl_version,
    {
        self.impl_version.clone()
    }

    /// The chain's name, as the RPC reports it.
    pub fn system_chain(&self) -> (r: String)
        ensures
            r == self.chain_name,
    {
        self.chain_name.clone()
    }

    /// The chain's properties, as the RPC reports them.
    pub fn system_properties(&self) -> (r: String)
        ensures
            r == self.properties,
    {
        self.properties.clone()
    }
}

/// What came back for an add- or remove-reserved-peer request handed to
/// the background worker.
#[derive(Debug, PartialEq, Eq)]
pub enum PeerRequestOutcome {
    /// The worker answered: `Ok` or the text of the rejection.
    Answered {
        /// The worker's verdict.
        result: Result<(), String>,
    },
    /// The worker dropped the request without answering.
    Canceled,
}

/// Error an add- or remove-reserved-peer RPC call resolves to.
#[derive(Debug, Clone, PartialEq, Eq)]
pub enum SystemRpcError {
    /// The worker rejected the request, with its explanation.
    Rejected {
        /// Text of the rejection.
        message: String,
    },
    /// The request was lost inside the node.
    Internal,
}

/// Resolves an add- or remove-reserved-peer request from the worker's
/// reply: success passes through, a rejection keeps its text, and a lost
/// request becomes an internal error.
pub fn reserved_peer_response(outcome: PeerRequestOutcome) -> (r: Result<(), SystemRpcError>)
    ensures
        r == (match outcome {
            PeerRequestOutcome::Answered { result: Ok(()) } => Ok::<(), SystemRpcError>(()),
            PeerRequestOutcome::Answered { result: Err(m) } => Err::<(), SystemRpcError>(
                SystemRpcError::Rejected { message: m },
            ),
            PeerRequestOutcome::Canceled => Err::<(), SystemRpcError>(SystemRpcError::Internal),
        }),
{
    match outcome {
        PeerRequestOutcome::Answered { result: Ok(()) } => Ok(()),
        PeerRequestOutcome::Answered { result: Err(m) } => Err(
            SystemRpcError::Rejected { message: m },
        ),
        PeerRequestOutcome::Canceled => Err(SystemRpcError::Internal),
    }
}

} // verus!
