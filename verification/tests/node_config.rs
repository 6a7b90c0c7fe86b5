use proto_mux::pool_params::TransactionPoolParams;
use proto_mux::system::reserved_peer_response;
use proto_mux::system::PeerRequestOutcome;
use proto_mux::system::SystemInfo;
use proto_mux::system::SystemRpcError;

#[test]
fn transaction_pool_splits_limits() {
    let params = TransactionPoolParams { pool_limit: 8192, pool_kbytes: 20480 };
    let opts = params.transaction_pool();
    assert_eq!(opts.ready.count, 8192);
    assert_eq!(opts.ready.total_bytes, 20480 * 1024);
    assert_eq!(opts.future.count, 819);
    assert_eq!(opts.future.total_bytes, 20480 * 1024 / 10);
}

#[test]
fn system_info_queries_return_the_stored_values() {
    let info = SystemInfo {
        impl_name: String::from("test-node"),
        impl_version: String::from("0.1.0"),
        chain_name: String::from("dev"),
        properties: String::from("{}"),
    };
    assert_eq!(info.system_name(), "test-node");
    assert_eq!(info.system_version(), "0.1.0");
    assert_eq!(info.system_chain(), "dev");
    assert_eq!(info.system_properties(), "{}");
}

#[test]
fn reserved_peer_replies_map_to_rpc_results() {
    assert_eq!(
        reserved_peer_response(PeerRequestOutcome::Answered { result: Ok(()) }),
        Ok(())
    );
    assert_eq!(
        reserved_peer_response(PeerRequestOutcome::Answered {
            result: Err(String::from("bad peer id")),
        }),
        Err(SystemRpcError::Rejected { message: String::from("bad peer id") })
    );
    assert_eq!(
        reserved_peer_response(PeerRequestOutcome::Canceled),
        Err(SystemRpcError::Internal)
    );
}
