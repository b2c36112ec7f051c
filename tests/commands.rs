use raft_core::commands::{RPCHeader, TimeoutNowRequest, WithRPCHeader};
use raft_core::config::{is_supported_protocol_version, is_supported_snapshot_version};

#[test]
fn header_is_handed_back() {
    let header = RPCHeader {
        protocol_version: 3,
        id: vec![b'A'].into_boxed_slice(),
        addr: vec![b'a', b':', b'1'].into_boxed_slice(),
    };
    let req = TimeoutNowRequest { rpc_header: header };
    let h = req.getRPCHeader();
    assert_eq!(h.protocol_version, 3);
    assert_eq!(&h.id[..], b"A");
    assert_eq!(&h.addr[..], b"a:1");
}

#[test]
fn version_ranges() {
    assert!(is_supported_protocol_version(0));
    assert!(is_supported_protocol_version(3));
    assert!(!is_supported_protocol_version(4));
    assert!(is_supported_snapshot_version(1));
    assert!(!is_supported_snapshot_version(2));
}
