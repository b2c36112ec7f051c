use crate::config::{ProtocolVersion, SnapshotVersion};
use vstd::prelude::*;

verus! {

/// The header carried by every peer message.
pub struct RPCHeader {
    pub protocol_version: ProtocolVersion,
    pub id: Box<[u8]>,
    pub addr: Box<[u8]>,
}

/// A message that carries an `RPCHeader`.
pub trait WithRPCHeader: Sized {
    /// The header of the message.
    spec fn header(&self) -> RPCHeader;

    /// Takes the header out of the message.
    #[allow(non_snake_case)]
    fn getRPCHeader(self) -> (r: RPCHeader)
        ensures
            r == self.header(),
    ;
}

/// One entry of the replicated log.
pub struct Log {
    pub index: u64,
    pub term: u64,
    pub data: Vec<u8>,
}

/// Replicates log entries; also used as a heartbeat.
pub struct AppendEntriesRequest {
    pub rpc_header: RPCHeader,
    pub term: u64,
    pub leader: Box<[u8]>,
    pub prev_log_entry: u64,
    pub prev_log_term: u64,
    pub entries: Vec<Log>,
    pub leader_commit_index: u64,
}

impl WithRPCHeader for AppendEntriesRequest {
    open spec fn header(&self) -> RPCHeader {
        self.rpc_header
    }

    fn getRPCHeader(self) -> (r: RPCHeader) {
        self.rpc_header
    }
}

/// The answer to an `AppendEntriesRequest`.
pub struct AppendEntriesResponse {
    pub rpc_header: RPCHeader,
    pub term: u64,
    pub last_log: u64,
    pub success: bool,
    pub no_retry_backoff: bool,
}

impl WithRPCHeader for AppendEntriesResponse {
    open spec fn header(&self) -> RPCHeader {
        self.rpc_header
    }

    fn getRPCHeader(self) -> (r: RPCHeader) {
        self.rpc_header
    }
}

/// Asks a peer for its vote.
pub struct RequestVoteRequest {
    pub rpc_header: RPCHeader,
    pub term: u64,
    pub candidate: Box<[u8]>,
    pub last_log_index: u64,
    pub last_log_term: u64,
    pub leadership_transfer: bool,
}

impl WithRPCHeader for RequestVoteRequest {
    open spec fn header(&self) -> RPCHeader {
        self.rpc_header
    }

    fn getRPCHeader(self) -> (r: RPCHeader) {
        self.rpc_header
    }
}

/// The answer to a `RequestVoteRequest`.
pub struct RequestVoteResponse {
    pub rpc_header: RPCHeader,
    pub term: u64,
    pub peers: Box<[u8]>,
    pub granted: bool,
}

impl WithRPCHeader for RequestVoteResponse {
    open spec fn header(&self) -> RPCHeader {
        self.rpc_header
    }

    fn getRPCHeader(self) -> (r: RPCHeader) {
        self.rpc_header
    }
}

/// Sends a snapshot to a peer that is too far behind.
pub struct InstallSnapshotRequest {
    pub rpc_header: RPCHeader,
    pub snapshot_version: SnapshotVersion,
    pub term: u64,
    pub leader: Box<[u8]>,
    pub last_log_index: u64,
    pub last_log_term: u64,
    pub peers: Box<[u8]>,
    pub configuration: Box<[u8]>,
    pub configuration_index: u64,
    pub size: i64,
}

impl WithRPCHeader for InstallSnapshotRequest {
    open spec fn header(&self) -> RPCHeader {
        self.rpc_header
    }

    fn getRPCHeader(self) -> (r: RPCHeader) {
        self.rpc_header
    }
}

/// The answer to an `InstallSnapshotRequest`.
pub struct InstallSnapshotResponse {
    pub rpc_header: RPCHeader,
    pub term: u64,
    pub success: bool,
}

impl WithRPCHeader for InstallSnapshotResponse {
    open spec fn header(&self) -> RPCHeader {
        self.rpc_header
    }

    fn getRPCHeader(self) -> (r: RPCHeader) {
        self.rpc_header
    }
}

/// Asks a peer to start an election at once.
pub struct TimeoutNowRequest {
    pub rpc_header: RPCHeader,
}

impl WithRPCHeader for TimeoutNowRequest {
    open spec fn header(&self) -> RPCHeader {
        self.rpc_header
    }

    fn getRPCHeader(self) -> (r: RPCHeader) {
        self.rpc_header
    }
}

/// The answer to a `TimeoutNowRequest`.
pub struct TimeoutNowResponse {
    pub rpc_header: RPCHeader,
}

impl WithRPCHeader for TimeoutNowResponse {
    open spec fn header(&self) -> RPCHeader {
        self.rpc_header
    }

    fn getRPCHeader(self) -> (r: RPCHeader) {
        self.rpc_header
    }
}

} // verus!
