use vstd::prelude::*;

verus! {

/// The version of the peer protocol a server speaks.
pub type ProtocolVersion = u32;

/// The lowest protocol version understood.
pub const PROTOCOL_VERSION_MIN: ProtocolVersion = 0;

/// The highest protocol version understood.
pub const PROTOCOL_VERSION_MAX: ProtocolVersion = 3;

/// The version of the snapshot format.
pub type SnapshotVersion = u32;

/// The lowest snapshot version understood.
pub const SNAPSHOT_VERSION_MIN: SnapshotVersion = 0;

/// The highest snapshot version understood.
pub const SNAPSHOT_VERSION_MAX: SnapshotVersion = 1;

/// Whether a protocol version lies in the supported range.
pub fn is_supported_protocol_version(v: ProtocolVersion) -> (r: bool)
    ensures
        r == (PROTOCOL_VERSION_MIN <= v <= PROTOCOL_VERSION_MAX),
{
    PROTOCOL_VERSION_MIN <= v && v <= PROTOCOL_VERSION_MAX
}

/// Whether a snapshot version lies in the supported range.
pub fn is_supported_snapshot_version(v: SnapshotVersion) -> (r: bool)
    ensures
        r == (SNAPSHOT_VERSION_MIN <= v <= SNAPSHOT_VERSION_MAX),
{
    SNAPSHOT_VERSION_MIN <= v && v <= SNAPSHOT_VERSION_MAX
}

/// Tuning of a consensus server.
pub struct Config {
    pub protocol_version: ProtocolVersion,
    pub heartbeat_timeout: std::time::Duration,
    pub election_timeout: std::time::Duration,
    pub commit_timeout: std::time::Duration,
    pub max_append_entries: u32,
    pub batch_apply_ch: bool,
    pub shutdown_on_remove: bool,
    pub trailing_logs: u64,
    pub snapshot_interval: std::time::Duration,
    pub snapshot_threshold: u64,
    pub leader_lease_timeout: std::time::Duration,
}

} // verus!
