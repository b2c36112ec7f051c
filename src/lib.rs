//! Membership and commitment core of a Raft-style consensus engine.
//!
//! `configuration` validates cluster membership and computes membership
//! transitions; `commitment` tracks voter replication progress and derives the
//! commit index by majority; `encoding` turns a configuration into bytes and
//! back; `commands` holds the peer message shapes.
pub mod commands;
pub mod commitment;
pub mod config;
pub mod configuration;
pub mod configuration_error;
pub mod encoding;
