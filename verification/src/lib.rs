//! A Raft consensus library: pull-based log replication, elections with a
//! pre-vote round, membership changes, snapshots and a segmented log.
//!
//! Every function here is a transition on plain values. Sockets, files, clocks
//! and the async runtime live outside the library, which receives what they
//! produced and returns what they are to do next.
pub mod text;
pub mod types;
pub mod codec;
pub mod error;
pub mod voter;
pub mod app_record;
pub mod log_entry;
pub mod consensus_state;
pub mod quorum_state;
pub mod follower_progress;
pub mod node_set;
pub mod snapshot;
pub mod rpc;
pub mod io_action;
pub mod commit_channel;
pub mod deferred_completion;
pub mod node_state;
pub mod node_state_laws;
pub mod traits;
pub mod listener;
pub mod listener_event;
pub mod config;
pub mod epochs;
pub mod replication;
pub mod replication_laws;
pub mod election;
pub mod election_laws;
pub mod event_loop;
pub mod event_loop_laws;
pub mod io_stage;
pub mod raft_node;
pub mod raft_node_laws;
pub mod membership;
pub mod pre_vote;
pub mod pre_vote_laws;
pub mod segment_index;
pub mod segment;
pub mod segment_laws;
pub mod segment_log;
pub mod segment_log_laws;
pub mod storage_laws;
pub mod memory_log;
pub mod memory_log_store;
pub mod memory_quorum_state;
pub mod leader_epoch_checkpoint;
pub mod snapshot_store;
pub mod snapshot_coordinator;

pub use app_record::{AppRecord, AppSnapshot};
pub use config::RaftConfig;
pub use error::XraftError;
pub use log_entry::{EntryType, LogEntry};
pub use node_state::{NodeState, PendingMembershipChange};
pub use quorum_state::QuorumState;
pub use snapshot::{Snapshot, SnapshotId, SnapshotMetadata, SnapshotReader, SnapshotWriter};
pub use types::{ClusterId, NodeId, Offset, Term};
pub use voter::{VoterInfo, VotersRecord};
