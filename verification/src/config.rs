//! Configuration of a node.
use vstd::prelude::*;

use crate::text::{append_decimal, decimal};

verus! {

/// Configuration for a Raft node.
///
/// Holds the timing parameters, batching limits, snapshot cadence, and
/// on-disk data location the consensus engine needs. The node's identifier
/// and the cluster identity are passed separately and are not fields here.
///
/// All timing values are in milliseconds, kept as plain integers.
#[derive(Debug, PartialEq, Eq)]
pub struct RaftConfig {
    /// Lower bound for the randomised election timeout (milliseconds).
    ///
    /// A follower that has not received a valid Fetch response within a
    /// randomly chosen interval in `[election_timeout_min_ms,
    /// election_timeout_max_ms)` becomes a candidate and starts a new
    /// election.
    pub election_timeout_min_ms: u64,
    /// Upper bound (exclusive) for the randomised election timeout
    /// (milliseconds). Must be strictly greater than `election_timeout_min_ms`
    /// so that randomisation has a non-empty range.
    pub election_timeout_max_ms: u64,
    /// Periodic Fetch RPC interval used by followers to pull log entries from
    /// the leader (milliseconds). Must be strictly less than
    /// `election_timeout_min_ms` so that healthy followers can refresh their
    /// liveness signal before the election timer would otherwise fire.
    pub fetch_interval_ms: u64,
    /// Maximum number of entries the leader will drain from its batch
    /// accumulator in a single event-loop tick when building a Fetch response.
    pub max_batch_size: usize,
    /// Maximum payload size (in bytes) for a single Fetch RPC response. Acts
    /// as a network-side flow-control bound complementary to `max_batch_size`.
    pub max_fetch_bytes: u32,
    /// Number of committed entries between automatic snapshot triggers.
    pub snapshot_interval: u64,
    /// Root directory under which the storage layer places log segments,
    /// snapshots, and the persisted quorum-state file.
    pub data_dir: String,
}

impl Default for RaftConfig {
    /// Returns the canonical default configuration.
    ///
    /// The defaults satisfy the timing invariants enforced by
    /// [`RaftConfig::validate`].
    fn default() -> (r: Self)
        ensures
            r.election_timeout_min_ms == 150,
            r.election_timeout_max_ms == 300,
            r.fetch_interval_ms == 50,
            r.max_batch_size == 256,
            r.max_fetch_bytes == 1_048_576,
            r.snapshot_interval == 10_000,
            r.data_dir@ == "data"@,
            r.timing_error() is None,
    {
        RaftConfig {
            election_timeout_min_ms: 150,
            election_timeout_max_ms: 300,
            fetch_interval_ms: 50,
            max_batch_size: 256,
            max_fetch_bytes: 1_048_576,
            snapshot_interval: 10_000,
            data_dir: String::from_str("data"),
        }
    }
}

impl RaftConfig {
    /// The first timing invariant that the configuration breaks, as a message.
    pub open spec fn timing_error(self) -> Option<Seq<char>> {
        if self.election_timeout_min_ms >= self.election_timeout_max_ms {
            Some(
                "election_timeout_min_ms ("@ + decimal(self.election_timeout_min_ms as nat)
                    + ") must be < election_timeout_max_ms ("@ + decimal(
                    self.election_timeout_max_ms as nat,
                ) + ")"@,
            )
        } else if self.fetch_interval_ms >= self.election_timeout_min_ms {
            Some(
                "fetch_interval_ms ("@ + decimal(self.fetch_interval_ms as nat)
                    + ") must be < election_timeout_min_ms ("@ + decimal(
                    self.election_timeout_min_ms as nat,
                ) + ")"@,
            )
        } else {
            None
        }
    }

    /// Validate the configuration against the Raft timing invariants required
    /// for correctness:
    ///
    /// 1. `election_timeout_min_ms < election_timeout_max_ms`: the random
    ///    election timeout must be sampled from a non-empty range.
    /// 2. `fetch_interval_ms < election_timeout_min_ms`: followers must be
    ///    able to refresh their liveness contact with the leader before the
    ///    earliest possible election firing.
    ///
    /// Returns `Ok(())` on success or a descriptive message on the first
    /// invariant that fails.
    pub fn validate(&self) -> (r: Result<(), String>)
        ensures
            match r {
                Ok(_) => self.timing_error() is None,
                Err(m) => self.timing_error() == Some(m@),
            },
            r is Ok <==> self.fetch_interval_ms < self.election_timeout_min_ms
                < self.election_timeout_max_ms,
    {
        if self.election_timeout_min_ms >= self.election_timeout_max_ms {
            let mut m = String::from_str("election_timeout_min_ms (");
            append_decimal(&mut m, self.election_timeout_min_ms);
            m.append(") must be < election_timeout_max_ms (");
            append_decimal(&mut m, self.election_timeout_max_ms);
            m.append(")");
            return Err(m);
        }
        if self.fetch_interval_ms >= self.election_timeout_min_ms {
            let mut m = String::from_str("fetch_interval_ms (");
            append_decimal(&mut m, self.fetch_interval_ms);
            m.append(") must be < election_timeout_min_ms (");
            append_decimal(&mut m, self.election_timeout_min_ms);
            m.append(")");
            return Err(m);
        }
        Ok(())
    }
}

/// A configuration is in order exactly if a follower fetches more often than
/// the shortest election timeout, and the timeouts leave room to draw from.
pub proof fn law_timing(config: RaftConfig)
    ensures
        config.timing_error() is None <==> config.fetch_interval_ms
            < config.election_timeout_min_ms && config.election_timeout_min_ms
            < config.election_timeout_max_ms,
{
}

} // verus!
