# xraft

A Raft consensus library whose logic is verified with Verus.

Followers pull the log from the leader. Elections can be preceded by a pre-vote
round, a leader steps down when it loses its quorum, the voter set changes one
change at a time, and the log is kept in CRC-protected segments.

## Layout

- `src/` is the verified library. Each function is a transition on plain
  values: it takes the state, a message or what a file holds, the time and a
  random timeout, and returns the new state and what is to be done.
- `tests/` runs the library.
- `app/` is the runtime around it: async traits for storage, transport and
  clock, the event loop task, and the files of the stores.

## Modules

| Area | Modules |
| --- | --- |
| Values | `types`, `text`, `error`, `voter`, `app_record`, `log_entry`, `quorum_state`, `consensus_state`, `rpc`, `snapshot`, `config` |
| Encodings | `codec` |
| Node | `node_state`, `node_set`, `follower_progress`, `epochs`, `raft_node`, `event_loop` |
| Elections | `election`, `pre_vote` |
| Replication | `replication`, `deferred_completion`, `commit_channel` |
| Membership | `membership` |
| Application | `traits`, `listener`, `listener_event` |
| I/O plans | `io_action`, `io_stage` |
| Log on disk | `segment_index`, `segment`, `segment_laws`, `segment_log`, `segment_log_laws` |
| Other stores | `memory_log`, `memory_log_store`, `memory_quorum_state`, `leader_epoch_checkpoint`, `snapshot_store`, `snapshot_coordinator` |

Functions named `law_...` are proofs of what holds of several functions
together: that a node votes once per term, that committed entries are never
truncated, that a read gives back what was appended, that reopening a damaged
log gives exactly the entries before the first damaged batch.

## What is trusted

The contracts of the wrappers around `bytes`, `bincode`, `crc32c`, `uuid` and
`tokio::sync::oneshot`, and of three functions of `std`'s collections. Each
wrapper says what it claims of the function it calls.
