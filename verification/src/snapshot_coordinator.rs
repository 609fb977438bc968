//! Creates, installs and remembers snapshots of the replicated state.
use vstd::prelude::*;

use crate::consensus_state::Role;
use crate::text::{append_decimal, decimal};
use crate::voter::{VotersRecord, VotersRecordView};

verus! {

/// What a snapshot says about the log that it stands for.
#[derive(Debug, PartialEq, Eq)]
pub struct SnapshotMetadata {
    pub last_included_index: u64,
    pub last_included_term: u64,
    pub leader_epoch: u64,
    pub voters: VotersRecord,
}

#[verifier::ext_equal]
pub struct SnapshotMetadataView {
    pub last_included_index: u64,
    pub last_included_term: u64,
    pub leader_epoch: u64,
    pub voters: VotersRecordView,
}

impl View for SnapshotMetadata {
    type V = SnapshotMetadataView;

    open spec fn view(&self) -> SnapshotMetadataView {
        SnapshotMetadataView {
            last_included_index: self.last_included_index,
            last_included_term: self.last_included_term,
            leader_epoch: self.leader_epoch,
            voters: self.voters@,
        }
    }
}

/// The state of the application at one point of the log.
#[derive(Debug)]
pub struct Snapshot {
    pub metadata: SnapshotMetadata,
    pub data: Vec<u8>,
}

#[verifier::ext_equal]
pub struct SnapshotView {
    pub metadata: SnapshotMetadataView,
    pub data: Seq<u8>,
}

impl View for Snapshot {
    type V = SnapshotView;

    open spec fn view(&self) -> SnapshotView {
        SnapshotView { metadata: self.metadata@, data: self.data@ }
    }
}

/// The part of a node's state that goes into a snapshot.
#[derive(Debug)]
pub struct RaftState {
    pub current_term: u64,
    pub commit_index: u64,
    pub role: Role,
    pub voters: VotersRecord,
}

/// Remembers the latest snapshot, and where snapshots are stored.
#[derive(Debug)]
pub struct SnapshotCoordinator {
    snapshot_dir: String,
    latest: Option<Snapshot>,
}

#[verifier::ext_equal]
pub struct SnapshotCoordinatorView {
    pub snapshot_dir: Seq<char>,
    pub latest: Option<SnapshotView>,
}

impl View for SnapshotCoordinator {
    type V = SnapshotCoordinatorView;

    closed spec fn view(&self) -> SnapshotCoordinatorView {
        SnapshotCoordinatorView {
            snapshot_dir: self.snapshot_dir@,
            latest: match self.latest {
                Some(s) => Some(s@),
                None => None,
            },
        }
    }
}

/// The snapshot of a committed state.
pub open spec fn taken(
    commit_index: u64,
    current_term: u64,
    voters: VotersRecordView,
    leader_epoch: u64,
    committed_term: Option<u64>,
    data: Seq<u8>,
) -> SnapshotView {
    SnapshotView {
        metadata: SnapshotMetadataView {
            last_included_index: commit_index,
            last_included_term: match committed_term {
                Some(t) => t,
                None => current_term,
            },
            leader_epoch,
            voters,
        },
        data,
    }
}

impl SnapshotCoordinatorView {
    /// With another latest snapshot.
    pub open spec fn installed(self, snapshot: SnapshotView) -> Self {
        SnapshotCoordinatorView { latest: Some(snapshot), ..self }
    }

    /// The index before which the log can be discarded.
    pub open spec fn compact_index(self) -> Option<u64> {
        match self.latest {
            Some(s) => Some(s.metadata.last_included_index),
            None => None,
        }
    }
}

impl SnapshotCoordinator {
    pub fn new(snapshot_dir: String) -> (r: Self)
        ensures
            r@ == (SnapshotCoordinatorView { snapshot_dir: snapshot_dir@, latest: None }),
    {
        SnapshotCoordinator { snapshot_dir, latest: None }
    }

    /// The snapshot of the committed state. `leader_epoch` is the term of the
    /// leader whose log the snapshot stands for: a leader passes its own term,
    /// a follower that of its leader. `committed_term` is the term of the last
    /// committed entry, where the log still has that.
    ///
    /// The snapshot counts once it is on disk and was installed.
    pub fn create_snapshot(
        &self,
        state: &RaftState,
        leader_epoch: u64,
        committed_term: Option<u64>,
        state_machine_data: Vec<u8>,
    ) -> (s: Snapshot)
        ensures
            s@ == taken(
                state.commit_index,
                state.current_term,
                state.voters@,
                leader_epoch,
                committed_term,
                state_machine_data@,
            ),
    {
        let last_included_term: u64 = match committed_term {
            Some(t) => t,
            None => state.current_term,
        };
        Snapshot {
            metadata: SnapshotMetadata {
                last_included_index: state.commit_index,
                last_included_term,
                leader_epoch,
                voters: state.voters.clone(),
            },
            data: state_machine_data,
        }
    }

    /// Where the bytes of a snapshot are stored.
    pub fn snapshot_path(&self, snapshot: &Snapshot) -> (s: String)
        ensures
            s@ == self@.snapshot_dir + "/snapshot-"@ + decimal(
                snapshot.metadata.last_included_index as nat,
            ) + ".bin"@,
    {
        let mut s = String::from_str(self.snapshot_dir.as_str());
        s.append("/snapshot-");
        append_decimal(&mut s, snapshot.metadata.last_included_index);
        s.append(".bin");
        s
    }

    /// Takes over a snapshot that was stored: one that was created here or one
    /// from the leader.
    pub fn install_snapshot(&mut self, snapshot: Snapshot)
        ensures
            final(self)@ == old(self)@.installed(snapshot@),
    {
        self.latest = Some(snapshot);
    }

    /// The latest snapshot, if there is one.
    pub fn latest_snapshot(&self) -> (r: Option<&Snapshot>)
        ensures
            match self@.latest {
                Some(s) => r matches Some(found) && found@ == s,
                None => r is None,
            },
    {
        match &self.latest {
            Some(s) => Some(s),
            None => None,
        }
    }

    /// The index before which the log can be discarded, if any.
    pub fn compact_before(&self) -> (r: Option<u64>)
        ensures
            r == self@.compact_index(),
    {
        match &self.latest {
            Some(s) => Some(s.metadata.last_included_index),
            None => None,
        }
    }
}

/// A snapshot stands for everything up to what is committed, with the term of
/// the last committed entry, or the current term where the log no longer tells
/// it, and with the leader, voters and data it was given. Once it is installed
/// it is the latest, and the log can be discarded before its last entry.
pub proof fn law_snapshot_covers_committed(
    c: SnapshotCoordinatorView,
    commit_index: u64,
    current_term: u64,
    voters: VotersRecordView,
    leader_epoch: u64,
    committed_term: Option<u64>,
    data: Seq<u8>,
)
    ensures
        ({
            let s = taken(
                commit_index,
                current_term,
                voters,
                leader_epoch,
                committed_term,
                data,
            );
            &&& s.metadata.last_included_index == commit_index
            &&& committed_term matches Some(t) ==> s.metadata.last_included_term == t
            &&& committed_term is None ==> s.metadata.last_included_term == current_term
            &&& s.metadata.leader_epoch == leader_epoch
            &&& s.metadata.voters == voters
            &&& s.data == data
            &&& c.installed(s).latest == Some(s)
            &&& c.installed(s).snapshot_dir == c.snapshot_dir
            &&& c.installed(s).compact_index() == Some(commit_index)
            &&& c.latest is None ==> c.compact_index() is None
        }),
{
}

} // verus!
