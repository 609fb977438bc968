//! The start offsets of leader epochs, as they are kept on disk.
use std::collections::BTreeMap;

use vstd::prelude::*;

use crate::codec::{
    deserialize_map, encodes_map, lemma_map_round_trip, map_decoding, serialize_map,
};
use crate::error::{XraftError, XraftErrorView};

verus! {

broadcast use vstd::std_specs::btree::group_btree_axioms;

/// Maps leader epochs to the offsets at which they start. It serves to detect
/// divergence when a follower fetches, and is rebuilt from the log where its
/// file is missing.
#[derive(Debug)]
pub struct LeaderEpochCheckpoint {
    epochs: BTreeMap<u64, u64>,
}

impl View for LeaderEpochCheckpoint {
    type V = Map<u64, u64>;

    closed spec fn view(&self) -> Map<u64, u64> {
        self.epochs@
    }
}

/// The epochs that a file holds, or `None` where it is damaged. An empty file
/// holds none.
pub open spec fn stored_epochs(data: Seq<u8>) -> Option<Map<u64, u64>> {
    if data.len() == 0 {
        Some(Map::empty())
    } else {
        map_decoding(data)
    }
}

/// The epochs with one recorded.
pub open spec fn recorded(m: Map<u64, u64>, epoch: u64, start_offset: u64) -> Map<u64, u64> {
    m.insert(epoch, start_offset)
}

/// Where an epoch starts, if it is on record.
pub open spec fn start_of(m: Map<u64, u64>, epoch: u64) -> Option<u64> {
    if m.contains_key(epoch) {
        Some(m[epoch])
    } else {
        None
    }
}

/// `e` is the last epoch of the map that is not after `epoch`.
pub open spec fn is_last_at_or_before(m: Map<u64, u64>, epoch: u64, e: u64) -> bool {
    &&& m.contains_key(e)
    &&& e <= epoch
    &&& forall|k: u64| #[trigger] m.contains_key(k) && k <= epoch ==> k <= e
}

/// An epoch that is not after `epoch` is not after the best one either.
spec fn at_most(t: u64, best: Option<(u64, u64)>, epoch: u64) -> bool {
    t <= epoch ==> (best matches Some(p) && t <= p.0)
}

impl LeaderEpochCheckpoint {
    /// The checkpoint in the bytes of its file. An empty file holds none. What
    /// the decoder says of a damaged one is left open.
    pub fn open(data: &[u8]) -> (r: Result<Self, XraftError>)
        ensures
            r is Ok <==> stored_epochs(data@) is Some,
            r matches Ok(c) ==> stored_epochs(data@) == Some(c@),
            r matches Err(e) ==> e@ matches XraftErrorView::Corruption(m)
                && "leader-epoch-checkpoint parse error: "@.is_prefix_of(m),
    {
        if data.len() == 0 {
            return Ok(LeaderEpochCheckpoint { epochs: BTreeMap::new() });
        }
        match deserialize_map(data) {
            Ok(epochs) => Ok(LeaderEpochCheckpoint { epochs }),
            Err(cause) => {
                let mut m = String::from_str("leader-epoch-checkpoint parse error: ");
                let ghost prefix = m@;
                m.append(cause.as_str());
                assert(m@.take(prefix.len() as int) =~= prefix);
                Err(XraftError::Corruption(m))
            },
        }
    }

    /// The bytes of the checkpoint's file. Opening them gives the checkpoint
    /// back.
    pub fn encode(&self) -> (b: Vec<u8>)
        ensures
            encodes_map(b@, self@),
            stored_epochs(b@) == Some(self@),
    {
        let b = serialize_map(&self.epochs);
        proof {
            lemma_map_round_trip(b@, self@);
        }
        b
    }

    /// Records an epoch. Recording it again with the same offset changes
    /// nothing.
    pub fn append(&mut self, epoch: u64, start_offset: u64)
        ensures
            final(self)@ == recorded(old(self)@, epoch, start_offset),
    {
        self.epochs.insert(epoch, start_offset);
    }

    /// The start offset of an epoch.
    pub fn lookup(&self, epoch: u64) -> (r: Option<u64>)
        ensures
            r == start_of(self@, epoch),
    {
        match self.epochs.get(&epoch) {
            Some(o) => Some(*o),
            None => None,
        }
    }

    /// The last epoch at or before `epoch`, with its start offset.
    pub fn lookup_le(&self, epoch: u64) -> (r: Option<(u64, u64)>)
        ensures
            r is None <==> (forall|k: u64| #[trigger] self@.contains_key(k) ==> k > epoch),
            r matches Some(p) ==> is_last_at_or_before(self@, epoch, p.0) && self@[p.0] == p.1,
    {
        let mut best: Option<(u64, u64)> = None;
        for entry in it: self.epochs.iter()
            invariant
                forall|t: u64| #[trigger]
                    at_most(t, best, epoch) <== exists|i: int|
                        0 <= i < it.index() && *(#[trigger] it.seq()[i]).0 == t,
                best matches Some(p) ==> {
                    &&& p.0 <= epoch
                    &&& exists|i: int|
                        0 <= i < it.index() && *(#[trigger] it.seq()[i]).0 == p.0 && *it.seq()[i].1
                            == p.1
                },
        {
            let (k, o) = (*entry.0, *entry.1);
            let better = match best {
                None => true,
                Some(p) => k > p.0,
            };
            let ghost before = best;
            if k <= epoch && better {
                best = Some((k, o));
            }
            proof {
                let now = it.index();
                assert(*it.seq()[now].0 == k && *it.seq()[now].1 == o);
                assert forall|t: u64|
                    (exists|i: int| 0 <= i < now + 1 && *(#[trigger] it.seq()[i]).0 == t) implies
                    #[trigger] at_most(t, best, epoch) by {
                    let i = choose|i: int| 0 <= i < now + 1 && *(#[trigger] it.seq()[i]).0 == t;
                    if i < now {
                        assert(*it.seq()[i].0 == t);
                        assert(at_most(t, before, epoch));
                    }
                }
                if best == before && before is Some {
                    let p = before->0;
                    let i = choose|i: int|
                        0 <= i < now && *(#[trigger] it.seq()[i]).0 == p.0 && *it.seq()[i].1
                            == p.1;
                    assert(0 <= i < now + 1 && *it.seq()[i].0 == p.0);
                }
            }
        }
        proof {
            assert forall|k: u64| #[trigger] self@.contains_key(k) implies at_most(
                k,
                best,
                epoch,
            ) by {
            }
            assert(best matches Some(p) ==> self@.contains_key(p.0) && self@[p.0] == p.1);
        }
        best
    }

    /// All epochs with their start offsets.
    pub fn all_epochs(&self) -> (r: BTreeMap<u64, u64>)
        ensures
            r@ == self@,
    {
        self.epochs.clone()
    }

    /// Puts other epochs in place of all, as after a scan of the log.
    pub fn rebuild(&mut self, entries: BTreeMap<u64, u64>)
        ensures
            final(self)@ == entries@,
    {
        self.epochs = entries;
    }
}

/// Recording an epoch twice is the same as recording it once.
pub proof fn law_append_is_idempotent(m: Map<u64, u64>, epoch: u64, start_offset: u64)
    ensures
        recorded(recorded(m, epoch, start_offset), epoch, start_offset) == recorded(
            m,
            epoch,
            start_offset,
        ),
{
    assert(recorded(recorded(m, epoch, start_offset), epoch, start_offset) =~= recorded(
        m,
        epoch,
        start_offset,
    ));
}

/// What was recorded last of an epoch is what a look-up finds, and the other
/// epochs are found as before.
pub proof fn law_append_then_lookup(m: Map<u64, u64>, epoch: u64, start_offset: u64, other: u64)
    ensures
        start_of(recorded(m, epoch, start_offset), epoch) == Some(start_offset),
        other != epoch ==> start_of(recorded(m, epoch, start_offset), other) == start_of(m, other),
        start_of(m, other) is Some <==> m.contains_key(other),
        start_of(m, other) matches Some(o) ==> o == m[other],
        stored_epochs(seq![]) == Some(Map::<u64, u64>::empty()),
{
}

/// The epoch that a search for the last at or before another finds is unique,
/// and is that epoch itself where it is on record.
pub proof fn law_last_epoch_is_unique(m: Map<u64, u64>, epoch: u64, a: u64, b: u64)
    requires
        is_last_at_or_before(m, epoch, a),
    ensures
        is_last_at_or_before(m, epoch, b) ==> a == b,
        m.contains_key(epoch) ==> a == epoch,
        m.contains_key(b) && b <= epoch ==> b <= a,
        a <= epoch && m.contains_key(a),
{
}

} // verus!
