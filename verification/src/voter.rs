//! Voters and the record that carries a whole voter set in the log.
use vstd::prelude::*;

use crate::codec::{
    deserialize_voters, lemma_voters_round_trip, serialize_voters, voter_fields, voters_decoding,
    voters_encoding,
};
use crate::types::{NodeId, Term};

verus! {

/// A voting member of the cluster.
#[derive(Debug, PartialEq, Eq)]
pub struct VoterInfo {
    pub node_id: NodeId,
    pub endpoint: String,
    pub last_known_term: Term,
}

#[verifier::ext_equal]
pub struct VoterView {
    pub node_id: NodeId,
    pub endpoint: Seq<char>,
    pub last_known_term: Term,
}

impl View for VoterInfo {
    type V = VoterView;

    open spec fn view(&self) -> VoterView {
        VoterView {
            node_id: self.node_id,
            endpoint: self.endpoint@,
            last_known_term: self.last_known_term,
        }
    }
}

impl Clone for VoterInfo {
    fn clone(&self) -> (r: Self)
        ensures
            r == *self,
    {
        VoterInfo {
            node_id: self.node_id,
            endpoint: self.endpoint.clone(),
            last_known_term: self.last_known_term,
        }
    }
}

impl VoterInfo {
    /// A voter that has not been heard of in any term.
    pub fn new(id: u64, endpoint: &str) -> (r: Self)
        ensures
            r@ == (VoterView {
                node_id: NodeId(id),
                endpoint: endpoint@,
                last_known_term: Term(0),
            }),
    {
        VoterInfo {
            node_id: NodeId(id),
            endpoint: String::from_str(endpoint),
            last_known_term: Term::default(),
        }
    }
}

/// The views of a list of voters.
pub open spec fn voter_views(voters: Seq<VoterInfo>) -> Seq<VoterView> {
    voters.map_values(|v: VoterInfo| v@)
}

/// True if a voter of the list has the identifier.
pub open spec fn has_voter(voters: Seq<VoterView>, id: NodeId) -> bool {
    exists|i: int| 0 <= i < voters.len() && #[trigger] voters[i].node_id == id
}

/// Whether a voter of the list has the identifier.
pub fn contains_voter(voters: &Vec<VoterInfo>, id: NodeId) -> (b: bool)
    ensures
        b == has_voter(voter_views(voters@), id),
{
    let ghost vs = voter_views(voters@);
    let mut i: usize = 0;
    while i < voters.len()
        invariant
            i <= voters@.len(),
            vs == voter_views(voters@),
            forall|k: int| 0 <= k < i ==> #[trigger] vs[k].node_id != id,
        decreases voters@.len() - i,
    {
        assert(vs[i as int] == voters@[i as int]@);
        if voters[i].node_id == id {
            assert(vs[i as int].node_id == id);
            return true;
        }
        i = i + 1;
    }
    false
}

/// A copy of a list of voters.
pub fn clone_voters(voters: &Vec<VoterInfo>) -> (r: Vec<VoterInfo>)
    ensures
        r@ == voters@,
{
    let mut r: Vec<VoterInfo> = Vec::new();
    let mut i: usize = 0;
    while i < voters.len()
        invariant
            i <= voters@.len(),
            r@ == voters@.take(i as int),
        decreases voters@.len() - i,
    {
        r.push(voters[i].clone());
        i = i + 1;
        assert(r@ =~= voters@.take(i as int));
    }
    assert(r@ =~= voters@);
    r
}

/// The complete voter set of a configuration, as a log entry carries it.
#[derive(Debug, PartialEq, Eq)]
pub struct VotersRecord {
    pub version: u32,
    pub voters: Vec<VoterInfo>,
}

#[verifier::ext_equal]
pub struct VotersRecordView {
    pub version: u32,
    pub voters: Seq<VoterView>,
}

impl View for VotersRecord {
    type V = VotersRecordView;

    open spec fn view(&self) -> VotersRecordView {
        VotersRecordView { version: self.version, voters: voter_views(self.voters@) }
    }
}

impl Clone for VotersRecord {
    fn clone(&self) -> (r: Self)
        ensures
            r@ == self@,
    {
        VotersRecord { version: self.version, voters: clone_voters(&self.voters) }
    }
}

impl Default for VotersRecord {
    fn default() -> (r: Self)
        ensures
            r@ == (VotersRecordView { version: 0, voters: seq![] }),
    {
        let r = VotersRecord { version: 0, voters: Vec::new() };
        assert(r@.voters =~= seq![]);
        r
    }
}

pub open spec fn voter_to_fields(v: VoterView) -> (u64, Seq<char>, u64) {
    (v.node_id.0, v.endpoint, v.last_known_term.0)
}

pub open spec fn voter_from_fields(f: (u64, Seq<char>, u64)) -> VoterView {
    VoterView { node_id: NodeId(f.0), endpoint: f.1, last_known_term: Term(f.2) }
}

impl VotersRecordView {
    /// The bytes of the record.
    pub open spec fn encoding(self) -> Seq<u8> {
        voters_encoding(self.version, self.voters.map_values(|v: VoterView| voter_to_fields(v)))
    }

    /// The record that the bytes hold, if they hold one.
    pub open spec fn decoding(b: Seq<u8>) -> Option<VotersRecordView> {
        match voters_decoding(b) {
            Some(f) => Some(
                VotersRecordView {
                    version: f.0,
                    voters: f.1.map_values(|v: (u64, Seq<char>, u64)| voter_from_fields(v)),
                },
            ),
            None => None,
        }
    }
}

impl VotersRecord {
    /// The bytes of the record; decoding them gives the record back.
    pub fn encode(&self) -> (b: Vec<u8>)
        ensures
            b@ == self@.encoding(),
            VotersRecordView::decoding(b@) == Some(self@),
    {
        let mut fields: Vec<(u64, String, u64)> = Vec::new();
        let mut i: usize = 0;
        while i < self.voters.len()
            invariant
                i <= self.voters@.len(),
                fields@.len() == i,
                forall|k: int|
                    0 <= k < i ==> (fields@[k].0, fields@[k].1@, fields@[k].2) == voter_to_fields(
                        #[trigger] self.voters@[k]@,
                    ),
            decreases self.voters@.len() - i,
        {
            let v = &self.voters[i];
            fields.push((v.node_id.0, v.endpoint.clone(), v.last_known_term.0));
            i = i + 1;
        }
        proof {
            let views = self@.voters.map_values(|v: VoterView| voter_to_fields(v));
            assert(voter_fields(fields@) =~= views) by {
                assert forall|k: int| 0 <= k < views.len() implies voter_fields(fields@)[k]
                    == views[k] by {
                    assert(self@.voters[k] == self.voters@[k]@);
                }
            }
            assert(views.map_values(|v: (u64, Seq<char>, u64)| voter_from_fields(v))
                =~= self@.voters);
        }
        let b = serialize_voters(self.version, &fields);
        proof {
            assert(b@.len() == b.len());
            lemma_voters_round_trip(self.version, voter_fields(fields@));
        }
        b
    }

    /// The record that the bytes hold. The text of a failure comes from the
    /// decoder.
    pub fn decode(b: &[u8]) -> (r: Result<VotersRecord, String>)
        ensures
            r is Ok <==> VotersRecordView::decoding(b@) is Some,
            r matches Ok(rec) ==> VotersRecordView::decoding(b@) == Some(rec@),
    {
        match deserialize_voters(b) {
            Err(e) => Err(e),
            Ok((version, fields)) => {
                let mut voters: Vec<VoterInfo> = Vec::new();
                let mut i: usize = 0;
                while i < fields.len()
                    invariant
                        i <= fields@.len(),
                        voters@.len() == i,
                        forall|k: int|
                            0 <= k < i ==> #[trigger] voters@[k]@ == voter_from_fields(
                                (fields@[k].0, fields@[k].1@, fields@[k].2),
                            ),
                    decreases fields@.len() - i,
                {
                    let f = &fields[i];
                    voters.push(
                        VoterInfo {
                            node_id: NodeId(f.0),
                            endpoint: f.1.clone(),
                            last_known_term: Term(f.2),
                        },
                    );
                    i = i + 1;
                }
                proof {
                    let views = voter_fields(fields@).map_values(
                        |v: (u64, Seq<char>, u64)| voter_from_fields(v),
                    );
                    assert(voter_views(voters@) =~= views);
                }
                Ok(VotersRecord { version, voters })
            },
        }
    }
}

/// Every voter of a list is found in it by its identifier, whatever else stands
/// in the list, and no other identifier is.
pub proof fn law_voters_are_found(voters: Seq<VoterView>, v: VoterView, id: NodeId)
    ensures
        !has_voter(Seq::<VoterView>::empty(), id),
        has_voter(voters.push(v), id) <==> has_voter(voters, id) || v.node_id == id,
        voters.contains(v) ==> has_voter(voters, v.node_id),
        has_voter(voters, id) <==> voters.map_values(|w: VoterView| w.node_id).contains(id),
{
    let more = voters.push(v);
    let ids = voters.map_values(|w: VoterView| w.node_id);
    if has_voter(voters, id) {
        let k = choose|k: int| 0 <= k < voters.len() && #[trigger] voters[k].node_id == id;
        assert(more[k].node_id == id);
        assert(ids[k] == id);
    }
    if v.node_id == id {
        assert(more[voters.len() as int].node_id == id);
    }
    if has_voter(more, id) {
        let k = choose|k: int| 0 <= k < more.len() && #[trigger] more[k].node_id == id;
        if k < voters.len() {
            assert(voters[k].node_id == id);
        }
    }
    if voters.contains(v) {
        let k = choose|k: int| 0 <= k < voters.len() && voters[k] == v;
        assert(voters[k].node_id == v.node_id);
    }
    if ids.contains(id) {
        let k = choose|k: int| 0 <= k < ids.len() && ids[k] == id;
        assert(voters[k].node_id == id);
    }
}

} // verus!
