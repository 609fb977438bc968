//! Which actions of a batch may run concurrently, and in which order their
//! results come back.
//!
//! Actions on the log, on snapshots and on the network form three groups.
//! Each group runs one action after the other; the groups run concurrently.
use vstd::prelude::*;

use crate::error::IoFault;
use crate::io_action::{IoAction, IoActionBatch};

verus! {

/// The group that an action belongs to.
#[derive(Debug, Clone, Copy, PartialEq, Eq, Structural)]
pub enum IoGroup {
    Log,
    Snapshot,
    Network,
}

/// Result of executing a single [`IoAction`].
#[derive(Debug, PartialEq, Eq)]
pub enum IoResult {
    /// `PersistQuorumState` completed successfully.
    QuorumStatePersisted,
    /// `SaveSnapshot` completed successfully.
    SnapshotSaved,
    /// `SaveSnapshot` failed with an I/O error.
    SnapshotSaveFailed(IoFault),
    /// `TruncatePrefix` completed successfully.
    PrefixTruncated,
    /// `TruncatePrefix` failed with an I/O error.
    PrefixTruncateFailed(IoFault),
    /// `AppendLog` completed successfully.
    LogAppended,
    /// `TruncateSuffix` completed successfully.
    SuffixTruncated,
    /// `SendRpc` completed successfully.
    RpcSent,
    /// `SendRpc` failed.
    RpcFailed(IoFault),
    /// A storage operation failed.
    StorageFailed(IoFault),
}

/// The group of an action. Saving the quorum state is kept in order with the
/// log.
pub open spec fn group_of(action: IoAction) -> IoGroup {
    match action {
        IoAction::SendRpc(_, _) => IoGroup::Network,
        IoAction::SaveSnapshot(_) => IoGroup::Snapshot,
        _ => IoGroup::Log,
    }
}

impl IoResult {
    pub open spec fn spec_of(action: IoAction, outcome: Result<(), IoFault>) -> IoResult {
        match outcome {
            Ok(_) => match action {
                IoAction::PersistQuorumState(_) => IoResult::QuorumStatePersisted,
                IoAction::AppendLog(_) => IoResult::LogAppended,
                IoAction::TruncateSuffix(_) => IoResult::SuffixTruncated,
                IoAction::TruncatePrefix(_) => IoResult::PrefixTruncated,
                IoAction::SendRpc(_, _) => IoResult::RpcSent,
                IoAction::SaveSnapshot(_) => IoResult::SnapshotSaved,
            },
            Err(e) => match action {
                IoAction::TruncatePrefix(_) => IoResult::PrefixTruncateFailed(e),
                IoAction::SendRpc(_, _) => IoResult::RpcFailed(e),
                IoAction::SaveSnapshot(_) => IoResult::SnapshotSaveFailed(e),
                _ => IoResult::StorageFailed(e),
            },
        }
    }

    /// The result of an action that ended with `outcome`.
    pub fn of(action: &IoAction, outcome: Result<(), IoFault>) -> (r: IoResult)
        ensures
            r == Self::spec_of(*action, outcome),
    {
        match outcome {
            Ok(_) => match action {
                IoAction::PersistQuorumState(_) => IoResult::QuorumStatePersisted,
                IoAction::AppendLog(_) => IoResult::LogAppended,
                IoAction::TruncateSuffix(_) => IoResult::SuffixTruncated,
                IoAction::TruncatePrefix(_) => IoResult::PrefixTruncated,
                IoAction::SendRpc(_, _) => IoResult::RpcSent,
                IoAction::SaveSnapshot(_) => IoResult::SnapshotSaved,
            },
            Err(e) => match action {
                IoAction::TruncatePrefix(_) => IoResult::PrefixTruncateFailed(e),
                IoAction::SendRpc(_, _) => IoResult::RpcFailed(e),
                IoAction::SaveSnapshot(_) => IoResult::SnapshotSaveFailed(e),
                _ => IoResult::StorageFailed(e),
            },
        }
    }
}

/// Actions with their positions in the batch, by group.
pub struct IoStage {
    pub log: Vec<(usize, IoAction)>,
    pub snapshot: Vec<(usize, IoAction)>,
    pub network: Vec<(usize, IoAction)>,
}

/// Each action with its position.
pub open spec fn numbered(actions: Seq<IoAction>) -> Seq<(usize, IoAction)> {
    Seq::new(actions.len(), |i: int| (i as usize, actions[i]))
}

/// The actions of one group with their positions, in order.
pub open spec fn grouped(actions: Seq<IoAction>, group: IoGroup) -> Seq<(usize, IoAction)> {
    numbered(actions).filter(|a: (usize, IoAction)| group_of(a.1) == group)
}

impl IoStage {
    /// Takes all actions out of the batch and sorts them into their groups.
    pub fn partition(batch: &mut IoActionBatch) -> (r: Self)
        ensures
            final(batch).actions@ == Seq::<IoAction>::empty(),
            r.log@ == grouped(old(batch).actions@, IoGroup::Log),
            r.snapshot@ == grouped(old(batch).actions@, IoGroup::Snapshot),
            r.network@ == grouped(old(batch).actions@, IoGroup::Network),
    {
        let ghost all = batch.actions@;
        let mut actions: Vec<IoAction> = Vec::new();
        std::mem::swap(&mut actions, &mut batch.actions);
        let mut reversed: Vec<IoAction> = Vec::new();
        while actions.len() > 0
            invariant
                actions@ + reversed@.reverse() == all,
            decreases actions@.len(),
        {
            let ghost a = actions@;
            let ghost b = reversed@;
            if let Some(action) = actions.pop() {
                reversed.push(action);
                assert(actions@ + reversed@.reverse() =~= a + b.reverse());
            }
        }
        assert(reversed@.reverse() =~= all);
        let mut r = IoStage { log: Vec::new(), snapshot: Vec::new(), network: Vec::new() };
        let mut i: usize = 0;
        let ghost pairs = numbered(all);
        let ghost in_log = |a: (usize, IoAction)| group_of(a.1) == IoGroup::Log;
        let ghost in_snap = |a: (usize, IoAction)| group_of(a.1) == IoGroup::Snapshot;
        let ghost in_net = |a: (usize, IoAction)| group_of(a.1) == IoGroup::Network;
        let total: usize = reversed.len();
        proof {
            reveal(Seq::filter);
            assert(pairs.take(0) =~= Seq::<(usize, IoAction)>::empty());
        }
        while i < total
            invariant
                i <= total,
                total == all.len(),
                pairs == numbered(all),
                in_log == (|a: (usize, IoAction)| group_of(a.1) == IoGroup::Log),
                in_snap == (|a: (usize, IoAction)| group_of(a.1) == IoGroup::Snapshot),
                in_net == (|a: (usize, IoAction)| group_of(a.1) == IoGroup::Network),
                reversed@.reverse() == all.skip(i as int),
                r.log@ == pairs.take(i as int).filter(in_log),
                r.snapshot@ == pairs.take(i as int).filter(in_snap),
                r.network@ == pairs.take(i as int).filter(in_net),
            decreases total - i,
        {
            let ghost before = reversed@;
            assert(before.reverse().len() == all.len() - i);
            if let Some(action) = reversed.pop() {
                proof {
                    assert(before.reverse()[0] == action);
                    assert(all.skip(i as int)[0] == all[i as int]);
                    assert(reversed@.reverse() =~= before.reverse().skip(1));
                    assert(all.skip(i as int).skip(1) =~= all.skip(i + 1));
                    assert(pairs[i as int] == (i, action));
                    assert(pairs.take(i + 1).drop_last() =~= pairs.take(i as int));
                    assert(pairs.take(i + 1).last() == pairs[i as int]);
                    reveal(Seq::filter);
                }
                match &action {
                    IoAction::SendRpc(_, _) => r.network.push((i, action)),
                    IoAction::SaveSnapshot(_) => r.snapshot.push((i, action)),
                    _ => r.log.push((i, action)),
                }
            }
            i = i + 1;
        }
        assert(pairs.take(total as int) =~= pairs);
        r
    }
}

/// `e` put behind the last element of `s` whose number is not larger.
pub open spec fn inserted<R>(s: Seq<(usize, R)>, e: (usize, R)) -> Seq<(usize, R)>
    decreases s.len(),
{
    if s.len() == 0 || s.last().0 <= e.0 {
        s.push(e)
    } else {
        inserted(s.drop_last(), e).push(s.last())
    }
}

/// `s` in the order of its numbers; elements with the same number keep their
/// order.
pub open spec fn in_order<R>(s: Seq<(usize, R)>) -> Seq<(usize, R)>
    decreases s.len(),
{
    if s.len() == 0 {
        s
    } else {
        inserted(in_order(s.drop_last()), s.last())
    }
}

/// Merges the results of the three groups into the order of the batch.
pub fn merge_results<R>(
    log: Vec<(usize, R)>,
    snapshot: Vec<(usize, R)>,
    network: Vec<(usize, R)>,
) -> (r: Vec<R>)
    ensures
        r@ == in_order(log@ + snapshot@ + network@).map_values(|e: (usize, R)| e.1),
{
    let ghost all = log@ + snapshot@ + network@;
    let mut rest = log;
    let mut more = snapshot;
    rest.append(&mut more);
    let mut last = network;
    rest.append(&mut last);
    assert(rest@ =~= all);
    let mut reversed: Vec<(usize, R)> = Vec::new();
    while rest.len() > 0
        invariant
            rest@ + reversed@.reverse() == all,
        decreases rest@.len(),
    {
        let ghost a = rest@;
        let ghost b = reversed@;
        if let Some(e) = rest.pop() {
            reversed.push(e);
            assert(rest@ + reversed@.reverse() =~= a + b.reverse());
        }
    }
    assert(reversed@.reverse() =~= all);
    let mut sorted: Vec<(usize, R)> = Vec::new();
    assert(all.take(0) =~= Seq::<(usize, R)>::empty());
    while reversed.len() > 0
        invariant
            reversed@.len() <= all.len(),
            reversed@.reverse() == all.skip(all.len() - reversed@.len()),
            sorted@ == in_order(all.take(all.len() - reversed@.len())),
        decreases reversed@.len(),
    {
        let ghost done = all.len() - reversed@.len();
        let ghost before = reversed@;
        if let Some(e) = reversed.pop() {
            proof {
                assert(before.reverse()[0] == e);
                assert(all.skip(done)[0] == all[done]);
                assert(reversed@.reverse() =~= before.reverse().skip(1));
                assert(all.skip(done).skip(1) =~= all.skip(done + 1));
                assert(all.take(done + 1).drop_last() =~= all.take(done));
                assert(all.take(done + 1).last() == e);
            }
            let ghost s0 = sorted@;
            let mut p: usize = sorted.len();
            while p > 0 && sorted[p - 1].0 > e.0
                invariant
                    p <= sorted@.len(),
                    sorted@ == s0,
                    forall|k: int| p <= k < s0.len() ==> (#[trigger] s0[k]).0 > e.0,
                decreases p,
            {
                p = p - 1;
            }
            proof {
                lemma_inserted(s0, e, p as int);
            }
            sorted.insert(p, e);
        }
    }
    assert(all.take(all.len() as int) =~= all);
    let ghost ordered = sorted@;
    let mut back: Vec<R> = Vec::new();
    while sorted.len() > 0
        invariant
            sorted@.len() <= ordered.len(),
            sorted@ == ordered.take(sorted@.len() as int),
            back@.reverse() == ordered.skip(sorted@.len() as int).map_values(|e: (usize, R)| e.1),
        decreases sorted@.len(),
    {
        let ghost n = sorted@.len();
        let ghost b0 = back@;
        if let Some(e) = sorted.pop() {
            back.push(e.1);
            proof {
                assert(e == ordered[n - 1]);
                assert(ordered.skip(n - 1) =~= seq![e] + ordered.skip(n as int));
                assert(back@.reverse() =~= seq![e.1] + b0.reverse());
                assert(back@.reverse() =~= ordered.skip(n - 1).map_values(
                    |e: (usize, R)| e.1,
                ));
                assert(sorted@ =~= ordered.take(n - 1));
            }
        }
    }
    let mut r: Vec<R> = Vec::new();
    let ghost b = back@;
    while back.len() > 0
        invariant
            back@.len() <= b.len(),
            back@ == b.take(back@.len() as int),
            r@ == b.reverse().take(b.len() - back@.len()),
        decreases back@.len(),
    {
        let ghost n = back@.len();
        if let Some(x) = back.pop() {
            r.push(x);
            assert(back@ =~= b.take(n - 1));
            assert(r@ =~= b.reverse().take(b.len() - back@.len()));
        }
    }
    assert(r@ =~= b.reverse());
    assert(ordered.skip(0) =~= ordered);
    r
}

proof fn lemma_inserted<R>(s: Seq<(usize, R)>, e: (usize, R), p: int)
    requires
        0 <= p <= s.len(),
        forall|k: int| p <= k < s.len() ==> (#[trigger] s[k]).0 > e.0,
        p > 0 ==> s[p - 1].0 <= e.0,
    ensures
        inserted(s, e) == s.insert(p, e),
    decreases s.len(),
{
    if p == s.len() {
        assert(s.insert(p, e) =~= s.push(e));
    } else {
        lemma_inserted(s.drop_last(), e, p);
        assert(s.insert(p, e) =~= s.drop_last().insert(p, e).push(s.last()));
    }
}

/// True of numbered elements in which each number below their count occurs
/// once.
pub open spec fn numbers_all<R>(s: Seq<(usize, R)>) -> bool {
    &&& forall|i: int| 0 <= i < s.len() ==> (#[trigger] s[i]).0 < s.len()
    &&& forall|i: int, j: int| 0 <= i < j < s.len() ==> s[i].0 != s[j].0
}

/// Where the results carry the positions of a batch, each position once, the
/// result of the action at a position comes back at that position.
pub proof fn law_results_in_batch_order<R>(s: Seq<(usize, R)>)
    requires
        numbers_all(s),
    ensures
        in_order(s).len() == s.len(),
        forall|i: int|
            0 <= i < s.len() ==> in_order(s)[(#[trigger] s[i]).0 as int] == s[i],
{
    lemma_in_order(s);
    let o = in_order(s);
    assert forall|i: int| 0 <= i < o.len() implies (#[trigger] o[i]).0 < o.len() by {
        assert(o.contains(o[i]));
        let j = choose|j: int| 0 <= j < s.len() && s[j] == o[i];
        assert(s[j].0 < s.len());
    }
    assert forall|i: int| 0 <= i < o.len() implies (#[trigger] o[i]).0 == i by {
        lemma_at_least(o, i);
        lemma_at_most(o, i);
    }
    assert forall|i: int| 0 <= i < s.len() implies o[(#[trigger] s[i]).0 as int] == s[i] by {
        assert(o.contains(s[i]));
        let j = choose|j: int| 0 <= j < o.len() && o[j] == s[i];
        assert(o[j].0 == j);
    }
}

/// Ordering keeps the elements, and orders distinct numbers strictly.
proof fn lemma_in_order<R>(s: Seq<(usize, R)>)
    requires
        forall|i: int, j: int| 0 <= i < j < s.len() ==> s[i].0 != s[j].0,
    ensures
        in_order(s).len() == s.len(),
        forall|e: (usize, R)| #[trigger] in_order(s).contains(e) <==> s.contains(e),
        forall|i: int, j: int| 0 <= i < j < s.len() ==> in_order(s)[i].0 < in_order(s)[j].0,
    decreases s.len(),
{
    if s.len() > 0 {
        let rest = s.drop_last();
        lemma_in_order(rest);
        let o = in_order(rest);
        let e = s.last();
        assert forall|i: int| 0 <= i < o.len() implies (#[trigger] o[i]).0 != e.0 by {
            assert(o.contains(o[i]));
            let j = choose|j: int| 0 <= j < rest.len() && rest[j] == o[i];
            assert(s[j].0 != s[s.len() - 1].0);
        }
        lemma_insert_sorted(o, e);
        assert forall|x: (usize, R)| #[trigger] in_order(s).contains(x) <==> s.contains(x) by {
            if s.contains(x) {
                let k = choose|k: int| 0 <= k < s.len() && s[k] == x;
                if k < rest.len() {
                    assert(rest[k] == x);
                    assert(rest.contains(x));
                    assert(o.contains(x));
                }
            }
            if o.contains(x) {
                assert(rest.contains(x));
                let k = choose|k: int| 0 <= k < rest.len() && rest[k] == x;
                assert(s[k] == x);
            }
            if x == e {
                assert(s[s.len() - 1] == x);
            }
        }
    }
}

proof fn lemma_insert_sorted<R>(o: Seq<(usize, R)>, e: (usize, R))
    requires
        forall|i: int, j: int| 0 <= i < j < o.len() ==> o[i].0 < o[j].0,
        forall|i: int| 0 <= i < o.len() ==> (#[trigger] o[i]).0 != e.0,
    ensures
        inserted(o, e).len() == o.len() + 1,
        forall|x: (usize, R)| #[trigger] inserted(o, e).contains(x) <==> o.contains(x) || x == e,
        forall|i: int, j: int|
            0 <= i < j < inserted(o, e).len() ==> inserted(o, e)[i].0 < inserted(o, e)[j].0,
    decreases o.len(),
{
    if o.len() == 0 || o.last().0 <= e.0 {
        let r = o.push(e);
        assert forall|x: (usize, R)| #[trigger] r.contains(x) <==> o.contains(x) || x == e by {
            if o.contains(x) {
                let k = choose|k: int| 0 <= k < o.len() && o[k] == x;
                assert(r[k] == x);
            }
            if x == e {
                assert(r[o.len() as int] == x);
            }
        }
    } else {
        let rest = o.drop_last();
        lemma_insert_sorted(rest, e);
        let sub = inserted(rest, e);
        let r = sub.push(o.last());
        assert forall|x: (usize, R)| #[trigger] r.contains(x) <==> o.contains(x) || x == e by {
            if sub.contains(x) {
                let k = choose|k: int| 0 <= k < sub.len() && sub[k] == x;
                assert(r[k] == x);
                if rest.contains(x) {
                    let m = choose|m: int| 0 <= m < rest.len() && rest[m] == x;
                    assert(o[m] == x);
                }
            }
            if o.contains(x) {
                let k = choose|k: int| 0 <= k < o.len() && o[k] == x;
                if k < rest.len() {
                    assert(rest[k] == x);
                    assert(rest.contains(x));
                    assert(sub.contains(x));
                } else {
                    assert(r[sub.len() as int] == x);
                }
            }
            if x == e {
                assert(sub.contains(x));
            }
            if x == o.last() {
                assert(o[o.len() - 1] == x);
                assert(r[sub.len() as int] == x);
            }
        }
        assert forall|i: int, j: int| 0 <= i < j < r.len() implies r[i].0 < r[j].0 by {
            if j == sub.len() {
                assert(sub.contains(sub[i]));
                if rest.contains(sub[i]) {
                    let m = choose|m: int| 0 <= m < rest.len() && rest[m] == sub[i];
                    assert(o[m].0 < o[o.len() - 1].0);
                }
            }
        }
    }
}

proof fn lemma_at_least<R>(o: Seq<(usize, R)>, i: int)
    requires
        0 <= i < o.len(),
        forall|i: int, j: int| 0 <= i < j < o.len() ==> o[i].0 < o[j].0,
    ensures
        o[i].0 >= i,
    decreases i,
{
    if i > 0 {
        lemma_at_least(o, i - 1);
        assert(o[i - 1].0 < o[i].0);
    }
}

proof fn lemma_at_most<R>(o: Seq<(usize, R)>, i: int)
    requires
        0 <= i < o.len(),
        forall|i: int, j: int| 0 <= i < j < o.len() ==> o[i].0 < o[j].0,
        forall|i: int| 0 <= i < o.len() ==> (#[trigger] o[i]).0 < o.len(),
    ensures
        o[i].0 <= i,
    decreases o.len() - i,
{
    if i < o.len() - 1 {
        lemma_at_most(o, i + 1);
        assert(o[i].0 < o[i + 1].0);
    }
}

/// The three groups of a batch carry each position of the batch once, so the
/// results of a batch come back in the order of its actions.
pub proof fn law_groups_number_the_batch(actions: Seq<IoAction>)
    requires
        actions.len() <= usize::MAX,
    ensures
        numbers_all(
            grouped(actions, IoGroup::Log) + grouped(actions, IoGroup::Snapshot) + grouped(
                actions,
                IoGroup::Network,
            ),
        ),
        grouped(actions, IoGroup::Log).len() + grouped(actions, IoGroup::Snapshot).len() + grouped(
            actions,
            IoGroup::Network,
        ).len() == actions.len(),
{
    let all = numbered(actions);
    let log = grouped(actions, IoGroup::Log);
    let snap = grouped(actions, IoGroup::Snapshot);
    let net = grouped(actions, IoGroup::Network);
    let t = log + snap + net;
    lemma_group_members(all, IoGroup::Log);
    lemma_group_members(all, IoGroup::Snapshot);
    lemma_group_members(all, IoGroup::Network);
    lemma_group_lengths(all);
    assert forall|i: int| 0 <= i < t.len() implies all.contains(#[trigger] t[i]) && t[i].0
        < t.len() by {
        if i < log.len() {
            assert(all.contains(log[i]));
        } else if i < log.len() + snap.len() {
            assert(all.contains(snap[i - log.len()]));
        } else {
            assert(all.contains(net[i - log.len() - snap.len()]));
        }
        let k = choose|k: int| 0 <= k < all.len() && all[k] == t[i];
        assert(all[k].0 == k);
    }
    assert forall|i: int, j: int| 0 <= i < j < t.len() implies t[i].0 != t[j].0 by {
        assert(all.contains(t[i]) && all.contains(t[j]));
        let a = choose|a: int| 0 <= a < all.len() && all[a] == t[i];
        let b = choose|b: int| 0 <= b < all.len() && all[b] == t[j];
        assert(all[a].0 == a && all[b].0 == b);
        if t[i].0 == t[j].0 {
            assert(t[i] == t[j]);
            if i < log.len() {
                assert(group_of(log[i].1) == IoGroup::Log);
                if j < log.len() {
                    assert(log[i].0 != log[j].0);
                } else if j < log.len() + snap.len() {
                    assert(group_of(snap[j - log.len()].1) == IoGroup::Snapshot);
                } else {
                    assert(group_of(net[j - log.len() - snap.len()].1) == IoGroup::Network);
                }
            } else if i < log.len() + snap.len() {
                assert(group_of(snap[i - log.len()].1) == IoGroup::Snapshot);
                if j < log.len() + snap.len() {
                    assert(snap[i - log.len()].0 != snap[j - log.len()].0);
                } else {
                    assert(group_of(net[j - log.len() - snap.len()].1) == IoGroup::Network);
                }
            } else {
                assert(net[i - log.len() - snap.len()].0 != net[j - log.len() - snap.len()].0);
            }
        }
    }
}

proof fn lemma_group_lengths(s: Seq<(usize, IoAction)>)
    ensures
        s.filter(|a: (usize, IoAction)| group_of(a.1) == IoGroup::Log).len() + s.filter(
            |a: (usize, IoAction)| group_of(a.1) == IoGroup::Snapshot,
        ).len() + s.filter(|a: (usize, IoAction)| group_of(a.1) == IoGroup::Network).len()
            == s.len(),
    decreases s.len(),
{
    reveal(Seq::filter);
    if s.len() > 0 {
        lemma_group_lengths(s.drop_last());
    }
}

proof fn lemma_group_members(s: Seq<(usize, IoAction)>, group: IoGroup)
    requires
        forall|i: int, j: int| 0 <= i < j < s.len() ==> s[i].0 != s[j].0,
    ensures
        ({
            let g = s.filter(|a: (usize, IoAction)| group_of(a.1) == group);
            &&& forall|i: int|
                0 <= i < g.len() ==> s.contains(#[trigger] g[i]) && group_of(g[i].1) == group
            &&& forall|i: int, j: int| 0 <= i < j < g.len() ==> g[i].0 != g[j].0
        }),
    decreases s.len(),
{
    reveal(Seq::filter);
    let f = |a: (usize, IoAction)| group_of(a.1) == group;
    if s.len() > 0 {
        let rest = s.drop_last();
        lemma_group_members(rest, group);
        let g0 = rest.filter(f);
        let g = s.filter(f);
        assert forall|i: int| 0 <= i < g.len() implies s.contains(#[trigger] g[i]) && group_of(
            g[i].1,
        ) == group by {
            if i < g0.len() {
                assert(rest.contains(g0[i]));
                let k = choose|k: int| 0 <= k < rest.len() && rest[k] == g0[i];
                assert(s[k] == g[i]);
            } else {
                assert(s[s.len() - 1] == g[i]);
            }
        }
        assert forall|i: int, j: int| 0 <= i < j < g.len() implies g[i].0 != g[j].0 by {
            if j == g0.len() {
                assert(rest.contains(g0[i]));
                let k = choose|k: int| 0 <= k < rest.len() && rest[k] == g0[i];
                assert(s[k].0 != s[s.len() - 1].0);
            }
        }
    }
}

/// Messages form the network group and snapshots a group of their own; all that
/// changes the log, and saving the quorum state, is in one group, and so runs
/// in the order of the batch.
pub proof fn law_groups(action: IoAction)
    ensures
        group_of(action) == IoGroup::Network <==> action is SendRpc,
        group_of(action) == IoGroup::Snapshot <==> action is SaveSnapshot,
        group_of(action) == IoGroup::Log <==> action is PersistQuorumState || action is AppendLog
            || action is TruncateSuffix || action is TruncatePrefix,
{
}

/// A group holds exactly the actions of the batch that belong to it, each with
/// its position, in the order of the batch.
pub proof fn law_group_keeps_order(actions: Seq<IoAction>, group: IoGroup)
    requires
        actions.len() <= usize::MAX,
    ensures
        ({
            let g = grouped(actions, group);
            &&& forall|i: int, j: int| 0 <= i < j < g.len() ==> g[i].0 < g[j].0
            &&& forall|i: int|
                0 <= i < g.len() ==> (#[trigger] g[i]).0 < actions.len() && actions[g[i].0 as int]
                    == g[i].1 && group_of(g[i].1) == group
            &&& forall|p: int|
                0 <= p < actions.len() && group_of(#[trigger] actions[p]) == group ==> g.contains(
                    (p as usize, actions[p]),
                )
        }),
    decreases actions.len(),
{
    reveal(Seq::filter);
    let f = |a: (usize, IoAction)| group_of(a.1) == group;
    let g = grouped(actions, group);
    if actions.len() > 0 {
        let rest = actions.drop_last();
        let n = rest.len();
        law_group_keeps_order(rest, group);
        let before = grouped(rest, group);
        let e = (n as usize, actions.last());
        assert(numbered(actions).drop_last() =~= numbered(rest));
        assert(numbered(actions).last() == e);
        assert(g == (if f(e) {
            before.push(e)
        } else {
            before
        }));
        assert forall|i: int| 0 <= i < g.len() implies (#[trigger] g[i]).0 < actions.len()
            && actions[g[i].0 as int] == g[i].1 && group_of(g[i].1) == group by {
            if i < before.len() {
                assert(g[i] == before[i]);
                assert(rest[before[i].0 as int] == before[i].1);
            }
        }
        assert forall|i: int, j: int| 0 <= i < j < g.len() implies g[i].0 < g[j].0 by {
            assert(g[i] == before[i]);
            assert(before[i].0 < rest.len());
            if j < before.len() {
                assert(g[j] == before[j]);
            }
        }
        assert forall|p: int|
            0 <= p < actions.len() && group_of(#[trigger] actions[p]) == group implies g.contains(
            (p as usize, actions[p]),
        ) by {
            if p < n {
                assert(group_of(rest[p]) == group);
                assert(before.contains((p as usize, rest[p])));
                let k = choose|k: int|
                    0 <= k < before.len() && before[k] == (p as usize, rest[p]);
                assert(g[k] == (p as usize, actions[p]));
            } else {
                assert(g[before.len() as int] == e);
            }
        }
    } else {
        assert(numbered(actions) =~= seq![]);
    }
}

/// The result of an action tells its kind and how it ended; a failure is handed
/// on with its cause.
pub proof fn law_result_tells_outcome(action: IoAction, outcome: Result<(), IoFault>)
    ensures
        ({
            let r = IoResult::spec_of(action, outcome);
            &&& outcome is Ok ==> match action {
                IoAction::PersistQuorumState(_) => r is QuorumStatePersisted,
                IoAction::AppendLog(_) => r is LogAppended,
                IoAction::TruncateSuffix(_) => r is SuffixTruncated,
                IoAction::TruncatePrefix(_) => r is PrefixTruncated,
                IoAction::SendRpc(_, _) => r is RpcSent,
                IoAction::SaveSnapshot(_) => r is SnapshotSaved,
            }
            &&& outcome matches Err(e) ==> {
                &&& action is SendRpc <==> r == IoResult::RpcFailed(e)
                &&& action is SaveSnapshot <==> r == IoResult::SnapshotSaveFailed(e)
                &&& action is TruncatePrefix <==> r == IoResult::PrefixTruncateFailed(e)
                &&& action is PersistQuorumState || action is AppendLog || action is TruncateSuffix
                    <==> r == IoResult::StorageFailed(e)
            }
        }),
{
}

} // verus!
