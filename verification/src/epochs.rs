//! Start offsets of leader epochs, by term.
use std::collections::BTreeMap;

use vstd::prelude::*;

verus! {

broadcast use vstd::std_specs::btree::group_btree_axioms;

/// The epochs that start before `point`.
pub open spec fn epochs_before(epochs: Map<u64, u64>, point: u64) -> Map<u64, u64> {
    epochs.restrict(Set::new(|t: u64| epochs.contains_key(t) && epochs[t] < point))
}

/// The terms whose epochs start at `point` or after.
fn terms_from(epochs: &BTreeMap<u64, u64>, point: u64) -> (r: Vec<u64>)
    ensures
        forall|t: u64| #[trigger] r@.contains(t) <==> epochs@.contains_key(t) && epochs@[t] >= point,
{
    let mut r: Vec<u64> = Vec::new();
    for entry in it: epochs.iter()
        invariant
            forall|t: u64| #[trigger]
                r@.contains(t) <==> exists|i: int|
                    0 <= i < it.index() && *(#[trigger] it.seq()[i]).0 == t && *it.seq()[i].1
                        >= point,
    {
        let ghost before = r@;
        if *entry.1 >= point {
            r.push(*entry.0);
        }
        proof {
            assert forall|t: u64| #[trigger] r@.contains(t) <==> exists|i: int|
                0 <= i < it.index() + 1 && *(#[trigger] it.seq()[i]).0 == t && *it.seq()[i].1
                    >= point by {
                if before.contains(t) {
                    let i = choose|i: int|
                        0 <= i < it.index() && *(#[trigger] it.seq()[i]).0 == t && *it.seq()[i].1
                            >= point;
                    assert(*it.seq()[i].0 == t);
                    let j = choose|j: int| 0 <= j < before.len() && before[j] == t;
                    assert(r@[j] == t);
                }
                if *entry.0 == t && *entry.1 >= point {
                    assert(r@[before.len() as int] == t);
                    assert(*it.seq()[it.index()].0 == t);
                }
            }
        }
    }
    r
}

/// Removes the epochs that start at `point` or after.
pub fn remove_epochs_from(epochs: &mut BTreeMap<u64, u64>, point: u64)
    ensures
        final(epochs)@ == epochs_before(old(epochs)@, point),
{
    let terms = terms_from(epochs, point);
    let ghost all = epochs@;
    let mut i: usize = 0;
    while i < terms.len()
        invariant
            i <= terms@.len(),
            forall|t: u64| #[trigger]
                epochs@.contains_key(t) <==> all.contains_key(t) && !terms@.take(
                    i as int,
                ).contains(t),
            forall|t: u64| #[trigger] epochs@.contains_key(t) ==> epochs@[t] == all[t],
        decreases terms@.len() - i,
    {
        let t: u64 = terms[i];
        let ghost before = epochs@;
        epochs.remove(&t);
        proof {
            let done = terms@.take(i as int);
            let next = terms@.take(i + 1);
            assert(next =~= done.push(t));
            assert forall|u: u64| next.contains(u) <==> done.contains(u) || u == t by {
                if done.contains(u) {
                    let j = choose|j: int| 0 <= j < done.len() && done[j] == u;
                    assert(next[j] == u);
                }
                if u == t {
                    assert(next[i as int] == u);
                }
            }
        }
        i = i + 1;
    }
    proof {
        assert(terms@.take(i as int) =~= terms@);
        assert(epochs@ =~= epochs_before(all, point));
    }
}

/// Exactly the epochs that start before the point are kept, each with its start.
pub proof fn law_epochs_before_point(epochs: Map<u64, u64>, point: u64, term: u64)
    ensures
        epochs_before(epochs, point).contains_key(term) <==> epochs.contains_key(term)
            && epochs[term] < point,
        epochs_before(epochs, point).contains_key(term) ==> epochs_before(epochs, point)[term]
            == epochs[term],
{
}

} // verus!
