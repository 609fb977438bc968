use std::collections::BTreeMap;

use xraft::error::XraftError;
use xraft::leader_epoch_checkpoint::LeaderEpochCheckpoint;

#[test]
fn epochs_are_found() {
    let mut c = LeaderEpochCheckpoint::open(&[]).unwrap();
    assert_eq!(c.lookup(1), None);
    assert_eq!(c.lookup_le(100), None);
    c.append(2, 10);
    c.append(5, 40);
    c.append(5, 40);
    assert_eq!(c.all_epochs().len(), 2);
    assert_eq!(c.lookup(5), Some(40));
    assert_eq!(c.lookup(4), None);
    assert_eq!(c.lookup_le(1), None);
    assert_eq!(c.lookup_le(2), Some((2, 10)));
    assert_eq!(c.lookup_le(4), Some((2, 10)));
    assert_eq!(c.lookup_le(9), Some((5, 40)));
}

#[test]
fn a_checkpoint_is_read_back() {
    let mut c = LeaderEpochCheckpoint::open(&[]).unwrap();
    c.rebuild(BTreeMap::from([(3, 30), (1, 10)]));
    let bytes = c.encode();
    let mut expected = vec![2, 0, 0, 0, 0, 0, 0, 0];
    for n in [1u64, 10, 3, 30] {
        expected.extend(n.to_le_bytes());
    }
    assert_eq!(bytes, expected);
    let again = LeaderEpochCheckpoint::open(&bytes).unwrap();
    assert_eq!(again.all_epochs(), c.all_epochs());
}

#[test]
fn a_damaged_checkpoint_is_reported() {
    match LeaderEpochCheckpoint::open(&[1, 2, 3]) {
        Err(XraftError::Corruption(m)) => {
            assert!(m.starts_with("leader-epoch-checkpoint parse error: "));
        }
        other => panic!("expected Corruption, got {other:?}"),
    }
}

#[test]
fn a_checkpoint_is_the_pairs_that_its_bytes_count() {
    let bytes = |numbers: &[u64]| -> Vec<u8> {
        numbers.iter().flat_map(|n| n.to_le_bytes()).collect()
    };
    // The last value of a key counts, and what follows the pairs is ignored.
    let c = LeaderEpochCheckpoint::open(&bytes(&[3, 5, 50, 2, 20, 5, 51, 77])).unwrap();
    assert_eq!(c.all_epochs(), BTreeMap::from([(2, 20), (5, 51)]));
    // A pair is missing.
    assert!(LeaderEpochCheckpoint::open(&bytes(&[2, 5, 50, 2])).is_err());
    assert!(LeaderEpochCheckpoint::open(&bytes(&[u64::MAX])).is_err());
    let none = LeaderEpochCheckpoint::open(&bytes(&[0])).unwrap();
    assert!(none.all_epochs().is_empty());
}
