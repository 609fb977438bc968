use xraft::types::{ClusterId, NodeId, Offset, Term};

#[test]
fn types_term_ordering() {
    assert!(Term(3) < Term(5));
    assert!(Term(5) > Term(3));
    assert_eq!(Term(3), Term(3));
}

#[test]
fn node_id_ordering() {
    assert!(NodeId(1) < NodeId(2));
}

#[test]
fn offset_ordering() {
    assert!(Offset(0) < Offset(100));
}

#[test]
fn cluster_id_equality() {
    let id = uuid::Uuid::new_v4().as_u128();
    assert_eq!(ClusterId(id), ClusterId(id));
}

#[test]
fn identifiers_are_written_as_text() {
    assert_eq!(NodeId(7).text(), "NodeId(7)");
    assert_eq!(NodeId(0).text(), "NodeId(0)");
    assert_eq!(Term(42).text(), "T42");
    assert_eq!(Offset(1000).text(), "@1000");
    assert_eq!(Offset(u64::MAX).text(), "@18446744073709551615");
}

#[test]
fn a_cluster_id_is_written_as_a_hyphenated_uuid() {
    let id = ClusterId(0x0123_4567_89ab_cdef_0011_2233_4455_6677);
    assert_eq!(id.as_str(), "01234567-89ab-cdef-0011-223344556677");
    assert_eq!(id.text(), "ClusterId(01234567-89ab-cdef-0011-223344556677)");
    assert_eq!(ClusterId::default().as_str(), "00000000-0000-0000-0000-000000000000");
}

#[test]
fn random_cluster_ids_are_version_four_and_differ() {
    let a = ClusterId::random();
    let b = ClusterId::random();
    assert_ne!(a, b);
    assert!(!a.is_nil());
    assert!(ClusterId::default().is_nil());
    assert_eq!(uuid::Uuid::from_u128(a.0).get_version_num(), 4);
    assert_eq!(a.as_str().as_bytes()[14], b'4');
}

#[test]
fn the_first_term_and_offset_are_zero() {
    assert_eq!(Term::zero(), Term(0));
    assert_eq!(Term::default(), Term(0));
    assert_eq!(Offset::default(), Offset(0));
}
