use xraft::error::{IoFault, IoFaultKind, RaftError, XraftError};

#[test]
fn raft_errors_describe_themselves() {
    let fault = IoFault::new(IoFaultKind::Other, String::from("disk full"));
    assert_eq!(RaftError::Io(fault).message(), "I/O error: disk full");
    assert_eq!(RaftError::storage("bad block").message(), "storage error: bad block");
    assert_eq!(RaftError::transport("gone").message(), "transport error: gone");
    assert_eq!(RaftError::runtime("panicked").message(), "runtime error: panicked");
    assert_eq!(
        RaftError::Serialization(String::from("x")).message(),
        "serialization error: x"
    );
    assert_eq!(
        RaftError::LogIndexOutOfRange { index: 3, first: 10, last: 20 }.message(),
        "log index 3 out of range (first = 10, last = 20)"
    );
    assert_eq!(
        RaftError::InconsistentVoterSet(String::from("two records")).message(),
        "inconsistent voter set: two records"
    );
    assert_eq!(
        RaftError::UnknownPeer(String::from("n9")).message(),
        "unknown peer: n9"
    );
    assert_eq!(RaftError::Cancelled.message(), "operation cancelled");
    assert_eq!(RaftError::Other(String::from("as it is")).message(), "as it is");
}

#[test]
fn constructors_pick_their_variant() {
    assert!(matches!(RaftError::storage("m"), RaftError::Storage(m) if m == "m"));
    assert!(matches!(RaftError::transport("m"), RaftError::Transport(m) if m == "m"));
    assert!(matches!(RaftError::runtime("m"), RaftError::Runtime(m) if m == "m"));
}

#[test]
fn xraft_errors_describe_themselves() {
    let reason = || String::from("why");
    let cases = vec![
        (XraftError::InvalidConfig { reason: reason() }, "invalid configuration: why"),
        (XraftError::AlreadyBootstrapped { reason: reason() }, "already bootstrapped: why"),
        (
            XraftError::InvalidBootstrapConfig { reason: reason() },
            "invalid bootstrap configuration: why",
        ),
        (XraftError::InvalidClusterId, "invalid cluster id"),
        (XraftError::InvalidElectionState { reason: reason() }, "invalid election state: why"),
        (XraftError::TransportError { reason: reason() }, "transport error: why"),
        (XraftError::RecoveryRequired, "recovery required"),
        (XraftError::InvalidResponse(reason()), "invalid response: why"),
        (XraftError::StateMachineApplyError(reason()), "state machine apply error: why"),
        (
            XraftError::StorageError(IoFault::new(IoFaultKind::InvalidData, reason())),
            "storage error: why",
        ),
        (XraftError::Corruption(reason()), "corruption: why"),
        (XraftError::SerializationError(reason()), "serialization error: why"),
    ];
    for (error, text) in cases {
        assert_eq!(error.message(), text);
    }
}
