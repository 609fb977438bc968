use xraft::rpc::{
    DeregisterObserverResponse, MembershipChangeResponse, MembershipError, RegisterObserverResponse,
};
use xraft::types::NodeId;

#[test]
fn membership_error_exhaustive_match() {
    let variants: Vec<MembershipError> = vec![
        MembershipError::NotLeader {
            leader_id: Some(NodeId(1)),
        },
        MembershipError::ChangeInProgress,
        MembershipError::NodeAlreadyVoter,
        MembershipError::NodeNotFound,
        MembershipError::NodeNotCaughtUp,
    ];

    for error in &variants {
        // Exhaustive match - if a variant is added without updating this
        // test, compilation will fail.
        match error {
            MembershipError::NotLeader { leader_id } => {
                assert!(leader_id.is_some());
            }
            MembershipError::ChangeInProgress => {}
            MembershipError::NodeAlreadyVoter => {}
            MembershipError::NodeNotFound => {}
            MembershipError::NodeNotCaughtUp => {}
        }
    }

    assert_eq!(variants.len(), 5, "all five MembershipError variants must be covered");
}

#[test]
fn responses_carry_success_or_the_error() {
    let ok = MembershipChangeResponse::success(Some(NodeId(3)));
    assert!(ok.success);
    assert_eq!(ok.leader_id, Some(NodeId(3)));
    assert_eq!(ok.error, None);

    let refused = MembershipChangeResponse::error(
        MembershipError::NotLeader { leader_id: Some(NodeId(2)) },
        Some(NodeId(2)),
    );
    assert!(!refused.success);
    assert_eq!(refused.leader_id, Some(NodeId(2)));
    assert_eq!(
        refused.error,
        Some(MembershipError::NotLeader { leader_id: Some(NodeId(2)) })
    );

    let short = MembershipChangeResponse::ok();
    assert!(short.success && short.leader_id.is_none() && short.error.is_none());
    let short = MembershipChangeResponse::err(MembershipError::NodeNotFound);
    assert!(!short.success && short.leader_id.is_none());
    assert_eq!(short.error, Some(MembershipError::NodeNotFound));
}

#[test]
fn observer_responses_carry_success_or_the_error() {
    let ok = RegisterObserverResponse::success(None);
    assert!(ok.success && ok.error.is_none() && ok.leader_id.is_none());
    let refused =
        RegisterObserverResponse::error(MembershipError::NodeAlreadyVoter, Some(NodeId(1)));
    assert!(!refused.success);
    assert_eq!(refused.error, Some(MembershipError::NodeAlreadyVoter));
    assert_eq!(refused.leader_id, Some(NodeId(1)));

    let ok = DeregisterObserverResponse::success(Some(NodeId(5)));
    assert!(ok.success && ok.error.is_none());
    assert_eq!(ok.leader_id, Some(NodeId(5)));
    let refused = DeregisterObserverResponse::error(MembershipError::NodeNotFound, None);
    assert!(!refused.success && refused.leader_id.is_none());
    assert_eq!(refused.error, Some(MembershipError::NodeNotFound));
}
