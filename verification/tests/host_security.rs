use multiplex::host_security::{
    choose_slot, endpoint_private, peer_admitted, pipe_security_descriptor, process_group_for, removes_endpoint,
    runtime_root_private, runtime_root_usable, signal_outcome, slot_lock_acceptable, slot_lock_name, HostErrorCode,
    SlotAttempt,
};

#[test]
fn only_a_child_leading_its_own_group_is_signalled_as_a_group() {
    assert_eq!(process_group_for(Some(4242), 4242), Ok(4242));
    assert_eq!(process_group_for(Some(4241), 4242), Err(HostErrorCode::ProcessIdentityUnavailable));
    assert_eq!(process_group_for(Some(0), 0), Err(HostErrorCode::ProcessIdentityUnavailable));
    assert_eq!(process_group_for(Some(-5), 5), Err(HostErrorCode::ProcessIdentityUnavailable));
    assert_eq!(process_group_for(None, 1), Err(HostErrorCode::ProcessIdentityUnavailable));
    assert!(signal_outcome(true, false));
    assert!(signal_outcome(false, true));
    assert!(!signal_outcome(false, false));
}

#[test]
fn slot_locks_are_numbered_in_two_digits_and_taken_in_order() {
    assert_eq!(slot_lock_name("host-slot-", 3), "host-slot-03.lock");
    assert_eq!(slot_lock_name("host-slot-", 12), "host-slot-12.lock");
    assert_eq!(choose_slot(&vec![SlotAttempt::Taken, SlotAttempt::Held, SlotAttempt::Held]), Ok(1));
    assert_eq!(choose_slot(&vec![SlotAttempt::Taken, SlotAttempt::Taken]), Err(HostErrorCode::ResourceLimit));
    assert_eq!(choose_slot(&vec![SlotAttempt::Taken, SlotAttempt::Failed]), Err(HostErrorCode::PermissionDenied));
    assert_eq!(choose_slot(&Vec::new()), Err(HostErrorCode::ResourceLimit));
}

#[test]
fn everything_in_the_runtime_folder_is_this_user_s_alone() {
    assert!(slot_lock_acceptable(true, 501, 501, 0o100600));
    assert!(!slot_lock_acceptable(true, 502, 501, 0o100600));
    assert!(!slot_lock_acceptable(true, 501, 501, 0o100644));
    assert!(!slot_lock_acceptable(false, 501, 501, 0o600));
    assert_eq!(runtime_root_usable(false, false, false), Ok(true));
    assert_eq!(runtime_root_usable(true, true, true), Err(HostErrorCode::PermissionDenied));
    assert_eq!(runtime_root_usable(true, false, false), Err(HostErrorCode::PermissionDenied));
    assert_eq!(runtime_root_usable(true, false, true), Ok(false));
    assert!(runtime_root_private(501, 501, 0o40700));
    assert!(!runtime_root_private(501, 501, 0o40755));
    assert!(endpoint_private(true, 501, 501, 0o140600));
    assert!(!endpoint_private(false, 501, 501, 0o600));
}

#[test]
fn only_this_user_is_served_and_only_our_socket_is_removed() {
    assert!(peer_admitted(Some(501), 501));
    assert!(!peer_admitted(Some(0), 501));
    assert!(!peer_admitted(None, 501));
    assert!(removes_endpoint(true, 1, 2, 1, 2));
    assert!(!removes_endpoint(true, 1, 3, 1, 2));
    assert!(!removes_endpoint(false, 1, 2, 1, 2));
}

#[test]
fn the_pipe_admits_only_the_host_s_user() {
    assert_eq!(pipe_security_descriptor("S-1-5-21-1"), "D:P(A;;GA;;;S-1-5-21-1)");
}
