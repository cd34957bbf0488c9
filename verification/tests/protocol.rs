use multiplex::protocol::{
    frame_size, response_kind, validate_response, ControllerCommand, ControllerCommandEnvelope,
    ControllerResponse, ControllerSessionCapability, ControllerSessionOrigin, ControllerSessionSummary,
    ListenerErrorCode, BridgeCommandKind, ApprovalDecision, CONTROLLER_COMMAND_VERSION, MAX_INPUT_BYTES,
    MAX_SESSION_PAGE_RECORDS,
};

fn summary() -> ControllerSessionSummary {
    ControllerSessionSummary {
        session_id: 11,
        host_instance_id: Some(12),
        origin: ControllerSessionOrigin::ManagedAgent,
        runtime: Some("codex".into()),
        capabilities: vec![
            ControllerSessionCapability::ObserveSessions,
            ControllerSessionCapability::AttachOutput,
        ],
        title: "Deploy".into(),
        project: Some("Console".into()),
        group: Some("Release".into()),
        lifecycle: "live".into(),
        activity: "needs_input".into(),
        occupant_generation: Some(2),
        last_output_sequence: 9,
        has_writer: false,
        unread: true,
    }
}

fn page(sessions: Vec<ControllerSessionSummary>) -> ControllerResponse {
    ControllerResponse::Sessions { command_id: 1, revision: 4, update_sequence: 4, sessions, next_offset: None }
}

#[test]
fn a_command_version_may_be_older_but_never_newer() {
    let mut envelope = ControllerCommandEnvelope::new(5, 1, 1_000, ControllerCommand::OpenScreen);
    assert!(envelope.validate().is_ok());
    envelope.version = CONTROLLER_COMMAND_VERSION + 1;
    assert!(envelope.validate().is_err());
    envelope.version = 0;
    assert!(envelope.validate().is_err());
}

#[test]
fn a_command_from_a_newer_device_is_refused_rather_than_fatal() {
    let envelope = ControllerCommandEnvelope::new(5, 1, 1_000, ControllerCommand::Unsupported);
    assert!(envelope.validate().is_ok());
    assert_eq!(envelope.bridge_command().kind, BridgeCommandKind::Unsupported);
}

#[test]
fn a_response_from_a_newer_computer_is_skipped() {
    assert!(validate_response(&ControllerResponse::Unknown).is_ok());
    assert_eq!(response_kind(&ControllerResponse::Unknown), "unknown");
}

#[test]
fn malformed_versions_dimensions_input_and_unknown_fields_fail_closed() {
    let mut command = ControllerCommandEnvelope::new(
        1,
        1,
        2,
        ControllerCommand::Resize { session_id: 3, occupant_generation: 1, columns: 0, rows: 24 },
    );
    assert_eq!(command.validate().unwrap_err().code, ListenerErrorCode::MalformedFrame);
    command.version = 2;
    assert!(command.validate().is_err());

    let acquire = ControllerCommandEnvelope::new(1, 1, 2, ControllerCommand::AcquireWriter { session_id: 3, occupant_generation: 1 });
    assert!(acquire.validate().is_ok());

    let oversized_input = ControllerCommandEnvelope::new(
        1,
        1,
        2,
        ControllerCommand::Input { session_id: 3, occupant_generation: 1, bytes: vec![0; MAX_INPUT_BYTES + 1] },
    );
    assert_eq!(oversized_input.validate().unwrap_err().code, ListenerErrorCode::FrameTooLarge);
    let no_deadline = ControllerCommandEnvelope::new(1, 1, 0, ControllerCommand::OpenScreen);
    assert!(no_deadline.validate().is_err());
}

#[test]
fn session_pages_are_bounded_and_require_stable_nonzero_revisions() {
    let command = ControllerCommandEnvelope::new(
        1,
        0,
        2,
        ControllerCommand::ListSessions { offset: 0, limit: MAX_SESSION_PAGE_RECORDS, expected_revision: None },
    );
    assert!(command.validate().is_ok());
    let invalid = ControllerCommandEnvelope::new(
        1,
        0,
        2,
        ControllerCommand::ListSessions { offset: 0, limit: MAX_SESSION_PAGE_RECORDS + 1, expected_revision: None },
    );
    assert!(invalid.validate().is_err());
    let stale = ControllerCommandEnvelope::new(
        1,
        0,
        2,
        ControllerCommand::ListSessions { offset: 0, limit: 10, expected_revision: Some(0) },
    );
    assert!(stale.validate().is_err());
    assert!(validate_response(&ControllerResponse::Sessions {
        command_id: 1,
        revision: 0,
        update_sequence: 1,
        sessions: Vec::new(),
        next_offset: None,
    })
    .is_err());
    assert!(validate_response(&page(vec![summary()])).is_ok());

    let attached = ControllerResponse::Attached {
        command_id: 1,
        session_id: 2,
        occupant_generation: 3,
        replay_through_sequence: 12,
        has_writer_lease: false,
    };
    assert!(validate_response(&attached).is_ok());
    let snapshot = ControllerResponse::Snapshot {
        command_id: 1,
        session_id: 2,
        boundary_sequence: 11,
        columns: 120,
        rows: 40,
        chunk_index: 0,
        chunk_count: 1,
        bytes: b"retained screen".to_vec(),
    };
    assert!(validate_response(&snapshot).is_ok());
}

#[test]
fn a_summary_out_of_bounds_spoils_its_page() {
    let mut unsorted = summary();
    unsorted.capabilities.reverse();
    assert_eq!(validate_response(&page(vec![unsorted])).unwrap_err().code, ListenerErrorCode::FrameTooLarge);
    let mut odd_runtime = summary();
    odd_runtime.runtime = Some("co dex".into());
    assert!(validate_response(&page(vec![odd_runtime])).is_err());
    let mut long_title = summary();
    long_title.title = "é".repeat(257);
    assert!(validate_response(&page(vec![long_title])).is_err());
    let mut wide_activity = summary();
    wide_activity.activity = "é".repeat(33);
    assert!(validate_response(&page(vec![wide_activity])).is_err());
    let mut fits = summary();
    fits.activity = "é".repeat(32);
    fits.title = "é".repeat(256);
    assert!(validate_response(&page(vec![fits])).is_ok());
}

#[test]
fn screens_errors_and_output_have_their_own_rules() {
    assert!(validate_response(&ControllerResponse::Output { session_id: 1, sequence: 2, bytes: vec![] }).is_err());
    assert!(validate_response(&ControllerResponse::ScreenOpened {
        command_id: 1,
        ticket: vec![0; 31],
        can_control_pointer: true,
        can_control_keyboard: false,
    })
    .is_err());
    assert!(validate_response(&ControllerResponse::Error { command_id: 1, code: "not_found".into(), completion_unknown: false }).is_ok());
    assert!(validate_response(&ControllerResponse::Error { command_id: 1, code: "Not-Found".into(), completion_unknown: false }).is_err());
    assert!(frame_size(0, 10).is_err());
    assert!(frame_size(11, 10).is_err());
    assert!(frame_size(10, 10).is_ok());
    let approval = ControllerCommand::Approval { session_id: 4, occupant_generation: 5, approval_id: 6, decision: ApprovalDecision::Deny };
    assert_eq!(approval.session_id(), Some(4));
    assert_eq!(approval.occupant_generation(), Some(5));
    assert_eq!(ControllerCommand::OpenScreen.session_id(), None);
}
