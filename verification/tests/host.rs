use lartycc::host::{
    command_error, create_track, envelope, unreadable_request, default_period_frames, default_sample_rate, redo,
    require_revision, require_sample, route, set_tempo, undo, HostCommand, HostError,
    HOST_PROTOCOL_VERSION,
};
use lartycc::project::{CommandError, Project};
use lartycc::session::ProjectSession;

#[test]
fn routes_known_commands() {
    let cases = [
        ("host.getState", HostCommand::GetState),
        ("audio.listDevices", HostCommand::ListDevices),
        ("audio.loadTestTone", HostCommand::LoadTestTone),
        ("transport.play", HostCommand::Play),
        ("transport.stop", HostCommand::Stop),
        ("transport.seek", HostCommand::Seek),
        ("project.setTempo", HostCommand::SetTempo),
        ("project.createTrack", HostCommand::CreateTrack),
        ("project.undo", HostCommand::Undo),
        ("project.redo", HostCommand::Redo),
        ("project.save", HostCommand::Save),
    ];
    for (name, command) in cases {
        assert_eq!(route(HOST_PROTOCOL_VERSION, "id-1", name).unwrap(), command);
    }
}

#[test]
fn protocol_rejects_unknown_versions_and_commands() {
    let error = route(2, "future", "host.getState").unwrap_err();
    assert_eq!(error.code(), "unsupported_version");
    assert_eq!(error.message(), "expected protocol version 1");
    let error = route(1, "unknown", "project.explode").unwrap_err();
    assert_eq!(error.code(), "unknown_command");
    assert_eq!(error.describe(), "unknown_command: unsupported host command 'project.explode'");
}

#[test]
fn blank_request_ids_are_invalid() {
    let error = route(1, " \t", "host.getState").unwrap_err();
    assert_eq!(error.code(), "invalid_request");
    assert_eq!(error.message(), "request id cannot be empty");
    assert_eq!(route(1, "", "host.getState").unwrap_err().code(), "invalid_request");
}

#[test]
fn revisions_are_required_and_checked() {
    assert_eq!(require_revision(None, 0).unwrap_err().code(), "revision_required");
    let conflict = require_revision(Some(0), 12).unwrap_err();
    assert_eq!(conflict.code(), "revision_conflict");
    assert_eq!(conflict.message(), "expected revision 0, current revision is 12");
    assert!(require_revision(Some(12), 12).is_ok());
}

#[test]
fn protocol_routes_project_command_and_detects_stale_revision() {
    let mut session = ProjectSession::new(Project::new("local-project"));
    assert_eq!(route(1, "tempo-1", "project.setTempo").unwrap(), HostCommand::SetTempo);
    set_tempo(&mut session, Some(0), Ok(148.0_f64.to_bits())).unwrap();
    assert_eq!(f64::from_bits(session.project().tempo), 148.0);
    assert_eq!(session.project().revision, 1);
    let stale = set_tempo(&mut session, Some(0), Ok(120.0_f64.to_bits())).unwrap_err();
    assert_eq!(stale.code(), "revision_conflict");
    let stale_first = set_tempo(
        &mut session,
        Some(0),
        Err(HostError::new("invalid_payload", "missing bpm".to_string())),
    )
    .unwrap_err();
    assert_eq!(stale_first.code(), "revision_conflict");
    let bad_payload = set_tempo(
        &mut session,
        Some(1),
        Err(HostError::new("invalid_payload", "missing bpm".to_string())),
    )
    .unwrap_err();
    assert_eq!(bad_payload.code(), "invalid_payload");
    let rejected = set_tempo(&mut session, Some(1), Ok(1000.0_f64.to_bits())).unwrap_err();
    assert_eq!(rejected.code(), "command_rejected");
    assert_eq!(rejected.message(), "TempoOutOfRange");
    assert_eq!(session.project().revision, 1);
}

#[test]
fn create_track_checks_the_id_text() {
    let mut session = ProjectSession::new(Project::new("p"));
    let error = create_track(&mut session, Some(0), Ok(("x1".to_string(), "Drums".to_string())))
        .unwrap_err();
    assert_eq!(error.code(), "invalid_payload");
    assert_eq!(error.message(), "track id must be a u128 string");
    create_track(&mut session, Some(0), Ok(("+5".to_string(), "Drums".to_string()))).unwrap();
    assert_eq!(session.project().tracks[0].id, 5);
    undo(&mut session, Some(1)).unwrap();
    assert!(session.project().tracks.is_empty());
    redo(&mut session, Some(2)).unwrap();
    assert_eq!(session.project().tracks[0].name, "Drums");
    let none = redo(&mut session, Some(3)).unwrap_err();
    assert_eq!(none.message(), "NothingToRedo");
}

#[test]
fn command_errors_are_named() {
    let error = command_error(CommandError::TrackNotFound);
    assert_eq!(error.code(), "command_rejected");
    assert_eq!(error.message(), "TrackNotFound");
}

#[test]
fn play_needs_a_sample_and_defaults_are_fixed() {
    assert_eq!(require_sample(false).unwrap_err().code(), "sample_not_loaded");
    assert!(require_sample(true).is_ok());
    assert_eq!(default_sample_rate(), 48_000);
    assert_eq!(default_period_frames(), 128);
}

#[test]
fn responses_echo_the_version_and_id() {
    let ok = envelope("r-1".to_string(), Ok::<u32, HostError>(7));
    assert_eq!((ok.version, ok.id.as_str(), ok.ok, ok.result), (1, "r-1", true, Some(7)));
    assert!(ok.error.is_none());
    let failed = envelope::<u32>("r-2".to_string(), Err(require_sample(false).unwrap_err()));
    assert_eq!((failed.version, failed.id.as_str(), failed.ok), (1, "r-2", false));
    assert!(failed.result.is_none());
    assert_eq!(failed.error.unwrap().code(), "sample_not_loaded");
    let unread = unreadable_request::<u32>("expected value".to_string());
    assert_eq!((unread.id.as_str(), unread.ok), ("unknown", false));
    let error = unread.error.unwrap();
    assert_eq!(error.code(), "invalid_request");
    assert_eq!(error.message(), "expected value");
}
