use lartycc::project::{Command, CommandError, Project, Track};
use lartycc::session::{with_first_track, ProjectSession};
use lartycc::waveform::waveform_peaks;

fn bits(bpm: f64) -> u64 {
    bpm.to_bits()
}

#[test]
fn commands_undo_and_redo() {
    let mut session = ProjectSession::new(Project::new("test"));
    session.apply(&Command::SetTempo { bpm: bits(145.0) }).unwrap();
    session
        .apply(&Command::CreateTrack {
            id: 1,
            name: "Drums".into(),
        })
        .unwrap();
    session.undo().unwrap();
    assert!(session.project().tracks.is_empty());
    session.redo().unwrap();
    assert_eq!(session.project().tracks[0].name, "Drums");
}

#[test]
fn computes_waveform_peaks() {
    let samples: Vec<u32> = [0.0_f32, -0.5, 1.0, -0.25].iter().map(|v| v.to_bits()).collect();
    let peaks: Vec<f32> = waveform_peaks(&samples, 2).into_iter().map(f32::from_bits).collect();
    assert_eq!(peaks, vec![0.5, 1.0]);
}

#[test]
fn new_project_defaults() {
    let project = Project::new("p");
    assert_eq!(project.id, "p");
    assert_eq!(project.revision, 0);
    assert_eq!(f64::from_bits(project.tempo), 120.0);
    assert!(project.tracks.is_empty());
}

#[test]
fn tempo_bounds_are_inclusive() {
    let mut session = ProjectSession::new(Project::new("p"));
    assert_eq!(session.apply(&Command::SetTempo { bpm: bits(20.0) }), Ok(()));
    assert_eq!(session.apply(&Command::SetTempo { bpm: bits(400.0) }), Ok(()));
    assert_eq!(session.project().revision, 2);
    for bad in [19.999, 400.001, -120.0, f64::NAN, f64::INFINITY, 0.0, -0.0] {
        assert_eq!(
            session.apply(&Command::SetTempo { bpm: bits(bad) }),
            Err(CommandError::TempoOutOfRange)
        );
    }
    assert_eq!(session.project().revision, 2);
    assert_eq!(f64::from_bits(session.project().tempo), 400.0);
}

#[test]
fn blank_track_names_are_refused() {
    let mut session = ProjectSession::new(Project::new("p"));
    for name in ["", "   ", "\t\n", "\u{3000}\u{00A0}"] {
        assert_eq!(
            session.apply(&Command::CreateTrack { id: 1, name: name.into() }),
            Err(CommandError::EmptyTrackName)
        );
    }
    assert_eq!(session.apply(&Command::CreateTrack { id: 1, name: " a ".into() }), Ok(()));
}

#[test]
fn duplicate_and_missing_tracks_are_refused() {
    let mut session = ProjectSession::new(Project::new("p"));
    session.apply(&Command::CreateTrack { id: 7, name: "A".into() }).unwrap();
    assert_eq!(
        session.apply(&Command::CreateTrack { id: 7, name: "B".into() }),
        Err(CommandError::TrackAlreadyExists)
    );
    assert_eq!(
        session.apply(&Command::DeleteTrack { id: 8 }),
        Err(CommandError::TrackNotFound)
    );
    assert_eq!(session.project().revision, 1);
    assert_eq!(session.project().tracks.len(), 1);
}

#[test]
fn empty_histories_report_nothing_to_do() {
    let mut session = ProjectSession::new(Project::new("p"));
    assert_eq!(session.undo(), Err(CommandError::NothingToUndo));
    assert_eq!(session.redo(), Err(CommandError::NothingToRedo));
    assert_eq!(session.project().revision, 0);
}

#[test]
fn undo_of_delete_brings_the_track_back_last() {
    let mut session = ProjectSession::new(Project::new("p"));
    session.apply(&Command::CreateTrack { id: 1, name: "A".into() }).unwrap();
    session.apply(&Command::CreateTrack { id: 2, name: "B".into() }).unwrap();
    session.apply(&Command::DeleteTrack { id: 1 }).unwrap();
    assert_eq!(session.project().tracks, vec![Track { id: 2, name: "B".into() }]);
    session.undo().unwrap();
    assert_eq!(
        session.project().tracks,
        vec![Track { id: 2, name: "B".into() }, Track { id: 1, name: "A".into() }]
    );
    session.redo().unwrap();
    assert_eq!(session.project().tracks, vec![Track { id: 2, name: "B".into() }]);
    assert_eq!(session.project().revision, 5);
}

#[test]
fn undo_restores_tempo_and_apply_clears_redo() {
    let mut session = ProjectSession::new(Project::new("p"));
    session.apply(&Command::SetTempo { bpm: bits(90.5) }).unwrap();
    session.undo().unwrap();
    assert_eq!(f64::from_bits(session.project().tempo), 120.0);
    assert_eq!(session.project().revision, 2);
    session.apply(&Command::SetTempo { bpm: bits(60.0) }).unwrap();
    assert_eq!(session.redo(), Err(CommandError::NothingToRedo));
    session.undo().unwrap();
    session.undo().unwrap_err();
    assert_eq!(f64::from_bits(session.project().tempo), 120.0);
}

#[test]
fn revision_saturates() {
    let mut project = Project::new("p");
    project.revision = u64::MAX;
    let mut session = ProjectSession::new(project);
    session.apply(&Command::SetTempo { bpm: bits(100.0) }).unwrap();
    assert_eq!(session.project().revision, u64::MAX);
}

#[test]
fn failed_undo_drops_the_command() {
    let mut project = Project::new("p");
    project.tracks.push(Track { id: 3, name: " ".into() });
    let mut session = ProjectSession::new(project);
    session.apply(&Command::DeleteTrack { id: 3 }).unwrap();
    assert_eq!(session.undo(), Err(CommandError::EmptyTrackName));
    assert_eq!(session.undo(), Err(CommandError::NothingToUndo));
    assert!(session.project().tracks.is_empty());
}

#[test]
fn undo_of_delete_fails_when_ids_repeat() {
    let mut project = Project::new("p");
    project.tracks.push(Track { id: 1, name: "a".into() });
    project.tracks.push(Track { id: 1, name: "b".into() });
    let mut session = ProjectSession::new(project);
    session.apply(&Command::SetTempo { bpm: bits(90.0) }).unwrap();
    session.undo().unwrap();
    assert_eq!(f64::from_bits(session.project().tempo), 120.0);
    session.apply(&Command::DeleteTrack { id: 1 }).unwrap();
    assert_eq!(session.project().tracks, vec![Track { id: 1, name: "b".into() }]);
    assert_eq!(session.undo(), Err(CommandError::TrackAlreadyExists));
}

#[test]
fn waveform_edge_cases() {
    assert!(waveform_peaks(&[], 4).is_empty());
    assert!(waveform_peaks(&[1.0_f32.to_bits()], 0).is_empty());
    let samples: Vec<u32> = [0.1_f32, f32::NAN, -3.0, 2.0, 0.5].iter().map(|v| v.to_bits()).collect();
    let peaks: Vec<f32> = waveform_peaks(&samples, 2).into_iter().map(f32::from_bits).collect();
    assert_eq!(peaks, vec![3.0, 2.0]);
    let peaks: Vec<f32> = waveform_peaks(&samples, 10).into_iter().map(f32::from_bits).collect();
    assert_eq!(peaks, vec![0.1, 0.0, 3.0, 2.0, 0.5]);
    let only_nan = [f32::NAN.to_bits()];
    assert_eq!(waveform_peaks(&only_nan, 1), vec![0]);
}

#[test]
fn an_empty_project_gets_its_first_audio_track() {
    let mut session = ProjectSession::new(Project::new("p"));
    with_first_track(&mut session).unwrap();
    assert_eq!(session.project().tracks, vec![Track { id: 1, name: "Audio 1".into() }]);
    assert_eq!(session.project().revision, 1);
    session.undo().unwrap();
    assert!(session.project().tracks.is_empty());

    let mut project = Project::new("q");
    project.tracks.push(Track { id: 9, name: "Bass".into() });
    let mut session = ProjectSession::new(project);
    with_first_track(&mut session).unwrap();
    assert_eq!(session.project().tracks, vec![Track { id: 9, name: "Bass".into() }]);
    assert_eq!(session.project().revision, 0);
    assert_eq!(session.undo(), Err(CommandError::NothingToUndo));
}
