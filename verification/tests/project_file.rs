use lartycc::json::{escape_json, temporary_path, ProjectError};
use lartycc::project::{project_or_new, Command, Project, Track};
use lartycc::session::ProjectSession;

fn tempo_text(bits: u64) -> String {
    format!("{}", f64::from_bits(bits))
}

fn read(input: &str) -> Result<Project, ProjectError> {
    let record = Project::parse_json(input)?;
    let tempo = record.tempo_text.parse::<f64>().ok().map(f64::to_bits);
    Project::from_record(record, tempo)
}

#[test]
fn writes_the_documented_layout() {
    let mut project = Project::new("project-1");
    project.revision = 3;
    project.tracks.push(Track { id: 42, name: "Audio \"one\"".into() });
    project.tracks.push(Track { id: 7, name: "a\\b".into() });
    let text = project.to_json(&tempo_text(project.tempo));
    assert_eq!(
        text,
        "{\n  \"schemaVersion\": 1,\n  \"projectId\": \"project-1\",\n  \"revision\": 3,\n  \"tempo\": 120,\n  \"tracks\": [{\"id\":\"42\",\"name\":\"Audio \\\"one\\\"\",\"kind\":\"audio\"},{\"id\":\"7\",\"name\":\"a\\\\b\",\"kind\":\"audio\"}]\n}\n"
    );
}

#[test]
fn project_round_trips_in_memory() {
    let mut session = ProjectSession::new(Project::new("project-1"));
    session
        .apply(&Command::CreateTrack { id: 42, name: "Audio \\\"one\\\"".into() })
        .unwrap();
    session.apply(&Command::SetTempo { bpm: 98.25_f64.to_bits() }).unwrap();
    let project = session.project();
    let parsed = read(&project.to_json(&tempo_text(project.tempo))).unwrap();
    assert_eq!(&parsed, project);
}

#[test]
fn ids_with_quotes_round_trip() {
    let mut project = Project::new("say \"hi\" \\ there");
    project.tracks.push(Track { id: 0, name: String::new() });
    let parsed = read(&project.to_json(&tempo_text(project.tempo))).unwrap();
    assert_eq!(parsed, project);
}

#[test]
fn an_id_that_names_the_tempo_key_is_read_wrongly() {
    for id in ["tempo", "x\"tempo"] {
        let project = Project::new(id);
        let text = project.to_json(&tempo_text(project.tempo));
        let record = Project::parse_json(&text).unwrap();
        assert_eq!(record.tempo_text, "0");
        assert_eq!(read(&text).unwrap_err(), ProjectError::InvalidFormat);
    }
    let mut project = Project::new("tempo");
    project.revision = 120;
    let text = project.to_json(&tempo_text(project.tempo));
    assert_eq!(read(&text).unwrap(), project);
}

#[test]
fn an_id_that_names_the_tracks_key_is_refused() {
    for id in ["tracks", "a\"tracks"] {
        let project = Project::new(id);
        let text = project.to_json(&tempo_text(project.tempo));
        assert_eq!(Project::parse_json(&text).err(), Some(ProjectError::InvalidFormat));
    }
}

#[test]
fn reads_a_hand_written_file() {
    let input = r#"{"schemaVersion": 1, "projectId": "x", "revision":5,"tempo": 99.5,
        "tracks": [ {"id": "+12", "name": "Bass {1}"}, {"name":"Keys","id":"340282366920938463463374607431768211455"} ] }"#;
    let project = read(input).unwrap();
    assert_eq!(project.id, "x");
    assert_eq!(project.revision, 5);
    assert_eq!(f64::from_bits(project.tempo), 99.5);
    assert_eq!(
        project.tracks,
        vec![
            Track { id: 12, name: "Bass {1}".into() },
            Track { id: u128::MAX, name: "Keys".into() }
        ]
    );
}

#[test]
fn refuses_other_schemas_and_malformed_files() {
    let good = "{\"schemaVersion\": 1, \"projectId\": \"x\", \"revision\": 0, \"tempo\": 120, \"tracks\": []}";
    assert!(read(good).is_ok());
    assert_eq!(
        read(&good.replace("\"schemaVersion\": 1", "\"schemaVersion\": 2")).unwrap_err(),
        ProjectError::UnsupportedSchema
    );
    for bad in [
        good.replace("\"schemaVersion\": 1", "\"schemaVersion\": x"),
        good.replace("\"projectId\": \"x\"", "\"projectId\": x"),
        good.replace("\"revision\": 0", "\"revision\": 18446744073709551616"),
        good.replace("\"tempo\": 120", "\"tempo\": 401"),
        good.replace("\"tempo\": 120", "\"tempo\": 1e2"),
        good.replace("[]", "[{\"id\":\"1\"}]"),
        good.replace("[]", "[{\"id\":\"-1\",\"name\":\"a\"}]"),
        good.replace("[]", "[{{\"id\":\"1\",\"name\":\"a\"}}]"),
        good.replace("[]", "[{\"id\":\"1\",\"name\":\"a\\n\"}]"),
        good.replace("\"tracks\": []", "\"tracks\": {}"),
        good.replace("\"tracks\": []}", "\"tracks\": [}"),
    ] {
        assert_eq!(read(&bad).unwrap_err(), ProjectError::InvalidFormat, "{bad}");
    }
    assert_eq!(Project::parse_json("").err(), Some(ProjectError::InvalidFormat));
}

#[test]
fn record_tempo_must_be_a_number_in_range() {
    let input = "{\"schemaVersion\": 1, \"projectId\": \"x\", \"revision\": 0, \"tempo\": 1.2.3, \"tracks\": []}";
    let record = Project::parse_json(input).unwrap();
    assert_eq!(record.tempo_text, "1.2.3");
    assert_eq!(Project::from_record(record, None).unwrap_err(), ProjectError::InvalidFormat);
    let record = Project::parse_json(input).unwrap();
    assert_eq!(
        Project::from_record(record, Some(19.0_f64.to_bits())).unwrap_err(),
        ProjectError::InvalidFormat
    );
    let record = Project::parse_json(input).unwrap();
    assert_eq!(Project::from_record(record, Some(20.0_f64.to_bits())).unwrap().tempo, 20.0_f64.to_bits());
}

#[test]
fn escapes_backslashes_and_quotes() {
    assert_eq!(escape_json("plain"), "plain");
    assert_eq!(escape_json("a\"b\\c"), "a\\\"b\\\\c");
    assert_eq!(escape_json(""), "");
}

#[test]
fn temporary_path_appends_tmp() {
    assert_eq!(temporary_path("dir/project.json"), "dir/project.json.tmp");
}

#[test]
fn a_missing_project_is_created_new() {
    let project = project_or_new(None);
    assert_eq!(project, Project::new("local-project"));
    let mut loaded = Project::new("x");
    loaded.revision = 4;
    assert_eq!(project_or_new(Some(loaded.clone())), loaded);
}
