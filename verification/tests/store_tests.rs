use project_notes::model::AppState;
use project_notes::model::NoteState;
use project_notes::model::ProjectState;
use project_notes::model::StepState;
use project_notes::store::load_app_state;
use project_notes::store::save_app_state;
use project_notes::store::state_file_name;
use project_notes::store::ErrorKind;

#[test]
fn state_file_name_value() {
    assert_eq!(state_file_name(), "app_state.json");
}

#[test]
fn load_missing_file_yields_defaults() {
    let st = load_app_state(None).unwrap();
    assert_eq!(st, AppState::default());
}

#[test]
fn load_corrupt_file_fails_deserialize() {
    let e = load_app_state(Some("not json{")).unwrap_err();
    assert!(matches!(e.kind, ErrorKind::Deserialize));
    assert!(!e.message.is_empty());
}

#[test]
fn end_to_end_save_and_reload() {
    let mut st = load_app_state(None).unwrap();
    assert!(st.projects.is_empty());
    st.projects.push(ProjectState {
        id: None,
        name: "Launch".to_string(),
        description: String::new(),
        status: String::new(),
        pinned: false,
        notes: vec![NoteState {
            id: None,
            title: "Kickoff".to_string(),
            body: String::new(),
            steps: vec![StepState {
                id: None,
                text: "Book room".to_string(),
                done: false,
            }],
        }],
        steps: vec![],
    });
    let saved = save_app_state(&st);
    let re = load_app_state(Some(&saved)).unwrap();
    assert_eq!(re.projects[0].name, "Launch");
    assert_eq!(re.projects[0].notes[0].steps[0].text, "Book room");
    assert!(!re.projects[0].notes[0].steps[0].done);
    assert_eq!(re, st);
}
