use project_notes::codec::decode_state;
use project_notes::codec::encode_state;
use project_notes::model::AppState;
use project_notes::model::EntityId;
use project_notes::model::NoteState;
use project_notes::model::ProjectState;
use project_notes::model::SettingsState;
use project_notes::model::StepState;
use project_notes::model::WindowMode;

fn sample_state() -> AppState {
    AppState {
        projects: vec![
            ProjectState {
                id: Some(EntityId::Text("p-1".to_string())),
                name: "Запуск".to_string(),
                description: "line one\nline \"two\"\t\\done".to_string(),
                status: "В работе".to_string(),
                pinned: true,
                notes: vec![NoteState {
                    id: Some(EntityId::Num(7)),
                    title: "Kickoff".to_string(),
                    body: String::new(),
                    steps: vec![
                        StepState {
                            id: None,
                            text: "Book room".to_string(),
                            done: false,
                        },
                        StepState {
                            id: Some(EntityId::Num(0)),
                            text: "control \u{1} char".to_string(),
                            done: true,
                        },
                    ],
                }],
                steps: vec![StepState {
                    id: Some(EntityId::Text("s".to_string())),
                    text: String::new(),
                    done: true,
                }],
            },
            ProjectState {
                id: None,
                name: String::new(),
                description: String::new(),
                status: String::new(),
                pinned: false,
                notes: vec![],
                steps: vec![],
            },
        ],
        settings: SettingsState {
            window_mode: WindowMode::Borderless,
            always_on_top: true,
            ..SettingsState::default()
        },
    }
}

#[test]
fn decode_empty_object_yields_defaults() {
    let st = decode_state("{}").unwrap();
    assert_eq!(st, AppState::default());
}

#[test]
fn default_settings_values() {
    let s = SettingsState::default();
    assert_eq!(s.theme, "midnight");
    assert!(s.animations);
    assert_eq!(s.controls_layout, "topbar");
    assert!(s.statuses_enabled);
    assert_eq!(
        s.project_statuses,
        vec![
            "Новый".to_string(),
            "В работе".to_string(),
            "Завершен".to_string()
        ]
    );
    assert!(matches!(s.window_mode, WindowMode::FullscreenFramed));
    assert!(!s.always_on_top);
    assert_eq!(s.language, "ru");
}

#[test]
fn id_accepts_string_and_integer() {
    let text = "{\"projects\":[{\"id\":\"abc\",\"steps\":[{\"id\":42,\"text\":\"x\"}]}]}";
    let st = decode_state(text).unwrap();
    assert_eq!(st.projects[0].id, Some(EntityId::Text("abc".to_string())));
    assert_eq!(st.projects[0].steps[0].id, Some(EntityId::Num(42)));
    assert_eq!(st.projects[0].steps[0].text, "x");
}

#[test]
fn id_rejects_boolean() {
    let text = "{\"projects\":[{\"id\":true}]}";
    assert!(decode_state(text).is_none());
}

#[test]
fn id_rejects_fraction_and_negative() {
    assert!(decode_state("{\"projects\":[{\"id\":1.5}]}").is_none());
    assert!(decode_state("{\"projects\":[{\"id\":-4}]}").is_none());
}

#[test]
fn id_integer_bounds() {
    let ok = decode_state("{\"projects\":[{\"id\":18446744073709551615}]}").unwrap();
    assert_eq!(ok.projects[0].id, Some(EntityId::Num(u64::MAX)));
    assert!(decode_state("{\"projects\":[{\"id\":18446744073709551616}]}").is_none());
}

#[test]
fn round_trip_sample_state() {
    let st = sample_state();
    let text = encode_state(&st);
    let back = decode_state(&text).unwrap();
    assert_eq!(back, st);
}

#[test]
fn unicode_escape_decodes() {
    let st = decode_state("{\"settings\":{\"theme\":\"\\u0041\\u044f\"}}").unwrap();
    assert_eq!(st.settings.theme, "Aя");
}

#[test]
fn encode_default_exact_text() {
    let text = encode_state(&AppState::default());
    let expected = "{\n  \"projects\": [],\n  \"settings\": {\n    \"theme\": \"midnight\",\n    \"animations\": true,\n    \"controlsLayout\": \"topbar\",\n    \"statusesEnabled\": true,\n    \"projectStatuses\": [\n      \"Новый\",\n      \"В работе\",\n      \"Завершен\"\n    ],\n    \"windowMode\": \"fullscreen_framed\",\n    \"alwaysOnTop\": false,\n    \"language\": \"ru\"\n  }\n}";
    assert_eq!(text, expected);
}

#[test]
fn window_mode_alias_accepted() {
    let st = decode_state("{\"settings\":{\"windowMode\":\"fullscreen\"}}").unwrap();
    assert!(matches!(st.settings.window_mode, WindowMode::FullscreenFramed));
}

#[test]
fn window_mode_unknown_rejected() {
    assert!(decode_state("{\"settings\":{\"windowMode\":\"huge\"}}").is_none());
}

#[test]
fn wrong_shape_field_fails() {
    assert!(decode_state("{\"settings\":{\"theme\":5}}").is_none());
    assert!(decode_state("{\"projects\":{}}").is_none());
    assert!(decode_state("{\"settings\":{\"animations\":\"yes\"}}").is_none());
}

#[test]
fn unknown_fields_ignored() {
    let st =
        decode_state("{\"futureField\":{\"x\":[1,2.5,-3e2,null,false]},\"projects\":[]}").unwrap();
    assert_eq!(st, AppState::default());
}

#[test]
fn non_object_documents_rejected() {
    assert!(decode_state("").is_none());
    assert!(decode_state("[]").is_none());
    assert!(decode_state("5").is_none());
    assert!(decode_state("{} x").is_none());
}
