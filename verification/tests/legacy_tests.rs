use project_notes::legacy::AppData;
use project_notes::legacy::NotesApp;

#[test]
fn alloc_id_starts_at_one_and_advances() {
    let mut d = AppData::default();
    assert_eq!(d.next_id, 1);
    assert_eq!(d.alloc_id(), 1);
    assert_eq!(d.alloc_id(), 2);
    assert_eq!(d.next_id, 3);
    let mut z = AppData {
        next_id: 0,
        projects: vec![],
    };
    assert_eq!(z.alloc_id(), 1);
    assert_eq!(z.next_id, 2);
}

#[test]
fn add_project_trims_and_selects() {
    let mut app = NotesApp::new(AppData::default());
    assert_eq!(app.selected_project_id, None);
    assert!(!app.add_project("   ", "desc"));
    assert!(app.data.projects.is_empty());
    assert!(app.add_project("  Alpha  ", "  text  "));
    assert_eq!(app.data.projects[0].name, "Alpha");
    assert_eq!(app.data.projects[0].description, "text");
    assert_eq!(app.selected_project_id, Some(1));
    assert_eq!(app.selected_note_id, None);
    assert_eq!(app.data.next_id, 2);
}

#[test]
fn delete_selected_project_reselects_first() {
    let mut app = NotesApp::new(AppData::default());
    assert!(app.add_project("Alpha", ""));
    assert!(app.add_project("Beta", ""));
    assert_eq!(app.selected_project_id, Some(2));
    app.delete_selected_project();
    assert_eq!(app.data.projects.len(), 1);
    assert_eq!(app.data.projects[0].name, "Alpha");
    assert_eq!(app.selected_project_id, Some(1));
    app.delete_selected_project();
    assert!(app.data.projects.is_empty());
    assert_eq!(app.selected_project_id, None);
}

#[test]
fn add_note_and_delete_note() {
    let mut app = NotesApp::new(AppData::default());
    assert!(app.add_project("P", ""));
    assert!(app.add_note("  First  ", "  body  "));
    assert_eq!(app.selected_note_id, Some(2));
    assert!(!app.add_note("   ", "x"));
    assert!(app.add_note("Second", ""));
    assert_eq!(app.selected_note_id, Some(3));
    let notes = &app.data.projects[0].notes;
    assert_eq!(notes.len(), 2);
    assert_eq!(notes[0].title, "First");
    assert_eq!(notes[0].body, "body");
    app.selected_note_id = Some(2);
    app.delete_note(2);
    assert_eq!(app.data.projects[0].notes.len(), 1);
    assert_eq!(app.data.projects[0].notes[0].title, "Second");
    assert_eq!(app.selected_note_id, Some(3));
}

#[test]
fn add_note_without_selection_still_advances_counter() {
    let mut app = NotesApp::new(AppData::default());
    assert!(!app.add_note("Title", ""));
    assert_eq!(app.data.next_id, 2);
    assert!(app.data.projects.is_empty());
}

#[test]
fn selected_project_finds_by_id() {
    let mut app = NotesApp::new(AppData::default());
    assert!(app.selected_project().is_none());
    assert!(app.add_project("Alpha", ""));
    assert!(app.add_project("Beta", ""));
    assert_eq!(app.selected_project().unwrap().name, "Beta");
    app.selected_project_id = Some(1);
    assert_eq!(app.selected_project().unwrap().name, "Alpha");
    app.selected_project_id = Some(99);
    assert!(app.selected_project().is_none());
}
