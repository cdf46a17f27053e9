//! The serialization contract of the state model: a permissive,
//! default-filling decode from JSON documents and a total, canonical
//! encode back, with the proof that decoding inverts encoding.
//!
//! Decoding ignores unknown fields, fills every absent field with its
//! documented default, and fails on a present field of the wrong
//! shape. Identifiers accept either a string or a non-negative
//! integer.

use vstd::prelude::*;
use crate::json::Json;
use crate::json::JsonV;
use crate::json::jview;
use crate::json::jviews;
use crate::json::mviews;
use crate::json::lemma_jviews;
use crate::json::lemma_mviews;
use crate::json::spec_parse_u64;
use crate::json::parse_u64_digits;
use crate::json::dec_digits;
use crate::json::u64_to_dec;
use crate::json::lemma_parse_u64_dec;
use crate::json::spec_parse_doc;
use crate::json::spec_print_doc;
use crate::json::parse_json;
use crate::json::print_json;
use crate::json::wf_json;
use crate::model::AppState;
use crate::model::AppStateV;
use crate::model::EntityId;
use crate::model::IdV;
use crate::model::NoteState;
use crate::model::NoteV;
use crate::model::ProjectState;
use crate::model::ProjectV;
use crate::model::SettingsState;
use crate::model::SettingsV;
use crate::model::StepState;
use crate::model::StepV;
use crate::model::WindowMode;
use crate::model::spec_default_settings;
use crate::model::spec_default_theme;
use crate::model::spec_default_controls_layout;
use crate::model::spec_default_language;
use crate::model::spec_default_project_statuses;
use crate::model::default_theme;
use crate::model::default_controls_layout;
use crate::model::default_language;
use crate::model::default_project_statuses;
use crate::text::str_eq;

verus! {

/// The first value stored under a key, if any.
pub open spec fn obj_get(ms: Seq<(Seq<char>, JsonV)>, key: Seq<char>) -> Option<JsonV>
    decreases ms.len(),
{
    if ms.len() == 0 {
        Option::None
    } else if ms[0].0 == key {
        Option::Some(ms[0].1)
    } else {
        obj_get(ms.drop_first(), key)
    }
}

/// An identifier from a document value: text, a non-negative integer
/// that fits 64 bits, or null for no identifier.
pub open spec fn id_from_json(j: JsonV) -> Option<Option<IdV>> {
    match j {
        JsonV::Null => Option::Some(Option::None),
        JsonV::Str(t) => Option::Some(Option::Some(IdV::Text(t))),
        JsonV::Num(raw) => match spec_parse_u64(raw) {
            Option::Some(n) => Option::Some(Option::Some(IdV::Num(n))),
            Option::None => Option::None,
        },
        _ => Option::None,
    }
}

/// A string field value.
pub open spec fn str_from_json(j: JsonV) -> Option<Seq<char>> {
    match j {
        JsonV::Str(t) => Option::Some(t),
        _ => Option::None,
    }
}

/// A boolean field value.
pub open spec fn bool_from_json(j: JsonV) -> Option<bool> {
    match j {
        JsonV::Bool(b) => Option::Some(b),
        _ => Option::None,
    }
}

/// The window mode named by a string; the older name of the framed
/// mode is accepted as well.
pub open spec fn mode_from_key(t: Seq<char>) -> Option<WindowMode> {
    if t == "fullscreen_framed"@ || t == "fullscreen"@ {
        Option::Some(WindowMode::FullscreenFramed)
    } else if t == "fullscreen_borderless"@ {
        Option::Some(WindowMode::FullscreenBorderless)
    } else if t == "windowed"@ {
        Option::Some(WindowMode::Windowed)
    } else if t == "borderless"@ {
        Option::Some(WindowMode::Borderless)
    } else {
        Option::None
    }
}

/// The canonical name of a window mode.
pub open spec fn mode_key(m: WindowMode) -> Seq<char> {
    match m {
        WindowMode::FullscreenFramed => "fullscreen_framed"@,
        WindowMode::FullscreenBorderless => "fullscreen_borderless"@,
        WindowMode::Windowed => "windowed"@,
        WindowMode::Borderless => "borderless"@,
    }
}

/// An optional identifier field: absent means none.
pub open spec fn field_id(ms: Seq<(Seq<char>, JsonV)>, key: Seq<char>) -> Option<Option<IdV>> {
    match obj_get(ms, key) {
        Option::None => Option::Some(Option::None),
        Option::Some(v) => id_from_json(v),
    }
}

/// A string field with a default for absence.
pub open spec fn field_str(ms: Seq<(Seq<char>, JsonV)>, key: Seq<char>, dflt: Seq<char>) -> Option<
    Seq<char>,
> {
    match obj_get(ms, key) {
        Option::None => Option::Some(dflt),
        Option::Some(v) => str_from_json(v),
    }
}

/// A boolean field with a default for absence.
pub open spec fn field_bool(ms: Seq<(Seq<char>, JsonV)>, key: Seq<char>, dflt: bool) -> Option<
    bool,
> {
    match obj_get(ms, key) {
        Option::None => Option::Some(dflt),
        Option::Some(v) => bool_from_json(v),
    }
}

/// The strings of an array of strings, from `k` on.
pub open spec fn strs_from_elems(elems: Seq<JsonV>, k: int) -> Option<Seq<Seq<char>>>
    decreases elems.len() - k,
{
    if k < 0 || k >= elems.len() {
        Option::Some(Seq::empty())
    } else {
        match (str_from_json(elems[k]), strs_from_elems(elems, k + 1)) {
            (Option::Some(t), Option::Some(rest)) => Option::Some(seq![t] + rest),
            _ => Option::None,
        }
    }
}

/// One step from a document value.
pub open spec fn step_from_json(j: JsonV) -> Option<StepV> {
    match j {
        JsonV::Obj(ms) => match (
            field_id(ms, "id"@),
            field_str(ms, "text"@, Seq::empty()),
            field_bool(ms, "done"@, false),
        ) {
            (Option::Some(id), Option::Some(text), Option::Some(done)) => Option::Some(
                StepV { id, text, done },
            ),
            _ => Option::None,
        },
        _ => Option::None,
    }
}

/// The steps of an array, from `k` on.
pub open spec fn steps_from_elems(elems: Seq<JsonV>, k: int) -> Option<Seq<StepV>>
    decreases elems.len() - k,
{
    if k < 0 || k >= elems.len() {
        Option::Some(Seq::empty())
    } else {
        match (step_from_json(elems[k]), steps_from_elems(elems, k + 1)) {
            (Option::Some(st), Option::Some(rest)) => Option::Some(seq![st] + rest),
            _ => Option::None,
        }
    }
}

/// A step-list field: absent means empty.
pub open spec fn field_steps(ms: Seq<(Seq<char>, JsonV)>, key: Seq<char>) -> Option<Seq<StepV>> {
    match obj_get(ms, key) {
        Option::None => Option::Some(Seq::empty()),
        Option::Some(JsonV::Arr(elems)) => steps_from_elems(elems, 0),
        Option::Some(_) => Option::None,
    }
}

/// One note from a document value.
pub open spec fn note_from_json(j: JsonV) -> Option<NoteV> {
    match j {
        JsonV::Obj(ms) => match (
            field_id(ms, "id"@),
            field_str(ms, "title"@, Seq::empty()),
            field_str(ms, "body"@, Seq::empty()),
            field_steps(ms, "steps"@),
        ) {
            (
                Option::Some(id),
                Option::Some(title),
                Option::Some(body),
                Option::Some(steps),
            ) => Option::Some(NoteV { id, title, body, steps }),
            _ => Option::None,
        },
        _ => Option::None,
    }
}

/// The notes of an array, from `k` on.
pub open spec fn notes_from_elems(elems: Seq<JsonV>, k: int) -> Option<Seq<NoteV>>
    decreases elems.len() - k,
{
    if k < 0 || k >= elems.len() {
        Option::Some(Seq::empty())
    } else {
        match (note_from_json(elems[k]), notes_from_elems(elems, k + 1)) {
            (Option::Some(nt), Option::Some(rest)) => Option::Some(seq![nt] + rest),
            _ => Option::None,
        }
    }
}

/// One project from a document value.
pub open spec fn project_from_json(j: JsonV) -> Option<ProjectV> {
    match j {
        JsonV::Obj(ms) => match (
            field_id(ms, "id"@),
            field_str(ms, "name"@, Seq::empty()),
            field_str(ms, "description"@, Seq::empty()),
            field_str(ms, "status"@, Seq::empty()),
            field_bool(ms, "pinned"@, false),
        ) {
            (
                Option::Some(id),
                Option::Some(name),
                Option::Some(description),
                Option::Some(status),
                Option::Some(pinned),
            ) => {
                let notes = match obj_get(ms, "notes"@) {
                    Option::None => Option::Some(Seq::<NoteV>::empty()),
                    Option::Some(JsonV::Arr(elems)) => notes_from_elems(elems, 0),
                    Option::Some(_) => Option::None,
                };
                match (notes, field_steps(ms, "steps"@)) {
                    (Option::Some(notes), Option::Some(steps)) => Option::Some(
                        ProjectV { id, name, description, status, pinned, notes, steps },
                    ),
                    _ => Option::None,
                }
            },
            _ => Option::None,
        },
        _ => Option::None,
    }
}

/// The projects of an array, from `k` on.
pub open spec fn projects_from_elems(elems: Seq<JsonV>, k: int) -> Option<Seq<ProjectV>>
    decreases elems.len() - k,
{
    if k < 0 || k >= elems.len() {
        Option::Some(Seq::empty())
    } else {
        match (project_from_json(elems[k]), projects_from_elems(elems, k + 1)) {
            (Option::Some(p), Option::Some(rest)) => Option::Some(seq![p] + rest),
            _ => Option::None,
        }
    }
}

/// The settings from a document value.
pub open spec fn settings_from_json(j: JsonV) -> Option<SettingsV> {
    match j {
        JsonV::Obj(ms) => {
            let statuses = match obj_get(ms, "projectStatuses"@) {
                Option::None => Option::Some(spec_default_project_statuses()),
                Option::Some(JsonV::Arr(elems)) => strs_from_elems(elems, 0),
                Option::Some(_) => Option::None,
            };
            let mode = match obj_get(ms, "windowMode"@) {
                Option::None => Option::Some(WindowMode::FullscreenFramed),
                Option::Some(JsonV::Str(t)) => mode_from_key(t),
                Option::Some(_) => Option::None,
            };
            match (
                field_str(ms, "theme"@, spec_default_theme()),
                field_bool(ms, "animations"@, true),
                field_str(ms, "controlsLayout"@, spec_default_controls_layout()),
                field_bool(ms, "statusesEnabled"@, true),
                statuses,
                mode,
                field_bool(ms, "alwaysOnTop"@, false),
                field_str(ms, "language"@, spec_default_language()),
            ) {
                (
                    Option::Some(theme),
                    Option::Some(animations),
                    Option::Some(controls_layout),
                    Option::Some(statuses_enabled),
                    Option::Some(project_statuses),
                    Option::Some(window_mode),
                    Option::Some(always_on_top),
                    Option::Some(language),
                ) => Option::Some(
                    SettingsV {
                        theme,
                        animations,
                        controls_layout,
                        statuses_enabled,
                        project_statuses,
                        window_mode,
                        always_on_top,
                        language,
                    },
                ),
                _ => Option::None,
            }
        },
        _ => Option::None,
    }
}

/// A whole state from a document value: the document must be an
/// object; both fields fill in their defaults when absent.
pub open spec fn state_from_json(j: JsonV) -> Option<AppStateV> {
    match j {
        JsonV::Obj(ms) => {
            let projects = match obj_get(ms, "projects"@) {
                Option::None => Option::Some(Seq::<ProjectV>::empty()),
                Option::Some(JsonV::Arr(elems)) => projects_from_elems(elems, 0),
                Option::Some(_) => Option::None,
            };
            let settings = match obj_get(ms, "settings"@) {
                Option::None => Option::Some(spec_default_settings()),
                Option::Some(v) => settings_from_json(v),
            };
            match (projects, settings) {
                (Option::Some(projects), Option::Some(settings)) => Option::Some(
                    AppStateV { projects, settings },
                ),
                _ => Option::None,
            }
        },
        _ => Option::None,
    }
}

/// What decoding a text yields, if anything.
pub open spec fn spec_decode(s: Seq<char>) -> Option<AppStateV> {
    match spec_parse_doc(s) {
        Option::None => Option::None,
        Option::Some(j) => state_from_json(j),
    }
}

/// The document value of an identifier field.
pub open spec fn json_of_id(id: Option<IdV>) -> JsonV {
    match id {
        Option::None => JsonV::Null,
        Option::Some(IdV::Text(t)) => JsonV::Str(t),
        Option::Some(IdV::Num(n)) => JsonV::Num(dec_digits(n as nat)),
    }
}

/// The document value of a step.
pub open spec fn json_of_step(st: StepV) -> JsonV {
    JsonV::Obj(
        seq![
            ("id"@, json_of_id(st.id)),
            ("text"@, JsonV::Str(st.text)),
            ("done"@, JsonV::Bool(st.done)),
        ],
    )
}

/// The document values of a step list.
pub open spec fn jsons_of_steps(steps: Seq<StepV>) -> Seq<JsonV> {
    Seq::new(steps.len(), |i: int| json_of_step(steps[i]))
}

/// The document value of a note.
pub open spec fn json_of_note(nt: NoteV) -> JsonV {
    JsonV::Obj(
        seq![
            ("id"@, json_of_id(nt.id)),
            ("title"@, JsonV::Str(nt.title)),
            ("body"@, JsonV::Str(nt.body)),
            ("steps"@, JsonV::Arr(jsons_of_steps(nt.steps))),
        ],
    )
}

/// The document values of a note list.
pub open spec fn jsons_of_notes(notes: Seq<NoteV>) -> Seq<JsonV> {
    Seq::new(notes.len(), |i: int| json_of_note(notes[i]))
}

/// The document value of a project.
pub open spec fn json_of_project(p: ProjectV) -> JsonV {
    JsonV::Obj(
        seq![
            ("id"@, json_of_id(p.id)),
            ("name"@, JsonV::Str(p.name)),
            ("description"@, JsonV::Str(p.description)),
            ("status"@, JsonV::Str(p.status)),
            ("pinned"@, JsonV::Bool(p.pinned)),
            ("notes"@, JsonV::Arr(jsons_of_notes(p.notes))),
            ("steps"@, JsonV::Arr(jsons_of_steps(p.steps))),
        ],
    )
}

/// The document values of a project list.
pub open spec fn jsons_of_projects(projects: Seq<ProjectV>) -> Seq<JsonV> {
    Seq::new(projects.len(), |i: int| json_of_project(projects[i]))
}

/// The document values of a string list.
pub open spec fn jsons_of_strs(ss: Seq<Seq<char>>) -> Seq<JsonV> {
    Seq::new(ss.len(), |i: int| JsonV::Str(ss[i]))
}

/// The document value of the settings.
pub open spec fn json_of_settings(st: SettingsV) -> JsonV {
    JsonV::Obj(
        seq![
            ("theme"@, JsonV::Str(st.theme)),
            ("animations"@, JsonV::Bool(st.animations)),
            ("controlsLayout"@, JsonV::Str(st.controls_layout)),
            ("statusesEnabled"@, JsonV::Bool(st.statuses_enabled)),
            ("projectStatuses"@, JsonV::Arr(jsons_of_strs(st.project_statuses))),
            ("windowMode"@, JsonV::Str(mode_key(st.window_mode))),
            ("alwaysOnTop"@, JsonV::Bool(st.always_on_top)),
            ("language"@, JsonV::Str(st.language)),
        ],
    )
}

/// The document value of a whole state.
pub open spec fn json_of_state(x: AppStateV) -> JsonV {
    JsonV::Obj(
        seq![
            ("projects"@, JsonV::Arr(jsons_of_projects(x.projects))),
            ("settings"@, json_of_settings(x.settings)),
        ],
    )
}

/// The canonical text of a state.
pub open spec fn spec_encode(x: AppStateV) -> Seq<char> {
    spec_print_doc(json_of_state(x))
}

proof fn lemma_id_rt(id: Option<IdV>)
    ensures
        id_from_json(json_of_id(id)) == Option::Some(id),
{
    match id {
        Option::Some(IdV::Num(n)) => lemma_parse_u64_dec(n),
        _ => {},
    }
}

proof fn lemma_step_rt(st: StepV)
    ensures
        step_from_json(json_of_step(st)) == Option::Some(st),
{
    reveal_with_fuel(obj_get, 5);
    reveal_strlit("id");
    reveal_strlit("text");
    reveal_strlit("done");
    assert("id"@.len() == 2);
    assert("text"@.len() == 4);
    assert("done"@.len() == 4);
    assert("text"@[0] == 't');
    assert("done"@[0] == 'd');
    lemma_id_rt(st.id);
    assert(step_from_json(json_of_step(st)) == Option::Some(st));
}

proof fn lemma_steps_rt(steps: Seq<StepV>, k: int)
    requires
        0 <= k <= steps.len(),
    ensures
        steps_from_elems(jsons_of_steps(steps), k) == Option::Some(steps.skip(k)),
    decreases steps.len() - k,
{
    if k >= steps.len() {
        assert(steps.skip(k) =~= Seq::<StepV>::empty());
    } else {
        lemma_step_rt(steps[k]);
        lemma_steps_rt(steps, k + 1);
        assert(seq![steps[k]] + steps.skip(k + 1) =~= steps.skip(k));
    }
}

proof fn lemma_strs_rt(ss: Seq<Seq<char>>, k: int)
    requires
        0 <= k <= ss.len(),
    ensures
        strs_from_elems(jsons_of_strs(ss), k) == Option::Some(ss.skip(k)),
    decreases ss.len() - k,
{
    if k >= ss.len() {
        assert(ss.skip(k) =~= Seq::<Seq<char>>::empty());
    } else {
        lemma_strs_rt(ss, k + 1);
        assert(seq![ss[k]] + ss.skip(k + 1) =~= ss.skip(k));
    }
}

proof fn lemma_note_rt(nt: NoteV)
    ensures
        note_from_json(json_of_note(nt)) == Option::Some(nt),
{
    reveal_with_fuel(obj_get, 6);
    reveal_strlit("id");
    reveal_strlit("title");
    reveal_strlit("body");
    reveal_strlit("steps");
    assert("id"@.len() == 2);
    assert("title"@.len() == 5);
    assert("body"@.len() == 4);
    assert("steps"@.len() == 5);
    assert("title"@[0] == 't');
    assert("steps"@[0] == 's');
    lemma_id_rt(nt.id);
    lemma_steps_rt(nt.steps, 0);
    assert(nt.steps.skip(0) =~= nt.steps);
    assert(note_from_json(json_of_note(nt)) == Option::Some(nt));
}

proof fn lemma_notes_rt(notes: Seq<NoteV>, k: int)
    requires
        0 <= k <= notes.len(),
    ensures
        notes_from_elems(jsons_of_notes(notes), k) == Option::Some(notes.skip(k)),
    decreases notes.len() - k,
{
    if k >= notes.len() {
        assert(notes.skip(k) =~= Seq::<NoteV>::empty());
    } else {
        lemma_note_rt(notes[k]);
        lemma_notes_rt(notes, k + 1);
        assert(seq![notes[k]] + notes.skip(k + 1) =~= notes.skip(k));
    }
}

proof fn lemma_project_rt(p: ProjectV)
    ensures
        project_from_json(json_of_project(p)) == Option::Some(p),
{
    reveal_with_fuel(obj_get, 9);
    reveal_strlit("id");
    reveal_strlit("name");
    reveal_strlit("description");
    reveal_strlit("status");
    reveal_strlit("pinned");
    reveal_strlit("notes");
    reveal_strlit("steps");
    assert("id"@.len() == 2);
    assert("name"@.len() == 4);
    assert("description"@.len() == 11);
    assert("status"@.len() == 6);
    assert("pinned"@.len() == 6);
    assert("notes"@.len() == 5);
    assert("steps"@.len() == 5);
    assert("status"@[0] == 's');
    assert("pinned"@[0] == 'p');
    assert("notes"@[0] == 'n');
    assert("steps"@[0] == 's');
    lemma_id_rt(p.id);
    lemma_notes_rt(p.notes, 0);
    lemma_steps_rt(p.steps, 0);
    assert(p.notes.skip(0) =~= p.notes);
    assert(p.steps.skip(0) =~= p.steps);
    assert(project_from_json(json_of_project(p)) == Option::Some(p));
}

proof fn lemma_projects_rt(projects: Seq<ProjectV>, k: int)
    requires
        0 <= k <= projects.len(),
    ensures
        projects_from_elems(jsons_of_projects(projects), k) == Option::Some(projects.skip(k)),
    decreases projects.len() - k,
{
    if k >= projects.len() {
        assert(projects.skip(k) =~= Seq::<ProjectV>::empty());
    } else {
        lemma_project_rt(projects[k]);
        lemma_projects_rt(projects, k + 1);
        assert(seq![projects[k]] + projects.skip(k + 1) =~= projects.skip(k));
    }
}

proof fn lemma_mode_rt(m: WindowMode)
    ensures
        mode_from_key(mode_key(m)) == Option::Some(m),
{
    reveal_strlit("fullscreen_framed");
    reveal_strlit("fullscreen");
    reveal_strlit("fullscreen_borderless");
    reveal_strlit("windowed");
    reveal_strlit("borderless");
    assert("fullscreen_framed"@.len() == 17);
    assert("fullscreen"@.len() == 10);
    assert("fullscreen_borderless"@.len() == 21);
    assert("windowed"@.len() == 8);
    assert("borderless"@.len() == 10);
    assert("fullscreen"@[0] == 'f');
    assert("borderless"@[0] == 'b');
}

proof fn lemma_settings_rt(st: SettingsV)
    ensures
        settings_from_json(json_of_settings(st)) == Option::Some(st),
{
    reveal_with_fuel(obj_get, 10);
    reveal_strlit("theme");
    reveal_strlit("animations");
    reveal_strlit("controlsLayout");
    reveal_strlit("statusesEnabled");
    reveal_strlit("projectStatuses");
    reveal_strlit("windowMode");
    reveal_strlit("alwaysOnTop");
    reveal_strlit("language");
    assert("theme"@.len() == 5);
    assert("animations"@.len() == 10);
    assert("controlsLayout"@.len() == 14);
    assert("statusesEnabled"@.len() == 15);
    assert("projectStatuses"@.len() == 15);
    assert("windowMode"@.len() == 10);
    assert("alwaysOnTop"@.len() == 11);
    assert("language"@.len() == 8);
    assert("animations"@[0] == 'a');
    assert("windowMode"@[0] == 'w');
    assert("statusesEnabled"@[0] == 's');
    assert("projectStatuses"@[0] == 'p');
    lemma_mode_rt(st.window_mode);
    lemma_strs_rt(st.project_statuses, 0);
    assert(st.project_statuses.skip(0) =~= st.project_statuses);
    assert(settings_from_json(json_of_settings(st)) == Option::Some(st));
}

/// Mapping a document value back to a state inverts building one.
proof fn lemma_state_rt(x: AppStateV)
    ensures
        state_from_json(json_of_state(x)) == Option::Some(x),
{
    reveal_with_fuel(obj_get, 4);
    reveal_strlit("projects");
    reveal_strlit("settings");
    assert("projects"@.len() == 8);
    assert("settings"@.len() == 8);
    assert("projects"@[0] == 'p');
    assert("settings"@[0] == 's');
    lemma_projects_rt(x.projects, 0);
    lemma_settings_rt(x.settings);
    assert(x.projects.skip(0) =~= x.projects);
    assert(state_from_json(json_of_state(x)) == Option::Some(x));
}

proof fn lemma_step_wf(st: StepV)
    ensures
        wf_json(json_of_step(st)),
{
    match st.id {
        Option::Some(IdV::Num(n)) => {
            crate::json::lemma_dec_digits_val(n as nat);
        },
        _ => {},
    }
    let ms = json_of_step(st)->Obj_0;
    assert forall|k: int| 0 <= k < ms.len() implies wf_json(#[trigger] ms[k].1) by {
        assert(wf_json(ms[0].1));
        assert(wf_json(ms[1].1));
        assert(wf_json(ms[2].1));
    }
}

proof fn lemma_note_wf(nt: NoteV)
    ensures
        wf_json(json_of_note(nt)),
{
    match nt.id {
        Option::Some(IdV::Num(n)) => {
            crate::json::lemma_dec_digits_val(n as nat);
        },
        _ => {},
    }
    let steps = jsons_of_steps(nt.steps);
    assert forall|k: int| 0 <= k < steps.len() implies wf_json(#[trigger] steps[k]) by {
        lemma_step_wf(nt.steps[k]);
    }
    let ms = json_of_note(nt)->Obj_0;
    assert forall|k: int| 0 <= k < ms.len() implies wf_json(#[trigger] ms[k].1) by {
        assert(wf_json(ms[0].1));
        assert(wf_json(ms[1].1));
        assert(wf_json(ms[2].1));
        assert(wf_json(ms[3].1));
    }
}

proof fn lemma_project_wf(p: ProjectV)
    ensures
        wf_json(json_of_project(p)),
{
    match p.id {
        Option::Some(IdV::Num(n)) => {
            crate::json::lemma_dec_digits_val(n as nat);
        },
        _ => {},
    }
    let notes = jsons_of_notes(p.notes);
    assert forall|k: int| 0 <= k < notes.len() implies wf_json(#[trigger] notes[k]) by {
        lemma_note_wf(p.notes[k]);
    }
    let steps = jsons_of_steps(p.steps);
    assert forall|k: int| 0 <= k < steps.len() implies wf_json(#[trigger] steps[k]) by {
        lemma_step_wf(p.steps[k]);
    }
    let ms = json_of_project(p)->Obj_0;
    assert forall|k: int| 0 <= k < ms.len() implies wf_json(#[trigger] ms[k].1) by {
        assert(wf_json(ms[0].1));
        assert(wf_json(ms[1].1));
        assert(wf_json(ms[2].1));
        assert(wf_json(ms[3].1));
        assert(wf_json(ms[4].1));
        assert(wf_json(ms[5].1));
        assert(wf_json(ms[6].1));
    }
}

proof fn lemma_settings_wf(st: SettingsV)
    ensures
        wf_json(json_of_settings(st)),
{
    let ss = jsons_of_strs(st.project_statuses);
    assert forall|k: int| 0 <= k < ss.len() implies wf_json(#[trigger] ss[k]) by {
        assert(ss[k] == JsonV::Str(st.project_statuses[k]));
    }
    let ms = json_of_settings(st)->Obj_0;
    assert forall|k: int| 0 <= k < ms.len() implies wf_json(#[trigger] ms[k].1) by {
        assert(wf_json(ms[0].1));
        assert(wf_json(ms[1].1));
        assert(wf_json(ms[2].1));
        assert(wf_json(ms[3].1));
        assert(wf_json(ms[4].1));
        assert(wf_json(ms[5].1));
        assert(wf_json(ms[6].1));
        assert(wf_json(ms[7].1));
    }
}

/// The canonical document of any state is well-formed.
proof fn lemma_state_wf(x: AppStateV)
    ensures
        wf_json(json_of_state(x)),
{
    let ps = jsons_of_projects(x.projects);
    assert forall|k: int| 0 <= k < ps.len() implies wf_json(#[trigger] ps[k]) by {
        lemma_project_wf(x.projects[k]);
    }
    lemma_settings_wf(x.settings);
    let ms = json_of_state(x)->Obj_0;
    assert forall|k: int| 0 <= k < ms.len() implies wf_json(#[trigger] ms[k].1) by {
        assert(wf_json(ms[0].1));
        assert(wf_json(ms[1].1));
    }
}

/// The identifier view of an optional identifier.
pub open spec fn opt_id_view(o: Option<EntityId>) -> Option<IdV> {
    match o {
        Option::Some(e) => Option::Some(e@),
        Option::None => Option::None,
    }
}

/// First value under a key in an object's members.
fn obj_find<'a>(ms: &'a Vec<(String, Json)>, key: &str) -> (r: Option<&'a Json>)
    ensures
        match r {
            Option::Some(v) => obj_get(mviews(ms@), key@) == Option::Some(jview(*v)),
            Option::None => obj_get(mviews(ms@), key@) == Option::<JsonV>::None,
        },
{
    let n = ms.len();
    let mut i: usize = 0;
    proof {
        assert(mviews(ms@).skip(0) =~= mviews(ms@));
    }
    while i < n
        invariant
            n == ms@.len(),
            i <= n,
            obj_get(mviews(ms@), key@) == obj_get(mviews(ms@).skip(i as int), key@),
        decreases n - i,
    {
        proof {
            lemma_mviews(ms@);
            assert(mviews(ms@).skip(i as int)[0] == mviews(ms@)[i as int]);
        }
        if str_eq(ms[i].0.as_str(), key) {
            let v = &ms[i].1;
            proof {
                assert(obj_get(mviews(ms@).skip(i as int), key@) == Option::Some(jview(*v)));
            }
            return Some(v);
        }
        proof {
            assert(mviews(ms@).skip(i as int).drop_first() =~= mviews(ms@).skip(i as int + 1));
        }
        i = i + 1;
    }
    proof {
        lemma_mviews(ms@);
        assert(mviews(ms@).skip(n as int) =~= Seq::<(Seq<char>, JsonV)>::empty());
    }
    None
}

/// An optional identifier from a field value, if it has an accepted
/// shape.
fn id_of_json(v: &Json) -> (r: Option<Option<EntityId>>)
    ensures
        match r {
            Option::Some(id) => id_from_json(jview(*v)) == Option::Some(opt_id_view(id)),
            Option::None => id_from_json(jview(*v)) == Option::<Option<IdV>>::None,
        },
{
    match v {
        Json::Null => Some(None),
        Json::Str(s) => Some(Some(EntityId::Text(s.clone()))),
        Json::Num(raw) => match parse_u64_digits(raw.as_str()) {
            Some(n) => Some(Some(EntityId::Num(n))),
            None => None,
        },
        _ => None,
    }
}

/// One step from a document value.
fn step_of_json(j: &Json) -> (r: Option<StepState>)
    ensures
        match r {
            Option::Some(st) => step_from_json(jview(*j)) == Option::Some(st@),
            Option::None => step_from_json(jview(*j)) == Option::<StepV>::None,
        },
{
    let ms = match j {
        Json::Obj(ms) => ms,
        _ => {
            return None;
        },
    };
    let id = match obj_find(ms, "id") {
        None => None,
        Some(v) => match id_of_json(v) {
            Some(id) => id,
            None => {
                return None;
            },
        },
    };
    let text = match obj_find(ms, "text") {
        None => String::new(),
        Some(Json::Str(s)) => s.clone(),
        Some(_) => {
            return None;
        },
    };
    let done = match obj_find(ms, "done") {
        None => false,
        Some(Json::Bool(b)) => *b,
        Some(_) => {
            return None;
        },
    };
    Some(StepState { id, text, done })
}

/// The steps of an array, from `k` on.
fn steps_of_elems(elems: &Vec<Json>, k: usize) -> (r: Option<Vec<StepState>>)
    ensures
        match r {
            Option::Some(v) => steps_from_elems(jviews(elems@), k as int) == Option::Some(
                Seq::new(v@.len(), |i: int| v@[i]@),
            ),
            Option::None => steps_from_elems(jviews(elems@), k as int) == Option::<
                Seq<StepV>,
            >::None,
        },
    decreases elems@.len() - k,
{
    proof {
        lemma_jviews(elems@);
    }
    if k >= elems.len() {
        let out: Vec<StepState> = Vec::new();
        proof {
            assert(Seq::new(out@.len(), |i: int| out@[i]@) =~= Seq::<StepV>::empty());
        }
        return Some(out);
    }
    let st = match step_of_json(&elems[k]) {
        Some(st) => st,
        None => {
            return None;
        },
    };
    match steps_of_elems(elems, k + 1) {
        Some(rest) => {
            let ghost stv = st@;
            let ghost r0 = Seq::new(rest@.len(), |i: int| rest@[i]@);
            let mut rest = rest;
            rest.insert(0, st);
            proof {
                assert(Seq::new(rest@.len(), |i: int| rest@[i]@) =~= seq![stv] + r0);
            }
            Some(rest)
        },
        None => None,
    }
}

/// One note from a document value.
fn note_of_json(j: &Json) -> (r: Option<NoteState>)
    ensures
        match r {
            Option::Some(nt) => note_from_json(jview(*j)) == Option::Some(nt@),
            Option::None => note_from_json(jview(*j)) == Option::<NoteV>::None,
        },
{
    let ms = match j {
        Json::Obj(ms) => ms,
        _ => {
            return None;
        },
    };
    let id = match obj_find(ms, "id") {
        None => None,
        Some(v) => match id_of_json(v) {
            Some(id) => id,
            None => {
                return None;
            },
        },
    };
    let title = match obj_find(ms, "title") {
        None => String::new(),
        Some(Json::Str(s)) => s.clone(),
        Some(_) => {
            return None;
        },
    };
    let body = match obj_find(ms, "body") {
        None => String::new(),
        Some(Json::Str(s)) => s.clone(),
        Some(_) => {
            return None;
        },
    };
    let steps = match obj_find(ms, "steps") {
        None => Vec::new(),
        Some(Json::Arr(elems)) => match steps_of_elems(elems, 0) {
            Some(v) => v,
            None => {
                return None;
            },
        },
        Some(_) => {
            return None;
        },
    };
    let nt = NoteState { id, title, body, steps };
    proof {
        assert(nt@.steps =~= Seq::new(nt.steps@.len(), |i: int| nt.steps@[i]@));
    }
    Some(nt)
}

/// The notes of an array, from `k` on.
fn notes_of_elems(elems: &Vec<Json>, k: usize) -> (r: Option<Vec<NoteState>>)
    ensures
        match r {
            Option::Some(v) => notes_from_elems(jviews(elems@), k as int) == Option::Some(
                Seq::new(v@.len(), |i: int| v@[i]@),
            ),
            Option::None => notes_from_elems(jviews(elems@), k as int) == Option::<
                Seq<NoteV>,
            >::None,
        },
    decreases elems@.len() - k,
{
    proof {
        lemma_jviews(elems@);
    }
    if k >= elems.len() {
        let out: Vec<NoteState> = Vec::new();
        proof {
            assert(Seq::new(out@.len(), |i: int| out@[i]@) =~= Seq::<NoteV>::empty());
        }
        return Some(out);
    }
    let nt = match note_of_json(&elems[k]) {
        Some(nt) => nt,
        None => {
            return None;
        },
    };
    match notes_of_elems(elems, k + 1) {
        Some(rest) => {
            let ghost nv = nt@;
            let ghost r0 = Seq::new(rest@.len(), |i: int| rest@[i]@);
            let mut rest = rest;
            rest.insert(0, nt);
            proof {
                assert(Seq::new(rest@.len(), |i: int| rest@[i]@) =~= seq![nv] + r0);
            }
            Some(rest)
        },
        None => None,
    }
}

/// One project from a document value.
fn project_of_json(j: &Json) -> (r: Option<ProjectState>)
    ensures
        match r {
            Option::Some(p) => project_from_json(jview(*j)) == Option::Some(p@),
            Option::None => project_from_json(jview(*j)) == Option::<ProjectV>::None,
        },
{
    let ms = match j {
        Json::Obj(ms) => ms,
        _ => {
            return None;
        },
    };
    let id = match obj_find(ms, "id") {
        None => None,
        Some(v) => match id_of_json(v) {
            Some(id) => id,
            None => {
                return None;
            },
        },
    };
    let name = match obj_find(ms, "name") {
        None => String::new(),
        Some(Json::Str(s)) => s.clone(),
        Some(_) => {
            return None;
        },
    };
    let description = match obj_find(ms, "description") {
        None => String::new(),
        Some(Json::Str(s)) => s.clone(),
        Some(_) => {
            return None;
        },
    };
    let status = match obj_find(ms, "status") {
        None => String::new(),
        Some(Json::Str(s)) => s.clone(),
        Some(_) => {
            return None;
        },
    };
    let pinned = match obj_find(ms, "pinned") {
        None => false,
        Some(Json::Bool(b)) => *b,
        Some(_) => {
            return None;
        },
    };
    let notes = match obj_find(ms, "notes") {
        None => Vec::new(),
        Some(Json::Arr(elems)) => match notes_of_elems(elems, 0) {
            Some(v) => v,
            None => {
                return None;
            },
        },
        Some(_) => {
            return None;
        },
    };
    let steps = match obj_find(ms, "steps") {
        None => Vec::new(),
        Some(Json::Arr(elems)) => match steps_of_elems(elems, 0) {
            Some(v) => v,
            None => {
                return None;
            },
        },
        Some(_) => {
            return None;
        },
    };
    let p = ProjectState { id, name, description, status, pinned, notes, steps };
    proof {
        assert(p@.notes =~= Seq::new(p.notes@.len(), |i: int| p.notes@[i]@));
        assert(p@.steps =~= Seq::new(p.steps@.len(), |i: int| p.steps@[i]@));
    }
    Some(p)
}

/// The projects of an array, from `k` on.
fn projects_of_elems(elems: &Vec<Json>, k: usize) -> (r: Option<Vec<ProjectState>>)
    ensures
        match r {
            Option::Some(v) => projects_from_elems(jviews(elems@), k as int) == Option::Some(
                Seq::new(v@.len(), |i: int| v@[i]@),
            ),
            Option::None => projects_from_elems(jviews(elems@), k as int) == Option::<
                Seq<ProjectV>,
            >::None,
        },
    decreases elems@.len() - k,
{
    proof {
        lemma_jviews(elems@);
    }
    if k >= elems.len() {
        let out: Vec<ProjectState> = Vec::new();
        proof {
            assert(Seq::new(out@.len(), |i: int| out@[i]@) =~= Seq::<ProjectV>::empty());
        }
        return Some(out);
    }
    let p = match project_of_json(&elems[k]) {
        Some(p) => p,
        None => {
            return None;
        },
    };
    match projects_of_elems(elems, k + 1) {
        Some(rest) => {
            let ghost pv = p@;
            let ghost r0 = Seq::new(rest@.len(), |i: int| rest@[i]@);
            let mut rest = rest;
            rest.insert(0, p);
            proof {
                assert(Seq::new(rest@.len(), |i: int| rest@[i]@) =~= seq![pv] + r0);
            }
            Some(rest)
        },
        None => None,
    }
}

/// The strings of an array, from `k` on.
fn strs_of_elems(elems: &Vec<Json>, k: usize) -> (r: Option<Vec<String>>)
    ensures
        match r {
            Option::Some(v) => strs_from_elems(jviews(elems@), k as int) == Option::Some(
                Seq::new(v@.len(), |i: int| v@[i]@),
            ),
            Option::None => strs_from_elems(jviews(elems@), k as int) == Option::<
                Seq<Seq<char>>,
            >::None,
        },
    decreases elems@.len() - k,
{
    proof {
        lemma_jviews(elems@);
    }
    if k >= elems.len() {
        let out: Vec<String> = Vec::new();
        proof {
            assert(Seq::new(out@.len(), |i: int| out@[i]@) =~= Seq::<Seq<char>>::empty());
        }
        return Some(out);
    }
    let t = match &elems[k] {
        Json::Str(s) => s.clone(),
        _ => {
            return None;
        },
    };
    match strs_of_elems(elems, k + 1) {
        Some(rest) => {
            let ghost tv = t@;
            let ghost r0 = Seq::new(rest@.len(), |i: int| rest@[i]@);
            let mut rest = rest;
            rest.insert(0, t);
            proof {
                assert(Seq::new(rest@.len(), |i: int| rest@[i]@) =~= seq![tv] + r0);
            }
            Some(rest)
        },
        None => None,
    }
}

/// The window mode named by a field value.
fn mode_of_json(t: &str) -> (r: Option<WindowMode>)
    ensures
        r == mode_from_key(t@),
{
    if str_eq(t, "fullscreen_framed") || str_eq(t, "fullscreen") {
        Some(WindowMode::FullscreenFramed)
    } else if str_eq(t, "fullscreen_borderless") {
        Some(WindowMode::FullscreenBorderless)
    } else if str_eq(t, "windowed") {
        Some(WindowMode::Windowed)
    } else if str_eq(t, "borderless") {
        Some(WindowMode::Borderless)
    } else {
        None
    }
}

/// The settings from a document value.
fn settings_of_json(j: &Json) -> (r: Option<SettingsState>)
    ensures
        match r {
            Option::Some(st) => settings_from_json(jview(*j)) == Option::Some(st@),
            Option::None => settings_from_json(jview(*j)) == Option::<SettingsV>::None,
        },
{
    let ms = match j {
        Json::Obj(ms) => ms,
        _ => {
            return None;
        },
    };
    let theme = match obj_find(ms, "theme") {
        None => default_theme(),
        Some(Json::Str(s)) => s.clone(),
        Some(_) => {
            return None;
        },
    };
    let animations = match obj_find(ms, "animations") {
        None => true,
        Some(Json::Bool(b)) => *b,
        Some(_) => {
            return None;
        },
    };
    let controls_layout = match obj_find(ms, "controlsLayout") {
        None => default_controls_layout(),
        Some(Json::Str(s)) => s.clone(),
        Some(_) => {
            return None;
        },
    };
    let statuses_enabled = match obj_find(ms, "statusesEnabled") {
        None => true,
        Some(Json::Bool(b)) => *b,
        Some(_) => {
            return None;
        },
    };
    let project_statuses = match obj_find(ms, "projectStatuses") {
        None => default_project_statuses(),
        Some(Json::Arr(elems)) => match strs_of_elems(elems, 0) {
            Some(v) => v,
            None => {
                return None;
            },
        },
        Some(_) => {
            return None;
        },
    };
    let window_mode = match obj_find(ms, "windowMode") {
        None => WindowMode::FullscreenFramed,
        Some(Json::Str(s)) => match mode_of_json(s.as_str()) {
            Some(m) => m,
            None => {
                return None;
            },
        },
        Some(_) => {
            return None;
        },
    };
    let always_on_top = match obj_find(ms, "alwaysOnTop") {
        None => false,
        Some(Json::Bool(b)) => *b,
        Some(_) => {
            return None;
        },
    };
    let language = match obj_find(ms, "language") {
        None => default_language(),
        Some(Json::Str(s)) => s.clone(),
        Some(_) => {
            return None;
        },
    };
    let st = SettingsState {
        theme,
        animations,
        controls_layout,
        statuses_enabled,
        project_statuses,
        window_mode,
        always_on_top,
        language,
    };
    proof {
        assert(st@.project_statuses =~= Seq::new(
            st.project_statuses@.len(),
            |i: int| st.project_statuses@[i]@,
        ));
    }
    Some(st)
}

/// A whole state from a document value.
fn state_of_json(j: &Json) -> (r: Option<AppState>)
    ensures
        match r {
            Option::Some(st) => state_from_json(jview(*j)) == Option::Some(st@),
            Option::None => state_from_json(jview(*j)) == Option::<AppStateV>::None,
        },
{
    let ms = match j {
        Json::Obj(ms) => ms,
        _ => {
            return None;
        },
    };
    let projects = match obj_find(ms, "projects") {
        None => Vec::new(),
        Some(Json::Arr(elems)) => match projects_of_elems(elems, 0) {
            Some(v) => v,
            None => {
                return None;
            },
        },
        Some(_) => {
            return None;
        },
    };
    let settings = match obj_find(ms, "settings") {
        None => SettingsState::default(),
        Some(v) => match settings_of_json(v) {
            Some(st) => st,
            None => {
                return None;
            },
        },
    };
    let st = AppState { projects, settings };
    proof {
        assert(st@.projects =~= Seq::new(st.projects@.len(), |i: int| st.projects@[i]@));
    }
    Some(st)
}

/// Decodes a state from JSON text: permissive towards unknown
/// fields, filling defaults for absent ones, failing on a field of
/// the wrong shape and on text that is not a JSON object.
pub fn decode_state(text: &str) -> (r: Option<AppState>)
    ensures
        match r {
            Option::Some(st) => spec_decode(text@) == Option::Some(st@),
            Option::None => spec_decode(text@) == Option::<AppStateV>::None,
        },
{
    match parse_json(text) {
        None => None,
        Some(j) => state_of_json(&j),
    }
}

fn id_to_json(id: &Option<EntityId>) -> (j: Json)
    ensures
        jview(j) == json_of_id(opt_id_view(*id)),
{
    match id {
        None => Json::Null,
        Some(EntityId::Text(s)) => Json::Str(s.clone()),
        Some(EntityId::Num(n)) => Json::Num(u64_to_dec(*n)),
    }
}

fn step_to_json(st: &StepState) -> (j: Json)
    ensures
        jview(j) == json_of_step(st@),
{
    let mut ms: Vec<(String, Json)> = Vec::new();
    ms.push((String::from_str("id"), id_to_json(&st.id)));
    ms.push((String::from_str("text"), Json::Str(st.text.clone())));
    ms.push((String::from_str("done"), Json::Bool(st.done)));
    proof {
        lemma_mviews(ms@);
        assert(mviews(ms@) =~= json_of_step(st@)->Obj_0);
    }
    Json::Obj(ms)
}

fn steps_to_json(steps: &Vec<StepState>) -> (r: Vec<Json>)
    ensures
        jviews(r@) == jsons_of_steps(Seq::new(steps@.len(), |i: int| steps@[i]@)),
{
    let n = steps.len();
    let mut out: Vec<Json> = Vec::new();
    let mut i: usize = 0;
    while i < n
        invariant
            n == steps@.len(),
            i <= n,
            out@.len() == i,
            forall|k: int| 0 <= k < i ==> jview(#[trigger] out@[k]) == json_of_step(steps@[k]@),
        decreases n - i,
    {
        out.push(step_to_json(&steps[i]));
        i = i + 1;
    }
    proof {
        lemma_jviews(out@);
        assert(jviews(out@) =~= jsons_of_steps(Seq::new(steps@.len(), |i: int| steps@[i]@)));
    }
    out
}

fn note_to_json(nt: &NoteState) -> (j: Json)
    ensures
        jview(j) == json_of_note(nt@),
{
    let mut ms: Vec<(String, Json)> = Vec::new();
    ms.push((String::from_str("id"), id_to_json(&nt.id)));
    ms.push((String::from_str("title"), Json::Str(nt.title.clone())));
    ms.push((String::from_str("body"), Json::Str(nt.body.clone())));
    ms.push((String::from_str("steps"), Json::Arr(steps_to_json(&nt.steps))));
    proof {
        lemma_mviews(ms@);
        assert(mviews(ms@) =~= json_of_note(nt@)->Obj_0);
    }
    Json::Obj(ms)
}

fn notes_to_json(notes: &Vec<NoteState>) -> (r: Vec<Json>)
    ensures
        jviews(r@) == jsons_of_notes(Seq::new(notes@.len(), |i: int| notes@[i]@)),
{
    let n = notes.len();
    let mut out: Vec<Json> = Vec::new();
    let mut i: usize = 0;
    while i < n
        invariant
            n == notes@.len(),
            i <= n,
            out@.len() == i,
            forall|k: int| 0 <= k < i ==> jview(#[trigger] out@[k]) == json_of_note(notes@[k]@),
        decreases n - i,
    {
        out.push(note_to_json(&notes[i]));
        i = i + 1;
    }
    proof {
        lemma_jviews(out@);
        assert(jviews(out@) =~= jsons_of_notes(Seq::new(notes@.len(), |i: int| notes@[i]@)));
    }
    out
}

fn project_to_json(p: &ProjectState) -> (j: Json)
    ensures
        jview(j) == json_of_project(p@),
{
    let mut ms: Vec<(String, Json)> = Vec::new();
    ms.push((String::from_str("id"), id_to_json(&p.id)));
    ms.push((String::from_str("name"), Json::Str(p.name.clone())));
    ms.push((String::from_str("description"), Json::Str(p.description.clone())));
    ms.push((String::from_str("status"), Json::Str(p.status.clone())));
    ms.push((String::from_str("pinned"), Json::Bool(p.pinned)));
    ms.push((String::from_str("notes"), Json::Arr(notes_to_json(&p.notes))));
    ms.push((String::from_str("steps"), Json::Arr(steps_to_json(&p.steps))));
    proof {
        lemma_mviews(ms@);
        assert(mviews(ms@) =~= json_of_project(p@)->Obj_0);
    }
    Json::Obj(ms)
}

fn mode_to_str(m: WindowMode) -> (r: String)
    ensures
        r@ == mode_key(m),
{
    match m {
        WindowMode::FullscreenFramed => String::from_str("fullscreen_framed"),
        WindowMode::FullscreenBorderless => String::from_str("fullscreen_borderless"),
        WindowMode::Windowed => String::from_str("windowed"),
        WindowMode::Borderless => String::from_str("borderless"),
    }
}

fn settings_to_json(st: &SettingsState) -> (j: Json)
    ensures
        jview(j) == json_of_settings(st@),
{
    let n = st.project_statuses.len();
    let mut ss: Vec<Json> = Vec::new();
    let mut i: usize = 0;
    while i < n
        invariant
            n == st.project_statuses@.len(),
            i <= n,
            ss@.len() == i,
            forall|k: int| 0 <= k < i ==> jview(#[trigger] ss@[k]) == JsonV::Str(
                st.project_statuses@[k]@,
            ),
        decreases n - i,
    {
        ss.push(Json::Str(st.project_statuses[i].clone()));
        i = i + 1;
    }
    proof {
        lemma_jviews(ss@);
        assert(jviews(ss@) =~= jsons_of_strs(
            Seq::new(st.project_statuses@.len(), |i: int| st.project_statuses@[i]@),
        ));
    }
    let mut ms: Vec<(String, Json)> = Vec::new();
    ms.push((String::from_str("theme"), Json::Str(st.theme.clone())));
    ms.push((String::from_str("animations"), Json::Bool(st.animations)));
    ms.push((String::from_str("controlsLayout"), Json::Str(st.controls_layout.clone())));
    ms.push((String::from_str("statusesEnabled"), Json::Bool(st.statuses_enabled)));
    ms.push((String::from_str("projectStatuses"), Json::Arr(ss)));
    ms.push((String::from_str("windowMode"), Json::Str(mode_to_str(st.window_mode))));
    ms.push((String::from_str("alwaysOnTop"), Json::Bool(st.always_on_top)));
    ms.push((String::from_str("language"), Json::Str(st.language.clone())));
    proof {
        lemma_mviews(ms@);
        assert(mviews(ms@) =~= json_of_settings(st@)->Obj_0);
    }
    Json::Obj(ms)
}

/// The canonical document of a state.
fn state_to_json(x: &AppState) -> (j: Json)
    ensures
        jview(j) == json_of_state(x@),
{
    let n = x.projects.len();
    let mut ps: Vec<Json> = Vec::new();
    let mut i: usize = 0;
    while i < n
        invariant
            n == x.projects@.len(),
            i <= n,
            ps@.len() == i,
            forall|k: int| 0 <= k < i ==> jview(#[trigger] ps@[k]) == json_of_project(
                x.projects@[k]@,
            ),
        decreases n - i,
    {
        ps.push(project_to_json(&x.projects[i]));
        i = i + 1;
    }
    proof {
        lemma_jviews(ps@);
        assert(jviews(ps@) =~= jsons_of_projects(
            Seq::new(x.projects@.len(), |i: int| x.projects@[i]@),
        ));
    }
    let mut ms: Vec<(String, Json)> = Vec::new();
    ms.push((String::from_str("projects"), Json::Arr(ps)));
    ms.push((String::from_str("settings"), settings_to_json(&x.settings)));
    proof {
        lemma_mviews(ms@);
        assert(mviews(ms@) =~= json_of_state(x@)->Obj_0);
    }
    Json::Obj(ms)
}

/// Encodes a state as pretty-printed JSON text. Encoding is total:
/// it succeeds on every state value.
pub fn encode_state(state: &AppState) -> (r: String)
    ensures
        r@ == spec_encode(state@),
{
    let j = state_to_json(state);
    print_json(&j)
}

/// Round trip: decoding the canonical encoding of any state yields
/// that state back, field for field and in order.
pub proof fn lemma_round_trip(x: AppStateV)
    ensures
        spec_decode(spec_encode(x)) == Option::Some(x),
{
    lemma_state_wf(x);
    crate::json::lemma_parse_print_doc(json_of_state(x));
    lemma_state_rt(x);
}

} // verus!
