//! The typed state model: projects, notes, action steps and settings,
//! every field with a total default, together with the mathematical
//! views that the contracts of the codec and the gateway speak of.

use vstd::prelude::*;

verus! {

/// Display mode requested for the primary application window.
#[derive(Clone, Copy, Debug, PartialEq, Eq, Structural)]
pub enum WindowMode {
    FullscreenFramed,
    FullscreenBorderless,
    Windowed,
    Borderless,
}

/// An opaque identifier: either free text or a number, kept for
/// backward compatibility with an older numeric-only scheme.
/// Identifiers are only compared structurally, never arithmetically.
#[derive(Clone, Debug, PartialEq, Eq)]
pub enum EntityId {
    Text(String),
    Num(u64),
}

/// Mathematical value of an [`EntityId`].
#[verifier::ext_equal]
pub enum IdV {
    Text(Seq<char>),
    Num(u64),
}

impl View for EntityId {
    type V = IdV;

    open spec fn view(&self) -> IdV {
        match self {
            EntityId::Text(s) => IdV::Text(s@),
            EntityId::Num(n) => IdV::Num(*n),
        }
    }
}

/// One entry of an ordered action checklist.
#[derive(Clone, Debug, PartialEq, Eq)]
pub struct StepState {
    pub id: Option<EntityId>,
    pub text: String,
    pub done: bool,
}

/// Mathematical value of a [`StepState`].
#[verifier::ext_equal]
pub struct StepV {
    pub id: Option<IdV>,
    pub text: Seq<char>,
    pub done: bool,
}

impl View for StepState {
    type V = StepV;

    open spec fn view(&self) -> StepV {
        StepV {
            id: match self.id {
                Option::Some(i) => Option::Some(i@),
                Option::None => Option::None,
            },
            text: self.text@,
            done: self.done,
        }
    }
}

/// A free-text note with its ordered steps.
#[derive(Clone, Debug, PartialEq, Eq)]
pub struct NoteState {
    pub id: Option<EntityId>,
    pub title: String,
    pub body: String,
    pub steps: Vec<StepState>,
}

/// Mathematical value of a [`NoteState`].
#[verifier::ext_equal]
pub struct NoteV {
    pub id: Option<IdV>,
    pub title: Seq<char>,
    pub body: Seq<char>,
    pub steps: Seq<StepV>,
}

impl View for NoteState {
    type V = NoteV;

    open spec fn view(&self) -> NoteV {
        NoteV {
            id: match self.id {
                Option::Some(i) => Option::Some(i@),
                Option::None => Option::None,
            },
            title: self.title@,
            body: self.body@,
            steps: Seq::new(self.steps@.len(), |i: int| self.steps@[i]@),
        }
    }
}

/// A project: notes plus a project-level checklist, a status tag and
/// a pinned flag. Steps attach both at project and at note level.
#[derive(Clone, Debug, PartialEq, Eq)]
pub struct ProjectState {
    pub id: Option<EntityId>,
    pub name: String,
    pub description: String,
    pub status: String,
    pub pinned: bool,
    pub notes: Vec<NoteState>,
    pub steps: Vec<StepState>,
}

/// Mathematical value of a [`ProjectState`].
#[verifier::ext_equal]
pub struct ProjectV {
    pub id: Option<IdV>,
    pub name: Seq<char>,
    pub description: Seq<char>,
    pub status: Seq<char>,
    pub pinned: bool,
    pub notes: Seq<NoteV>,
    pub steps: Seq<StepV>,
}

impl View for ProjectState {
    type V = ProjectV;

    open spec fn view(&self) -> ProjectV {
        ProjectV {
            id: match self.id {
                Option::Some(i) => Option::Some(i@),
                Option::None => Option::None,
            },
            name: self.name@,
            description: self.description@,
            status: self.status@,
            pinned: self.pinned,
            notes: Seq::new(self.notes@.len(), |i: int| self.notes@[i]@),
            steps: Seq::new(self.steps@.len(), |i: int| self.steps@[i]@),
        }
    }
}

/// UI and window preferences, every field with a documented default.
#[derive(Clone, Debug, PartialEq, Eq)]
pub struct SettingsState {
    pub theme: String,
    pub animations: bool,
    pub controls_layout: String,
    pub statuses_enabled: bool,
    pub project_statuses: Vec<String>,
    pub window_mode: WindowMode,
    pub always_on_top: bool,
    pub language: String,
}

/// Mathematical value of a [`SettingsState`].
#[verifier::ext_equal]
pub struct SettingsV {
    pub theme: Seq<char>,
    pub animations: bool,
    pub controls_layout: Seq<char>,
    pub statuses_enabled: bool,
    pub project_statuses: Seq<Seq<char>>,
    pub window_mode: WindowMode,
    pub always_on_top: bool,
    pub language: Seq<char>,
}

impl View for SettingsState {
    type V = SettingsV;

    open spec fn view(&self) -> SettingsV {
        SettingsV {
            theme: self.theme@,
            animations: self.animations,
            controls_layout: self.controls_layout@,
            statuses_enabled: self.statuses_enabled,
            project_statuses: Seq::new(
                self.project_statuses@.len(),
                |i: int| self.project_statuses@[i]@,
            ),
            window_mode: self.window_mode,
            always_on_top: self.always_on_top,
            language: self.language@,
        }
    }
}

/// The root of the persisted state: all projects plus the settings.
#[derive(Clone, Debug, PartialEq, Eq)]
pub struct AppState {
    pub projects: Vec<ProjectState>,
    pub settings: SettingsState,
}

/// Mathematical value of an [`AppState`].
#[verifier::ext_equal]
pub struct AppStateV {
    pub projects: Seq<ProjectV>,
    pub settings: SettingsV,
}

impl View for AppState {
    type V = AppStateV;

    open spec fn view(&self) -> AppStateV {
        AppStateV {
            projects: Seq::new(self.projects@.len(), |i: int| self.projects@[i]@),
            settings: self.settings@,
        }
    }
}

/// Default theme name.
pub open spec fn spec_default_theme() -> Seq<char> {
    "midnight"@
}

/// Default controls layout.
pub open spec fn spec_default_controls_layout() -> Seq<char> {
    "topbar"@
}

/// Default interface language.
pub open spec fn spec_default_language() -> Seq<char> {
    "ru"@
}

/// The three default project status labels, in display order.
pub open spec fn spec_default_project_statuses() -> Seq<Seq<char>> {
    seq!["Новый"@, "В работе"@, "Завершен"@]
}

/// The all-defaults settings value.
pub open spec fn spec_default_settings() -> SettingsV {
    SettingsV {
        theme: spec_default_theme(),
        animations: true,
        controls_layout: spec_default_controls_layout(),
        statuses_enabled: true,
        project_statuses: spec_default_project_statuses(),
        window_mode: WindowMode::FullscreenFramed,
        always_on_top: false,
        language: spec_default_language(),
    }
}

/// The all-defaults application state: no projects, default settings.
pub open spec fn spec_default_app_state() -> AppStateV {
    AppStateV { projects: Seq::empty(), settings: spec_default_settings() }
}

pub fn default_theme() -> (r: String)
    ensures
        r@ == spec_default_theme(),
{
    String::from_str("midnight")
}

pub fn default_true() -> (r: bool)
    ensures
        r == true,
{
    true
}

pub fn default_controls_layout() -> (r: String)
    ensures
        r@ == spec_default_controls_layout(),
{
    String::from_str("topbar")
}

pub fn default_language() -> (r: String)
    ensures
        r@ == spec_default_language(),
{
    String::from_str("ru")
}

pub fn default_project_statuses() -> (r: Vec<String>)
    ensures
        Seq::new(r@.len(), |i: int| r@[i]@) == spec_default_project_statuses(),
{
    let mut v: Vec<String> = Vec::new();
    v.push(String::from_str("Новый"));
    v.push(String::from_str("В работе"));
    v.push(String::from_str("Завершен"));
    proof {
        assert(Seq::new(v@.len(), |i: int| v@[i]@) =~= spec_default_project_statuses());
    }
    v
}

pub fn default_window_mode() -> (r: WindowMode)
    ensures
        r == WindowMode::FullscreenFramed,
{
    WindowMode::FullscreenFramed
}

impl Default for SettingsState {
    /// The documented default for every settings field.
    fn default() -> (r: Self)
        ensures
            r@ == spec_default_settings(),
    {
        let r = SettingsState {
            theme: default_theme(),
            animations: default_true(),
            controls_layout: default_controls_layout(),
            statuses_enabled: default_true(),
            project_statuses: default_project_statuses(),
            window_mode: default_window_mode(),
            always_on_top: false,
            language: default_language(),
        };
        proof {
            assert(r@ =~= spec_default_settings());
        }
        r
    }
}

impl Default for AppState {
    /// The all-defaults state: an empty project list, default settings.
    fn default() -> (r: Self)
        ensures
            r@ == spec_default_app_state(),
    {
        let r = AppState { projects: Vec::new(), settings: SettingsState::default() };
        proof {
            assert(r@ =~= spec_default_app_state());
        }
        r
    }
}

} // verus!
