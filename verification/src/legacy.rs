//! The older prototype data model with its numeric-only identifier
//! scheme, plus the editor operations over it: allocating ids,
//! adding and deleting projects and notes, and tracking the current
//! selection. Its on-disk format is separate from the canonical one
//! and is not persisted by this crate.

use vstd::prelude::*;
use crate::text::spec_trim;
use crate::text::trim_str;

verus! {

/// One checklist entry of the prototype model.
#[derive(Clone, Debug, PartialEq, Eq)]
pub struct StepItem {
    pub text: String,
    pub done: bool,
}

/// Mathematical value of a [`StepItem`].
#[verifier::ext_equal]
pub struct StepItemV {
    pub text: Seq<char>,
    pub done: bool,
}

impl View for StepItem {
    type V = StepItemV;

    open spec fn view(&self) -> StepItemV {
        StepItemV { text: self.text@, done: self.done }
    }
}

/// A note of the prototype model, with a numeric identifier.
#[derive(Clone, Debug, PartialEq, Eq)]
pub struct Note {
    pub id: u64,
    pub title: String,
    pub body: String,
    pub steps: Vec<StepItem>,
}

/// Mathematical value of a [`Note`].
#[verifier::ext_equal]
pub struct NoteDataV {
    pub id: u64,
    pub title: Seq<char>,
    pub body: Seq<char>,
    pub steps: Seq<StepItemV>,
}

impl View for Note {
    type V = NoteDataV;

    open spec fn view(&self) -> NoteDataV {
        NoteDataV {
            id: self.id,
            title: self.title@,
            body: self.body@,
            steps: Seq::new(self.steps@.len(), |i: int| self.steps@[i]@),
        }
    }
}

/// A project of the prototype model.
#[derive(Clone, Debug, PartialEq, Eq)]
pub struct Project {
    pub id: u64,
    pub name: String,
    pub description: String,
    pub notes: Vec<Note>,
}

/// Mathematical value of a [`Project`].
#[verifier::ext_equal]
pub struct ProjectDataV {
    pub id: u64,
    pub name: Seq<char>,
    pub description: Seq<char>,
    pub notes: Seq<NoteDataV>,
}

impl View for Project {
    type V = ProjectDataV;

    open spec fn view(&self) -> ProjectDataV {
        ProjectDataV {
            id: self.id,
            name: self.name@,
            description: self.description@,
            notes: Seq::new(self.notes@.len(), |i: int| self.notes@[i]@),
        }
    }
}

/// The root of the prototype model: a monotone id counter and the
/// projects.
#[derive(Clone, Debug, PartialEq, Eq)]
pub struct AppData {
    pub next_id: u64,
    pub projects: Vec<Project>,
}

/// Mathematical value of an [`AppData`].
#[verifier::ext_equal]
pub struct AppDataV {
    pub next_id: u64,
    pub projects: Seq<ProjectDataV>,
}

impl View for AppData {
    type V = AppDataV;

    open spec fn view(&self) -> AppDataV {
        AppDataV {
            next_id: self.next_id,
            projects: Seq::new(self.projects@.len(), |i: int| self.projects@[i]@),
        }
    }
}

impl Default for AppData {
    /// A fresh store: no projects, ids start at 1.
    fn default() -> (r: Self)
        ensures
            r@.next_id == 1,
            r@.projects == Seq::<ProjectDataV>::empty(),
    {
        let r = AppData { next_id: 1, projects: Vec::new() };
        proof {
            assert(r@.projects =~= Seq::<ProjectDataV>::empty());
        }
        r
    }
}

/// The identifier the next allocation hands out: the stored counter,
/// lifted to at least 1.
pub open spec fn spec_alloc_id(next_id: u64) -> u64 {
    if next_id >= 1 {
        next_id
    } else {
        1
    }
}

impl AppData {
    /// Hands out a fresh identifier and advances the counter past it.
    pub fn alloc_id(&mut self) -> (id: u64)
        requires
            old(self).next_id < u64::MAX,
        ensures
            id == spec_alloc_id(old(self).next_id),
            final(self).next_id == id + 1,
            final(self).projects == old(self).projects,
    {
        let id = if self.next_id >= 1 {
            self.next_id
        } else {
            1
        };
        self.next_id = id + 1;
        id
    }
}

/// The projects that survive deleting `id`, in their original order.
pub open spec fn spec_keep_projects(ps: Seq<ProjectDataV>, id: u64) -> Seq<ProjectDataV>
    decreases ps.len(),
{
    if ps.len() == 0 {
        ps
    } else {
        let rest = spec_keep_projects(ps.drop_last(), id);
        if ps.last().id != id {
            rest.push(ps.last())
        } else {
            rest
        }
    }
}

/// The notes that survive deleting `id`, in their original order.
pub open spec fn spec_keep_notes(ns: Seq<NoteDataV>, id: u64) -> Seq<NoteDataV>
    decreases ns.len(),
{
    if ns.len() == 0 {
        ns
    } else {
        let rest = spec_keep_notes(ns.drop_last(), id);
        if ns.last().id != id {
            rest.push(ns.last())
        } else {
            rest
        }
    }
}

/// The in-memory editor state of the prototype: the data plus the
/// current selection. Reading input fields, saving and drawing are
/// the shell's business; the state transitions live here.
#[derive(Debug)]
pub struct NotesApp {
    pub data: AppData,
    pub selected_project_id: Option<u64>,
    pub selected_note_id: Option<u64>,
}

impl NotesApp {
    /// Starts the editor on loaded data, selecting the first project.
    pub fn new(data: AppData) -> (r: NotesApp)
        ensures
            r.data == data,
            r.selected_note_id == Option::<u64>::None,
            r.selected_project_id == (if data@.projects.len() > 0 {
                Option::Some(data@.projects[0].id)
            } else {
                Option::<u64>::None
            }),
    {
        let selected_project_id = if data.projects.len() > 0 {
            Some(data.projects[0].id)
        } else {
            None
        };
        NotesApp { data, selected_project_id, selected_note_id: None }
    }

    /// Index of the first project with the given id, if any.
    fn find_project(&self, id: u64) -> (r: Option<usize>)
        ensures
            match r {
                Option::Some(i) => i < self.data@.projects.len()
                    && self.data@.projects[i as int].id == id
                    && forall|k: int| 0 <= k < i ==> self.data@.projects[k].id != id,
                Option::None => forall|k: int|
                    0 <= k < self.data@.projects.len() ==> self.data@.projects[k].id != id,
            },
    {
        let n = self.data.projects.len();
        let mut i: usize = 0;
        while i < n
            invariant
                n == self.data@.projects.len(),
                i <= n,
                forall|k: int| 0 <= k < i ==> self.data@.projects[k].id != id,
            decreases n - i,
        {
            if self.data.projects[i].id == id {
                return Some(i);
            }
            i = i + 1;
        }
        None
    }

    /// The currently selected project, by first matching id.
    pub fn selected_project(&self) -> (r: Option<&Project>)
        ensures
            match r {
                Option::Some(p) => {
                    &&& self.selected_project_id matches Option::Some(id)
                    &&& exists|i: int|
                        {
                            &&& 0 <= i < self.data@.projects.len()
                            &&& p@ == self.data@.projects[i]
                            &&& p@.id == id
                            &&& forall|k: int| 0 <= k < i ==> self.data@.projects[k].id != id
                        }
                },
                Option::None => match self.selected_project_id {
                    Option::Some(id) => forall|k: int|
                        0 <= k < self.data@.projects.len() ==> self.data@.projects[k].id != id,
                    Option::None => true,
                },
            },
    {
        let id = match self.selected_project_id {
            Some(id) => id,
            None => {
                return None;
            },
        };
        match self.find_project(id) {
            Some(i) => {
                let p = &self.data.projects[i];
                proof {
                    assert(p@ == self.data@.projects[i as int]);
                }
                Some(p)
            },
            None => None,
        }
    }

    /// Adds a project with the trimmed name and description, unless
    /// the trimmed name is empty. On success the new project gets a
    /// fresh id and becomes the selection.
    pub fn add_project(&mut self, name: &str, description: &str) -> (added: bool)
        requires
            old(self).data.next_id < u64::MAX,
        ensures
            ({
                let nm = spec_trim(name@);
                if nm.len() == 0 {
                    !added && *final(self) == *old(self)
                } else {
                    let id = spec_alloc_id(old(self).data.next_id);
                    &&& added
                    &&& final(self).data@.projects == old(self).data@.projects.push(
                        ProjectDataV {
                            id,
                            name: nm,
                            description: spec_trim(description@),
                            notes: Seq::empty(),
                        },
                    )
                    &&& final(self).data.next_id == id + 1
                    &&& final(self).selected_project_id == Option::Some(id)
                    &&& final(self).selected_note_id == Option::<u64>::None
                }
            }),
    {
        let nm = trim_str(name);
        if nm.as_str().unicode_len() == 0 {
            return false;
        }
        let id = self.data.alloc_id();
        let p = Project {
            id,
            name: nm,
            description: trim_str(description),
            notes: Vec::new(),
        };
        proof {
            assert(p@.notes =~= Seq::<NoteDataV>::empty());
        }
        let ghost pv = p@;
        self.data.projects.push(p);
        self.selected_project_id = Some(id);
        self.selected_note_id = None;
        proof {
            assert(self.data@.projects =~= old(self).data@.projects.push(pv));
        }
        true
    }

    /// Deletes every project carrying the selected id; the first
    /// remaining project, if any, becomes the selection. Without a
    /// selection nothing changes.
    pub fn delete_selected_project(&mut self)
        ensures
            match old(self).selected_project_id {
                Option::None => *final(self) == *old(self),
                Option::Some(pid) => {
                    let keep = spec_keep_projects(old(self).data@.projects, pid);
                    &&& final(self).data@.projects == keep
                    &&& final(self).data.next_id == old(self).data.next_id
                    &&& final(self).selected_note_id == Option::<u64>::None
                    &&& final(self).selected_project_id == (if keep.len() > 0 {
                        Option::Some(keep[0].id)
                    } else {
                        Option::<u64>::None
                    })
                },
            },
    {
        let pid = match self.selected_project_id {
            Some(pid) => pid,
            None => {
                return;
            },
        };
        let n = self.data.projects.len();
        let mut kept: Vec<Project> = Vec::new();
        let mut i: usize = 0;
        proof {
            assert(self.data@.projects.take(0) =~= Seq::<ProjectDataV>::empty());
        }
        while i < n
            invariant
                n == self.data@.projects.len(),
                i <= n,
                Seq::new(kept@.len(), |k: int| kept@[k]@) =~= spec_keep_projects(
                    self.data@.projects.take(i as int),
                    pid,
                ),
            decreases n - i,
        {
            let p = &self.data.projects[i];
            proof {
                assert(self.data@.projects.take(i as int + 1).drop_last() =~= self.data@.projects.take(
                    i as int,
                ));
                assert(self.data@.projects.take(i as int + 1).last() == self.data@.projects[i as int]);
            }
            if p.id != pid {
                let c = Project {
                    id: p.id,
                    name: p.name.clone(),
                    description: p.description.clone(),
                    notes: clone_notes(&p.notes),
                };
                proof {
                    assert(c@ =~= self.data@.projects[i as int]);
                }
                kept.push(c);
            }
            i = i + 1;
        }
        proof {
            assert(self.data@.projects.take(n as int) =~= self.data@.projects);
        }
        let empty = kept.len() == 0;
        let first_id = if kept.len() > 0 {
            Some(kept[0].id)
        } else {
            None
        };
        self.data.projects = kept;
        self.selected_project_id = first_id;
        self.selected_note_id = None;
        proof {
            let keep = spec_keep_projects(old(self).data@.projects, pid);
            assert(self.data@.projects =~= keep);
            if !empty {
                assert(self.data@.projects[0] == keep[0]);
            }
        }
    }
}

impl NotesApp {
    /// Adds a note with the trimmed title and body to the selected
    /// project, giving it a fresh id and selecting it. With an empty
    /// trimmed title nothing changes; with no (or a dangling)
    /// selection the id is still allocated but no note is stored,
    /// exactly as the prototype behaved.
    pub fn add_note(&mut self, title: &str, body: &str) -> (added: bool)
        requires
            old(self).data.next_id < u64::MAX,
        ensures
            ({
                let tt = spec_trim(title@);
                let ps = old(self).data@.projects;
                let id = spec_alloc_id(old(self).data.next_id);
                if tt.len() == 0 {
                    !added && *final(self) == *old(self)
                } else {
                    &&& final(self).data.next_id == id + 1
                    &&& match old(self).selected_project_id {
                        Option::None => {
                            &&& !added
                            &&& final(self).data@.projects == ps
                            &&& final(self).selected_project_id == old(self).selected_project_id
                            &&& final(self).selected_note_id == old(self).selected_note_id
                        },
                        Option::Some(pid) => {
                            if forall|k: int| 0 <= k < ps.len() ==> ps[k].id != pid {
                                &&& !added
                                &&& final(self).data@.projects == ps
                                &&& final(self).selected_project_id == old(
                                    self,
                                ).selected_project_id
                                &&& final(self).selected_note_id == old(self).selected_note_id
                            } else {
                                exists|i: int|
                                    {
                                        &&& 0 <= i < ps.len()
                                        &&& ps[i].id == pid
                                        &&& (forall|k: int| 0 <= k < i ==> ps[k].id != pid)
                                        &&& added
                                        &&& final(self).data@.projects == ps.update(
                                            i,
                                            ProjectDataV {
                                                notes: ps[i].notes.push(
                                                    NoteDataV {
                                                        id,
                                                        title: tt,
                                                        body: spec_trim(body@),
                                                        steps: Seq::empty(),
                                                    },
                                                ),
                                                ..ps[i]
                                            },
                                        )
                                        &&& final(self).selected_project_id == old(
                                            self,
                                        ).selected_project_id
                                        &&& final(self).selected_note_id == Option::Some(id)
                                    }
                            }
                        },
                    }
                }
            }),
    {
        let tt = trim_str(title);
        if tt.as_str().unicode_len() == 0 {
            return false;
        }
        let note_id = self.data.alloc_id();
        let pid = match self.selected_project_id {
            Some(pid) => pid,
            None => {
                return false;
            },
        };
        match self.find_project(pid) {
            Some(idx) => {
                let note = Note {
                    id: note_id,
                    title: tt,
                    body: trim_str(body),
                    steps: Vec::new(),
                };
                proof {
                    assert(note@.steps =~= Seq::<StepItemV>::empty());
                }
                let ghost nv = note@;
                let ghost ps = old(self).data@.projects;
                let ghost i = idx as int;
                self.data.projects[idx].notes.push(note);
                self.selected_note_id = Some(note_id);
                proof {
                    assert(self.data@.projects[i].notes =~= ps[i].notes.push(nv));
                    assert(self.data@.projects =~= ps.update(
                        i,
                        ProjectDataV { notes: ps[i].notes.push(nv), ..ps[i] },
                    ));
                }
                true
            },
            None => false,
        }
    }

    /// Deletes every note with the given id from the selected
    /// project. When a note was removed and was the selected one, the
    /// first remaining note (if any) becomes the selection. Without a
    /// selection, or with a dangling one, nothing changes.
    pub fn delete_note(&mut self, note_id: u64)
        ensures
            ({
                let ps = old(self).data@.projects;
                match old(self).selected_project_id {
                    Option::None => *final(self) == *old(self),
                    Option::Some(pid) => {
                        if forall|k: int| 0 <= k < ps.len() ==> ps[k].id != pid {
                            *final(self) == *old(self)
                        } else {
                            exists|i: int|
                                {
                                    &&& 0 <= i < ps.len()
                                    &&& ps[i].id == pid
                                    &&& (forall|k: int| 0 <= k < i ==> ps[k].id != pid)
                                    &&& ({
                                        let keep = spec_keep_notes(ps[i].notes, note_id);
                                        let removed = keep.len() < ps[i].notes.len();
                                        &&& final(self).data@.projects == ps.update(
                                            i,
                                            ProjectDataV { notes: keep, ..ps[i] },
                                        )
                                        &&& final(self).data.next_id == old(self).data.next_id
                                        &&& final(self).selected_project_id == old(
                                            self,
                                        ).selected_project_id
                                        &&& final(self).selected_note_id == (if removed
                                            && old(self).selected_note_id == Option::Some(
                                            note_id,
                                        ) {
                                            if keep.len() > 0 {
                                                Option::Some(keep[0].id)
                                            } else {
                                                Option::<u64>::None
                                            }
                                        } else {
                                            old(self).selected_note_id
                                        })
                                    })
                                }
                        }
                    },
                }
            }),
    {
        let pid = match self.selected_project_id {
            Some(pid) => pid,
            None => {
                return;
            },
        };
        let idx = match self.find_project(pid) {
            Some(idx) => idx,
            None => {
                return;
            },
        };
        let ghost ps = old(self).data@.projects;
        let ghost i = idx as int;
        let n = self.data.projects[idx].notes.len();
        let mut kept: Vec<Note> = Vec::new();
        let mut j: usize = 0;
        proof {
            assert(ps[i].notes.take(0) =~= Seq::<NoteDataV>::empty());
        }
        while j < n
            invariant
                0 <= i < self.data@.projects.len(),
                self.data@.projects == ps,
                n == ps[i].notes.len(),
                idx as int == i,
                j <= n,
                kept@.len() <= j,
                Seq::new(kept@.len(), |k: int| kept@[k]@) =~= spec_keep_notes(
                    ps[i].notes.take(j as int),
                    note_id,
                ),
                kept@.len() == j <==> (forall|k: int| 0 <= k < j ==> ps[i].notes[k].id != note_id),
            decreases n - j,
        {
            let nt = &self.data.projects[idx].notes[j];
            proof {
                assert(nt@ == ps[i].notes[j as int]);
                assert(ps[i].notes.take(j as int + 1).drop_last() =~= ps[i].notes.take(j as int));
                assert(ps[i].notes.take(j as int + 1).last() == ps[i].notes[j as int]);
            }
            if nt.id != note_id {
                let c = Note {
                    id: nt.id,
                    title: nt.title.clone(),
                    body: nt.body.clone(),
                    steps: clone_steps(&nt.steps),
                };
                proof {
                    assert(c@ =~= ps[i].notes[j as int]);
                }
                kept.push(c);
            }
            j = j + 1;
        }
        proof {
            assert(ps[i].notes.take(n as int) =~= ps[i].notes);
        }
        let removed = kept.len() < n;
        let first_note = if kept.len() > 0 {
            Some(kept[0].id)
        } else {
            None
        };
        let ghost keep = spec_keep_notes(ps[i].notes, note_id);
        self.data.projects[idx].notes = kept;
        proof {
            assert(self.data@.projects[i].notes =~= keep);
            assert(self.data@.projects =~= ps.update(i, ProjectDataV { notes: keep, ..ps[i] }));
        }
        if removed {
            let sel_was = match self.selected_note_id {
                Some(s) => s == note_id,
                None => false,
            };
            if sel_was {
                self.selected_note_id = first_note;
            }
        }
    }
}

/// Clones a vector of steps, preserving its value.
fn clone_steps(steps: &Vec<StepItem>) -> (r: Vec<StepItem>)
    ensures
        Seq::new(r@.len(), |i: int| r@[i]@) == Seq::new(steps@.len(), |i: int| steps@[i]@),
{
    let mut out: Vec<StepItem> = Vec::new();
    let mut i: usize = 0;
    while i < steps.len()
        invariant
            i <= steps@.len(),
            out@.len() == i,
            forall|k: int| 0 <= k < i ==> out@[k]@ == steps@[k]@,
        decreases steps@.len() - i,
    {
        let s = &steps[i];
        out.push(StepItem { text: s.text.clone(), done: s.done });
        i = i + 1;
    }
    proof {
        assert(Seq::new(out@.len(), |i: int| out@[i]@) =~= Seq::new(
            steps@.len(),
            |i: int| steps@[i]@,
        ));
    }
    out
}

/// Clones a vector of notes, preserving its value.
fn clone_notes(notes: &Vec<Note>) -> (r: Vec<Note>)
    ensures
        Seq::new(r@.len(), |i: int| r@[i]@) == Seq::new(notes@.len(), |i: int| notes@[i]@),
{
    let mut out: Vec<Note> = Vec::new();
    let mut i: usize = 0;
    while i < notes.len()
        invariant
            i <= notes@.len(),
            out@.len() == i,
            forall|k: int| 0 <= k < i ==> out@[k]@ == notes@[k]@,
        decreases notes@.len() - i,
    {
        let nt = &notes[i];
        let c = Note {
            id: nt.id,
            title: nt.title.clone(),
            body: nt.body.clone(),
            steps: clone_steps(&nt.steps),
        };
        proof {
            assert(c@ =~= notes@[i as int]@);
        }
        out.push(c);
        i = i + 1;
    }
    proof {
        assert(Seq::new(out@.len(), |i: int| out@[i]@) =~= Seq::new(
            notes@.len(),
            |i: int| notes@[i]@,
        ));
    }
    out
}

} // verus!
