use vstd::prelude::*;
use crate::modes::{AssignedMode, ModeView};

verus! {

// ---------------------------------------------------------------------------
// Row types for the four catalogs and the project list
// ---------------------------------------------------------------------------

/// A script belonging to a skill; `on_path` marks it for PATH symlinking,
/// which is only meaningful while the owning skill is deployed globally.
#[derive(Clone, Debug)]
pub struct ScriptEntry {
    pub name: String,
    pub on_path: bool,
}

/// Mathematical value of a `ScriptEntry`.
#[verifier::ext_equal]
pub struct ScriptView {
    pub name: Seq<char>,
    pub on_path: bool,
}

impl View for ScriptEntry {
    type V = ScriptView;

    open spec fn view(&self) -> ScriptView {
        ScriptView { name: self.name@, on_path: self.on_path }
    }
}

/// A skill row with child scripts.
#[derive(Clone, Debug)]
pub struct SkillRow {
    pub name: String,
    pub mode: AssignedMode,
    pub enabled: bool,
    pub scope: String,
    pub scripts: Vec<ScriptEntry>,
}

/// Mathematical value of a `SkillRow`.
#[verifier::ext_equal]
pub struct SkillView {
    pub name: Seq<char>,
    pub mode: ModeView,
    pub enabled: bool,
    pub scope: Seq<char>,
    pub scripts: Seq<ScriptView>,
}

impl View for SkillRow {
    type V = SkillView;

    open spec fn view(&self) -> SkillView {
        SkillView {
            name: self.name@,
            mode: self.mode@,
            enabled: self.enabled,
            scope: self.scope@,
            scripts: Seq::new(self.scripts@.len(), |i: int| self.scripts@[i]@),
        }
    }
}

/// A row without scripts (hooks, MCP servers, permission groups).
#[derive(Clone, Debug)]
pub struct SimpleRow {
    pub name: String,
    pub mode: AssignedMode,
    pub enabled: bool,
    pub scope: String,
}

/// Mathematical value of a `SimpleRow`.
#[verifier::ext_equal]
pub struct RowView {
    pub name: Seq<char>,
    pub mode: ModeView,
    pub enabled: bool,
    pub scope: Seq<char>,
}

impl View for SimpleRow {
    type V = RowView;

    open spec fn view(&self) -> RowView {
        RowView { name: self.name@, mode: self.mode@, enabled: self.enabled, scope: self.scope@ }
    }
}

/// A registered project: an absolute path and its unique display alias.
#[derive(Clone, Debug)]
pub struct ProjectEntry {
    pub path: String,
    pub alias: String,
}

/// Mathematical value of a `ProjectEntry`.
#[verifier::ext_equal]
pub struct ProjectView {
    pub path: Seq<char>,
    pub alias: Seq<char>,
}

impl View for ProjectEntry {
    type V = ProjectView;

    open spec fn view(&self) -> ProjectView {
        ProjectView { path: self.path@, alias: self.alias@ }
    }
}

// ---------------------------------------------------------------------------
// Cursor position within the Skills tab and the input mode
// ---------------------------------------------------------------------------

/// Position within the Skills tab: a skill header or a script under one.
#[derive(Clone, Debug, PartialEq, Eq, Structural)]
pub enum SkillPos {
    Skill(usize),
    Script(usize, usize),
}

/// What the application is currently waiting for.
#[derive(Clone, Debug, PartialEq, Eq, Structural)]
pub enum InputMode {
    Normal,
    AddProject,
    EditAlias,
    SelectProjects,
    DryRunning,
    Confirming,
    Deploying,
    Done,
}

} // verus!
