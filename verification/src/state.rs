use vstd::prelude::*;
use crate::app::{App, skill_name_index, row_name_index, lemma_skill_name_index,
    lemma_row_name_index};
use crate::modes::{AssignedMode, ModeView};
use crate::planner::on_path_names;
use crate::rows::{ProjectEntry, ProjectView, RowView, ScriptView, SkillView};
use crate::strutil::{contains_string, str_eq};

verus! {

// ---------------------------------------------------------------------------
// The persisted form of the assignment state
// ---------------------------------------------------------------------------

/// A persisted project: path and alias.
#[derive(Clone, Debug)]
pub struct ProjectState {
    pub path: String,
    pub alias: String,
}

impl View for ProjectState {
    type V = ProjectView;

    open spec fn view(&self) -> ProjectView {
        ProjectView { path: self.path@, alias: self.alias@ }
    }
}

/// A persisted assignment: the mode word (`global`, `project` or `skip`), the
/// project aliases, and the scripts flagged for PATH.
#[derive(Clone, Debug)]
pub struct AssignmentState {
    pub mode: String,
    pub projects: Vec<String>,
    pub on_path_scripts: Vec<String>,
}

/// Mathematical value of an `AssignmentState`.
#[verifier::ext_equal]
pub struct AssignmentView {
    pub mode: Seq<char>,
    pub projects: Seq<Seq<char>>,
    pub on_path_scripts: Seq<Seq<char>>,
}

impl View for AssignmentState {
    type V = AssignmentView;

    open spec fn view(&self) -> AssignmentView {
        AssignmentView {
            mode: self.mode@,
            projects: self.projects.deep_view(),
            on_path_scripts: self.on_path_scripts.deep_view(),
        }
    }
}

/// Everything persisted between sessions: the project list and one assignment
/// per item name, in catalog order.
#[derive(Clone, Debug)]
pub struct TuiState {
    pub projects: Vec<ProjectState>,
    pub assignments: Vec<(String, AssignmentState)>,
}

impl TuiState {
    pub open spec fn projects_view(self) -> Seq<ProjectView> {
        Seq::new(self.projects@.len(), |i: int| self.projects@[i]@)
    }

    pub open spec fn assignments_view(self) -> Seq<(Seq<char>, AssignmentView)> {
        Seq::new(self.assignments@.len(), |i: int| (self.assignments@[i].0@, self.assignments@[i].1@))
    }
}

// ---------------------------------------------------------------------------
// Capturing
// ---------------------------------------------------------------------------

/// The persisted mode word: `Project` with no aliases is never captured, it
/// normalizes to `skip`.
pub open spec fn spec_mode_str(m: ModeView) -> Seq<char> {
    match m {
        ModeView::Global => "global"@,
        ModeView::Project(aliases) => if aliases.len() == 0 {
            "skip"@
        } else {
            "project"@
        },
        ModeView::Skip => "skip"@,
    }
}

/// The persisted alias list: empty except for a nonempty `Project`.
pub open spec fn spec_mode_projects(m: ModeView) -> Seq<Seq<char>> {
    match m {
        ModeView::Project(aliases) => aliases,
        _ => Seq::empty(),
    }
}

/// A skill's persisted assignment.
pub open spec fn spec_capture_skill(s: SkillView) -> (Seq<char>, AssignmentView) {
    (
        s.name,
        AssignmentView {
            mode: spec_mode_str(s.mode),
            projects: spec_mode_projects(s.mode),
            on_path_scripts: on_path_names(s.scripts),
        },
    )
}

/// A plain row's persisted assignment.
pub open spec fn spec_capture_row(r: RowView) -> (Seq<char>, AssignmentView) {
    (
        r.name,
        AssignmentView {
            mode: spec_mode_str(r.mode),
            projects: spec_mode_projects(r.mode),
            on_path_scripts: Seq::empty(),
        },
    )
}

/// Everything `capture_state` writes, in catalog order.
pub open spec fn spec_capture(a: App) -> Seq<(Seq<char>, AssignmentView)> {
    Seq::new(a.skills().len(), |i: int| spec_capture_skill(a.skills()[i])) + Seq::new(
        a.hooks().len(),
        |i: int| spec_capture_row(a.hooks()[i]),
    ) + Seq::new(a.mcps().len(), |i: int| spec_capture_row(a.mcps()[i])) + Seq::new(
        a.perms().len(),
        |i: int| spec_capture_row(a.perms()[i]),
    )
}

/// The persisted mode word and alias list of one mode value.
fn mode_to_state(mode: &AssignedMode) -> (r: (String, Vec<String>))
    ensures
        r.0@ == spec_mode_str(mode@),
        r.1.deep_view() == spec_mode_projects(mode@),
{
    match mode {
        AssignedMode::Global => {
            let empty: Vec<String> = Vec::new();
            proof {
                assert(empty.deep_view() =~= Seq::<Seq<char>>::empty());
            }
            ("global".to_owned(), empty)
        },
        AssignedMode::Project(aliases) => {
            if aliases.len() == 0 {
                let empty: Vec<String> = Vec::new();
                proof {
                    assert(empty.deep_view() =~= Seq::<Seq<char>>::empty());
                    assert(mode@.aliases() =~= Seq::<Seq<char>>::empty());
                }
                ("skip".to_owned(), empty)
            } else {
                let copy = match mode.clone_mode() {
                    AssignedMode::Project(v) => v,
                    _ => Vec::new(),
                };
                ("project".to_owned(), copy)
            }
        },
        AssignedMode::Skip => {
            let empty: Vec<String> = Vec::new();
            proof {
                assert(empty.deep_view() =~= Seq::<Seq<char>>::empty());
            }
            ("skip".to_owned(), empty)
        },
    }
}

/// Capture the whole assignment state for persistence: every project, and one
/// assignment per item in catalog order. `Project` of nothing is stored as
/// `skip`; script flags are stored as a name list.
pub fn capture_state(app: &App) -> (r: TuiState)
    ensures
        r.projects_view() == app.projs(),
        r.assignments_view() == spec_capture(*app),
{
    let mut projects: Vec<ProjectState> = Vec::new();
    let n = app.projects.len();
    let mut i: usize = 0;
    while i < n
        invariant
            n == app.projects@.len(),
            i <= n,
            projects@.len() == i,
            forall|j: int| 0 <= j < i ==> (#[trigger] projects@[j])@ == app.projs()[j],
        decreases n - i,
    {
        projects.push(
            ProjectState {
                path: app.projects[i].path.clone(),
                alias: app.projects[i].alias.clone(),
            },
        );
        i = i + 1;
    }
    let mut assignments: Vec<(String, AssignmentState)> = Vec::new();
    let ns = app.skill_rows.len();
    let mut i: usize = 0;
    while i < ns
        invariant
            ns == app.skill_rows@.len(),
            i <= ns,
            assignments@.len() == i,
            forall|j: int|
                0 <= j < i ==> ((#[trigger] assignments@[j]).0@, assignments@[j].1@)
                    == spec_capture_skill(app.skills()[j]),
        decreases ns - i,
    {
        let (mode_str, aliases) = mode_to_state(&app.skill_rows[i].mode);
        let scripts = crate::planner::collect_on_path_names(&app.skill_rows[i].scripts);
        proof {
            assert(Seq::new(
                app.skill_rows@[i as int].scripts@.len(),
                |k: int| app.skill_rows@[i as int].scripts@[k]@,
            ) =~= app.skills()[i as int].scripts);
        }
        assignments.push(
            (
                app.skill_rows[i].name.clone(),
                AssignmentState { mode: mode_str, projects: aliases, on_path_scripts: scripts },
            ),
        );
        i = i + 1;
    }
    let ghost ns = app.skill_rows@.len() as int;
    let ghost nh = app.hook_rows@.len() as int;
    let ghost nm = app.mcp_rows@.len() as int;
    push_row_assignments(&mut assignments, &app.hook_rows);
    proof {
        assert(forall|j: int|
            0 <= j < nh ==> ((#[trigger] assignments@[ns + j]).0@, assignments@[ns + j].1@)
                == spec_capture_row(app.hooks()[j]));
    }
    push_row_assignments(&mut assignments, &app.mcp_rows);
    proof {
        assert(forall|j: int|
            0 <= j < nm ==> ((#[trigger] assignments@[ns + nh + j]).0@, assignments@[ns + nh
                + j].1@) == spec_capture_row(app.mcps()[j]));
    }
    push_row_assignments(&mut assignments, &app.perm_rows);
    proof {
        assert(forall|j: int|
            0 <= j < app.perm_rows@.len() ==> ((#[trigger] assignments@[ns + nh + nm + j]).0@,
            assignments@[ns + nh + nm + j].1@) == spec_capture_row(app.perms()[j]));
    }
    let r = TuiState { projects, assignments };
    proof {
        assert(r.projects_view() =~~= app.projs());
        let av = r.assignments_view();
        let cv = spec_capture(*app);
        assert(av.len() == cv.len());
        assert forall|k: int| 0 <= k < av.len() implies av[k] == cv[k] by {
            if k < ns {
                assert(((#[trigger] r.assignments@[k]).0@, r.assignments@[k].1@)
                    == spec_capture_skill(app.skills()[k]));
            } else if k < ns + nh {
                let j = k - ns;
                assert(((r.assignments@[ns + j]).0@, r.assignments@[ns + j].1@)
                    == spec_capture_row(app.hooks()[j]));
            } else if k < ns + nh + nm {
                let j = k - ns - nh;
                assert(((r.assignments@[ns + nh + j]).0@, r.assignments@[ns + nh + j].1@)
                    == spec_capture_row(app.mcps()[j]));
            } else {
                let j = k - ns - nh - nm;
                assert(((r.assignments@[ns + nh + nm + j]).0@, r.assignments@[ns + nh + nm
                    + j].1@) == spec_capture_row(app.perms()[j]));
            }
        }
        assert(av =~= cv);
    }
    r
}

/// Append one captured assignment per row.
fn push_row_assignments(
    assignments: &mut Vec<(String, AssignmentState)>,
    rows: &Vec<crate::rows::SimpleRow>,
)
    ensures
        final(assignments)@.len() == old(assignments)@.len() + rows@.len(),
        forall|j: int|
            0 <= j < old(assignments)@.len() ==> final(assignments)@[j] == old(assignments)@[j],
        forall|j: int|
            0 <= j < rows@.len() ==> ((#[trigger] final(assignments)@[old(assignments)@.len()
                + j]).0@, final(assignments)@[old(assignments)@.len() + j].1@) == spec_capture_row(
                rows@[j]@,
            ),
{
    let base = assignments.len();
    let n = rows.len();
    let mut i: usize = 0;
    while i < n
        invariant
            n == rows@.len(),
            base == old(assignments)@.len(),
            assignments@.len() == base + i,
            i <= n,
            forall|j: int| 0 <= j < base ==> assignments@[j] == old(assignments)@[j],
            forall|j: int|
                0 <= j < i ==> ((#[trigger] assignments@[base + j]).0@, assignments@[base + j].1@)
                    == spec_capture_row(rows@[j]@),
        decreases n - i,
    {
        let (mode_str, aliases) = mode_to_state(&rows[i].mode);
        let empty: Vec<String> = Vec::new();
        proof {
            assert(empty.deep_view() =~= Seq::<Seq<char>>::empty());
        }
        assignments.push(
            (
                rows[i].name.clone(),
                AssignmentState { mode: mode_str, projects: aliases, on_path_scripts: empty },
            ),
        );
        i = i + 1;
    }
}

} // verus!

verus! {

// ---------------------------------------------------------------------------
// Restoring
// ---------------------------------------------------------------------------

/// The four catalogs as one mathematical value.
#[verifier::ext_equal]
pub struct CatalogsView {
    pub skills: Seq<SkillView>,
    pub hooks: Seq<RowView>,
    pub mcps: Seq<RowView>,
    pub perms: Seq<RowView>,
}

impl App {
    pub open spec fn catalogs(self) -> CatalogsView {
        CatalogsView {
            skills: self.skills(),
            hooks: self.hooks(),
            mcps: self.mcps(),
            perms: self.perms(),
        }
    }
}

/// The elements of `s` that appear in `valid`, in order.
pub open spec fn filter_contained(s: Seq<Seq<char>>, valid: Seq<Seq<char>>) -> Seq<Seq<char>>
    decreases s.len(),
{
    if s.len() == 0 {
        Seq::empty()
    } else {
        let rest = filter_contained(s.drop_last(), valid);
        if valid.contains(s.last()) {
            rest.push(s.last())
        } else {
            rest
        }
    }
}

/// The mode a persisted assignment restores to, given the live aliases: a
/// `project` entry keeps only aliases that still exist and collapses to
/// `Skip` when none is left; an unknown mode word restores nothing.
pub open spec fn spec_decode_mode(asg: AssignmentView, valid: Seq<Seq<char>>) -> Option<ModeView> {
    if asg.mode == "global"@ {
        Some(ModeView::Global)
    } else if asg.mode == "project"@ {
        let kept = filter_contained(asg.projects, valid);
        if kept.len() == 0 {
            Some(ModeView::Skip)
        } else {
            Some(ModeView::Project(kept))
        }
    } else if asg.mode == "skip"@ {
        Some(ModeView::Skip)
    } else {
        None
    }
}

/// A skill after one assignment is restored onto it: the mode is taken over,
/// and in `Global` every script's flag is set exactly when its name is listed.
pub open spec fn spec_restore_skill(s: SkillView, m: ModeView, listed: Seq<Seq<char>>) -> SkillView {
    SkillView {
        name: s.name,
        mode: m,
        enabled: s.enabled,
        scope: s.scope,
        scripts: if m.is_global() {
            Seq::new(
                s.scripts.len(),
                |i: int|
                    ScriptView { name: s.scripts[i].name, on_path: listed.contains(s.scripts[i].name) },
            )
        } else {
            s.scripts
        },
    }
}

/// One persisted assignment folded into the catalogs. The first item carrying
/// the name takes the mode, skills first, then hooks (forced to
/// `Global`/`Skip`), MCP servers and permission groups; disabled items and
/// unknown names restore nothing.
pub open spec fn spec_apply_one(
    c: CatalogsView,
    name: Seq<char>,
    asg: AssignmentView,
    valid: Seq<Seq<char>>,
) -> CatalogsView {
    match spec_decode_mode(asg, valid) {
        None => c,
        Some(m) => {
            let si = skill_name_index(c.skills, name);
            let hi = row_name_index(c.hooks, name);
            let mi = row_name_index(c.mcps, name);
            let pi = row_name_index(c.perms, name);
            if si >= 0 {
                if c.skills[si].enabled {
                    CatalogsView {
                        skills: c.skills.update(
                            si,
                            spec_restore_skill(c.skills[si], m, asg.on_path_scripts),
                        ),
                        ..c
                    }
                } else {
                    c
                }
            } else if hi >= 0 {
                if c.hooks[hi].enabled {
                    CatalogsView {
                        hooks: c.hooks.update(
                            hi,
                            crate::app::row_with_mode(
                                c.hooks[hi],
                                if m.is_global() {
                                    ModeView::Global
                                } else {
                                    ModeView::Skip
                                },
                            ),
                        ),
                        ..c
                    }
                } else {
                    c
                }
            } else if mi >= 0 {
                if c.mcps[mi].enabled {
                    CatalogsView {
                        mcps: c.mcps.update(mi, crate::app::row_with_mode(c.mcps[mi], m)),
                        ..c
                    }
                } else {
                    c
                }
            } else if pi >= 0 {
                if c.perms[pi].enabled {
                    CatalogsView {
                        perms: c.perms.update(pi, crate::app::row_with_mode(c.perms[pi], m)),
                        ..c
                    }
                } else {
                    c
                }
            } else {
                c
            }
        },
    }
}

/// All persisted assignments folded in, in order.
pub open spec fn spec_apply_all(
    c: CatalogsView,
    asgs: Seq<(Seq<char>, AssignmentView)>,
    valid: Seq<Seq<char>>,
) -> CatalogsView
    decreases asgs.len(),
{
    if asgs.len() == 0 {
        c
    } else {
        spec_apply_one(
            spec_apply_all(c, asgs.drop_last(), valid),
            asgs.last().0,
            asgs.last().1,
            valid,
        )
    }
}

/// Projects whose paths still exist, in order.
pub open spec fn spec_kept_projects(ps: Seq<ProjectView>, exists: Seq<bool>) -> Seq<ProjectView>
    decreases ps.len(),
{
    if ps.len() == 0 || ps.len() > exists.len() {
        Seq::empty()
    } else {
        let rest = spec_kept_projects(ps.drop_last(), exists);
        if exists[ps.len() - 1] {
            rest.push(ps.last())
        } else {
            rest
        }
    }
}

} // verus!

verus! {

/// The aliases of a list of project views, in order.
pub open spec fn proj_aliases(ps: Seq<ProjectView>) -> Seq<Seq<char>> {
    Seq::new(ps.len(), |i: int| ps[i].alias)
}

/// The catalogs after restoring one decoded mode onto the item called `name`.
pub open spec fn spec_restore(
    c: CatalogsView,
    name: Seq<char>,
    m: ModeView,
    listed: Seq<Seq<char>>,
) -> CatalogsView {
    let si = skill_name_index(c.skills, name);
    let hi = row_name_index(c.hooks, name);
    let mi = row_name_index(c.mcps, name);
    let pi = row_name_index(c.perms, name);
    if si >= 0 {
        if c.skills[si].enabled {
            CatalogsView {
                skills: c.skills.update(si, spec_restore_skill(c.skills[si], m, listed)),
                ..c
            }
        } else {
            c
        }
    } else if hi >= 0 {
        if c.hooks[hi].enabled {
            CatalogsView {
                hooks: c.hooks.update(
                    hi,
                    crate::app::row_with_mode(
                        c.hooks[hi],
                        if m.is_global() {
                            ModeView::Global
                        } else {
                            ModeView::Skip
                        },
                    ),
                ),
                ..c
            }
        } else {
            c
        }
    } else if mi >= 0 {
        if c.mcps[mi].enabled {
            CatalogsView { mcps: c.mcps.update(mi, crate::app::row_with_mode(c.mcps[mi], m)), ..c }
        } else {
            c
        }
    } else if pi >= 0 {
        if c.perms[pi].enabled {
            CatalogsView {
                perms: c.perms.update(pi, crate::app::row_with_mode(c.perms[pi], m)),
                ..c
            }
        } else {
            c
        }
    } else {
        c
    }
}

/// Decode one persisted mode against the live aliases.
fn decode_mode(asg: &AssignmentState, valid: &Vec<String>) -> (r: Option<AssignedMode>)
    ensures
        r is Some <==> spec_decode_mode(asg@, valid.deep_view()) is Some,
        r is Some ==> r->0@ == spec_decode_mode(asg@, valid.deep_view())->0,
{
    if str_eq(asg.mode.as_str(), "global") {
        Some(AssignedMode::Global)
    } else if str_eq(asg.mode.as_str(), "project") {
        let ghost pv = asg.projects.deep_view();
        let mut kept: Vec<String> = Vec::new();
        let n = asg.projects.len();
        let mut i: usize = 0;
        while i < n
            invariant
                n == asg.projects@.len(),
                pv == asg.projects.deep_view(),
                i <= n,
                kept.deep_view() =~= filter_contained(pv.take(i as int), valid.deep_view()),
            decreases n - i,
        {
            proof {
                assert(pv.take(i + 1).drop_last() =~= pv.take(i as int));
                assert(pv.take(i + 1).last() == pv[i as int]);
            }
            let ghost prev = kept.deep_view();
            if contains_string(valid, asg.projects[i].as_str()) {
                let cl = asg.projects[i].clone();
                proof {
                    assert(cl@ == pv[i as int]);
                }
                kept.push(cl);
                proof {
                    assert(kept.deep_view() =~= prev.push(pv[i as int]));
                }
            }
            proof {
                assert(kept.deep_view() =~= filter_contained(pv.take(i + 1), valid.deep_view()));
            }
            i = i + 1;
        }
        proof {
            assert(pv.take(n as int) =~= pv);
        }
        if kept.len() == 0 {
            Some(AssignedMode::Skip)
        } else {
            Some(AssignedMode::Project(kept))
        }
    } else if str_eq(asg.mode.as_str(), "skip") {
        Some(AssignedMode::Skip)
    } else {
        None
    }
}

/// Restore one decoded mode onto the first item carrying `name`.
fn restore_assignment(app: &mut App, name: &str, mode: AssignedMode, listed: &Vec<String>)
    ensures
        *final(app) == (App {
            skill_rows: final(app).skill_rows,
            hook_rows: final(app).hook_rows,
            mcp_rows: final(app).mcp_rows,
            perm_rows: final(app).perm_rows,
            ..*old(app)
        }),
        final(app).catalogs() == spec_restore(
            old(app).catalogs(),
            name@,
            mode@,
            listed.deep_view(),
        ),
{
    proof {
        lemma_skill_name_index(app.skills(), name@);
        lemma_row_name_index(app.hooks(), name@);
        lemma_row_name_index(app.mcps(), name@);
        lemma_row_name_index(app.perms(), name@);
    }
    let keep_global = mode.is_global();
    let n = app.skill_rows.len();
    let mut i: usize = 0;
    while i < n
        invariant
            *app == *old(app),
            n == app.skill_rows@.len(),
            i <= n,
            keep_global == mode@.is_global(),
            forall|j: int| 0 <= j < i ==> app.skills()[j].name != name@,
        decreases n - i,
    {
        if str_eq(app.skill_rows[i].name.as_str(), name) {
            proof {
                crate::app::lemma_skill_name_index_unique_pub(old(app).skills(), name@, i as int);
            }
            if app.skill_rows[i].enabled {
                let mut row = app.skill_rows.remove(i);
                let ghost s0 = old(app).skills()[i as int];
                row.mode = mode;
                if keep_global {
                    let sn = row.scripts.len();
                    let mut j: usize = 0;
                    while j < sn
                        invariant
                            sn == row.scripts@.len(),
                            sn == s0.scripts.len(),
                            row@.name == s0.name,
                            row@.mode == mode@,
                            row@.enabled == s0.enabled,
                            row@.scope == s0.scope,
                            j <= sn,
                            forall|k: int|
                                0 <= k < j ==> (#[trigger] row.scripts@[k])@ == (ScriptView {
                                    name: s0.scripts[k].name,
                                    on_path: listed.deep_view().contains(s0.scripts[k].name),
                                }),
                            forall|k: int|
                                j <= k < sn ==> (#[trigger] row.scripts@[k])@ == s0.scripts[k],
                        decreases sn - j,
                    {
                        let flagged = contains_string(listed, row.scripts[j].name.as_str());
                        row.scripts[j].on_path = flagged;
                        j = j + 1;
                    }
                }
                proof {
                    assert(row@.scripts =~= spec_restore_skill(
                        s0,
                        mode@,
                        listed.deep_view(),
                    ).scripts);
                    assert(row@ =~~= spec_restore_skill(s0, mode@, listed.deep_view()));
                }
                app.skill_rows.insert(i, row);
                proof {
                    assert(app.catalogs() =~~= spec_restore(
                        old(app).catalogs(),
                        name@,
                        mode@,
                        listed.deep_view(),
                    ));
                }
            } else {
                proof {
                    assert(app.catalogs() =~~= spec_restore(
                        old(app).catalogs(),
                        name@,
                        mode@,
                        listed.deep_view(),
                    ));
                }
            }
            return ;
        }
        i = i + 1;
    }
    let n = app.hook_rows.len();
    let mut i: usize = 0;
    while i < n
        invariant
            *app == *old(app),
            n == app.hook_rows@.len(),
            i <= n,
            keep_global == mode@.is_global(),
            forall|j: int| 0 <= j < app.skills().len() ==> app.skills()[j].name != name@,
            forall|j: int| 0 <= j < i ==> app.hooks()[j].name != name@,
        decreases n - i,
    {
        if str_eq(app.hook_rows[i].name.as_str(), name) {
            proof {
                lemma_skill_name_index(old(app).skills(), name@);
                crate::app::lemma_row_name_index_unique_pub(old(app).hooks(), name@, i as int);
            }
            if app.hook_rows[i].enabled {
                app.hook_rows[i].mode = if keep_global {
                    AssignedMode::Global
                } else {
                    AssignedMode::Skip
                };
            }
            proof {
                assert(app.catalogs() =~~= spec_restore(
                    old(app).catalogs(),
                    name@,
                    mode@,
                    listed.deep_view(),
                ));
            }
            return ;
        }
        i = i + 1;
    }
    let n = app.mcp_rows.len();
    let mut i: usize = 0;
    while i < n
        invariant
            *app == *old(app),
            n == app.mcp_rows@.len(),
            i <= n,
            forall|j: int| 0 <= j < app.skills().len() ==> app.skills()[j].name != name@,
            forall|j: int| 0 <= j < app.hooks().len() ==> app.hooks()[j].name != name@,
            forall|j: int| 0 <= j < i ==> app.mcps()[j].name != name@,
        decreases n - i,
    {
        if str_eq(app.mcp_rows[i].name.as_str(), name) {
            proof {
                lemma_skill_name_index(old(app).skills(), name@);
                lemma_row_name_index(old(app).hooks(), name@);
                crate::app::lemma_row_name_index_unique_pub(old(app).mcps(), name@, i as int);
            }
            if app.mcp_rows[i].enabled {
                app.mcp_rows[i].mode = mode;
            }
            proof {
                assert(app.catalogs() =~~= spec_restore(
                    old(app).catalogs(),
                    name@,
                    mode@,
                    listed.deep_view(),
                ));
            }
            return ;
        }
        i = i + 1;
    }
    let n = app.perm_rows.len();
    let mut i: usize = 0;
    while i < n
        invariant
            *app == *old(app),
            n == app.perm_rows@.len(),
            i <= n,
            forall|j: int| 0 <= j < app.skills().len() ==> app.skills()[j].name != name@,
            forall|j: int| 0 <= j < app.hooks().len() ==> app.hooks()[j].name != name@,
            forall|j: int| 0 <= j < app.mcps().len() ==> app.mcps()[j].name != name@,
            forall|j: int| 0 <= j < i ==> app.perms()[j].name != name@,
        decreases n - i,
    {
        if str_eq(app.perm_rows[i].name.as_str(), name) {
            proof {
                lemma_skill_name_index(old(app).skills(), name@);
                lemma_row_name_index(old(app).hooks(), name@);
                lemma_row_name_index(old(app).mcps(), name@);
                crate::app::lemma_row_name_index_unique_pub(old(app).perms(), name@, i as int);
            }
            if app.perm_rows[i].enabled {
                app.perm_rows[i].mode = mode;
            }
            proof {
                assert(app.catalogs() =~~= spec_restore(
                    old(app).catalogs(),
                    name@,
                    mode@,
                    listed.deep_view(),
                ));
            }
            return ;
        }
        i = i + 1;
    }
    proof {
        lemma_skill_name_index(old(app).skills(), name@);
        lemma_row_name_index(old(app).hooks(), name@);
        lemma_row_name_index(old(app).mcps(), name@);
        lemma_row_name_index(old(app).perms(), name@);
    }
}

/// Restore a persisted state: keep only projects whose paths still exist
/// (`path_exists` answers for each, in order), then fold every assignment
/// into the catalogs; assignments for unknown items, disabled items or
/// unknown mode words restore nothing, and stale aliases are dropped.
pub fn apply_state(app: &mut App, state: &TuiState, path_exists: &Vec<bool>)
    requires
        path_exists@.len() == state.projects@.len(),
    ensures
        *final(app) == (App {
            projects: final(app).projects,
            skill_rows: final(app).skill_rows,
            hook_rows: final(app).hook_rows,
            mcp_rows: final(app).mcp_rows,
            perm_rows: final(app).perm_rows,
            ..*old(app)
        }),
        final(app).projs() == spec_kept_projects(state.projects_view(), path_exists@),
        final(app).catalogs() == spec_apply_all(
            old(app).catalogs(),
            state.assignments_view(),
            proj_aliases(spec_kept_projects(state.projects_view(), path_exists@)),
        ),
{
    let mut kept: Vec<ProjectEntry> = Vec::new();
    let n = state.projects.len();
    let mut i: usize = 0;
    while i < n
        invariant
            n == state.projects@.len(),
            path_exists@.len() == n,
            i <= n,
            Seq::new(kept@.len(), |k: int| kept@[k]@) =~= spec_kept_projects(
                state.projects_view().take(i as int),
                path_exists@,
            ),
        decreases n - i,
    {
        proof {
            assert(state.projects_view().take(i + 1).drop_last() =~= state.projects_view().take(
                i as int,
            ));
            assert(state.projects_view().take(i + 1).last() == state.projects_view()[i as int]);
        }
        if path_exists[i] {
            kept.push(
                ProjectEntry {
                    path: state.projects[i].path.clone(),
                    alias: state.projects[i].alias.clone(),
                },
            );
        }
        proof {
            assert(Seq::new(kept@.len(), |k: int| kept@[k]@) =~= spec_kept_projects(
                state.projects_view().take(i + 1),
                path_exists@,
            ));
        }
        i = i + 1;
    }
    proof {
        assert(state.projects_view().take(n as int) =~= state.projects_view());
    }
    app.projects = kept;
    let ghost kept_views = spec_kept_projects(state.projects_view(), path_exists@);
    let mut valid: Vec<String> = Vec::new();
    let vn = app.projects.len();
    let mut i: usize = 0;
    while i < vn
        invariant
            vn == app.projects@.len(),
            app.projs() == kept_views,
            i <= vn,
            valid@.len() == i,
            forall|k: int| 0 <= k < i ==> valid.deep_view()[k] == proj_aliases(kept_views)[k],
        decreases vn - i,
    {
        let cl = app.projects[i].alias.clone();
        proof {
            assert(cl@ == proj_aliases(kept_views)[i as int]);
        }
        valid.push(cl);
        i = i + 1;
    }
    proof {
        assert(valid.deep_view() =~= proj_aliases(kept_views));
    }
    let an = state.assignments.len();
    let mut i: usize = 0;
    while i < an
        invariant
            an == state.assignments@.len(),
            valid.deep_view() == proj_aliases(kept_views),
            *app == (App {
                projects: app.projects,
                skill_rows: app.skill_rows,
                hook_rows: app.hook_rows,
                mcp_rows: app.mcp_rows,
                perm_rows: app.perm_rows,
                ..*old(app)
            }),
            app.projs() == kept_views,
            i <= an,
            app.catalogs() == spec_apply_all(
                old(app).catalogs(),
                state.assignments_view().take(i as int),
                proj_aliases(kept_views),
            ),
        decreases an - i,
    {
        proof {
            assert(state.assignments_view().take(i + 1).drop_last()
                =~= state.assignments_view().take(i as int));
            assert(state.assignments_view().take(i + 1).last()
                == state.assignments_view()[i as int]);
        }
        let decoded = decode_mode(&state.assignments[i].1, &valid);
        match decoded {
            Some(mode) => {
                restore_assignment(
                    app,
                    state.assignments[i].0.as_str(),
                    mode,
                    &state.assignments[i].1.on_path_scripts,
                );
            },
            None => {},
        }
        proof {
            assert(app.catalogs() == spec_apply_all(
                old(app).catalogs(),
                state.assignments_view().take(i + 1),
                proj_aliases(kept_views),
            ));
        }
        i = i + 1;
    }
    proof {
        assert(state.assignments_view().take(an as int) =~= state.assignments_view());
    }
}

} // verus!

verus! {

// ---------------------------------------------------------------------------
// The round-trip law
// ---------------------------------------------------------------------------

/// A mode as it survives a capture-and-restore cycle: `Project` of nothing
/// normalizes to `Skip`, everything else is kept.
pub open spec fn normalize_mode(m: ModeView) -> ModeView {
    match m {
        ModeView::Project(aliases) => if aliases.len() == 0 {
            ModeView::Skip
        } else {
            m
        },
        _ => m,
    }
}

proof fn lemma_filter_contained_all(s: Seq<Seq<char>>, valid: Seq<Seq<char>>)
    requires
        forall|k: int| 0 <= k < s.len() ==> valid.contains(#[trigger] s[k]),
    ensures
        filter_contained(s, valid) == s,
    decreases s.len(),
{
    if s.len() > 0 {
        lemma_filter_contained_all(s.drop_last(), valid);
        assert(filter_contained(s, valid) =~= s);
    }
}

proof fn lemma_on_path_names_contains(scripts: Seq<ScriptView>, nm: Seq<char>)
    ensures
        on_path_names(scripts).contains(nm) <==> exists|i: int|
            0 <= i < scripts.len() && (#[trigger] scripts[i]).on_path && scripts[i].name == nm,
    decreases scripts.len(),
{
    if scripts.len() > 0 {
        lemma_on_path_names_contains(scripts.drop_last(), nm);
        assert(forall|i: int|
            0 <= i < scripts.len() - 1 ==> scripts.drop_last()[i] == scripts[i]);
        let rest = on_path_names(scripts.drop_last());
        if scripts.last().on_path {
            if on_path_names(scripts).contains(nm) {
                let k = choose|k: int|
                    0 <= k < rest.push(scripts.last().name).len() && rest.push(
                        scripts.last().name,
                    )[k] == nm;
                if k < rest.len() {
                    assert(rest[k] == nm);
                } else {
                    assert(scripts[scripts.len() - 1].name == nm);
                }
            }
            if exists|i: int|
                0 <= i < scripts.len() && (#[trigger] scripts[i]).on_path && scripts[i].name
                    == nm {
                let i = choose|i: int|
                    0 <= i < scripts.len() && (#[trigger] scripts[i]).on_path && scripts[i].name
                        == nm;
                if i == scripts.len() - 1 {
                    assert(rest.push(scripts.last().name)[rest.len() as int] == nm);
                } else {
                    assert(rest.contains(nm));
                    let k = choose|k: int| 0 <= k < rest.len() && rest[k] == nm;
                    assert(rest.push(scripts.last().name)[k] == nm);
                }
            }
        } else {
            if exists|i: int|
                0 <= i < scripts.len() && (#[trigger] scripts[i]).on_path && scripts[i].name
                    == nm {
                let i = choose|i: int|
                    0 <= i < scripts.len() && (#[trigger] scripts[i]).on_path && scripts[i].name
                        == nm;
                assert(i < scripts.len() - 1);
            }
        }
    }
}

/// Decoding what capture wrote restores the normalized mode, as long as every
/// alias the mode lists is live.
proof fn lemma_decode_capture(m: ModeView, listed: Seq<Seq<char>>, valid: Seq<Seq<char>>)
    requires
        forall|x: Seq<char>| m.aliases().contains(x) ==> valid.contains(x),
    ensures
        spec_decode_mode(
            AssignmentView {
                mode: spec_mode_str(m),
                projects: spec_mode_projects(m),
                on_path_scripts: listed,
            },
            valid,
        ) == Some(normalize_mode(m)),
{
    reveal_strlit("global");
    reveal_strlit("project");
    reveal_strlit("skip");
    assert("skip"@ != "global"@) by {
        assert("skip"@.len() == 4);
        assert("global"@.len() == 6);
    }
    assert("project"@ != "global"@) by {
        assert("project"@.len() == 7);
        assert("global"@.len() == 6);
    }
    assert("skip"@ != "project"@) by {
        assert("skip"@.len() == 4);
        assert("project"@.len() == 7);
    }
    match m {
        ModeView::Global => {
        },
        ModeView::Skip => {
        },
        ModeView::Project(aliases) => {
            if aliases.len() > 0 {
                assert(forall|k: int|
                    0 <= k < aliases.len() ==> m.aliases().contains(#[trigger] aliases[k]));
                lemma_filter_contained_all(aliases, valid);
            }
        },
    }
}

} // verus!

verus! {

/// Everything a session guarantees before a capture, and everything a freshly
/// discovered catalog guarantees before a restore. The fresh catalogs carry
/// the same item names, enabled flags and script names; fresh rows start with
/// no PATH flags and disabled rows in `Skip`. In the captured state, disabled
/// rows are skipped, hooks never hold a project, PATH flags exist only under
/// `Global`, every listed alias is a live project's, and names are distinct.
pub open spec fn round_trip_pre(a: App, fresh: CatalogsView) -> bool {
    &&& fresh.skills.len() == a.skills().len()
    &&& fresh.hooks.len() == a.hooks().len()
    &&& fresh.mcps.len() == a.mcps().len()
    &&& fresh.perms.len() == a.perms().len()
    &&& forall|i: int|
        0 <= i < a.skills().len() ==> {
            let f = #[trigger] fresh.skills[i];
            let s = a.skills()[i];
            &&& f.name == s.name
            &&& f.enabled == s.enabled
            &&& f.scripts.len() == s.scripts.len()
            &&& (forall|k: int|
                0 <= k < s.scripts.len() ==> (#[trigger] f.scripts[k]).name == s.scripts[k].name
                    && !f.scripts[k].on_path)
            &&& (!f.enabled ==> f.mode is Skip)
        }
    &&& forall|i: int|
        0 <= i < a.hooks().len() ==> {
            let f = #[trigger] fresh.hooks[i];
            &&& f.name == a.hooks()[i].name
            &&& f.enabled == a.hooks()[i].enabled
            &&& (!f.enabled ==> f.mode is Skip)
        }
    &&& forall|i: int|
        0 <= i < a.mcps().len() ==> {
            let f = #[trigger] fresh.mcps[i];
            &&& f.name == a.mcps()[i].name
            &&& f.enabled == a.mcps()[i].enabled
            &&& (!f.enabled ==> f.mode is Skip)
        }
    &&& forall|i: int|
        0 <= i < a.perms().len() ==> {
            let f = #[trigger] fresh.perms[i];
            &&& f.name == a.perms()[i].name
            &&& f.enabled == a.perms()[i].enabled
            &&& (!f.enabled ==> f.mode is Skip)
        }
    &&& forall|i: int|
        0 <= i < a.skills().len() ==> {
            let s = #[trigger] a.skills()[i];
            &&& (!s.mode.is_global() ==> forall|k: int|
                0 <= k < s.scripts.len() ==> !(#[trigger] s.scripts[k]).on_path)
            &&& (!s.enabled ==> s.mode is Skip)
            &&& (forall|k1: int, k2: int|
                0 <= k1 < k2 < s.scripts.len() ==> s.scripts[k1].name != s.scripts[k2].name)
            &&& (forall|x: Seq<char>|
                s.mode.aliases().contains(x) ==> proj_aliases(a.projs()).contains(x))
        }
    &&& forall|i: int|
        0 <= i < a.hooks().len() ==> ((#[trigger] a.hooks()[i]).mode is Global
            || a.hooks()[i].mode is Skip) && (!a.hooks()[i].enabled ==> a.hooks()[i].mode is Skip)
    &&& forall|i: int|
        0 <= i < a.mcps().len() ==> (!(#[trigger] a.mcps()[i]).enabled ==> a.mcps()[i].mode is Skip)
            && (forall|x: Seq<char>|
            a.mcps()[i].mode.aliases().contains(x) ==> proj_aliases(a.projs()).contains(x))
    &&& forall|i: int|
        0 <= i < a.perms().len() ==> (!(#[trigger] a.perms()[i]).enabled
            ==> a.perms()[i].mode is Skip) && (forall|x: Seq<char>|
            a.perms()[i].mode.aliases().contains(x) ==> proj_aliases(a.projs()).contains(x))
    &&& crate::planner::all_names(a).no_duplicates()
}

/// What a restore makes of one captured skill.
pub open spec fn restored_skill(a: App, fresh: CatalogsView, i: int) -> SkillView {
    if a.skills()[i].enabled {
        spec_restore_skill(
            fresh.skills[i],
            normalize_mode(a.skills()[i].mode),
            on_path_names(a.skills()[i].scripts),
        )
    } else {
        fresh.skills[i]
    }
}

/// What a restore makes of one captured hook.
pub open spec fn restored_hook(a: App, fresh: CatalogsView, i: int) -> RowView {
    if a.hooks()[i].enabled {
        crate::app::row_with_mode(
            fresh.hooks[i],
            if normalize_mode(a.hooks()[i].mode).is_global() {
                ModeView::Global
            } else {
                ModeView::Skip
            },
        )
    } else {
        fresh.hooks[i]
    }
}

/// What a restore makes of one captured MCP row.
pub open spec fn restored_mcp(a: App, fresh: CatalogsView, i: int) -> RowView {
    if a.mcps()[i].enabled {
        crate::app::row_with_mode(fresh.mcps[i], normalize_mode(a.mcps()[i].mode))
    } else {
        fresh.mcps[i]
    }
}

/// What a restore makes of one captured permission row.
pub open spec fn restored_perm(a: App, fresh: CatalogsView, i: int) -> RowView {
    if a.perms()[i].enabled {
        crate::app::row_with_mode(fresh.perms[i], normalize_mode(a.perms()[i].mode))
    } else {
        fresh.perms[i]
    }
}

/// After the first `j` captured assignments are restored, the first `j` items
/// carry their restored value and the rest are still fresh.
#[verifier::rlimit(60)]
proof fn lemma_apply_capture_prefix(a: App, fresh: CatalogsView, j: int)
    requires
        round_trip_pre(a, fresh),
        0 <= j <= spec_capture(a).len(),
    ensures
        ({
            let out = spec_apply_all(
                fresh,
                spec_capture(a).take(j),
                proj_aliases(a.projs()),
            );
            let ns = a.skills().len() as int;
            let nh = a.hooks().len() as int;
            let nm = a.mcps().len() as int;
            &&& out.skills.len() == ns
            &&& out.hooks.len() == nh
            &&& out.mcps.len() == nm
            &&& out.perms.len() == a.perms().len()
            &&& forall|i: int|
                0 <= i < ns ==> (#[trigger] out.skills[i]) == (if i < j {
                    restored_skill(a, fresh, i)
                } else {
                    fresh.skills[i]
                })
            &&& forall|i: int|
                0 <= i < nh ==> (#[trigger] out.hooks[i]) == (if ns + i < j {
                    restored_hook(a, fresh, i)
                } else {
                    fresh.hooks[i]
                })
            &&& forall|i: int|
                0 <= i < nm ==> (#[trigger] out.mcps[i]) == (if ns + nh + i < j {
                    restored_mcp(a, fresh, i)
                } else {
                    fresh.mcps[i]
                })
            &&& forall|i: int|
                0 <= i < a.perms().len() ==> (#[trigger] out.perms[i]) == (if ns + nh + nm + i
                    < j {
                    restored_perm(a, fresh, i)
                } else {
                    fresh.perms[i]
                })
        }),
    decreases j,
{
    let valid = proj_aliases(a.projs());
    let cap = spec_capture(a);
    let ns = a.skills().len() as int;
    let nh = a.hooks().len() as int;
    let nm = a.mcps().len() as int;
    let names = crate::planner::all_names(a);
    if j == 0 {
        assert(spec_apply_all(fresh, cap.take(0), valid) == fresh) by {
            assert(cap.take(0) =~= Seq::<(Seq<char>, AssignmentView)>::empty());
        }
    } else {
        lemma_apply_capture_prefix(a, fresh, j - 1);
        let prev = spec_apply_all(fresh, cap.take(j - 1), valid);
        assert(cap.take(j).drop_last() =~= cap.take(j - 1));
        assert(cap.take(j).last() == cap[j - 1]);
        let out = spec_apply_all(fresh, cap.take(j), valid);
        assert(out == spec_apply_one(prev, cap[j - 1].0, cap[j - 1].1, valid));
        let p = j - 1;
        // names of prev match a's names, whatever was restored so far
        assert(forall|i: int|
            0 <= i < ns ==> (#[trigger] prev.skills[i]).name == a.skills()[i].name);
        assert(forall|i: int|
            0 <= i < nh ==> (#[trigger] prev.hooks[i]).name == a.hooks()[i].name);
        assert(forall|i: int|
            0 <= i < nm ==> (#[trigger] prev.mcps[i]).name == a.mcps()[i].name);
        assert(forall|i: int|
            0 <= i < a.perms().len() ==> (#[trigger] prev.perms[i]).name == a.perms()[i].name);
        // names are pairwise distinct via their positions in all_names
        assert(forall|i: int| 0 <= i < ns ==> names[i] == a.skills()[i].name);
        assert(forall|i: int| 0 <= i < nh ==> names[ns + i] == a.hooks()[i].name);
        assert(forall|i: int| 0 <= i < nm ==> names[ns + nh + i] == a.mcps()[i].name);
        assert(forall|i: int|
            0 <= i < a.perms().len() ==> names[ns + nh + nm + i] == a.perms()[i].name);
        if p < ns {
            let nm_ = cap[p].0;
            assert(cap[p] == spec_capture_skill(a.skills()[p]));
            lemma_decode_capture(a.skills()[p].mode, cap[p].1.on_path_scripts, valid);
            assert(skill_name_index(prev.skills, nm_) == p) by {
                assert forall|i: int| 0 <= i < p implies prev.skills[i].name != nm_ by {
                    assert(names[i] == a.skills()[i].name);
                    assert(names[p] == a.skills()[p].name);
                    assert(names[i] != names[p]);
                }
                crate::app::lemma_skill_name_index_unique_pub(prev.skills, nm_, p);
            }
            assert(out =~~= (if a.skills()[p].enabled {
                CatalogsView {
                    skills: prev.skills.update(
                        p,
                        spec_restore_skill(
                            prev.skills[p],
                            normalize_mode(a.skills()[p].mode),
                            on_path_names(a.skills()[p].scripts),
                        ),
                    ),
                    ..prev
                }
            } else {
                prev
            }));
            assert(prev.skills[p] == fresh.skills[p]);
        } else if p < ns + nh {
            let h = p - ns;
            let nm_ = cap[p].0;
            assert(cap[p] == spec_capture_row(a.hooks()[h]));
            lemma_decode_capture(a.hooks()[h].mode, cap[p].1.on_path_scripts, valid);
            assert(skill_name_index(prev.skills, nm_) == -1) by {
                lemma_skill_name_index(prev.skills, nm_);
                if skill_name_index(prev.skills, nm_) != -1 {
                    let w = skill_name_index(prev.skills, nm_);
                    assert(names[w] == names[ns + h]);
                }
            }
            assert(row_name_index(prev.hooks, nm_) == h) by {
                assert forall|i: int| 0 <= i < h implies prev.hooks[i].name != nm_ by {
                    assert(names[ns + i] == a.hooks()[i].name);
                    assert(names[ns + h] == a.hooks()[h].name);
                    assert(names[ns + i] != names[ns + h]);
                }
                crate::app::lemma_row_name_index_unique_pub(prev.hooks, nm_, h);
            }
            assert(prev.hooks[h] == fresh.hooks[h]);
            assert(out =~~= (if a.hooks()[h].enabled {
                CatalogsView {
                    hooks: prev.hooks.update(
                        h,
                        crate::app::row_with_mode(
                            prev.hooks[h],
                            if normalize_mode(a.hooks()[h].mode).is_global() {
                                ModeView::Global
                            } else {
                                ModeView::Skip
                            },
                        ),
                    ),
                    ..prev
                }
            } else {
                prev
            }));
        } else if p < ns + nh + nm {
            let h = p - ns - nh;
            let nm_ = cap[p].0;
            assert(cap[p] == spec_capture_row(a.mcps()[h]));
            lemma_decode_capture(a.mcps()[h].mode, cap[p].1.on_path_scripts, valid);
            assert(skill_name_index(prev.skills, nm_) == -1) by {
                lemma_skill_name_index(prev.skills, nm_);
                if skill_name_index(prev.skills, nm_) != -1 {
                    let w = skill_name_index(prev.skills, nm_);
                    assert(names[w] == names[ns + nh + h]);
                }
            }
            assert(row_name_index(prev.hooks, nm_) == -1) by {
                lemma_row_name_index(prev.hooks, nm_);
                if row_name_index(prev.hooks, nm_) != -1 {
                    let w = row_name_index(prev.hooks, nm_);
                    assert(names[ns + w] == names[ns + nh + h]);
                }
            }
            assert(row_name_index(prev.mcps, nm_) == h) by {
                assert forall|i: int| 0 <= i < h implies prev.mcps[i].name != nm_ by {
                    assert(names[ns + nh + i] == a.mcps()[i].name);
                    assert(names[ns + nh + h] == a.mcps()[h].name);
                    assert(names[ns + nh + i] != names[ns + nh + h]);
                }
                crate::app::lemma_row_name_index_unique_pub(prev.mcps, nm_, h);
            }
            assert(prev.mcps[h] == fresh.mcps[h]);
            assert(out =~~= (if a.mcps()[h].enabled {
                CatalogsView {
                    mcps: prev.mcps.update(
                        h,
                        crate::app::row_with_mode(prev.mcps[h], normalize_mode(a.mcps()[h].mode)),
                    ),
                    ..prev
                }
            } else {
                prev
            }));
        } else {
            let h = p - ns - nh - nm;
            let nm_ = cap[p].0;
            assert(cap[p] == spec_capture_row(a.perms()[h]));
            lemma_decode_capture(a.perms()[h].mode, cap[p].1.on_path_scripts, valid);
            assert(skill_name_index(prev.skills, nm_) == -1) by {
                lemma_skill_name_index(prev.skills, nm_);
                if skill_name_index(prev.skills, nm_) != -1 {
                    let w = skill_name_index(prev.skills, nm_);
                    assert(names[w] == names[ns + nh + nm + h]);
                }
            }
            assert(row_name_index(prev.hooks, nm_) == -1) by {
                lemma_row_name_index(prev.hooks, nm_);
                if row_name_index(prev.hooks, nm_) != -1 {
                    let w = row_name_index(prev.hooks, nm_);
                    assert(names[ns + w] == names[ns + nh + nm + h]);
                }
            }
            assert(row_name_index(prev.mcps, nm_) == -1) by {
                lemma_row_name_index(prev.mcps, nm_);
                if row_name_index(prev.mcps, nm_) != -1 {
                    let w = row_name_index(prev.mcps, nm_);
                    assert(names[ns + nh + w] == names[ns + nh + nm + h]);
                }
            }
            assert(row_name_index(prev.perms, nm_) == h) by {
                assert forall|i: int| 0 <= i < h implies prev.perms[i].name != nm_ by {
                    assert(names[ns + nh + nm + i] == a.perms()[i].name);
                    assert(names[ns + nh + nm + h] == a.perms()[h].name);
                    assert(names[ns + nh + nm + i] != names[ns + nh + nm + h]);
                }
                crate::app::lemma_row_name_index_unique_pub(prev.perms, nm_, h);
            }
            assert(prev.perms[h] == fresh.perms[h]);
            assert(out =~~= (if a.perms()[h].enabled {
                CatalogsView {
                    perms: prev.perms.update(
                        h,
                        crate::app::row_with_mode(prev.perms[h], normalize_mode(a.perms()[h].mode)),
                    ),
                    ..prev
                }
            } else {
                prev
            }));
        }
    }
}

/// The round-trip law: capturing a session's state and restoring it onto a
/// freshly discovered catalog with the same item names reproduces every
/// item's mode and every skill's PATH set — except that `Project` of nothing
/// never round-trips, it comes back as `Skip`.
pub proof fn lemma_capture_apply_round_trip(a: App, fresh: CatalogsView)
    requires
        round_trip_pre(a, fresh),
    ensures
        ({
            let out = spec_apply_all(fresh, spec_capture(a), proj_aliases(a.projs()));
            &&& out.skills.len() == a.skills().len()
            &&& out.hooks.len() == a.hooks().len()
            &&& out.mcps.len() == a.mcps().len()
            &&& out.perms.len() == a.perms().len()
            &&& forall|i: int|
                0 <= i < a.skills().len() ==> (#[trigger] out.skills[i]).mode == normalize_mode(
                    a.skills()[i].mode,
                )
            &&& forall|i: int|
                0 <= i < a.skills().len() ==> (#[trigger] out.skills[i]).scripts.len()
                    == a.skills()[i].scripts.len() && (forall|k: int|
                    0 <= k < a.skills()[i].scripts.len() ==> (#[trigger] out.skills[i].scripts[k]).on_path
                        == a.skills()[i].scripts[k].on_path)
            &&& forall|i: int|
                0 <= i < a.hooks().len() ==> (#[trigger] out.hooks[i]).mode == a.hooks()[i].mode
            &&& forall|i: int|
                0 <= i < a.mcps().len() ==> (#[trigger] out.mcps[i]).mode == normalize_mode(
                    a.mcps()[i].mode,
                )
            &&& forall|i: int|
                0 <= i < a.perms().len() ==> (#[trigger] out.perms[i]).mode == normalize_mode(
                    a.perms()[i].mode,
                )
        }),
{
    let cap = spec_capture(a);
    let valid = proj_aliases(a.projs());
    lemma_apply_capture_prefix(a, fresh, cap.len() as int);
    assert(cap.take(cap.len() as int) =~= cap);
    let out = spec_apply_all(fresh, cap, valid);
    let ns = a.skills().len() as int;
    let nh = a.hooks().len() as int;
    let nm = a.mcps().len() as int;
    assert(cap.len() == ns + nh + nm + a.perms().len());
    assert forall|i: int| 0 <= i < ns implies (#[trigger] out.skills[i]).mode == normalize_mode(
        a.skills()[i].mode,
    ) && out.skills[i].scripts.len() == a.skills()[i].scripts.len() && (forall|k: int|
        0 <= k < a.skills()[i].scripts.len() ==> (#[trigger] out.skills[i].scripts[k]).on_path
            == a.skills()[i].scripts[k].on_path) by {
        let s = a.skills()[i];
        assert(out.skills[i] == restored_skill(a, fresh, i));
        if s.enabled {
            let m = normalize_mode(s.mode);
            if m.is_global() {
                assert forall|k: int|
                    0 <= k < s.scripts.len() implies (#[trigger] out.skills[i].scripts[k]).on_path
                    == s.scripts[k].on_path by {
                    lemma_on_path_names_contains(s.scripts, s.scripts[k].name);
                    assert(fresh.skills[i].scripts[k].name == s.scripts[k].name);
                    if s.scripts[k].on_path {
                        assert(on_path_names(s.scripts).contains(s.scripts[k].name));
                    } else {
                        if on_path_names(s.scripts).contains(s.scripts[k].name) {
                            let w = choose|w: int|
                                0 <= w < s.scripts.len() && (#[trigger] s.scripts[w]).on_path
                                    && s.scripts[w].name == s.scripts[k].name;
                            if w < k {
                                assert(s.scripts[w].name != s.scripts[k].name);
                            } else if w > k {
                                assert(s.scripts[k].name != s.scripts[w].name);
                            }
                        }
                    }
                }
            } else {
                // neither side carries a flag outside Global
                assert(forall|k: int|
                    0 <= k < s.scripts.len() ==> !(#[trigger] s.scripts[k]).on_path);
            }
        } else {
            assert(s.mode is Skip);
            assert(fresh.skills[i].mode is Skip);
        }
    }
    assert forall|i: int| 0 <= i < nh implies (#[trigger] out.hooks[i]).mode
        == a.hooks()[i].mode by {
        assert(out.hooks[i] == restored_hook(a, fresh, i));
        if a.hooks()[i].enabled {
            assert(a.hooks()[i].mode is Global || a.hooks()[i].mode is Skip);
        } else {
            assert(a.hooks()[i].mode is Skip);
            assert(fresh.hooks[i].mode is Skip);
        }
    }
    assert forall|i: int| 0 <= i < nm implies (#[trigger] out.mcps[i]).mode == normalize_mode(
        a.mcps()[i].mode,
    ) by {
        assert(out.mcps[i] == restored_mcp(a, fresh, i));
        if !a.mcps()[i].enabled {
            assert(a.mcps()[i].mode is Skip);
            assert(fresh.mcps[i].mode is Skip);
        }
    }
    assert forall|i: int| 0 <= i < a.perms().len() implies (#[trigger] out.perms[i]).mode
        == normalize_mode(a.perms()[i].mode) by {
        assert(out.perms[i] == restored_perm(a, fresh, i));
        if !a.perms()[i].enabled {
            assert(a.perms()[i].mode is Skip);
            assert(fresh.perms[i].mode is Skip);
        }
    }
}

} // verus!
