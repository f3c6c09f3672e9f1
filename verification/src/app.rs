use vstd::prelude::*;
use crate::discovery::{DiscoverResult, DiscoveredItem};
use crate::modes::{AssignedMode, ModeView, next_mode, spec_next_mode};
use crate::results::DeployResults;
use crate::rows::{InputMode, ProjectEntry, ProjectView, RowView, ScriptView, SimpleRow, SkillPos,
    SkillRow, SkillView};
use crate::plan::DeployPlan;

verus! {

pub const TAB_SKILLS: usize = 0;

pub const TAB_HOOKS: usize = 1;

pub const TAB_MCP: usize = 2;

pub const TAB_PERMISSIONS: usize = 3;

pub const TAB_PROJECTS: usize = 4;

pub const TAB_COUNT: usize = 5;

/// The whole interactive application state: four catalogs of rows, the
/// project list, cursors, modal editing state, and the current deploy session.
pub struct App {
    pub active_tab: usize,
    pub cursors: Vec<usize>,
    pub skill_rows: Vec<SkillRow>,
    pub hook_rows: Vec<SimpleRow>,
    pub mcp_rows: Vec<SimpleRow>,
    pub perm_rows: Vec<SimpleRow>,
    pub projects: Vec<ProjectEntry>,
    pub input_mode: InputMode,
    pub project_input: String,
    pub alias_input: String,
    pub modal_cursor: usize,
    pub modal_selections: Vec<bool>,
    pub modal_item_name: String,
    pub modal_saved_mode: Option<AssignedMode>,
    pub deploy_output: Vec<String>,
    pub deploy_results: DeployResults,
    pub deploy_plan: Option<DeployPlan>,
    pub scroll_offset: usize,
    pub should_quit: bool,
    pub repo_root: String,
    pub claude_config_dir: String,
}

// ---------------------------------------------------------------------------
// Spec-level views of the catalogs
// ---------------------------------------------------------------------------

impl App {
    pub open spec fn skills(self) -> Seq<SkillView> {
        Seq::new(self.skill_rows@.len(), |i: int| self.skill_rows@[i]@)
    }

    pub open spec fn hooks(self) -> Seq<RowView> {
        Seq::new(self.hook_rows@.len(), |i: int| self.hook_rows@[i]@)
    }

    pub open spec fn mcps(self) -> Seq<RowView> {
        Seq::new(self.mcp_rows@.len(), |i: int| self.mcp_rows@[i]@)
    }

    pub open spec fn perms(self) -> Seq<RowView> {
        Seq::new(self.perm_rows@.len(), |i: int| self.perm_rows@[i]@)
    }

    pub open spec fn projs(self) -> Seq<ProjectView> {
        Seq::new(self.projects@.len(), |i: int| self.projects@[i]@)
    }

    /// Aliases of the registered projects, in order.
    pub open spec fn aliases(self) -> Seq<Seq<char>> {
        Seq::new(self.projects@.len(), |i: int| self.projects@[i]@.alias)
    }

    /// There is one cursor per tab and the active tab is one of the five.
    pub open spec fn tabs_wf(self) -> bool {
        self.active_tab < TAB_COUNT && self.cursors@.len() == TAB_COUNT
    }

    /// The flattened Skills tab fits in a machine word.
    pub open spec fn flat_len_ok(self) -> bool {
        spec_flat_len(self.skills()) <= usize::MAX
    }
}

// ---------------------------------------------------------------------------
// Flat layout of the Skills tab
// ---------------------------------------------------------------------------

/// Number of flat rows a list of skills occupies: one header per skill plus
/// one row per script.
pub open spec fn spec_flat_len(skills: Seq<SkillView>) -> nat
    decreases skills.len(),
{
    if skills.len() == 0 {
        0
    } else {
        spec_flat_len(skills.drop_last()) + 1 + skills.last().scripts.len()
    }
}

/// The flat row index a position occupies.
pub open spec fn spec_pos_to_flat(skills: Seq<SkillView>, p: SkillPos) -> int {
    match p {
        SkillPos::Skill(si) => spec_flat_len(skills.take(si as int)) as int,
        SkillPos::Script(si, sj) => spec_flat_len(skills.take(si as int)) + 1 + sj,
    }
}

/// A position that exists in the skill list.
pub open spec fn valid_pos(skills: Seq<SkillView>, p: SkillPos) -> bool {
    match p {
        SkillPos::Skill(si) => si < skills.len(),
        SkillPos::Script(si, sj) => si < skills.len() && sj < skills[si as int].scripts.len(),
    }
}

pub proof fn lemma_flat_len_step(skills: Seq<SkillView>, i: int)
    requires
        0 <= i < skills.len(),
    ensures
        spec_flat_len(skills.take(i + 1)) == spec_flat_len(skills.take(i)) + 1
            + skills[i].scripts.len(),
{
    assert(skills.take(i + 1).drop_last() =~= skills.take(i));
    assert(skills.take(i + 1).last() == skills[i]);
}

pub proof fn lemma_flat_len_mono(skills: Seq<SkillView>, i: int, j: int)
    requires
        0 <= i <= j <= skills.len(),
    ensures
        spec_flat_len(skills.take(i)) <= spec_flat_len(skills.take(j)),
    decreases j - i,
{
    if i < j {
        lemma_flat_len_mono(skills, i, j - 1);
        lemma_flat_len_step(skills, j - 1);
    }
}

pub proof fn lemma_flat_len_whole(skills: Seq<SkillView>)
    ensures
        spec_flat_len(skills.take(skills.len() as int)) == spec_flat_len(skills),
{
    assert(skills.take(skills.len() as int) =~= skills);
}

/// Each skill occupies at least its header row.
pub proof fn lemma_flat_len_ge_len(skills: Seq<SkillView>)
    ensures
        spec_flat_len(skills) >= skills.len(),
    decreases skills.len(),
{
    if skills.len() > 0 {
        lemma_flat_len_ge_len(skills.drop_last());
    }
}

impl App {
    // -----------------------------------------------------------------------
    // Construction
    // -----------------------------------------------------------------------

    /// Build the application state from discovery output. Every row starts in
    /// `Global` mode when enabled and `Skip` when disabled; skills start with
    /// no script rows (script discovery is the caller's business).
    pub fn new(discover: DiscoverResult, repo_root: String, claude_config_dir: String) -> (r: App)
        ensures
            r.active_tab == TAB_SKILLS,
            r.cursors@.len() == TAB_COUNT,
            forall|i: int| 0 <= i < TAB_COUNT ==> r.cursors@[i] == 0,
            r.skills().len() == discover.skills_view().len(),
            forall|i: int|
                0 <= i < discover.skills_view().len() ==> (#[trigger] r.skills()[i])
                    == (SkillView {
                    name: discover.skills_view()[i].name,
                    mode: initial_mode(discover.skills_view()[i].enabled),
                    enabled: discover.skills_view()[i].enabled,
                    scope: discover.skills_view()[i].scope,
                    scripts: Seq::empty(),
                }),
            r.hooks() =~= rows_from_items(discover.hooks_view()),
            r.mcps() =~= rows_from_items(discover.mcp_view()),
            r.perms() =~= rows_from_items(discover.permissions_view()),
            r.projs() =~= Seq::<ProjectView>::empty(),
            r.input_mode == InputMode::Normal,
            r.project_input@ =~= Seq::<char>::empty(),
            r.alias_input@ =~= Seq::<char>::empty(),
            r.modal_cursor == 0,
            r.modal_selections@ =~= Seq::<bool>::empty(),
            r.modal_item_name@ =~= Seq::<char>::empty(),
            r.modal_saved_mode is None,
            r.deploy_output@ =~= Seq::<String>::empty(),
            r.deploy_results@ =~= Seq::<crate::results::AggView>::empty(),
            r.deploy_plan is None,
            r.scroll_offset == 0,
            !r.should_quit,
            r.repo_root@ == repo_root@,
            r.claude_config_dir@ == claude_config_dir@,
    {
        let mut skill_rows: Vec<SkillRow> = Vec::new();
        let mut i: usize = 0;
        let n = discover.skills.len();
        while i < n
            invariant
                n == discover.skills.len(),
                i <= n,
                skill_rows@.len() == i,
                forall|j: int|
                    0 <= j < i ==> (#[trigger] skill_rows@[j]@) == (SkillView {
                        name: discover.skills_view()[j].name,
                        mode: initial_mode(discover.skills_view()[j].enabled),
                        enabled: discover.skills_view()[j].enabled,
                        scope: discover.skills_view()[j].scope,
                        scripts: Seq::empty(),
                    }),
            decreases n - i,
        {
            let item = &discover.skills[i];
            let row = SkillRow {
                name: item.name.clone(),
                mode: if item.enabled {
                    AssignedMode::Global
                } else {
                    AssignedMode::Skip
                },
                enabled: item.enabled,
                scope: item.scope.clone(),
                scripts: Vec::new(),
            };
            proof {
                assert(row@.scripts =~= Seq::<ScriptView>::empty());
            }
            skill_rows.push(row);
            i = i + 1;
        }
        let hook_rows = make_simple_rows(&discover.hooks);
        let mcp_rows = make_simple_rows(&discover.mcp);
        let perm_rows = make_simple_rows(&discover.permissions);
        let mut cursors: Vec<usize> = Vec::new();
        cursors.push(0);
        cursors.push(0);
        cursors.push(0);
        cursors.push(0);
        cursors.push(0);
        let r = App {
            active_tab: TAB_SKILLS,
            cursors: cursors,
            skill_rows: skill_rows,
            hook_rows: hook_rows,
            mcp_rows: mcp_rows,
            perm_rows: perm_rows,
            projects: Vec::new(),
            input_mode: InputMode::Normal,
            project_input: String::new(),
            alias_input: String::new(),
            modal_cursor: 0,
            modal_selections: Vec::new(),
            modal_item_name: String::new(),
            modal_saved_mode: None,
            deploy_output: Vec::new(),
            deploy_results: DeployResults::new(),
            deploy_plan: None,
            scroll_offset: 0,
            should_quit: false,
            repo_root: repo_root,
            claude_config_dir: claude_config_dir,
        };
        proof {
            assert(r.hooks() =~= rows_from_items(discover.hooks_view()));
            assert(r.mcps() =~= rows_from_items(discover.mcp_view()));
            assert(r.perms() =~= rows_from_items(discover.permissions_view()));
            assert(r.projs() =~= Seq::<ProjectView>::empty());
        }
        r
    }

    // -----------------------------------------------------------------------
    // Tab navigation
    // -----------------------------------------------------------------------

    /// Switch to the next tab, wrapping after the last.
    pub fn next_tab(&mut self)
        requires
            old(self).tabs_wf(),
        ensures
            *final(self) == (App { active_tab: final(self).active_tab, ..*old(self) }),
            final(self).active_tab == (old(self).active_tab + 1) % (TAB_COUNT as int),
    {
        self.active_tab = (self.active_tab + 1) % TAB_COUNT;
    }

    /// Switch to the previous tab, wrapping before the first.
    pub fn prev_tab(&mut self)
        requires
            old(self).tabs_wf(),
        ensures
            *final(self) == (App { active_tab: final(self).active_tab, ..*old(self) }),
            final(self).active_tab == if old(self).active_tab == 0 {
                (TAB_COUNT - 1) as int
            } else {
                old(self).active_tab - 1
            },
    {
        self.active_tab = if self.active_tab == 0 {
            TAB_COUNT - 1
        } else {
            self.active_tab - 1
        };
    }

    /// Cursor of the active tab.
    pub fn cursor(&self) -> (r: usize)
        requires
            self.tabs_wf(),
        ensures
            r == self.cursors@[self.active_tab as int],
    {
        self.cursors[self.active_tab]
    }

    /// Move the active tab's cursor.
    pub fn set_cursor(&mut self, val: usize)
        requires
            old(self).tabs_wf(),
        ensures
            *final(self) == (App { cursors: final(self).cursors, ..*old(self) }),
            final(self).cursors@ == old(self).cursors@.update(old(self).active_tab as int, val),
    {
        self.cursors[self.active_tab] = val;
    }

    /// Number of rows in the active tab.
    pub fn row_count(&self) -> (r: usize)
        requires
            self.tabs_wf(),
            self.flat_len_ok(),
        ensures
            r == self.spec_row_count(),
    {
        if self.active_tab == TAB_SKILLS {
            self.skill_flat_len()
        } else if self.active_tab == TAB_HOOKS {
            self.hook_rows.len()
        } else if self.active_tab == TAB_MCP {
            self.mcp_rows.len()
        } else if self.active_tab == TAB_PERMISSIONS {
            self.perm_rows.len()
        } else {
            self.projects.len()
        }
    }

    pub open spec fn spec_row_count(self) -> nat {
        if self.active_tab == TAB_SKILLS {
            spec_flat_len(self.skills())
        } else if self.active_tab == TAB_HOOKS {
            self.hooks().len()
        } else if self.active_tab == TAB_MCP {
            self.mcps().len()
        } else if self.active_tab == TAB_PERMISSIONS {
            self.perms().len()
        } else {
            self.projs().len()
        }
    }

    // -----------------------------------------------------------------------
    // Flat index mapping for the Skills tab
    // -----------------------------------------------------------------------

    /// Total number of flat rows in the Skills tab.
    pub fn skill_flat_len(&self) -> (r: usize)
        requires
            self.flat_len_ok(),
        ensures
            r == spec_flat_len(self.skills()),
    {
        let n = self.skill_rows.len();
        let mut total: usize = 0;
        let mut i: usize = 0;
        while i < n
            invariant
                n == self.skill_rows@.len(),
                i <= n,
                self.flat_len_ok(),
                total == spec_flat_len(self.skills().take(i as int)),
            decreases n - i,
        {
            proof {
                lemma_flat_len_step(self.skills(), i as int);
                lemma_flat_len_mono(self.skills(), i + 1, self.skills().len() as int);
                lemma_flat_len_whole(self.skills());
                assert(self.skills()[i as int].scripts.len() == self.skill_rows@[i as int]@.scripts.len());
            }
            total = total + 1 + self.skill_rows[i].scripts.len();
            i = i + 1;
        }
        proof {
            lemma_flat_len_whole(self.skills());
        }
        total
    }

    /// The position a flat row index denotes, when it is in range.
    pub fn skill_flat_to_pos(&self, flat: usize) -> (r: Option<SkillPos>)
        requires
            self.flat_len_ok(),
        ensures
            r == spec_flat_to_pos(self.skills(), flat as int),
    {
        let n = self.skill_rows.len();
        let mut idx: usize = 0;
        let mut si: usize = 0;
        while si < n
            invariant
                n == self.skill_rows@.len(),
                si <= n,
                self.flat_len_ok(),
                idx == spec_flat_len(self.skills().take(si as int)),
                idx <= flat,
                spec_flat_to_pos(self.skills(), flat as int) == find_pos(
                    self.skills(),
                    flat as int,
                    si as int,
                ),
            decreases n - si,
        {
            proof {
                lemma_flat_len_step(self.skills(), si as int);
                lemma_flat_len_mono(self.skills(), si + 1, self.skills().len() as int);
                lemma_flat_len_whole(self.skills());
            }
            if idx == flat {
                return Some(SkillPos::Skill(si));
            }
            let sc = self.skill_rows[si].scripts.len();
            proof {
                assert(self.skills()[si as int].scripts.len() == sc);
            }
            if flat <= idx + sc {
                // flat falls among this skill's script rows
                let sj = flat - idx - 1;
                return Some(SkillPos::Script(si, sj));
            }
            idx = idx + 1 + sc;
            si = si + 1;
        }
        None
    }

    /// The flat row index of a position.
    pub fn skill_pos_to_flat(&self, pos: &SkillPos) -> (r: usize)
        requires
            self.flat_len_ok(),
            valid_pos(self.skills(), *pos),
        ensures
            r as int == spec_pos_to_flat(self.skills(), *pos),
            (r as nat) < spec_flat_len(self.skills()),
    {
        let target_si = match pos {
            SkillPos::Skill(si) => *si,
            SkillPos::Script(si, _) => *si,
        };
        let mut idx: usize = 0;
        let mut si: usize = 0;
        while si < target_si
            invariant
                si <= target_si,
                target_si < self.skill_rows@.len(),
                self.flat_len_ok(),
                idx == spec_flat_len(self.skills().take(si as int)),
            decreases target_si - si,
        {
            proof {
                lemma_flat_len_step(self.skills(), si as int);
                lemma_flat_len_mono(self.skills(), si + 1, self.skills().len() as int);
                lemma_flat_len_whole(self.skills());
            }
            idx = idx + 1 + self.skill_rows[si].scripts.len();
            si = si + 1;
        }
        proof {
            lemma_flat_len_step(self.skills(), target_si as int);
            lemma_flat_len_mono(self.skills(), target_si + 1, self.skills().len() as int);
            lemma_flat_len_whole(self.skills());
        }
        match pos {
            SkillPos::Skill(_) => idx,
            SkillPos::Script(_, sj) => idx + 1 + *sj,
        }
    }

    /// The position under the cursor, when the Skills tab is active.
    pub fn current_skill_pos(&self) -> (r: Option<SkillPos>)
        requires
            self.tabs_wf(),
            self.flat_len_ok(),
        ensures
            r == self.spec_current_skill_pos(),
    {
        if self.active_tab == TAB_SKILLS {
            self.skill_flat_to_pos(self.cursor())
        } else {
            None
        }
    }

    /// The position under the cursor, when the Skills tab is active.
    pub open spec fn spec_current_skill_pos(self) -> Option<SkillPos> {
        if self.active_tab == TAB_SKILLS {
            spec_flat_to_pos(self.skills(), self.cursors@[TAB_SKILLS as int] as int)
        } else {
            None
        }
    }
}

/// Scan for the position at flat row `flat`, starting from skill `si`.
pub open spec fn find_pos(skills: Seq<SkillView>, flat: int, si: int) -> Option<SkillPos>
    recommends
        0 <= si <= skills.len(),
    decreases skills.len() - si,
{
    if si < 0 || si >= skills.len() {
        None
    } else {
        let base = spec_flat_len(skills.take(si)) as int;
        if flat == base {
            Some(SkillPos::Skill(si as usize))
        } else if base < flat <= base + skills[si].scripts.len() {
            Some(SkillPos::Script(si as usize, (flat - base - 1) as usize))
        } else {
            find_pos(skills, flat, si + 1)
        }
    }
}

/// The position a flat row index denotes.
pub open spec fn spec_flat_to_pos(skills: Seq<SkillView>, flat: int) -> Option<SkillPos> {
    find_pos(skills, flat, 0)
}

/// A flat index maps to a position exactly when it is in range, and the
/// position maps back to the same flat index.
pub proof fn lemma_find_pos_props(skills: Seq<SkillView>, flat: int, si: int)
    requires
        0 <= si <= skills.len(),
        spec_flat_len(skills.take(si)) <= flat,
        spec_flat_len(skills) <= usize::MAX,
    ensures
        find_pos(skills, flat, si) is Some <==> flat < spec_flat_len(skills),
        find_pos(skills, flat, si) is Some ==> valid_pos(skills, find_pos(skills, flat, si)->0)
            && spec_pos_to_flat(skills, find_pos(skills, flat, si)->0) == flat,
    decreases skills.len() - si,
{
    lemma_flat_len_whole(skills);
    lemma_flat_len_ge_len(skills);
    if si == skills.len() {
    } else {
        lemma_flat_len_mono(skills, si, skills.len() as int);
        lemma_flat_len_step(skills, si);
        lemma_flat_len_mono(skills, si + 1, skills.len() as int);
        let base = spec_flat_len(skills.take(si)) as int;
        if flat == base {
        } else if base < flat <= base + skills[si].scripts.len() {
        } else {
            lemma_find_pos_props(skills, flat, si + 1);
        }
    }
}

/// The same, from the start of the list.
pub proof fn lemma_flat_to_pos_props(skills: Seq<SkillView>, flat: int)
    requires
        0 <= flat,
        spec_flat_len(skills) <= usize::MAX,
    ensures
        spec_flat_to_pos(skills, flat) is Some <==> flat < spec_flat_len(skills),
        spec_flat_to_pos(skills, flat) is Some ==> valid_pos(
            skills,
            spec_flat_to_pos(skills, flat)->0,
        ) && spec_pos_to_flat(skills, spec_flat_to_pos(skills, flat)->0) == flat,
{
    assert(skills.take(0) =~= Seq::<SkillView>::empty());
    lemma_find_pos_props(skills, flat, 0);
}

/// The mode a freshly discovered row starts in.
pub open spec fn initial_mode(enabled: bool) -> ModeView {
    if enabled {
        ModeView::Global
    } else {
        ModeView::Skip
    }
}

/// Rows built from discovered items, enabled ones in `Global`, the rest in
/// `Skip`.
pub open spec fn rows_from_items(items: Seq<crate::discovery::ItemView>) -> Seq<RowView> {
    Seq::new(
        items.len(),
        |i: int|
            RowView {
                name: items[i].name,
                mode: initial_mode(items[i].enabled),
                enabled: items[i].enabled,
                scope: items[i].scope,
            },
    )
}

/// Build simple rows from discovered items.
pub fn make_simple_rows(items: &Vec<DiscoveredItem>) -> (r: Vec<SimpleRow>)
    ensures
        Seq::new(r@.len(), |i: int| r@[i]@) =~= rows_from_items(
            Seq::new(items@.len(), |i: int| items@[i]@),
        ),
{
    let mut r: Vec<SimpleRow> = Vec::new();
    let n = items.len();
    let mut i: usize = 0;
    while i < n
        invariant
            n == items@.len(),
            i <= n,
            r@.len() == i,
            forall|j: int|
                0 <= j < i ==> (#[trigger] r@[j]@) == (RowView {
                    name: items@[j]@.name,
                    mode: initial_mode(items@[j]@.enabled),
                    enabled: items@[j]@.enabled,
                    scope: items@[j]@.scope,
                }),
        decreases n - i,
    {
        let item = &items[i];
        r.push(
            SimpleRow {
                name: item.name.clone(),
                mode: if item.enabled {
                    AssignedMode::Global
                } else {
                    AssignedMode::Skip
                },
                enabled: item.enabled,
                scope: item.scope.clone(),
            },
        );
        i = i + 1;
    }
    r
}

} // verus!

verus! {

// ---------------------------------------------------------------------------
// Cursor movement with disabled rows skipped
// ---------------------------------------------------------------------------

/// `(start + k)` wrapped once around a cycle of length `count`.
pub open spec fn cyc_add(start: int, k: int, count: int) -> int {
    if start + k >= count {
        start + k - count
    } else {
        start + k
    }
}

/// `(start - k)` wrapped once around a cycle of length `count`.
pub open spec fn cyc_sub(start: int, k: int, count: int) -> int {
    if start - k < 0 {
        start - k + count
    } else {
        start - k
    }
}

impl App {
    /// Whether the row at a flat index of the active tab can take the cursor:
    /// it must exist and be enabled, and a script row is only reachable while
    /// its skill is enabled and `Global`; project rows always can.
    pub open spec fn selectable(self, idx: int) -> bool {
        if self.active_tab == TAB_SKILLS {
            match spec_flat_to_pos(self.skills(), idx) {
                Some(SkillPos::Skill(si)) => self.skills()[si as int].enabled,
                Some(SkillPos::Script(si, _)) => self.skills()[si as int].enabled && self.skills()[
                    si as int
                ].mode.is_global(),
                None => false,
            }
        } else if self.active_tab == TAB_HOOKS {
            0 <= idx < self.hooks().len() && self.hooks()[idx].enabled
        } else if self.active_tab == TAB_MCP {
            0 <= idx < self.mcps().len() && self.mcps()[idx].enabled
        } else if self.active_tab == TAB_PERMISSIONS {
            0 <= idx < self.perms().len() && self.perms()[idx].enabled
        } else {
            0 <= idx < self.projs().len()
        }
    }

    /// The first selectable row at cyclic distance `k` or more below `start`,
    /// stopping before a full loop.
    pub open spec fn first_selectable_down(self, start: int, count: int, k: int) -> Option<int>
        decreases count - k,
    {
        if k >= count {
            None
        } else {
            let p = cyc_add(start, k, count);
            if self.selectable(p) {
                Some(p)
            } else {
                self.first_selectable_down(start, count, k + 1)
            }
        }
    }

    /// The first selectable row at cyclic distance `k` or more above `start`.
    pub open spec fn first_selectable_up(self, start: int, count: int, k: int) -> Option<int>
        decreases count - k,
    {
        if k >= count {
            None
        } else {
            let p = cyc_sub(start, k, count);
            if self.selectable(p) {
                Some(p)
            } else {
                self.first_selectable_up(start, count, k + 1)
            }
        }
    }

    /// Where the cursor lands on a downward move.
    pub open spec fn spec_move_down(self) -> int {
        let count = self.spec_row_count() as int;
        let start = self.cursors@[self.active_tab as int] as int;
        if count == 0 {
            start
        } else {
            match self.first_selectable_down(start, count, 1) {
                Some(p) => p,
                None => start,
            }
        }
    }

    /// Where the cursor lands on an upward move.
    pub open spec fn spec_move_up(self) -> int {
        let count = self.spec_row_count() as int;
        let start = self.cursors@[self.active_tab as int] as int;
        if count == 0 {
            start
        } else {
            match self.first_selectable_up(start, count, 1) {
                Some(p) => p,
                None => start,
            }
        }
    }

    fn is_flat_selectable(&self, idx: usize) -> (r: bool)
        requires
            self.tabs_wf(),
            self.flat_len_ok(),
        ensures
            r == self.selectable(idx as int),
    {
        if self.active_tab == TAB_SKILLS {
            proof {
                lemma_flat_to_pos_props(self.skills(), idx as int);
            }
            match self.skill_flat_to_pos(idx) {
                Some(SkillPos::Skill(si)) => self.skill_rows[si].enabled,
                Some(SkillPos::Script(si, _)) => self.skill_rows[si].enabled
                    && self.skill_rows[si].mode.is_global(),
                None => false,
            }
        } else if self.active_tab == TAB_HOOKS {
            idx < self.hook_rows.len() && self.hook_rows[idx].enabled
        } else if self.active_tab == TAB_MCP {
            idx < self.mcp_rows.len() && self.mcp_rows[idx].enabled
        } else if self.active_tab == TAB_PERMISSIONS {
            idx < self.perm_rows.len() && self.perm_rows[idx].enabled
        } else {
            idx < self.projects.len()
        }
    }

    /// Move the cursor down to the nearest selectable row, wrapping at the
    /// bottom; it stays put when no other row is selectable.
    pub fn move_down(&mut self)
        requires
            old(self).tabs_wf(),
            old(self).flat_len_ok(),
            old(self).spec_row_count() == 0 || (old(self).cursors@[old(self).active_tab as int]
                as nat) < old(self).spec_row_count(),
        ensures
            *final(self) == (App { cursors: final(self).cursors, ..*old(self) }),
            final(self).cursors@ == old(self).cursors@.update(
                old(self).active_tab as int,
                old(self).spec_move_down() as usize,
            ),
    {
        let count = self.row_count();
        if count == 0 {
            proof {
                assert(self.cursors@.update(
                    self.active_tab as int,
                    self.cursors@[self.active_tab as int],
                ) =~= self.cursors@);
            }
            return ;
        }
        let start = self.cursor();
        let mut pos = if start + 1 == count {
            0
        } else {
            start + 1
        };
        let mut k: usize = 1;
        while k < count
            invariant
                *self == *old(self),
                self.tabs_wf(),
                self.flat_len_ok(),
                count == self.spec_row_count(),
                start == self.cursors@[self.active_tab as int],
                (start as nat) < self.spec_row_count(),
                1 <= k <= count,
                pos == cyc_add(start as int, k as int, count as int),
                self.first_selectable_down(start as int, count as int, 1)
                    == self.first_selectable_down(start as int, count as int, k as int),
            decreases count - k,
        {
            if self.is_flat_selectable(pos) {
                self.set_cursor(pos);
                return ;
            }
            k = k + 1;
            pos = if pos + 1 == count {
                0
            } else {
                pos + 1
            };
        }
        proof {
            assert(self.first_selectable_down(start as int, count as int, count as int) is None);
            assert(self.cursors@.update(self.active_tab as int, start) =~= self.cursors@);
        }
    }

    /// Move the cursor up to the nearest selectable row, wrapping at the top;
    /// it stays put when no other row is selectable.
    pub fn move_up(&mut self)
        requires
            old(self).tabs_wf(),
            old(self).flat_len_ok(),
            old(self).spec_row_count() == 0 || (old(self).cursors@[old(self).active_tab as int]
                as nat) < old(self).spec_row_count(),
        ensures
            *final(self) == (App { cursors: final(self).cursors, ..*old(self) }),
            final(self).cursors@ == old(self).cursors@.update(
                old(self).active_tab as int,
                old(self).spec_move_up() as usize,
            ),
    {
        let count = self.row_count();
        if count == 0 {
            proof {
                assert(self.cursors@.update(
                    self.active_tab as int,
                    self.cursors@[self.active_tab as int],
                ) =~= self.cursors@);
            }
            return ;
        }
        let start = self.cursor();
        let mut pos = if start == 0 {
            count - 1
        } else {
            start - 1
        };
        let mut k: usize = 1;
        while k < count
            invariant
                *self == *old(self),
                self.tabs_wf(),
                self.flat_len_ok(),
                count == self.spec_row_count(),
                start == self.cursors@[self.active_tab as int],
                (start as nat) < self.spec_row_count(),
                1 <= k <= count,
                pos == cyc_sub(start as int, k as int, count as int),
                self.first_selectable_up(start as int, count as int, 1)
                    == self.first_selectable_up(start as int, count as int, k as int),
            decreases count - k,
        {
            if self.is_flat_selectable(pos) {
                self.set_cursor(pos);
                return ;
            }
            k = k + 1;
            pos = if pos == 0 {
                count - 1
            } else {
                pos - 1
            };
        }
        proof {
            assert(self.first_selectable_up(start as int, count as int, count as int) is None);
            assert(self.cursors@.update(self.active_tab as int, start) =~= self.cursors@);
        }
    }
}

} // verus!

verus! {

// ---------------------------------------------------------------------------
// Mode editing
// ---------------------------------------------------------------------------

/// Every script flag lowered; PATH membership is meaningless outside `Global`.
pub open spec fn clear_scripts_view(ss: Seq<ScriptView>) -> Seq<ScriptView> {
    Seq::new(ss.len(), |i: int| ScriptView { name: ss[i].name, on_path: false })
}

/// A skill after its mode changes: leaving `Global` clears every script flag.
pub open spec fn skill_with_mode(s: SkillView, m: ModeView) -> SkillView {
    SkillView {
        name: s.name,
        mode: m,
        enabled: s.enabled,
        scope: s.scope,
        scripts: if m.is_global() {
            s.scripts
        } else {
            clear_scripts_view(s.scripts)
        },
    }
}

/// A plain row after its mode changes.
pub open spec fn row_with_mode(r: RowView, m: ModeView) -> RowView {
    RowView { name: r.name, mode: m, enabled: r.enabled, scope: r.scope }
}

/// Hooks cycle between `Global` and `Skip` only: they have no project-scoped
/// destination.
pub open spec fn spec_hook_toggle(m: ModeView) -> ModeView {
    if m is Global {
        ModeView::Skip
    } else {
        ModeView::Global
    }
}

/// First index of `x` in `s`, or `-1`.
pub open spec fn first_index_of(s: Seq<Seq<char>>, x: Seq<char>) -> int
    decreases s.len(),
{
    if s.len() == 0 {
        -1
    } else if s[0] == x {
        0
    } else {
        let r = first_index_of(s.skip(1), x);
        if r < 0 {
            -1
        } else {
            r + 1
        }
    }
}

pub proof fn lemma_first_index_of(s: Seq<Seq<char>>, x: Seq<char>)
    ensures
        first_index_of(s, x) == -1 ==> forall|i: int| 0 <= i < s.len() ==> s[i] != x,
        first_index_of(s, x) != -1 ==> {
            let r = first_index_of(s, x);
            &&& 0 <= r < s.len()
            &&& s[r] == x
            &&& forall|i: int| 0 <= i < r ==> s[i] != x
        },
    decreases s.len(),
{
    if s.len() > 0 && s[0] != x {
        lemma_first_index_of(s.skip(1), x);
        assert(forall|i: int| 1 <= i < s.len() ==> s[i] == s.skip(1)[i - 1]);
    }
}

proof fn lemma_first_index_of_unique(s: Seq<Seq<char>>, x: Seq<char>, i: int)
    requires
        0 <= i < s.len(),
        s[i] == x,
        forall|j: int| 0 <= j < i ==> s[j] != x,
    ensures
        first_index_of(s, x) == i,
    decreases i,
{
    if i > 0 {
        lemma_first_index_of_unique(s.skip(1), x, i - 1);
    }
}

/// Toggling a project alias on a mode: inside `Project` the alias is removed
/// when present (collapsing to `Skip` when the list empties) and appended when
/// absent; `Global` and `Skip` become `Project` of that one alias.
pub open spec fn spec_toggle_mode(m: ModeView, alias: Seq<char>) -> ModeView {
    match m {
        ModeView::Project(aliases) => {
            let i = first_index_of(aliases, alias);
            if i >= 0 {
                if aliases.len() == 1 {
                    ModeView::Skip
                } else {
                    ModeView::Project(aliases.remove(i))
                }
            } else {
                ModeView::Project(aliases.push(alias))
            }
        },
        _ => ModeView::Project(seq![alias]),
    }
}

/// Toggle one alias on a mode value.
fn toggle_mode_alias(m: AssignedMode, alias: &str) -> (r: AssignedMode)
    ensures
        r@ == spec_toggle_mode(m@, alias@),
{
    match m {
        AssignedMode::Project(mut aliases) => {
            let ghost orig = aliases.deep_view();
            let n = aliases.len();
            let mut i: usize = 0;
            while i < n
                invariant
                    n == aliases.len(),
                    orig == aliases.deep_view(),
                    m@ == ModeView::Project(orig),
                    i <= n,
                    forall|j: int| 0 <= j < i ==> aliases.deep_view()[j] != alias@,
                decreases n - i,
            {
                if crate::strutil::str_eq(aliases[i].as_str(), alias) {
                    proof {
                        lemma_first_index_of_unique(orig, alias@, i as int);
                    }
                    aliases.remove(i);
                    proof {
                        assert(aliases.deep_view() =~= orig.remove(i as int));
                    }
                    if aliases.len() == 0 {
                        return AssignedMode::Skip;
                    }
                    return AssignedMode::Project(aliases);
                }
                i = i + 1;
            }
            proof {
                lemma_first_index_of(orig, alias@);
                assert(first_index_of(orig, alias@) == -1);
            }
            aliases.push(alias.to_owned());
            proof {
                assert(aliases.deep_view() =~= orig.push(alias@));
            }
            AssignedMode::Project(aliases)
        },
        _ => {
            let single = vec![alias.to_owned()];
            proof {
                assert(single.deep_view() =~= seq![alias@]);
            }
            AssignedMode::Project(single)
        },
    }
}

} // verus!

verus! {

// ---------------------------------------------------------------------------
// Cycling and toggling the current row
// ---------------------------------------------------------------------------

/// Lower every script's PATH flag.
pub fn clear_script_flags(scripts: &mut Vec<crate::rows::ScriptEntry>)
    ensures
        final(scripts)@.len() == old(scripts)@.len(),
        forall|i: int|
            0 <= i < old(scripts)@.len() ==> (#[trigger] final(scripts)@[i])@ == (ScriptView {
                name: old(scripts)@[i]@.name,
                on_path: false,
            }),
{
    let n = scripts.len();
    let mut j: usize = 0;
    while j < n
        invariant
            n == scripts@.len(),
            j <= n,
            forall|i: int|
                0 <= i < j ==> (#[trigger] scripts@[i])@ == (ScriptView {
                    name: old(scripts)@[i]@.name,
                    on_path: false,
                }),
            forall|i: int| j <= i < n ==> scripts@[i] == old(scripts)@[i],
        decreases n - j,
    {
        scripts[j].on_path = false;
        j = j + 1;
    }
}

/// The skill list after a cycle keystroke.
pub open spec fn spec_cycle_skills(a: App) -> Seq<SkillView> {
    if a.active_tab == TAB_SKILLS {
        match a.spec_current_skill_pos() {
            Some(SkillPos::Skill(si)) => if a.skills()[si as int].enabled {
                a.skills().update(
                    si as int,
                    skill_with_mode(
                        a.skills()[si as int],
                        spec_next_mode(a.skills()[si as int].mode, a.projs().len() > 0),
                    ),
                )
            } else {
                a.skills()
            },
            _ => a.skills(),
        }
    } else {
        a.skills()
    }
}

/// One plain row list after a cycle keystroke aimed at index `idx`.
pub open spec fn spec_cycle_rows(rows: Seq<RowView>, idx: int, has_projects: bool) -> Seq<
    RowView,
> {
    if 0 <= idx < rows.len() && rows[idx].enabled {
        rows.update(idx, row_with_mode(rows[idx], spec_next_mode(rows[idx].mode, has_projects)))
    } else {
        rows
    }
}

pub open spec fn spec_cycle_hooks(a: App) -> Seq<RowView> {
    if a.active_tab == TAB_HOOKS {
        let idx = a.cursors@[TAB_HOOKS as int] as int;
        if 0 <= idx < a.hooks().len() && a.hooks()[idx].enabled {
            a.hooks().update(
                idx,
                row_with_mode(a.hooks()[idx], spec_hook_toggle(a.hooks()[idx].mode)),
            )
        } else {
            a.hooks()
        }
    } else {
        a.hooks()
    }
}

pub open spec fn spec_cycle_mcps(a: App) -> Seq<RowView> {
    if a.active_tab == TAB_MCP {
        spec_cycle_rows(a.mcps(), a.cursors@[TAB_MCP as int] as int, a.projs().len() > 0)
    } else {
        a.mcps()
    }
}

pub open spec fn spec_cycle_perms(a: App) -> Seq<RowView> {
    if a.active_tab == TAB_PERMISSIONS {
        spec_cycle_rows(a.perms(), a.cursors@[TAB_PERMISSIONS as int] as int, a.projs().len() > 0)
    } else {
        a.perms()
    }
}

impl App {
    /// Cycle the mode of the row under the cursor. Skills and plain rows walk
    /// `Global -> Project([]) -> Skip -> Global` (skipping `Project` when no
    /// project is registered); hooks walk `Global <-> Skip`; disabled rows and
    /// script rows are left alone. A skill leaving `Global` loses every
    /// script's PATH flag.
    pub fn cycle_target(&mut self)
        requires
            old(self).tabs_wf(),
            old(self).flat_len_ok(),
        ensures
            *final(self) == (App {
                skill_rows: final(self).skill_rows,
                hook_rows: final(self).hook_rows,
                mcp_rows: final(self).mcp_rows,
                perm_rows: final(self).perm_rows,
                ..*old(self)
            }),
            final(self).skills() == spec_cycle_skills(*old(self)),
            final(self).hooks() == spec_cycle_hooks(*old(self)),
            final(self).mcps() == spec_cycle_mcps(*old(self)),
            final(self).perms() == spec_cycle_perms(*old(self)),
    {
        if self.active_tab == TAB_SKILLS {
            proof {
                lemma_flat_to_pos_props(
                    self.skills(),
                    self.cursors@[self.active_tab as int] as int,
                );
            }
            match self.current_skill_pos() {
                Some(SkillPos::Skill(si)) => {
                    if self.skill_rows[si].enabled {
                        let has = self.projects.len() > 0;
                        let mut row = self.skill_rows.remove(si);
                        let new_mode = next_mode(&row.mode, has);
                        let keep = new_mode.is_global();
                        row.mode = new_mode;
                        if !keep {
                            clear_script_flags(&mut row.scripts);
                        }
                        proof {
                            let s0 = old(self).skills()[si as int];
                            let m = spec_next_mode(s0.mode, old(self).projs().len() > 0);
                            assert(row@.scripts =~= (if m.is_global() {
                                s0.scripts
                            } else {
                                clear_scripts_view(s0.scripts)
                            }));
                            assert(row@ =~~= skill_with_mode(s0, m));
                        }
                        self.skill_rows.insert(si, row);
                        proof {
                            assert(self.skills() =~~= spec_cycle_skills(*old(self)));
                        }
                    }
                },
                _ => {},
            }
        } else if self.active_tab == TAB_HOOKS {
            let idx = self.cursor();
            if idx < self.hook_rows.len() {
                if self.hook_rows[idx].enabled {
                    let new_mode = if self.hook_rows[idx].mode.is_global() {
                        AssignedMode::Skip
                    } else {
                        AssignedMode::Global
                    };
                    self.hook_rows[idx].mode = new_mode;
                    proof {
                        assert(self.hooks() =~= spec_cycle_hooks(*old(self)));
                    }
                }
            }
        } else if self.active_tab == TAB_MCP {
            let idx = self.cursor();
            if idx < self.mcp_rows.len() {
                if self.mcp_rows[idx].enabled {
                    let has = self.projects.len() > 0;
                    let new_mode = next_mode(&self.mcp_rows[idx].mode, has);
                    self.mcp_rows[idx].mode = new_mode;
                    proof {
                        assert(self.mcps() =~= spec_cycle_mcps(*old(self)));
                    }
                }
            }
        } else if self.active_tab == TAB_PERMISSIONS {
            let idx = self.cursor();
            if idx < self.perm_rows.len() {
                if self.perm_rows[idx].enabled {
                    let has = self.projects.len() > 0;
                    let new_mode = next_mode(&self.perm_rows[idx].mode, has);
                    self.perm_rows[idx].mode = new_mode;
                    proof {
                        assert(self.perms() =~= spec_cycle_perms(*old(self)));
                    }
                }
            }
        }
    }

    /// The skill list after a PATH toggle keystroke.
    pub open spec fn spec_toggle_on_path(self) -> Seq<SkillView> {
        if self.active_tab == TAB_SKILLS {
            match self.spec_current_skill_pos() {
                Some(SkillPos::Script(si, sj)) => {
                    let s = self.skills()[si as int];
                    if s.enabled && s.mode.is_global() {
                        self.skills().update(
                            si as int,
                            SkillView {
                                name: s.name,
                                mode: s.mode,
                                enabled: s.enabled,
                                scope: s.scope,
                                scripts: s.scripts.update(
                                    sj as int,
                                    ScriptView {
                                        name: s.scripts[sj as int].name,
                                        on_path: !s.scripts[sj as int].on_path,
                                    },
                                ),
                            },
                        )
                    } else {
                        self.skills()
                    }
                },
                _ => self.skills(),
            }
        } else {
            self.skills()
        }
    }

    /// Flip the PATH flag of the script under the cursor; only effective while
    /// the owning skill is enabled and `Global`.
    pub fn toggle_on_path(&mut self)
        requires
            old(self).tabs_wf(),
            old(self).flat_len_ok(),
        ensures
            *final(self) == (App { skill_rows: final(self).skill_rows, ..*old(self) }),
            final(self).skills() == old(self).spec_toggle_on_path(),
    {
        if self.active_tab != TAB_SKILLS {
            return ;
        }
        proof {
            lemma_flat_to_pos_props(self.skills(), self.cursors@[self.active_tab as int] as int);
        }
        match self.current_skill_pos() {
            Some(SkillPos::Script(si, sj)) => {
                if self.skill_rows[si].enabled && self.skill_rows[si].mode.is_global() {
                    let cur = self.skill_rows[si].scripts[sj].on_path;
                    self.skill_rows[si].scripts[sj].on_path = !cur;
                    proof {
                        assert(self.skills() =~~= old(self).spec_toggle_on_path());
                    }
                }
            },
            _ => {},
        }
    }
}

} // verus!

verus! {

// ---------------------------------------------------------------------------
// Looking an item up by name across the catalogs
// ---------------------------------------------------------------------------

/// First skill index carrying `name`, or `-1`.
pub open spec fn skill_name_index(ss: Seq<SkillView>, name: Seq<char>) -> int
    decreases ss.len(),
{
    if ss.len() == 0 {
        -1
    } else if ss[0].name == name {
        0
    } else {
        let r = skill_name_index(ss.skip(1), name);
        if r < 0 {
            -1
        } else {
            r + 1
        }
    }
}

/// First plain-row index carrying `name`, or `-1`.
pub open spec fn row_name_index(rows: Seq<RowView>, name: Seq<char>) -> int
    decreases rows.len(),
{
    if rows.len() == 0 {
        -1
    } else if rows[0].name == name {
        0
    } else {
        let r = row_name_index(rows.skip(1), name);
        if r < 0 {
            -1
        } else {
            r + 1
        }
    }
}

pub proof fn lemma_skill_name_index(ss: Seq<SkillView>, name: Seq<char>)
    ensures
        skill_name_index(ss, name) == -1 ==> forall|i: int| 0 <= i < ss.len() ==> ss[i].name != name,
        skill_name_index(ss, name) != -1 ==> {
            let r = skill_name_index(ss, name);
            &&& 0 <= r < ss.len()
            &&& ss[r].name == name
            &&& forall|i: int| 0 <= i < r ==> ss[i].name != name
        },
    decreases ss.len(),
{
    if ss.len() > 0 && ss[0].name != name {
        lemma_skill_name_index(ss.skip(1), name);
        assert(forall|i: int| 1 <= i < ss.len() ==> ss[i] == ss.skip(1)[i - 1]);
    }
}

pub proof fn lemma_row_name_index(rows: Seq<RowView>, name: Seq<char>)
    ensures
        row_name_index(rows, name) == -1 ==> forall|i: int|
            0 <= i < rows.len() ==> rows[i].name != name,
        row_name_index(rows, name) != -1 ==> {
            let r = row_name_index(rows, name);
            &&& 0 <= r < rows.len()
            &&& rows[r].name == name
            &&& forall|i: int| 0 <= i < r ==> rows[i].name != name
        },
    decreases rows.len(),
{
    if rows.len() > 0 && rows[0].name != name {
        lemma_row_name_index(rows.skip(1), name);
        assert(forall|i: int| 1 <= i < rows.len() ==> rows[i] == rows.skip(1)[i - 1]);
    }
}

pub proof fn lemma_skill_name_index_unique_pub(ss: Seq<SkillView>, name: Seq<char>, i: int)
    requires
        0 <= i < ss.len(),
        ss[i].name == name,
        forall|j: int| 0 <= j < i ==> ss[j].name != name,
    ensures
        skill_name_index(ss, name) == i,
    decreases i,
{
    if i > 0 {
        lemma_skill_name_index_unique_pub(ss.skip(1), name, i - 1);
    }
}

pub proof fn lemma_row_name_index_unique_pub(rows: Seq<RowView>, name: Seq<char>, i: int)
    requires
        0 <= i < rows.len(),
        rows[i].name == name,
        forall|j: int| 0 <= j < i ==> rows[j].name != name,
    ensures
        row_name_index(rows, name) == i,
    decreases i,
{
    if i > 0 {
        lemma_row_name_index_unique_pub(rows.skip(1), name, i - 1);
    }
}

impl App {
    /// The mode of the first item carrying `name`, searching skills, hooks,
    /// MCP servers, then permission groups.
    pub open spec fn spec_item_mode(self, name: Seq<char>) -> Option<ModeView> {
        let si = skill_name_index(self.skills(), name);
        let hi = row_name_index(self.hooks(), name);
        let mi = row_name_index(self.mcps(), name);
        let pi = row_name_index(self.perms(), name);
        if si >= 0 {
            Some(self.skills()[si].mode)
        } else if hi >= 0 {
            Some(self.hooks()[hi].mode)
        } else if mi >= 0 {
            Some(self.mcps()[mi].mode)
        } else if pi >= 0 {
            Some(self.perms()[pi].mode)
        } else {
            None
        }
    }

    fn get_item_mode(&self, name: &str) -> (r: Option<&AssignedMode>)
        ensures
            r is Some <==> self.spec_item_mode(name@) is Some,
            r is Some ==> r->0@ == self.spec_item_mode(name@)->0,
    {
        proof {
            lemma_skill_name_index(self.skills(), name@);
            lemma_row_name_index(self.hooks(), name@);
            lemma_row_name_index(self.mcps(), name@);
            lemma_row_name_index(self.perms(), name@);
        }
        let mut i: usize = 0;
        let n = self.skill_rows.len();
        while i < n
            invariant
                n == self.skill_rows@.len(),
                i <= n,
                forall|j: int| 0 <= j < i ==> self.skills()[j].name != name@,
            decreases n - i,
        {
            if crate::strutil::str_eq(self.skill_rows[i].name.as_str(), name) {
                proof {
                    lemma_skill_name_index_unique_pub(self.skills(), name@, i as int);
                }
                return Some(&self.skill_rows[i].mode);
            }
            i = i + 1;
        }
        let mut i: usize = 0;
        let n = self.hook_rows.len();
        while i < n
            invariant
                n == self.hook_rows@.len(),
                i <= n,
                forall|j: int| 0 <= j < self.skills().len() ==> self.skills()[j].name != name@,
                forall|j: int| 0 <= j < i ==> self.hooks()[j].name != name@,
            decreases n - i,
        {
            if crate::strutil::str_eq(self.hook_rows[i].name.as_str(), name) {
                proof {
                    lemma_skill_name_index(self.skills(), name@);
                    lemma_row_name_index_unique_pub(self.hooks(), name@, i as int);
                }
                return Some(&self.hook_rows[i].mode);
            }
            i = i + 1;
        }
        let mut i: usize = 0;
        let n = self.mcp_rows.len();
        while i < n
            invariant
                n == self.mcp_rows@.len(),
                i <= n,
                forall|j: int| 0 <= j < self.skills().len() ==> self.skills()[j].name != name@,
                forall|j: int| 0 <= j < self.hooks().len() ==> self.hooks()[j].name != name@,
                forall|j: int| 0 <= j < i ==> self.mcps()[j].name != name@,
            decreases n - i,
        {
            if crate::strutil::str_eq(self.mcp_rows[i].name.as_str(), name) {
                proof {
                    lemma_skill_name_index(self.skills(), name@);
                    lemma_row_name_index(self.hooks(), name@);
                    lemma_row_name_index_unique_pub(self.mcps(), name@, i as int);
                }
                return Some(&self.mcp_rows[i].mode);
            }
            i = i + 1;
        }
        let mut i: usize = 0;
        let n = self.perm_rows.len();
        while i < n
            invariant
                n == self.perm_rows@.len(),
                i <= n,
                forall|j: int| 0 <= j < self.skills().len() ==> self.skills()[j].name != name@,
                forall|j: int| 0 <= j < self.hooks().len() ==> self.hooks()[j].name != name@,
                forall|j: int| 0 <= j < self.mcps().len() ==> self.mcps()[j].name != name@,
                forall|j: int| 0 <= j < i ==> self.perms()[j].name != name@,
            decreases n - i,
        {
            if crate::strutil::str_eq(self.perm_rows[i].name.as_str(), name) {
                proof {
                    lemma_skill_name_index(self.skills(), name@);
                    lemma_row_name_index(self.hooks(), name@);
                    lemma_row_name_index(self.mcps(), name@);
                    lemma_row_name_index_unique_pub(self.perms(), name@, i as int);
                }
                return Some(&self.perm_rows[i].mode);
            }
            i = i + 1;
        }
        proof {
            lemma_skill_name_index(self.skills(), name@);
            lemma_row_name_index(self.hooks(), name@);
            lemma_row_name_index(self.mcps(), name@);
            lemma_row_name_index(self.perms(), name@);
        }
        None
    }

    // -----------------------------------------------------------------------
    // Applying a mode to an item by name
    // -----------------------------------------------------------------------

    /// The skill list after applying `m` to the item called `name`.
    pub open spec fn spec_apply_skills(self, name: Seq<char>, m: ModeView) -> Seq<SkillView> {
        let si = skill_name_index(self.skills(), name);
        if si >= 0 {
            self.skills().update(si, skill_with_mode(self.skills()[si], m))
        } else {
            self.skills()
        }
    }

    /// The MCP list after applying `m` to the item called `name`; skills are
    /// searched first, and hooks never take a mode this way.
    pub open spec fn spec_apply_mcps(self, name: Seq<char>, m: ModeView) -> Seq<RowView> {
        let si = skill_name_index(self.skills(), name);
        let mi = row_name_index(self.mcps(), name);
        if si < 0 && mi >= 0 {
            self.mcps().update(mi, row_with_mode(self.mcps()[mi], m))
        } else {
            self.mcps()
        }
    }

    /// The permission list after applying `m` to the item called `name`.
    pub open spec fn spec_apply_perms(self, name: Seq<char>, m: ModeView) -> Seq<RowView> {
        let si = skill_name_index(self.skills(), name);
        let mi = row_name_index(self.mcps(), name);
        let pi = row_name_index(self.perms(), name);
        if si < 0 && mi < 0 && pi >= 0 {
            self.perms().update(pi, row_with_mode(self.perms()[pi], m))
        } else {
            self.perms()
        }
    }

    /// Set the mode of the first skill, MCP server or permission group called
    /// `name`; a skill leaving `Global` loses its script flags. Hooks are not
    /// reachable this way.
    fn apply_mode_to_item(&mut self, name: &str, mode: AssignedMode)
        ensures
            *final(self) == (App {
                skill_rows: final(self).skill_rows,
                mcp_rows: final(self).mcp_rows,
                perm_rows: final(self).perm_rows,
                ..*old(self)
            }),
            final(self).skills() == old(self).spec_apply_skills(name@, mode@),
            final(self).mcps() == old(self).spec_apply_mcps(name@, mode@),
            final(self).perms() == old(self).spec_apply_perms(name@, mode@),
    {
        proof {
            lemma_skill_name_index(self.skills(), name@);
            lemma_row_name_index(self.mcps(), name@);
            lemma_row_name_index(self.perms(), name@);
        }
        let mut i: usize = 0;
        let n = self.skill_rows.len();
        while i < n
            invariant
                *self == *old(self),
                n == self.skill_rows@.len(),
                i <= n,
                forall|j: int| 0 <= j < i ==> self.skills()[j].name != name@,
            decreases n - i,
        {
            if crate::strutil::str_eq(self.skill_rows[i].name.as_str(), name) {
                proof {
                    lemma_skill_name_index_unique_pub(old(self).skills(), name@, i as int);
                }
                let mut row = self.skill_rows.remove(i);
                let keep = mode.is_global();
                let ghost mv = mode@;
                row.mode = mode;
                if !keep {
                    clear_script_flags(&mut row.scripts);
                }
                proof {
                    let s0 = old(self).skills()[i as int];
                    assert(row@.scripts =~= (if mv.is_global() {
                        s0.scripts
                    } else {
                        clear_scripts_view(s0.scripts)
                    }));
                    assert(row@ =~~= skill_with_mode(s0, mv));
                }
                self.skill_rows.insert(i, row);
                proof {
                    assert(self.skills() =~~= old(self).spec_apply_skills(name@, mv));
                }
                return ;
            }
            i = i + 1;
        }
        let mut i: usize = 0;
        let n = self.mcp_rows.len();
        while i < n
            invariant
                *self == *old(self),
                n == self.mcp_rows@.len(),
                i <= n,
                forall|j: int| 0 <= j < self.skills().len() ==> self.skills()[j].name != name@,
                forall|j: int| 0 <= j < i ==> self.mcps()[j].name != name@,
            decreases n - i,
        {
            if crate::strutil::str_eq(self.mcp_rows[i].name.as_str(), name) {
                proof {
                    lemma_skill_name_index(old(self).skills(), name@);
                    lemma_row_name_index_unique_pub(old(self).mcps(), name@, i as int);
                }
                self.mcp_rows[i].mode = mode;
                proof {
                    assert(self.mcps() =~~= old(self).spec_apply_mcps(name@, mode@));
                }
                return ;
            }
            i = i + 1;
        }
        let mut i: usize = 0;
        let n = self.perm_rows.len();
        while i < n
            invariant
                *self == *old(self),
                n == self.perm_rows@.len(),
                i <= n,
                forall|j: int| 0 <= j < self.skills().len() ==> self.skills()[j].name != name@,
                forall|j: int| 0 <= j < self.mcps().len() ==> self.mcps()[j].name != name@,
                forall|j: int| 0 <= j < i ==> self.perms()[j].name != name@,
            decreases n - i,
        {
            if crate::strutil::str_eq(self.perm_rows[i].name.as_str(), name) {
                proof {
                    lemma_skill_name_index(old(self).skills(), name@);
                    lemma_row_name_index(old(self).mcps(), name@);
                    lemma_row_name_index_unique_pub(old(self).perms(), name@, i as int);
                }
                self.perm_rows[i].mode = mode;
                proof {
                    assert(self.perms() =~~= old(self).spec_apply_perms(name@, mode@));
                }
                return ;
            }
            i = i + 1;
        }
    }

    /// Name of the row under the cursor, when one is selected.
    pub open spec fn spec_current_item_name(self) -> Option<Seq<char>> {
        if self.active_tab == TAB_SKILLS {
            match self.spec_current_skill_pos() {
                Some(SkillPos::Skill(si)) => Some(self.skills()[si as int].name),
                _ => None,
            }
        } else if self.active_tab == TAB_HOOKS {
            let idx = self.cursors@[TAB_HOOKS as int] as int;
            if idx < self.hooks().len() {
                Some(self.hooks()[idx].name)
            } else {
                None
            }
        } else if self.active_tab == TAB_MCP {
            let idx = self.cursors@[TAB_MCP as int] as int;
            if idx < self.mcps().len() {
                Some(self.mcps()[idx].name)
            } else {
                None
            }
        } else if self.active_tab == TAB_PERMISSIONS {
            let idx = self.cursors@[TAB_PERMISSIONS as int] as int;
            if idx < self.perms().len() {
                Some(self.perms()[idx].name)
            } else {
                None
            }
        } else {
            None
        }
    }

    /// Name of the row under the cursor: the selected skill header on the
    /// Skills tab, the selected row elsewhere, nothing on the Projects tab.
    pub fn current_item_name(&self) -> (r: Option<String>)
        requires
            self.tabs_wf(),
            self.flat_len_ok(),
        ensures
            r is Some <==> self.spec_current_item_name() is Some,
            r is Some ==> r->0@ == self.spec_current_item_name()->0,
    {
        if self.active_tab == TAB_SKILLS {
            proof {
                lemma_flat_to_pos_props(
                    self.skills(),
                    self.cursors@[self.active_tab as int] as int,
                );
            }
            match self.current_skill_pos() {
                Some(SkillPos::Skill(si)) => Some(self.skill_rows[si].name.clone()),
                _ => None,
            }
        } else if self.active_tab == TAB_HOOKS {
            let idx = self.cursor();
            if idx < self.hook_rows.len() {
                Some(self.hook_rows[idx].name.clone())
            } else {
                None
            }
        } else if self.active_tab == TAB_MCP {
            let idx = self.cursor();
            if idx < self.mcp_rows.len() {
                Some(self.mcp_rows[idx].name.clone())
            } else {
                None
            }
        } else if self.active_tab == TAB_PERMISSIONS {
            let idx = self.cursor();
            if idx < self.perm_rows.len() {
                Some(self.perm_rows[idx].name.clone())
            } else {
                None
            }
        } else {
            None
        }
    }
}

} // verus!

verus! {

// ---------------------------------------------------------------------------
// The project-picker modal
// ---------------------------------------------------------------------------

impl App {
    /// Aliases the item called `name` is currently assigned to; empty unless
    /// its mode is `Project`.
    pub open spec fn spec_item_aliases(self, name: Seq<char>) -> Seq<Seq<char>> {
        match self.spec_item_mode(name) {
            Some(m) => m.aliases(),
            None => Seq::empty(),
        }
    }

    /// One checkbox per live project, ticked when the item is assigned to it.
    pub open spec fn spec_modal_selections(self, name: Seq<char>) -> Seq<bool> {
        Seq::new(
            self.projs().len(),
            |i: int| self.spec_item_aliases(name).contains(self.projs()[i].alias),
        )
    }

    /// The item's current aliases, as owned strings.
    fn item_aliases(&self, name: &str) -> (r: Vec<String>)
        ensures
            r.deep_view() == self.spec_item_aliases(name@),
    {
        match self.get_item_mode(name) {
            Some(mode) => match mode {
                AssignedMode::Project(aliases) => {
                    let mut out: Vec<String> = Vec::new();
                    let n = aliases.len();
                    let mut i: usize = 0;
                    while i < n
                        invariant
                            n == aliases@.len(),
                            i <= n,
                            out@.len() == i,
                            forall|j: int|
                                0 <= j < i ==> out.deep_view()[j] == aliases.deep_view()[j],
                        decreases n - i,
                    {
                        let cl = aliases[i].clone();
                        proof {
                            assert(cl@ == aliases@[i as int]@);
                        }
                        out.push(cl);
                        i = i + 1;
                    }
                    proof {
                        assert(out.deep_view() =~= aliases.deep_view());
                    }
                    out
                },
                _ => {
                    let out: Vec<String> = Vec::new();
                    proof {
                        assert(out.deep_view() =~= Seq::<Seq<char>>::empty());
                    }
                    out
                },
            },
            None => {
                let out: Vec<String> = Vec::new();
                proof {
                    assert(out.deep_view() =~= Seq::<Seq<char>>::empty());
                }
                out
            },
        }
    }

    /// Open the project picker for the item called `item_name`, remembering
    /// the current mode for a later cancel; a no-op while no project exists.
    pub fn open_project_modal(&mut self, item_name: &str)
        ensures
            old(self).projs().len() == 0 ==> *final(self) == *old(self),
            old(self).projs().len() > 0 ==> *final(self) == (App {
                input_mode: InputMode::SelectProjects,
                modal_cursor: 0,
                modal_selections: final(self).modal_selections,
                modal_item_name: final(self).modal_item_name,
                modal_saved_mode: final(self).modal_saved_mode,
                ..*old(self)
            }),
            old(self).projs().len() > 0 ==> {
                &&& final(self).modal_selections@ == old(self).spec_modal_selections(item_name@)
                &&& final(self).modal_item_name@ == item_name@
                &&& final(self).modal_saved_mode is Some
                &&& final(self).modal_saved_mode->0@ == (match old(self).spec_item_mode(
                    item_name@,
                ) {
                    Some(m) => m,
                    None => ModeView::Skip,
                })
            },
    {
        if self.projects.is_empty() {
            return ;
        }
        let saved = match self.get_item_mode(item_name) {
            Some(mode) => mode.clone_mode(),
            None => AssignedMode::Skip,
        };
        let current_aliases = self.item_aliases(item_name);
        let mut selections: Vec<bool> = Vec::new();
        let n = self.projects.len();
        let mut i: usize = 0;
        while i < n
            invariant
                n == self.projects@.len(),
                i <= n,
                selections@.len() == i,
                current_aliases.deep_view() == self.spec_item_aliases(item_name@),
                forall|j: int|
                    0 <= j < i ==> selections@[j] == self.spec_item_aliases(item_name@).contains(
                        self.projs()[j].alias,
                    ),
            decreases n - i,
        {
            let sel = crate::strutil::contains_string(
                &current_aliases,
                self.projects[i].alias.as_str(),
            );
            selections.push(sel);
            i = i + 1;
        }
        self.modal_saved_mode = Some(saved);
        self.modal_item_name = item_name.to_owned();
        self.modal_cursor = 0;
        self.modal_selections = selections;
        self.input_mode = InputMode::SelectProjects;
        proof {
            assert(self.modal_selections@ =~= old(self).spec_modal_selections(item_name@));
        }
    }

    /// Aliases of the projects whose checkboxes are ticked, scanning from
    /// project `i` on.
    pub open spec fn spec_selected_from(self, i: int) -> Seq<Seq<char>>
        decreases self.projs().len() - i,
    {
        if i < 0 || i >= self.projs().len() || i >= self.modal_selections@.len() {
            Seq::empty()
        } else {
            let rest = self.spec_selected_from(i + 1);
            if self.modal_selections@[i] {
                seq![self.projs()[i].alias] + rest
            } else {
                rest
            }
        }
    }

    /// The mode the modal confirms to: `Project` of the ticked aliases, or
    /// `Skip` when none is ticked.
    pub open spec fn spec_confirmed_mode(self) -> ModeView {
        if self.spec_selected_from(0).len() == 0 {
            ModeView::Skip
        } else {
            ModeView::Project(self.spec_selected_from(0))
        }
    }

    /// Apply the picker's checkboxes to the item it was opened for and leave
    /// modal state.
    pub fn confirm_project_modal(&mut self)
        ensures
            *final(self) == (App {
                skill_rows: final(self).skill_rows,
                mcp_rows: final(self).mcp_rows,
                perm_rows: final(self).perm_rows,
                input_mode: InputMode::Normal,
                modal_saved_mode: None,
                ..*old(self)
            }),
            final(self).skills() == old(self).spec_apply_skills(
                old(self).modal_item_name@,
                old(self).spec_confirmed_mode(),
            ),
            final(self).mcps() == old(self).spec_apply_mcps(
                old(self).modal_item_name@,
                old(self).spec_confirmed_mode(),
            ),
            final(self).perms() == old(self).spec_apply_perms(
                old(self).modal_item_name@,
                old(self).spec_confirmed_mode(),
            ),
    {
        let mut selected: Vec<String> = Vec::new();
        let n = self.projects.len();
        let sn = self.modal_selections.len();
        let mut i: usize = 0;
        while i < n && i < sn
            invariant
                n == self.projects@.len(),
                sn == self.modal_selections@.len(),
                i <= n,
                i <= sn,
                self.spec_selected_from(0) == selected.deep_view() + self.spec_selected_from(
                    i as int,
                ),
            decreases n - i,
        {
            if self.modal_selections[i] {
                selected.push(self.projects[i].alias.clone());
            }
            i = i + 1;
            proof {
                assert(self.spec_selected_from(0) =~= selected.deep_view()
                    + self.spec_selected_from(i as int));
            }
        }
        proof {
            assert(self.spec_selected_from(i as int) =~= Seq::<Seq<char>>::empty());
            assert(selected.deep_view() =~= self.spec_selected_from(0));
        }
        let new_mode = if selected.len() == 0 {
            AssignedMode::Skip
        } else {
            AssignedMode::Project(selected)
        };
        let name = self.modal_item_name.clone();
        self.apply_mode_to_item(name.as_str(), new_mode);
        self.input_mode = InputMode::Normal;
        self.modal_saved_mode = None;
    }

    /// Leave the modal, restoring the mode saved when it was opened; the
    /// explored checkboxes have no effect.
    pub fn cancel_project_modal(&mut self)
        ensures
            *final(self) == (App {
                skill_rows: final(self).skill_rows,
                mcp_rows: final(self).mcp_rows,
                perm_rows: final(self).perm_rows,
                input_mode: InputMode::Normal,
                modal_saved_mode: None,
                ..*old(self)
            }),
            old(self).modal_saved_mode is Some ==> {
                &&& final(self).skills() == old(self).spec_apply_skills(
                    old(self).modal_item_name@,
                    old(self).modal_saved_mode->0@,
                )
                &&& final(self).mcps() == old(self).spec_apply_mcps(
                    old(self).modal_item_name@,
                    old(self).modal_saved_mode->0@,
                )
                &&& final(self).perms() == old(self).spec_apply_perms(
                    old(self).modal_item_name@,
                    old(self).modal_saved_mode->0@,
                )
            },
            old(self).modal_saved_mode is None ==> final(self).skill_rows == old(self).skill_rows
                && final(self).mcp_rows == old(self).mcp_rows && final(self).perm_rows == old(
                self,
            ).perm_rows,
    {
        let saved = self.modal_saved_mode.take();
        match saved {
            Some(saved_mode) => {
                let name = self.modal_item_name.clone();
                self.apply_mode_to_item(name.as_str(), saved_mode);
            },
            None => {},
        }
        self.input_mode = InputMode::Normal;
    }
}

} // verus!

verus! {

// ---------------------------------------------------------------------------
// Toggling one project by number, and bulk operations
// ---------------------------------------------------------------------------

/// The skill list after toggling project number `num` (1-based) on the
/// selected skill header.
pub open spec fn spec_toggle_proj_skills(a: App, num: int) -> Seq<SkillView> {
    if 1 <= num <= a.projs().len() && a.active_tab == TAB_SKILLS {
        let alias = a.projs()[num - 1].alias;
        match a.spec_current_skill_pos() {
            Some(SkillPos::Skill(si)) => if a.skills()[si as int].enabled {
                a.skills().update(
                    si as int,
                    skill_with_mode(
                        a.skills()[si as int],
                        spec_toggle_mode(a.skills()[si as int].mode, alias),
                    ),
                )
            } else {
                a.skills()
            },
            _ => a.skills(),
        }
    } else {
        a.skills()
    }
}

/// One plain row list after toggling project number `num` on its selected row.
pub open spec fn spec_toggle_proj_rows(rows: Seq<RowView>, idx: int, alias: Seq<char>) -> Seq<
    RowView,
> {
    if 0 <= idx < rows.len() && rows[idx].enabled {
        rows.update(idx, row_with_mode(rows[idx], spec_toggle_mode(rows[idx].mode, alias)))
    } else {
        rows
    }
}

pub open spec fn spec_toggle_proj_mcps(a: App, num: int) -> Seq<RowView> {
    if 1 <= num <= a.projs().len() && a.active_tab == TAB_MCP {
        spec_toggle_proj_rows(
            a.mcps(),
            a.cursors@[TAB_MCP as int] as int,
            a.projs()[num - 1].alias,
        )
    } else {
        a.mcps()
    }
}

pub open spec fn spec_toggle_proj_perms(a: App, num: int) -> Seq<RowView> {
    if 1 <= num <= a.projs().len() && a.active_tab == TAB_PERMISSIONS {
        spec_toggle_proj_rows(
            a.perms(),
            a.cursors@[TAB_PERMISSIONS as int] as int,
            a.projs()[num - 1].alias,
        )
    } else {
        a.perms()
    }
}

impl App {
    /// Toggle assignment to project number `project_num` (1-based) on the row
    /// under the cursor. Hooks never take a project; a skill's scripts lose
    /// their PATH flags since the row leaves `Global`.
    pub fn toggle_project(&mut self, project_num: usize)
        requires
            old(self).tabs_wf(),
            old(self).flat_len_ok(),
        ensures
            *final(self) == (App {
                skill_rows: final(self).skill_rows,
                mcp_rows: final(self).mcp_rows,
                perm_rows: final(self).perm_rows,
                ..*old(self)
            }),
            final(self).skills() == spec_toggle_proj_skills(*old(self), project_num as int),
            final(self).mcps() == spec_toggle_proj_mcps(*old(self), project_num as int),
            final(self).perms() == spec_toggle_proj_perms(*old(self), project_num as int),
    {
        if project_num == 0 || project_num > self.projects.len() {
            return ;
        }
        let alias = self.projects[project_num - 1].alias.clone();
        if self.active_tab == TAB_SKILLS {
            proof {
                lemma_flat_to_pos_props(
                    self.skills(),
                    self.cursors@[self.active_tab as int] as int,
                );
            }
            match self.current_skill_pos() {
                Some(SkillPos::Skill(si)) => {
                    if self.skill_rows[si].enabled {
                        let mut row = self.skill_rows.remove(si);
                        let m = row.mode;
                        let new_mode = toggle_mode_alias(m, alias.as_str());
                        let keep = new_mode.is_global();
                        let ghost mv = new_mode@;
                        row.mode = new_mode;
                        if !keep {
                            clear_script_flags(&mut row.scripts);
                        }
                        proof {
                            let s0 = old(self).skills()[si as int];
                            assert(row@.scripts =~= (if mv.is_global() {
                                s0.scripts
                            } else {
                                clear_scripts_view(s0.scripts)
                            }));
                            assert(row@ =~~= skill_with_mode(s0, mv));
                        }
                        self.skill_rows.insert(si, row);
                        proof {
                            assert(self.skills() =~~= spec_toggle_proj_skills(
                                *old(self),
                                project_num as int,
                            ));
                        }
                    }
                },
                _ => {},
            }
        } else if self.active_tab == TAB_MCP {
            let idx = self.cursor();
            if idx < self.mcp_rows.len() {
                if self.mcp_rows[idx].enabled {
                    let mut row = self.mcp_rows.remove(idx);
                    let m = row.mode;
                    row.mode = toggle_mode_alias(m, alias.as_str());
                    self.mcp_rows.insert(idx, row);
                    proof {
                        assert(self.mcps() =~~= spec_toggle_proj_mcps(
                            *old(self),
                            project_num as int,
                        ));
                    }
                }
            }
        } else if self.active_tab == TAB_PERMISSIONS {
            let idx = self.cursor();
            if idx < self.perm_rows.len() {
                if self.perm_rows[idx].enabled {
                    let mut row = self.perm_rows.remove(idx);
                    let m = row.mode;
                    row.mode = toggle_mode_alias(m, alias.as_str());
                    self.perm_rows.insert(idx, row);
                    proof {
                        assert(self.perms() =~~= spec_toggle_proj_perms(
                            *old(self),
                            project_num as int,
                        ));
                    }
                }
            }
        }
    }
}

/// Every enabled skill forced to one mode; scripts cleared when it is not
/// `Global`.
pub open spec fn spec_bulk_skills(ss: Seq<SkillView>, m: ModeView) -> Seq<SkillView> {
    Seq::new(
        ss.len(),
        |i: int|
            if ss[i].enabled {
                skill_with_mode(ss[i], m)
            } else {
                ss[i]
            },
    )
}

/// Every enabled row forced to one mode.
pub open spec fn spec_bulk_rows(rows: Seq<RowView>, m: ModeView) -> Seq<RowView> {
    Seq::new(
        rows.len(),
        |i: int|
            if rows[i].enabled {
                row_with_mode(rows[i], m)
            } else {
                rows[i]
            },
    )
}

impl App {
    /// Assign every enabled item in all four catalogs to the global
    /// destination. Script flags are kept: the skills stay in `Global`.
    pub fn all_global(&mut self)
        ensures
            *final(self) == (App {
                skill_rows: final(self).skill_rows,
                hook_rows: final(self).hook_rows,
                mcp_rows: final(self).mcp_rows,
                perm_rows: final(self).perm_rows,
                ..*old(self)
            }),
            final(self).skills() == spec_bulk_skills(old(self).skills(), ModeView::Global),
            final(self).hooks() == spec_bulk_rows(old(self).hooks(), ModeView::Global),
            final(self).mcps() == spec_bulk_rows(old(self).mcps(), ModeView::Global),
            final(self).perms() == spec_bulk_rows(old(self).perms(), ModeView::Global),
    {
        let n = self.skill_rows.len();
        let mut i: usize = 0;
        while i < n
            invariant
                n == self.skill_rows@.len(),
                n == old(self).skill_rows@.len(),
                i <= n,
                *self == (App { skill_rows: self.skill_rows, ..*old(self) }),
                forall|j: int|
                    0 <= j < i ==> (#[trigger] self.skill_rows@[j])@ == (if old(
                        self,
                    ).skills()[j].enabled {
                        skill_with_mode(old(self).skills()[j], ModeView::Global)
                    } else {
                        old(self).skills()[j]
                    }),
                forall|j: int| i <= j < n ==> self.skill_rows@[j] == old(self).skill_rows@[j],
            decreases n - i,
        {
            if self.skill_rows[i].enabled {
                self.skill_rows[i].mode = AssignedMode::Global;
                proof {
                    assert(self.skills()[i as int] =~~= skill_with_mode(
                        old(self).skills()[i as int],
                        ModeView::Global,
                    ));
                }
            }
            i = i + 1;
        }
        proof {
            assert(self.skills() =~~= spec_bulk_skills(old(self).skills(), ModeView::Global));
        }
        bulk_set_rows(&mut self.hook_rows, false);
        bulk_set_rows(&mut self.mcp_rows, false);
        bulk_set_rows(&mut self.perm_rows, false);
        proof {
            assert(self.hooks() =~~= spec_bulk_rows(old(self).hooks(), ModeView::Global));
            assert(self.mcps() =~~= spec_bulk_rows(old(self).mcps(), ModeView::Global));
            assert(self.perms() =~~= spec_bulk_rows(old(self).perms(), ModeView::Global));
        }
    }

    /// Assign every enabled item in all four catalogs to `Skip`; every
    /// script's PATH flag is lowered too.
    pub fn skip_all(&mut self)
        ensures
            *final(self) == (App {
                skill_rows: final(self).skill_rows,
                hook_rows: final(self).hook_rows,
                mcp_rows: final(self).mcp_rows,
                perm_rows: final(self).perm_rows,
                ..*old(self)
            }),
            final(self).skills() == spec_bulk_skills(old(self).skills(), ModeView::Skip),
            final(self).hooks() == spec_bulk_rows(old(self).hooks(), ModeView::Skip),
            final(self).mcps() == spec_bulk_rows(old(self).mcps(), ModeView::Skip),
            final(self).perms() == spec_bulk_rows(old(self).perms(), ModeView::Skip),
    {
        let n = self.skill_rows.len();
        let mut i: usize = 0;
        while i < n
            invariant
                n == self.skill_rows@.len(),
                n == old(self).skill_rows@.len(),
                i <= n,
                *self == (App { skill_rows: self.skill_rows, ..*old(self) }),
                forall|j: int|
                    0 <= j < i ==> (#[trigger] self.skill_rows@[j])@ == (if old(
                        self,
                    ).skills()[j].enabled {
                        skill_with_mode(old(self).skills()[j], ModeView::Skip)
                    } else {
                        old(self).skills()[j]
                    }),
                forall|j: int| i <= j < n ==> self.skill_rows@[j] == old(self).skill_rows@[j],
            decreases n - i,
        {
            if self.skill_rows[i].enabled {
                let mut row = self.skill_rows.remove(i);
                proof {
                    assert(row == old(self).skill_rows@[i as int]);
                }
                let ghost s0 = old(self).skills()[i as int];
                row.mode = AssignedMode::Skip;
                clear_script_flags(&mut row.scripts);
                proof {
                    assert(row.scripts@.len() == s0.scripts.len());
                    assert(forall|k: int|
                        0 <= k < row.scripts@.len() ==> (#[trigger] row.scripts@[k])@
                            == (ScriptView { name: s0.scripts[k].name, on_path: false }));
                    assert(row@.scripts =~= clear_scripts_view(s0.scripts));
                    assert(row@ =~~= skill_with_mode(s0, ModeView::Skip));
                }
                self.skill_rows.insert(i, row);
            }
            i = i + 1;
        }
        proof {
            assert(self.skills() =~~= spec_bulk_skills(old(self).skills(), ModeView::Skip));
        }
        bulk_set_rows(&mut self.hook_rows, true);
        bulk_set_rows(&mut self.mcp_rows, true);
        bulk_set_rows(&mut self.perm_rows, true);
        proof {
            assert(self.hooks() =~~= spec_bulk_rows(old(self).hooks(), ModeView::Skip));
            assert(self.mcps() =~~= spec_bulk_rows(old(self).mcps(), ModeView::Skip));
            assert(self.perms() =~~= spec_bulk_rows(old(self).perms(), ModeView::Skip));
        }
    }
}

/// Force every enabled row to `Skip` (when `to_skip`) or `Global`.
fn bulk_set_rows(rows: &mut Vec<SimpleRow>, to_skip: bool)
    ensures
        final(rows)@.len() == old(rows)@.len(),
        forall|j: int|
            0 <= j < old(rows)@.len() ==> (#[trigger] final(rows)@[j])@ == (if old(
                rows,
            )@[j]@.enabled {
                row_with_mode(
                    old(rows)@[j]@,
                    if to_skip {
                        ModeView::Skip
                    } else {
                        ModeView::Global
                    },
                )
            } else {
                old(rows)@[j]@
            }),
{
    let n = rows.len();
    let mut i: usize = 0;
    while i < n
        invariant
            n == rows@.len(),
            i <= n,
            forall|j: int|
                0 <= j < i ==> (#[trigger] rows@[j])@ == (if old(rows)@[j]@.enabled {
                    row_with_mode(
                        old(rows)@[j]@,
                        if to_skip {
                            ModeView::Skip
                        } else {
                            ModeView::Global
                        },
                    )
                } else {
                    old(rows)@[j]@
                }),
            forall|j: int| i <= j < n ==> rows@[j] == old(rows)@[j],
        decreases n - i,
    {
        if rows[i].enabled {
            rows[i].mode = if to_skip {
                AssignedMode::Skip
            } else {
                AssignedMode::Global
            };
        }
        i = i + 1;
    }
}

} // verus!

verus! {

// ---------------------------------------------------------------------------
// Project management
// ---------------------------------------------------------------------------

/// The aliases of a list of project entries, in order.
pub open spec fn entry_aliases(ps: Seq<ProjectEntry>) -> Seq<Seq<char>> {
    Seq::new(ps.len(), |i: int| ps[i]@.alias)
}

/// The paths of a list of project entries, in order.
pub open spec fn entry_paths(ps: Seq<ProjectEntry>) -> Seq<Seq<char>> {
    Seq::new(ps.len(), |i: int| ps[i]@.path)
}

/// Some live project already uses this alias.
fn alias_taken(projects: &Vec<ProjectEntry>, s: &str) -> (r: bool)
    ensures
        r == entry_aliases(projects@).contains(s@),
{
    let n = projects.len();
    let mut i: usize = 0;
    while i < n
        invariant
            n == projects@.len(),
            i <= n,
            forall|j: int| 0 <= j < i ==> entry_aliases(projects@)[j] != s@,
        decreases n - i,
    {
        if crate::strutil::str_eq(projects[i].alias.as_str(), s) {
            proof {
                assert(entry_aliases(projects@)[i as int] == s@);
            }
            return true;
        }
        i = i + 1;
    }
    false
}

/// Render the candidate alias `base-k`.
fn alias_candidate(base: &str, k: usize) -> (r: String)
    ensures
        r@ == crate::strutil::spec_alias_candidate(base@, k as nat),
{
    let mut r = base.to_owned();
    r.append("-");
    let num = crate::strutil::usize_to_string(k);
    r.append(num.as_str());
    r
}

/// Taking `n - 2` distinct candidates all from a list bounds `n`.
proof fn lemma_alias_pigeonhole(base: Seq<char>, aliases: Seq<Seq<char>>, hi: int)
    requires
        2 <= hi,
        forall|m: nat|
            2 <= m < hi ==> aliases.contains(crate::strutil::spec_alias_candidate(base, m)),
    ensures
        hi - 2 <= aliases.len(),
{
    let cands = Seq::new(
        (hi - 2) as nat,
        |i: int| crate::strutil::spec_alias_candidate(base, (i + 2) as nat),
    );
    assert(cands.no_duplicates()) by {
        assert forall|i: int, j: int| 0 <= i < j < cands.len() implies cands[i] != cands[j] by {
            if cands[i] == cands[j] {
                crate::strutil::lemma_alias_candidate_injective(base, (i + 2) as nat, (j + 2) as nat);
            }
        }
    }
    cands.unique_seq_to_set();
    aliases.lemma_cardinality_of_set();
    assert(cands.to_set().subset_of(aliases.to_set())) by {
        assert forall|x: Seq<char>| cands.to_set().contains(x) implies aliases.to_set().contains(
            x,
        ) by {
            let i = choose|i: int| 0 <= i < cands.len() && cands[i] == x;
            assert(aliases.contains(crate::strutil::spec_alias_candidate(base, (i + 2) as nat)));
        }
    }
    vstd::seq_lib::seq_to_set_is_finite(aliases);
    vstd::set_lib::lemma_len_subset(cands.to_set(), aliases.to_set());
}

/// A display alias not used by any live project: `base` itself when free,
/// else `base-k` for the smallest `k >= 2` that is free.
pub fn unique_alias(base: &str, projects: &Vec<ProjectEntry>) -> (r: String)
    requires
        projects@.len() + 3 <= usize::MAX,
    ensures
        !entry_aliases(projects@).contains(r@),
        !entry_aliases(projects@).contains(base@) ==> r@ == base@,
        entry_aliases(projects@).contains(base@) ==> (exists|k: nat|
            2 <= k && r@ == crate::strutil::spec_alias_candidate(base@, k) && (forall|m: nat|
                2 <= m < k ==> entry_aliases(projects@).contains(
                    #[trigger] crate::strutil::spec_alias_candidate(base@, m),
                ))),
    {
        if !alias_taken(projects, base) {
            return base.to_owned();
        }
        let plen = projects.len();
        let mut n: usize = 2;
        while n <= plen + 2
            invariant
                plen == projects@.len(),
                plen + 3 <= usize::MAX,
                entry_aliases(projects@).contains(base@),
                2 <= n <= plen + 3,
                forall|m: nat|
                    2 <= m < n ==> entry_aliases(projects@).contains(
                        #[trigger] crate::strutil::spec_alias_candidate(base@, m),
                    ),
            decreases plen + 3 - n,
        {
            let cand = alias_candidate(base, n);
            if !alias_taken(projects, cand.as_str()) {
                return cand;
            }
            n = n + 1;
        }
        proof {
            lemma_alias_pigeonhole(base@, entry_aliases(projects@), n as int);
            assert(false);
        }
        base.to_owned()
    }

} // verus!

verus! {

// ---------------------------------------------------------------------------
// Alias cascades
// ---------------------------------------------------------------------------

/// `s` with every occurrence of `x` removed.
pub open spec fn remove_all(s: Seq<Seq<char>>, x: Seq<char>) -> Seq<Seq<char>>
    decreases s.len(),
{
    if s.len() == 0 {
        Seq::empty()
    } else {
        let rest = remove_all(s.drop_last(), x);
        if s.last() == x {
            rest
        } else {
            rest.push(s.last())
        }
    }
}

/// A mode after one project's alias is deleted: the alias leaves every
/// `Project` list, and a list left empty collapses to `Skip`.
pub open spec fn spec_remove_alias_mode(m: ModeView, alias: Seq<char>) -> ModeView {
    match m {
        ModeView::Project(aliases) => {
            let f = remove_all(aliases, alias);
            if f.len() == 0 {
                ModeView::Skip
            } else {
                ModeView::Project(f)
            }
        },
        _ => m,
    }
}

/// A mode after a project is renamed: every occurrence of the old alias in a
/// `Project` list becomes the new one.
pub open spec fn spec_rename_alias_mode(m: ModeView, from: Seq<char>, to: Seq<char>) -> ModeView {
    match m {
        ModeView::Project(aliases) => ModeView::Project(
            Seq::new(
                aliases.len(),
                |i: int|
                    if aliases[i] == from {
                        to
                    } else {
                        aliases[i]
                    },
            ),
        ),
        _ => m,
    }
}

pub open spec fn spec_remove_alias_skills(ss: Seq<SkillView>, alias: Seq<char>) -> Seq<SkillView> {
    Seq::new(
        ss.len(),
        |i: int| skill_with_mode(ss[i], spec_remove_alias_mode(ss[i].mode, alias)),
    )
}

pub open spec fn spec_remove_alias_rows(rows: Seq<RowView>, alias: Seq<char>) -> Seq<RowView> {
    Seq::new(
        rows.len(),
        |i: int| row_with_mode(rows[i], spec_remove_alias_mode(rows[i].mode, alias)),
    )
}

pub open spec fn spec_rename_alias_skills(ss: Seq<SkillView>, from: Seq<char>, to: Seq<char>) -> Seq<
    SkillView,
> {
    Seq::new(
        ss.len(),
        |i: int|
            SkillView {
                name: ss[i].name,
                mode: spec_rename_alias_mode(ss[i].mode, from, to),
                enabled: ss[i].enabled,
                scope: ss[i].scope,
                scripts: ss[i].scripts,
            },
    )
}

pub open spec fn spec_rename_alias_rows(rows: Seq<RowView>, from: Seq<char>, to: Seq<char>) -> Seq<
    RowView,
> {
    Seq::new(rows.len(), |i: int| row_with_mode(rows[i], spec_rename_alias_mode(rows[i].mode, from, to)))
}

/// Remove one alias from a mode value.
fn mode_remove_alias(m: AssignedMode, alias: &str) -> (r: AssignedMode)
    ensures
        r@ == spec_remove_alias_mode(m@, alias@),
{
    match m {
        AssignedMode::Project(aliases) => {
            let ghost orig = aliases.deep_view();
            let mut kept: Vec<String> = Vec::new();
            let n = aliases.len();
            let mut i: usize = 0;
            while i < n
                invariant
                    n == aliases@.len(),
                    orig == aliases.deep_view(),
                    i <= n,
                    kept.deep_view() =~= remove_all(orig.take(i as int), alias@),
                decreases n - i,
            {
                proof {
                    assert(orig.take(i + 1).drop_last() =~= orig.take(i as int));
                    assert(orig.take(i + 1).last() == orig[i as int]);
                }
                if !crate::strutil::str_eq(aliases[i].as_str(), alias) {
                    let cl = aliases[i].clone();
                    kept.push(cl);
                    proof {
                        assert(kept.deep_view() =~= remove_all(orig.take(i + 1), alias@));
                    }
                }
                i = i + 1;
            }
            proof {
                assert(orig.take(n as int) =~= orig);
            }
            if kept.len() == 0 {
                AssignedMode::Skip
            } else {
                AssignedMode::Project(kept)
            }
        },
        _ => m,
    }
}

/// Replace one alias by another in a mode value.
fn mode_rename_alias(m: AssignedMode, from: &str, to: &str) -> (r: AssignedMode)
    ensures
        r@ == spec_rename_alias_mode(m@, from@, to@),
{
    match m {
        AssignedMode::Project(aliases) => {
            let ghost orig = aliases.deep_view();
            let mut out: Vec<String> = Vec::new();
            let n = aliases.len();
            let mut i: usize = 0;
            while i < n
                invariant
                    n == aliases@.len(),
                    orig == aliases.deep_view(),
                    i <= n,
                    out@.len() == i,
                    forall|j: int|
                        0 <= j < i ==> out.deep_view()[j] == (if orig[j] == from@ {
                            to@
                        } else {
                            orig[j]
                        }),
                decreases n - i,
            {
                if crate::strutil::str_eq(aliases[i].as_str(), from) {
                    out.push(to.to_owned());
                } else {
                    let cl = aliases[i].clone();
                    proof {
                        assert(cl@ == orig[i as int]);
                    }
                    out.push(cl);
                }
                i = i + 1;
            }
            proof {
                assert(out.deep_view() =~= Seq::new(
                    orig.len(),
                    |j: int|
                        if orig[j] == from@ {
                            to@
                        } else {
                            orig[j]
                        },
                ));
            }
            AssignedMode::Project(out)
        },
        _ => m,
    }
}

impl App {
    /// Delete one alias from every item's `Project` list; a skill whose mode
    /// is then not `Global` loses its script flags.
    fn remove_project_alias(&mut self, alias: &str)
        ensures
            *final(self) == (App {
                skill_rows: final(self).skill_rows,
                mcp_rows: final(self).mcp_rows,
                perm_rows: final(self).perm_rows,
                ..*old(self)
            }),
            final(self).skills() == spec_remove_alias_skills(old(self).skills(), alias@),
            final(self).mcps() == spec_remove_alias_rows(old(self).mcps(), alias@),
            final(self).perms() == spec_remove_alias_rows(old(self).perms(), alias@),
    {
        let n = self.skill_rows.len();
        let mut i: usize = 0;
        while i < n
            invariant
                n == self.skill_rows@.len(),
                n == old(self).skill_rows@.len(),
                i <= n,
                *self == (App { skill_rows: self.skill_rows, ..*old(self) }),
                forall|j: int|
                    0 <= j < i ==> (#[trigger] self.skill_rows@[j])@ == skill_with_mode(
                        old(self).skills()[j],
                        spec_remove_alias_mode(old(self).skills()[j].mode, alias@),
                    ),
                forall|j: int| i <= j < n ==> self.skill_rows@[j] == old(self).skill_rows@[j],
            decreases n - i,
        {
            let mut row = self.skill_rows.remove(i);
            proof {
                assert(row == old(self).skill_rows@[i as int]);
            }
            let ghost s0 = old(self).skills()[i as int];
            let m = row.mode;
            let new_mode = mode_remove_alias(m, alias);
            let keep = new_mode.is_global();
            let ghost mv = new_mode@;
            row.mode = new_mode;
            if !keep {
                clear_script_flags(&mut row.scripts);
            }
            proof {
                assert(row@.scripts =~= (if mv.is_global() {
                    s0.scripts
                } else {
                    clear_scripts_view(s0.scripts)
                }));
                assert(row@ =~~= skill_with_mode(s0, mv));
            }
            self.skill_rows.insert(i, row);
            i = i + 1;
        }
        proof {
            assert(self.skills() =~~= spec_remove_alias_skills(old(self).skills(), alias@));
        }
        remove_alias_rows(&mut self.mcp_rows, alias);
        remove_alias_rows(&mut self.perm_rows, alias);
        proof {
            assert(self.mcps() =~~= spec_remove_alias_rows(old(self).mcps(), alias@));
            assert(self.perms() =~~= spec_remove_alias_rows(old(self).perms(), alias@));
        }
    }

    /// Rewrite one alias to another in every item's `Project` list.
    fn rename_project_alias(&mut self, from: &str, to: &str)
        ensures
            *final(self) == (App {
                skill_rows: final(self).skill_rows,
                mcp_rows: final(self).mcp_rows,
                perm_rows: final(self).perm_rows,
                ..*old(self)
            }),
            final(self).skills() == spec_rename_alias_skills(old(self).skills(), from@, to@),
            final(self).mcps() == spec_rename_alias_rows(old(self).mcps(), from@, to@),
            final(self).perms() == spec_rename_alias_rows(old(self).perms(), from@, to@),
    {
        let n = self.skill_rows.len();
        let mut i: usize = 0;
        while i < n
            invariant
                n == self.skill_rows@.len(),
                n == old(self).skill_rows@.len(),
                i <= n,
                *self == (App { skill_rows: self.skill_rows, ..*old(self) }),
                forall|j: int|
                    0 <= j < i ==> (#[trigger] self.skill_rows@[j])@ == (SkillView {
                        name: old(self).skills()[j].name,
                        mode: spec_rename_alias_mode(old(self).skills()[j].mode, from@, to@),
                        enabled: old(self).skills()[j].enabled,
                        scope: old(self).skills()[j].scope,
                        scripts: old(self).skills()[j].scripts,
                    }),
                forall|j: int| i <= j < n ==> self.skill_rows@[j] == old(self).skill_rows@[j],
            decreases n - i,
        {
            let mut row = self.skill_rows.remove(i);
            proof {
                assert(row == old(self).skill_rows@[i as int]);
            }
            let m = row.mode;
            row.mode = mode_rename_alias(m, from, to);
            proof {
                assert(row@ =~~= (SkillView {
                    name: old(self).skills()[i as int].name,
                    mode: spec_rename_alias_mode(old(self).skills()[i as int].mode, from@, to@),
                    enabled: old(self).skills()[i as int].enabled,
                    scope: old(self).skills()[i as int].scope,
                    scripts: old(self).skills()[i as int].scripts,
                }));
            }
            self.skill_rows.insert(i, row);
            i = i + 1;
        }
        proof {
            assert(self.skills() =~~= spec_rename_alias_skills(old(self).skills(), from@, to@));
        }
        rename_alias_rows(&mut self.mcp_rows, from, to);
        rename_alias_rows(&mut self.perm_rows, from, to);
        proof {
            assert(self.mcps() =~~= spec_rename_alias_rows(old(self).mcps(), from@, to@));
            assert(self.perms() =~~= spec_rename_alias_rows(old(self).perms(), from@, to@));
        }
    }
}

/// Delete an alias from every row of one list.
fn remove_alias_rows(rows: &mut Vec<SimpleRow>, alias: &str)
    ensures
        final(rows)@.len() == old(rows)@.len(),
        forall|j: int|
            0 <= j < old(rows)@.len() ==> (#[trigger] final(rows)@[j])@ == row_with_mode(
                old(rows)@[j]@,
                spec_remove_alias_mode(old(rows)@[j]@.mode, alias@),
            ),
{
    let n = rows.len();
    let mut i: usize = 0;
    while i < n
        invariant
            n == rows@.len(),
            n == old(rows)@.len(),
            i <= n,
            forall|j: int|
                0 <= j < i ==> (#[trigger] rows@[j])@ == row_with_mode(
                    old(rows)@[j]@,
                    spec_remove_alias_mode(old(rows)@[j]@.mode, alias@),
                ),
            forall|j: int| i <= j < n ==> rows@[j] == old(rows)@[j],
        decreases n - i,
    {
        let mut row = rows.remove(i);
        let m = row.mode;
        row.mode = mode_remove_alias(m, alias);
        rows.insert(i, row);
        i = i + 1;
    }
}

/// Rewrite an alias in every row of one list.
fn rename_alias_rows(rows: &mut Vec<SimpleRow>, from: &str, to: &str)
    ensures
        final(rows)@.len() == old(rows)@.len(),
        forall|j: int|
            0 <= j < old(rows)@.len() ==> (#[trigger] final(rows)@[j])@ == row_with_mode(
                old(rows)@[j]@,
                spec_rename_alias_mode(old(rows)@[j]@.mode, from@, to@),
            ),
{
    let n = rows.len();
    let mut i: usize = 0;
    while i < n
        invariant
            n == rows@.len(),
            n == old(rows)@.len(),
            i <= n,
            forall|j: int|
                0 <= j < i ==> (#[trigger] rows@[j])@ == row_with_mode(
                    old(rows)@[j]@,
                    spec_rename_alias_mode(old(rows)@[j]@.mode, from@, to@),
                ),
            forall|j: int| i <= j < n ==> rows@[j] == old(rows)@[j],
        decreases n - i,
    {
        let mut row = rows.remove(i);
        let m = row.mode;
        row.mode = mode_rename_alias(m, from, to);
        rows.insert(i, row);
        i = i + 1;
    }
}

} // verus!

verus! {

// ---------------------------------------------------------------------------
// Adding, renaming and deleting projects
// ---------------------------------------------------------------------------

/// The final path component of a canonical path; `project` when there is
/// none, as for the filesystem root.
pub open spec fn spec_basename(p: Seq<char>) -> Seq<char> {
    let i = crate::strutil::last_index_of_char(p, '/');
    let tail = if i >= 0 {
        p.skip(i + 1)
    } else {
        p
    };
    if tail.len() == 0 {
        "project"@
    } else {
        tail
    }
}

/// The final path component, the default display alias of a project.
pub fn basename(p: &str) -> (r: String)
    ensures
        r@ == spec_basename(p@),
{
    let len = p.unicode_len();
    match crate::strutil::find_last_char(p, '/') {
        Some(i) => {
            let tail = p.substring_char(i + 1, len);
            proof {
                assert(tail@ =~= p@.skip(i + 1));
            }
            if tail.is_empty() {
                "project".to_owned()
            } else {
                tail.to_owned()
            }
        },
        None => {
            if p.is_empty() {
                "project".to_owned()
            } else {
                p.to_owned()
            }
        },
    }
}

/// First project index using `alias`, or `-1`.
pub open spec fn proj_alias_index(ps: Seq<ProjectView>, alias: Seq<char>) -> int
    decreases ps.len(),
{
    if ps.len() == 0 {
        -1
    } else if ps[0].alias == alias {
        0
    } else {
        let r = proj_alias_index(ps.skip(1), alias);
        if r < 0 {
            -1
        } else {
            r + 1
        }
    }
}

pub proof fn lemma_proj_alias_index(ps: Seq<ProjectView>, alias: Seq<char>)
    ensures
        proj_alias_index(ps, alias) == -1 ==> forall|i: int|
            0 <= i < ps.len() ==> ps[i].alias != alias,
        proj_alias_index(ps, alias) != -1 ==> {
            let r = proj_alias_index(ps, alias);
            &&& 0 <= r < ps.len()
            &&& ps[r].alias == alias
            &&& forall|i: int| 0 <= i < r ==> ps[i].alias != alias
        },
    decreases ps.len(),
{
    if ps.len() > 0 && ps[0].alias != alias {
        lemma_proj_alias_index(ps.skip(1), alias);
        assert(forall|i: int| 1 <= i < ps.len() ==> ps[i] == ps.skip(1)[i - 1]);
    }
}

proof fn lemma_proj_alias_index_unique(ps: Seq<ProjectView>, alias: Seq<char>, i: int)
    requires
        0 <= i < ps.len(),
        ps[i].alias == alias,
        forall|j: int| 0 <= j < i ==> ps[j].alias != alias,
    ensures
        proj_alias_index(ps, alias) == i,
    decreases i,
{
    if i > 0 {
        lemma_proj_alias_index_unique(ps.skip(1), alias, i - 1);
    }
}

impl App {
    /// Enter project-path input mode with an empty buffer.
    pub fn start_add_project(&mut self)
        ensures
            *final(self) == (App {
                input_mode: InputMode::AddProject,
                project_input: final(self).project_input,
                ..*old(self)
            }),
            final(self).project_input@ == Seq::<char>::empty(),
    {
        self.input_mode = InputMode::AddProject;
        self.project_input = String::new();
        proof {
            assert(self.project_input@ =~= Seq::<char>::empty());
        }
    }

    /// Leave project-path input mode, discarding the buffer.
    pub fn cancel_add_project(&mut self)
        ensures
            *final(self) == (App {
                input_mode: InputMode::Normal,
                project_input: final(self).project_input,
                ..*old(self)
            }),
            final(self).project_input@ == Seq::<char>::empty(),
    {
        self.input_mode = InputMode::Normal;
        self.project_input = String::new();
        proof {
            assert(self.project_input@ =~= Seq::<char>::empty());
        }
    }

    /// Register the project the input buffer named; `resolved` is its
    /// canonical path, or nothing when the path is not a directory. A path
    /// that is not a directory changes nothing; one already registered only
    /// closes the prompt; otherwise the project is appended under a fresh
    /// alias derived from the path's final component, disambiguated with
    /// `-2`, `-3`, ... on collision.
    pub fn confirm_add_project(&mut self, resolved: Option<String>) -> (r: bool)
        requires
            old(self).projects@.len() + 3 <= usize::MAX,
        ensures
            r <==> (resolved is Some && !entry_paths(old(self).projects@).contains(resolved->0@)),
            resolved is None ==> *final(self) == *old(self),
            (resolved is Some && entry_paths(old(self).projects@).contains(resolved->0@))
                ==> *final(self) == (App {
                input_mode: InputMode::Normal,
                project_input: final(self).project_input,
                ..*old(self)
            }) && final(self).project_input@ == Seq::<char>::empty(),
            r ==> {
                &&& *final(self) == (App {
                    projects: final(self).projects,
                    input_mode: InputMode::Normal,
                    project_input: final(self).project_input,
                    ..*old(self)
                })
                &&& final(self).project_input@ == Seq::<char>::empty()
                &&& final(self).projects@.len() == old(self).projects@.len() + 1
                &&& forall|j: int|
                    0 <= j < old(self).projects@.len() ==> final(self).projects@[j] == old(
                        self,
                    ).projects@[j]
                &&& final(self).projects@.last()@.path == resolved->0@
                &&& !entry_aliases(old(self).projects@).contains(
                    final(self).projects@.last()@.alias,
                )
                &&& (!entry_aliases(old(self).projects@).contains(spec_basename(resolved->0@))
                    ==> final(self).projects@.last()@.alias == spec_basename(resolved->0@))
                &&& (entry_aliases(old(self).projects@).contains(spec_basename(resolved->0@))
                    ==> (exists|k: nat|
                    2 <= k && final(self).projects@.last()@.alias
                        == crate::strutil::spec_alias_candidate(spec_basename(resolved->0@), k) && (
                    forall|m: nat|
                        2 <= m < k ==> entry_aliases(old(self).projects@).contains(
                            #[trigger] crate::strutil::spec_alias_candidate(
                                spec_basename(resolved->0@),
                                m,
                            ),
                        ))))
            },
    {
        match resolved {
            Some(canonical) => {
                let n = self.projects.len();
                let mut i: usize = 0;
                while i < n
                    invariant
                        *self == *old(self),
                        resolved == Some(canonical),
                        n == self.projects@.len(),
                        i <= n,
                        forall|j: int| 0 <= j < i ==> entry_paths(self.projects@)[j] != canonical@,
                    decreases n - i,
                {
                    if crate::strutil::str_eq(self.projects[i].path.as_str(), canonical.as_str()) {
                        proof {
                            assert(entry_paths(self.projects@)[i as int] == canonical@);
                        }
                        self.input_mode = InputMode::Normal;
                        self.project_input = String::new();
                        proof {
                            assert(self.project_input@ =~= Seq::<char>::empty());
                        }
                        return false;
                    }
                    i = i + 1;
                }
                let base = basename(canonical.as_str());
                let alias = unique_alias(base.as_str(), &self.projects);
                self.projects.push(ProjectEntry { path: canonical, alias: alias });
                self.input_mode = InputMode::Normal;
                self.project_input = String::new();
                proof {
                    assert(self.project_input@ =~= Seq::<char>::empty());
                }
                true
            },
            None => false,
        }
    }

    /// Open the alias editor for the selected project, seeding the buffer
    /// with the current alias; only meaningful on the Projects tab.
    pub fn start_edit_alias(&mut self)
        requires
            old(self).tabs_wf(),
        ensures
            old(self).active_tab != TAB_PROJECTS ==> *final(self) == *old(self),
            old(self).active_tab == TAB_PROJECTS ==> {
                let idx = old(self).cursors@[TAB_PROJECTS as int] as int;
                if idx < old(self).projs().len() {
                    *final(self) == (App {
                        input_mode: InputMode::EditAlias,
                        alias_input: final(self).alias_input,
                        ..*old(self)
                    }) && final(self).alias_input@ == old(self).projs()[idx].alias
                } else {
                    *final(self) == *old(self)
                }
            },
    {
        if self.active_tab != TAB_PROJECTS {
            return ;
        }
        let idx = self.cursor();
        if idx < self.projects.len() {
            self.alias_input = self.projects[idx].alias.clone();
            self.input_mode = InputMode::EditAlias;
        }
    }

    /// Leave the alias editor, discarding the buffer.
    pub fn cancel_edit_alias(&mut self)
        ensures
            *final(self) == (App {
                input_mode: InputMode::Normal,
                alias_input: final(self).alias_input,
                ..*old(self)
            }),
            final(self).alias_input@ == Seq::<char>::empty(),
    {
        self.input_mode = InputMode::Normal;
        self.alias_input = String::new();
        proof {
            assert(self.alias_input@ =~= Seq::<char>::empty());
        }
    }

    /// Resolve an alias to its project's path.
    pub fn project_path_for_alias(&self, alias: &str) -> (r: Option<String>)
        ensures
            r is Some <==> proj_alias_index(self.projs(), alias@) >= 0,
            r is Some ==> r->0@ == self.projs()[proj_alias_index(self.projs(), alias@)].path,
    {
        proof {
            lemma_proj_alias_index(self.projs(), alias@);
        }
        let n = self.projects.len();
        let mut i: usize = 0;
        while i < n
            invariant
                n == self.projects@.len(),
                i <= n,
                forall|j: int| 0 <= j < i ==> self.projs()[j].alias != alias@,
            decreases n - i,
        {
            if crate::strutil::str_eq(self.projects[i].alias.as_str(), alias) {
                proof {
                    lemma_proj_alias_index_unique(self.projs(), alias@, i as int);
                }
                return Some(self.projects[i].path.clone());
            }
            i = i + 1;
        }
        proof {
            lemma_proj_alias_index(self.projs(), alias@);
        }
        None
    }
}

} // verus!

verus! {

impl App {
    /// Commit the alias editor. An empty trimmed buffer or a collision with
    /// another live alias is rejected and keeps the editor open; otherwise the
    /// selected project takes the new alias and every item's list follows.
    pub fn confirm_edit_alias(&mut self) -> (r: bool)
        requires
            old(self).tabs_wf(),
        ensures
            ({
                let t = crate::strutil::spec_trim(old(self).alias_input@);
                let idx = old(self).cursors@[old(self).active_tab as int] as int;
                let collision = exists|j: int|
                    0 <= j < old(self).projs().len() && j != idx && old(self).projs()[j].alias
                        == t;
                &&& (r <==> (t.len() > 0 && !collision))
                &&& (t.len() == 0 ==> *final(self) == *old(self))
                &&& ((t.len() > 0 && collision) ==> *final(self) == *old(self))
                &&& ((r && idx >= old(self).projs().len()) ==> *final(self) == (App {
                    input_mode: InputMode::Normal,
                    alias_input: final(self).alias_input,
                    ..*old(self)
                }) && final(self).alias_input@ == Seq::<char>::empty())
                &&& ((r && idx < old(self).projs().len()) ==> {
                    let from = old(self).projs()[idx].alias;
                    &&& *final(self) == (App {
                        projects: final(self).projects,
                        skill_rows: final(self).skill_rows,
                        mcp_rows: final(self).mcp_rows,
                        perm_rows: final(self).perm_rows,
                        input_mode: InputMode::Normal,
                        alias_input: final(self).alias_input,
                        ..*old(self)
                    })
                    &&& final(self).alias_input@ == Seq::<char>::empty()
                    &&& final(self).projs() == old(self).projs().update(
                        idx,
                        ProjectView { path: old(self).projs()[idx].path, alias: t },
                    )
                    &&& final(self).skills() == spec_rename_alias_skills(
                        old(self).skills(),
                        from,
                        t,
                    )
                    &&& final(self).mcps() == spec_rename_alias_rows(old(self).mcps(), from, t)
                    &&& final(self).perms() == spec_rename_alias_rows(old(self).perms(), from, t)
                })
            }),
    {
        let idx = self.cursor();
        let trimmed = crate::strutil::str_trim(self.alias_input.as_str()).to_owned();
        if trimmed.as_str().is_empty() {
            return false;
        }
        let n = self.projects.len();
        let mut j: usize = 0;
        while j < n
            invariant
                *self == *old(self),
                n == self.projects@.len(),
                j <= n,
                idx == old(self).cursors@[old(self).active_tab as int],
                trimmed@ == crate::strutil::spec_trim(old(self).alias_input@),
                forall|k: int| 0 <= k < j && k != idx ==> self.projs()[k].alias != trimmed@,
            decreases n - j,
        {
            if j != idx && crate::strutil::str_eq(self.projects[j].alias.as_str(), trimmed.as_str()) {
                proof {
                    assert(self.projs()[j as int].alias == trimmed@);
                }
                return false;
            }
            j = j + 1;
        }
        if idx < self.projects.len() {
            let mut entry = self.projects.remove(idx);
            let old_alias = entry.alias;
            entry.alias = trimmed.clone();
            self.projects.insert(idx, entry);
            proof {
                assert(self.projs() =~~= old(self).projs().update(
                    idx as int,
                    ProjectView {
                        path: old(self).projs()[idx as int].path,
                        alias: crate::strutil::spec_trim(old(self).alias_input@),
                    },
                ));
            }
            self.rename_project_alias(old_alias.as_str(), trimmed.as_str());
        }
        self.input_mode = InputMode::Normal;
        self.alias_input = String::new();
        proof {
            assert(self.alias_input@ =~= Seq::<char>::empty());
        }
        true
    }

    /// Delete the selected project; its alias leaves every item's list (an
    /// emptied list collapses to `Skip`), and the cursor is clamped to the
    /// shortened list. Only meaningful on the Projects tab.
    pub fn delete_project(&mut self)
        requires
            old(self).tabs_wf(),
        ensures
            ({
                let idx = old(self).cursors@[TAB_PROJECTS as int] as int;
                if old(self).active_tab != TAB_PROJECTS || idx >= old(self).projs().len() {
                    *final(self) == *old(self)
                } else {
                    let alias = old(self).projs()[idx].alias;
                    &&& *final(self) == (App {
                        projects: final(self).projects,
                        skill_rows: final(self).skill_rows,
                        mcp_rows: final(self).mcp_rows,
                        perm_rows: final(self).perm_rows,
                        cursors: final(self).cursors,
                        ..*old(self)
                    })
                    &&& final(self).projs() == old(self).projs().remove(idx)
                    &&& final(self).skills() == spec_remove_alias_skills(old(self).skills(), alias)
                    &&& final(self).mcps() == spec_remove_alias_rows(old(self).mcps(), alias)
                    &&& final(self).perms() == spec_remove_alias_rows(old(self).perms(), alias)
                    &&& final(self).cursors@ == (if final(self).projects@.len() > 0 && idx
                        >= final(self).projects@.len() {
                        old(self).cursors@.update(
                            TAB_PROJECTS as int,
                            (final(self).projects@.len() - 1) as usize,
                        )
                    } else {
                        old(self).cursors@
                    })
                }
            }),
    {
        if self.active_tab != TAB_PROJECTS {
            return ;
        }
        let idx = self.cursor();
        if idx >= self.projects.len() {
            return ;
        }
        let removed = self.projects.remove(idx);
        let alias = removed.alias;
        proof {
            assert(self.projs() =~~= old(self).projs().remove(idx as int));
        }
        self.remove_project_alias(alias.as_str());
        if !self.projects.is_empty() && self.cursor() >= self.projects.len() {
            let len = self.projects.len();
            self.set_cursor(len - 1);
        }
    }
}

} // verus!

verus! {

// ---------------------------------------------------------------------------
// Deploy-session transitions and log scrolling
// ---------------------------------------------------------------------------

impl App {
    /// Open a deploy session in preview mode over a freshly built plan.
    pub fn start_dry_run(&mut self, plan: DeployPlan)
        ensures
            *final(self) == (App {
                input_mode: InputMode::DryRunning,
                deploy_output: final(self).deploy_output,
                deploy_results: final(self).deploy_results,
                deploy_plan: final(self).deploy_plan,
                scroll_offset: 0,
                ..*old(self)
            }),
            final(self).deploy_output@ == Seq::<String>::empty(),
            final(self).deploy_results@ == Seq::<crate::results::AggView>::empty(),
            final(self).deploy_plan == Some(plan),
    {
        self.input_mode = InputMode::DryRunning;
        self.deploy_output = Vec::new();
        self.deploy_results.clear();
        self.deploy_plan = Some(plan);
        self.scroll_offset = 0;
        proof {
            assert(self.deploy_output@ =~= Seq::<String>::empty());
        }
    }

    /// The preview is on screen; wait for the user to confirm or cancel.
    pub fn finish_dry_run(&mut self)
        ensures
            *final(self) == (App {
                input_mode: InputMode::Confirming,
                scroll_offset: 0,
                ..*old(self)
            }),
    {
        self.input_mode = InputMode::Confirming;
        self.scroll_offset = 0;
    }

    /// The user confirmed: clear the log and aggregator for the real passes.
    pub fn start_deploy(&mut self)
        ensures
            *final(self) == (App {
                input_mode: InputMode::Deploying,
                deploy_output: final(self).deploy_output,
                deploy_results: final(self).deploy_results,
                scroll_offset: 0,
                ..*old(self)
            }),
            final(self).deploy_output@ == Seq::<String>::empty(),
            final(self).deploy_results@ == Seq::<crate::results::AggView>::empty(),
    {
        self.input_mode = InputMode::Deploying;
        self.deploy_output = Vec::new();
        self.deploy_results.clear();
        self.scroll_offset = 0;
        proof {
            assert(self.deploy_output@ =~= Seq::<String>::empty());
        }
    }

    /// All passes ran to completion.
    pub fn finish_deploy(&mut self)
        ensures
            *final(self) == (App { input_mode: InputMode::Done, ..*old(self) }),
    {
        self.input_mode = InputMode::Done;
    }

    /// Abandon the session before execution: back to editing, the unexecuted
    /// plan discarded.
    pub fn cancel_deploy(&mut self)
        ensures
            *final(self) == (App {
                input_mode: InputMode::Normal,
                deploy_output: final(self).deploy_output,
                deploy_results: final(self).deploy_results,
                deploy_plan: None,
                scroll_offset: 0,
                ..*old(self)
            }),
            final(self).deploy_output@ == Seq::<String>::empty(),
            final(self).deploy_results@ == Seq::<crate::results::AggView>::empty(),
    {
        self.input_mode = InputMode::Normal;
        self.deploy_output = Vec::new();
        self.deploy_results.clear();
        self.deploy_plan = None;
        self.scroll_offset = 0;
        proof {
            assert(self.deploy_output@ =~= Seq::<String>::empty());
        }
    }

    /// Scroll `n` lines towards the top of the log; the offset counts from
    /// the bottom and saturates at the last line.
    pub fn scroll_up(&mut self, n: usize)
        requires
            old(self).scroll_offset + n <= usize::MAX,
        ensures
            *final(self) == (App { scroll_offset: final(self).scroll_offset, ..*old(self) }),
            final(self).scroll_offset == (if old(self).scroll_offset + n
                > old(self).deploy_output@.len() - 1 {
                if old(self).deploy_output@.len() == 0 {
                    0int
                } else {
                    old(self).deploy_output@.len() - 1
                }
            } else {
                old(self).scroll_offset + n
            }),
    {
        let max_offset = if self.deploy_output.len() == 0 {
            0
        } else {
            self.deploy_output.len() - 1
        };
        let s = self.scroll_offset + n;
        self.scroll_offset = if s > max_offset {
            max_offset
        } else {
            s
        };
    }

    /// Scroll `n` lines towards the bottom; the offset saturates at zero.
    pub fn scroll_down(&mut self, n: usize)
        ensures
            *final(self) == (App { scroll_offset: final(self).scroll_offset, ..*old(self) }),
            final(self).scroll_offset == (if old(self).scroll_offset >= n {
                old(self).scroll_offset - n
            } else {
                0int
            }),
    {
        self.scroll_offset = if self.scroll_offset >= n {
            self.scroll_offset - n
        } else {
            0
        };
    }

    /// Jump to the top of the log.
    pub fn scroll_to_top(&mut self)
        ensures
            *final(self) == (App { scroll_offset: final(self).scroll_offset, ..*old(self) }),
            final(self).scroll_offset == (if old(self).deploy_output@.len() == 0 {
                0int
            } else {
                old(self).deploy_output@.len() - 1
            }),
    {
        self.scroll_offset = if self.deploy_output.len() == 0 {
            0
        } else {
            self.deploy_output.len() - 1
        };
    }

    /// Jump to the bottom of the log.
    pub fn scroll_to_bottom(&mut self)
        ensures
            *final(self) == (App { scroll_offset: 0, ..*old(self) }),
    {
        self.scroll_offset = 0;
    }

    /// Nothing at all would be deployed by the current plan.
    pub fn plan_is_empty(&self) -> (r: bool)
        ensures
            r == (match self.deploy_plan {
                Some(plan) => plan@.global_items.len() == 0 && plan@.project_items.len() == 0,
                None => true,
            }),
    {
        match &self.deploy_plan {
            Some(plan) => plan.global_items.is_empty() && plan.project_items.is_empty(),
            None => true,
        }
    }
}

} // verus!

verus! {

// ---------------------------------------------------------------------------
// The deletion-cascade law
// ---------------------------------------------------------------------------

proof fn lemma_remove_all_not_contains(s: Seq<Seq<char>>, x: Seq<char>)
    ensures
        !remove_all(s, x).contains(x),
    decreases s.len(),
{
    if s.len() > 0 {
        lemma_remove_all_not_contains(s.drop_last(), x);
        let rest = remove_all(s.drop_last(), x);
        if s.last() != x {
            if rest.push(s.last()).contains(x) {
                let k = choose|k: int|
                    0 <= k < rest.push(s.last()).len() && rest.push(s.last())[k] == x;
                if k < rest.len() {
                    assert(rest[k] == x);
                }
            }
        }
    }
}

/// Deleting a project's alias removes it from a mode entirely: the result
/// never lists it, and a `Project` list left empty collapses to `Skip` (and
/// only then does the variant change).
pub proof fn lemma_remove_alias_cascade(m: ModeView, alias: Seq<char>)
    ensures
        !spec_remove_alias_mode(m, alias).aliases().contains(alias),
        spec_remove_alias_mode(m, alias) is Project ==> spec_remove_alias_mode(
            m,
            alias,
        ).aliases().len() > 0,
        (m is Project && remove_all(m.aliases(), alias).len() == 0) ==> spec_remove_alias_mode(
            m,
            alias,
        ) is Skip,
        !(m is Project) ==> spec_remove_alias_mode(m, alias) == m,
{
    match m {
        ModeView::Project(aliases) => {
            lemma_remove_all_not_contains(aliases, alias);
        },
        _ => {
            assert(spec_remove_alias_mode(m, alias).aliases() =~= Seq::<Seq<char>>::empty());
        },
    }
}

/// The deletion cascade over whole catalogs: after a project is deleted, no
/// item in any catalog lists its alias any more, and every item whose list
/// emptied reports `Skip`.
pub proof fn lemma_delete_project_cascade(a: App, alias: Seq<char>)
    ensures
        forall|i: int|
            0 <= i < a.skills().len() ==> !(#[trigger] spec_remove_alias_skills(
                a.skills(),
                alias,
            )[i]).mode.aliases().contains(alias),
        forall|i: int|
            0 <= i < a.skills().len() ==> ((#[trigger] spec_remove_alias_skills(
                a.skills(),
                alias,
            )[i]).mode is Project ==> spec_remove_alias_skills(
                a.skills(),
                alias,
            )[i].mode.aliases().len() > 0),
        forall|i: int|
            0 <= i < a.mcps().len() ==> !(#[trigger] spec_remove_alias_rows(
                a.mcps(),
                alias,
            )[i]).mode.aliases().contains(alias),
        forall|i: int|
            0 <= i < a.mcps().len() ==> ((#[trigger] spec_remove_alias_rows(
                a.mcps(),
                alias,
            )[i]).mode is Project ==> spec_remove_alias_rows(
                a.mcps(),
                alias,
            )[i].mode.aliases().len() > 0),
        forall|i: int|
            0 <= i < a.perms().len() ==> !(#[trigger] spec_remove_alias_rows(
                a.perms(),
                alias,
            )[i]).mode.aliases().contains(alias),
        forall|i: int|
            0 <= i < a.perms().len() ==> ((#[trigger] spec_remove_alias_rows(
                a.perms(),
                alias,
            )[i]).mode is Project ==> spec_remove_alias_rows(
                a.perms(),
                alias,
            )[i].mode.aliases().len() > 0),
{
    assert forall|i: int| 0 <= i < a.skills().len() implies !(#[trigger] spec_remove_alias_skills(
        a.skills(),
        alias,
    )[i]).mode.aliases().contains(alias) && (spec_remove_alias_skills(
        a.skills(),
        alias,
    )[i].mode is Project ==> spec_remove_alias_skills(a.skills(), alias)[i].mode.aliases().len()
        > 0) by {
        lemma_remove_alias_cascade(a.skills()[i].mode, alias);
    }
    assert forall|i: int| 0 <= i < a.mcps().len() implies !(#[trigger] spec_remove_alias_rows(
        a.mcps(),
        alias,
    )[i]).mode.aliases().contains(alias) && (spec_remove_alias_rows(
        a.mcps(),
        alias,
    )[i].mode is Project ==> spec_remove_alias_rows(a.mcps(), alias)[i].mode.aliases().len()
        > 0) by {
        lemma_remove_alias_cascade(a.mcps()[i].mode, alias);
    }
    assert forall|i: int| 0 <= i < a.perms().len() implies !(#[trigger] spec_remove_alias_rows(
        a.perms(),
        alias,
    )[i]).mode.aliases().contains(alias) && (spec_remove_alias_rows(
        a.perms(),
        alias,
    )[i].mode is Project ==> spec_remove_alias_rows(a.perms(), alias)[i].mode.aliases().len()
        > 0) by {
        lemma_remove_alias_cascade(a.perms()[i].mode, alias);
    }
}

} // verus!

verus! {

// ---------------------------------------------------------------------------
// Mode counts for the header summary
// ---------------------------------------------------------------------------

/// Badges of the enabled skills, in catalog order.
pub open spec fn enabled_badges_skills(ss: Seq<SkillView>) -> Seq<Seq<char>>
    decreases ss.len(),
{
    if ss.len() == 0 {
        Seq::empty()
    } else {
        let rest = enabled_badges_skills(ss.drop_last());
        if ss.last().enabled {
            rest.push(crate::modes::spec_badge(ss.last().mode))
        } else {
            rest
        }
    }
}

/// Badges of the enabled plain rows, in catalog order.
pub open spec fn enabled_badges_rows(rows: Seq<RowView>) -> Seq<Seq<char>>
    decreases rows.len(),
{
    if rows.len() == 0 {
        Seq::empty()
    } else {
        let rest = enabled_badges_rows(rows.drop_last());
        if rows.last().enabled {
            rest.push(crate::modes::spec_badge(rows.last().mode))
        } else {
            rest
        }
    }
}

/// Every enabled item's badge across the four catalogs, in order.
pub open spec fn spec_enabled_badges(a: App) -> Seq<Seq<char>> {
    enabled_badges_skills(a.skills()) + enabled_badges_rows(a.hooks()) + enabled_badges_rows(
        a.mcps(),
    ) + enabled_badges_rows(a.perms())
}

/// First index of a label among counted pairs, or `-1`.
pub open spec fn label_index(cs: Seq<(Seq<char>, nat)>, label: Seq<char>) -> int
    decreases cs.len(),
{
    if cs.len() == 0 {
        -1
    } else if cs[0].0 == label {
        0
    } else {
        let r = label_index(cs.skip(1), label);
        if r < 0 {
            -1
        } else {
            r + 1
        }
    }
}

proof fn lemma_label_index(cs: Seq<(Seq<char>, nat)>, label: Seq<char>)
    ensures
        label_index(cs, label) == -1 ==> forall|i: int| 0 <= i < cs.len() ==> cs[i].0 != label,
        label_index(cs, label) != -1 ==> {
            let r = label_index(cs, label);
            &&& 0 <= r < cs.len()
            &&& cs[r].0 == label
            &&& forall|i: int| 0 <= i < r ==> cs[i].0 != label
        },
    decreases cs.len(),
{
    if cs.len() > 0 && cs[0].0 != label {
        lemma_label_index(cs.skip(1), label);
        assert(forall|i: int| 1 <= i < cs.len() ==> cs[i] == cs.skip(1)[i - 1]);
    }
}

proof fn lemma_label_index_unique(cs: Seq<(Seq<char>, nat)>, label: Seq<char>, i: int)
    requires
        0 <= i < cs.len(),
        cs[i].0 == label,
        forall|j: int| 0 <= j < i ==> cs[j].0 != label,
    ensures
        label_index(cs, label) == i,
    decreases i,
{
    if i > 0 {
        lemma_label_index_unique(cs.skip(1), label, i - 1);
    }
}

/// Tally one label: bump its count when seen before, else open a new pair.
pub open spec fn bump_label(cs: Seq<(Seq<char>, nat)>, label: Seq<char>) -> Seq<(Seq<char>, nat)> {
    let i = label_index(cs, label);
    if i >= 0 {
        cs.update(i, (label, (cs[i].1 + 1) as nat))
    } else {
        cs.push((label, 1nat))
    }
}

/// Tally all labels, in order of first occurrence.
pub open spec fn count_labels(labels: Seq<Seq<char>>) -> Seq<(Seq<char>, nat)>
    decreases labels.len(),
{
    if labels.len() == 0 {
        Seq::empty()
    } else {
        bump_label(count_labels(labels.drop_last()), labels.last())
    }
}

proof fn lemma_count_bounded(labels: Seq<Seq<char>>)
    ensures
        forall|i: int|
            0 <= i < count_labels(labels).len() ==> (#[trigger] count_labels(labels)[i]).1
                <= labels.len(),
    decreases labels.len(),
{
    if labels.len() > 0 {
        lemma_count_bounded(labels.drop_last());
        let prev = count_labels(labels.drop_last());
        lemma_label_index(prev, labels.last());
    }
}

impl App {
    /// Append the badges of the enabled skills.
    fn push_skill_badges(&self, labels: &mut Vec<String>)
        ensures
            final(labels).deep_view() == old(labels).deep_view() + enabled_badges_skills(
                self.skills(),
            ),
    {
        let ghost base = labels.deep_view();
        let n = self.skill_rows.len();
        let mut i: usize = 0;
        while i < n
            invariant
                n == self.skill_rows@.len(),
                i <= n,
                labels.deep_view() =~= base + enabled_badges_skills(self.skills().take(i as int)),
            decreases n - i,
        {
            proof {
                assert(self.skills().take(i + 1).drop_last() =~= self.skills().take(i as int));
                assert(self.skills().take(i + 1).last() == self.skills()[i as int]);
            }
            let ghost before = labels.deep_view();
            if self.skill_rows[i].enabled {
                let b = self.skill_rows[i].mode.badge();
                let ghost bv = b@;
                labels.push(b);
                proof {
                    assert(labels.deep_view() =~= before.push(bv));
                }
            }
            proof {
                assert(labels.deep_view() =~= base + enabled_badges_skills(
                    self.skills().take(i + 1),
                ));
            }
            i = i + 1;
        }
        proof {
            assert(self.skills().take(n as int) =~= self.skills());
        }
    }

    /// Count of enabled items by mode badge, in order of first occurrence.
    pub fn target_counts(&self) -> (r: Vec<(String, usize)>)
        requires
            self.skills().len() + self.hooks().len() + self.mcps().len() + self.perms().len()
                <= usize::MAX,
        ensures
            Seq::new(r@.len(), |i: int| (r@[i].0@, r@[i].1 as nat)) == count_labels(
                spec_enabled_badges(*self),
            ),
    {
        let mut labels: Vec<String> = Vec::new();
        self.push_skill_badges(&mut labels);
        push_row_badges(&mut labels, &self.hook_rows);
        push_row_badges(&mut labels, &self.mcp_rows);
        push_row_badges(&mut labels, &self.perm_rows);
        proof {
            assert(Seq::new(self.hook_rows@.len(), |q: int| self.hook_rows@[q]@) =~= self.hooks());
            assert(Seq::new(self.mcp_rows@.len(), |q: int| self.mcp_rows@[q]@) =~= self.mcps());
            assert(Seq::new(self.perm_rows@.len(), |q: int| self.perm_rows@[q]@) =~= self.perms());
            assert(labels.deep_view() =~= spec_enabled_badges(*self));
            lemma_badge_counts_bounded(self.skills(), self.hooks(), self.mcps(), self.perms());
        }
        let ghost lv = labels.deep_view();
        let mut counts: Vec<(String, usize)> = Vec::new();
        let n = labels.len();
        let mut i: usize = 0;
        while i < n
            invariant
                n == labels@.len(),
                lv == labels.deep_view(),
                lv.len() <= usize::MAX,
                i <= n,
                Seq::new(counts@.len(), |q: int| (counts@[q].0@, counts@[q].1 as nat))
                    =~= count_labels(lv.take(i as int)),
            decreases n - i,
        {
            proof {
                assert(lv.take(i + 1).drop_last() =~= lv.take(i as int));
                assert(lv.take(i + 1).last() == lv[i as int]);
                lemma_label_index(count_labels(lv.take(i as int)), lv[i as int]);
                lemma_count_bounded(lv.take(i as int));
            }
            let cn = counts.len();
            let mut j: usize = 0;
            let mut found = false;
            while j < cn && !found
                invariant
                    cn == counts@.len(),
                    n == labels@.len(),
                    lv == labels.deep_view(),
                    i < n,
                    j <= cn,
                    !found ==> forall|k: int| 0 <= k < j ==> counts@[k].0@ != lv[i as int],
                    found ==> j < cn && counts@[j as int].0@ == lv[i as int] && (forall|k: int|
                        0 <= k < j ==> counts@[k].0@ != lv[i as int]),
                decreases cn - j + (if found {
                    0int
                } else {
                    1int
                }),
            {
                if crate::strutil::str_eq(counts[j].0.as_str(), labels[i].as_str()) {
                    found = true;
                } else {
                    j = j + 1;
                }
            }
            let ghost cv = Seq::new(counts@.len(), |q: int| (counts@[q].0@, counts@[q].1 as nat));
            if found {
                proof {
                    lemma_label_index_unique(cv, lv[i as int], j as int);
                }
                let mut entry = counts.remove(j);
                entry.1 = entry.1 + 1;
                counts.insert(j, entry);
                proof {
                    assert(Seq::new(counts@.len(), |q: int| (counts@[q].0@, counts@[q].1 as nat))
                        =~= bump_label(cv, lv[i as int]));
                }
            } else {
                let label = labels[i].clone();
                counts.push((label, 1));
                proof {
                    assert(Seq::new(counts@.len(), |q: int| (counts@[q].0@, counts@[q].1 as nat))
                        =~= bump_label(cv, lv[i as int]));
                }
            }
            i = i + 1;
        }
        proof {
            assert(lv.take(n as int) =~= lv);
        }
        counts
    }
}

/// The badge counts never exceed the number of items.
proof fn lemma_badge_counts_bounded(
    ss: Seq<SkillView>,
    h: Seq<RowView>,
    m: Seq<RowView>,
    p: Seq<RowView>,
)
    ensures
        (enabled_badges_skills(ss) + enabled_badges_rows(h) + enabled_badges_rows(m)
            + enabled_badges_rows(p)).len() <= ss.len() + h.len() + m.len() + p.len(),
{
    lemma_badges_len_skills(ss);
    lemma_badges_len_rows(h);
    lemma_badges_len_rows(m);
    lemma_badges_len_rows(p);
}

proof fn lemma_badges_len_skills(ss: Seq<SkillView>)
    ensures
        enabled_badges_skills(ss).len() <= ss.len(),
    decreases ss.len(),
{
    if ss.len() > 0 {
        lemma_badges_len_skills(ss.drop_last());
    }
}

proof fn lemma_badges_len_rows(rows: Seq<RowView>)
    ensures
        enabled_badges_rows(rows).len() <= rows.len(),
    decreases rows.len(),
{
    if rows.len() > 0 {
        lemma_badges_len_rows(rows.drop_last());
    }
}

/// Append the badges of the enabled rows of one catalog.
fn push_row_badges(labels: &mut Vec<String>, rows: &Vec<SimpleRow>)
    ensures
        final(labels).deep_view() == old(labels).deep_view() + enabled_badges_rows(
            Seq::new(rows@.len(), |i: int| rows@[i]@),
        ),
{
    let ghost base = labels.deep_view();
    let ghost rv = Seq::new(rows@.len(), |i: int| rows@[i]@);
    let n = rows.len();
    let mut i: usize = 0;
    while i < n
        invariant
            n == rows@.len(),
            rv == Seq::new(rows@.len(), |i: int| rows@[i]@),
            i <= n,
            labels.deep_view() =~= base + enabled_badges_rows(rv.take(i as int)),
        decreases n - i,
    {
        proof {
            assert(rv.take(i + 1).drop_last() =~= rv.take(i as int));
            assert(rv.take(i + 1).last() == rv[i as int]);
        }
        let ghost before = labels.deep_view();
        if rows[i].enabled {
            let b = rows[i].mode.badge();
            let ghost bv = b@;
            labels.push(b);
            proof {
                assert(labels.deep_view() =~= before.push(bv));
            }
        }
        proof {
            assert(labels.deep_view() =~= base + enabled_badges_rows(rv.take(i + 1)));
        }
        i = i + 1;
    }
    proof {
        assert(rv.take(n as int) =~= rv);
    }
}

} // verus!
