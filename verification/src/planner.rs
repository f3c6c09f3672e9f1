use vstd::prelude::*;
use crate::app::App;
use crate::modes::AssignedMode;
use crate::plan::DeployPlan;
use crate::rows::{ProjectEntry, ProjectView, RowView, ScriptView, SkillView};
use crate::strutil::{lex_le, str_le};

verus! {

// ---------------------------------------------------------------------------
// What the plan holds, by definition
// ---------------------------------------------------------------------------

/// Names of enabled, `Global` skills, in catalog order.
pub open spec fn global_names_skills(ss: Seq<SkillView>) -> Seq<Seq<char>>
    decreases ss.len(),
{
    if ss.len() == 0 {
        Seq::empty()
    } else {
        let rest = global_names_skills(ss.drop_last());
        if ss.last().enabled && ss.last().mode.is_global() {
            rest.push(ss.last().name)
        } else {
            rest
        }
    }
}

/// Names of enabled, `Global` plain rows, in catalog order.
pub open spec fn global_names_rows(rows: Seq<RowView>) -> Seq<Seq<char>>
    decreases rows.len(),
{
    if rows.len() == 0 {
        Seq::empty()
    } else {
        let rest = global_names_rows(rows.drop_last());
        if rows.last().enabled && rows.last().mode.is_global() {
            rest.push(rows.last().name)
        } else {
            rest
        }
    }
}

/// Everything the global pass deploys: enabled `Global` items across the four
/// catalogs, skills first, then hooks, MCP servers and permission groups.
pub open spec fn spec_global_items(a: App) -> Seq<Seq<char>> {
    global_names_skills(a.skills()) + global_names_rows(a.hooks()) + global_names_rows(a.mcps())
        + global_names_rows(a.perms())
}

/// Names of enabled skills assigned to `alias`, in catalog order.
pub open spec fn alias_names_skills(ss: Seq<SkillView>, alias: Seq<char>) -> Seq<Seq<char>>
    decreases ss.len(),
{
    if ss.len() == 0 {
        Seq::empty()
    } else {
        let rest = alias_names_skills(ss.drop_last(), alias);
        if ss.last().enabled && ss.last().mode.aliases().contains(alias) {
            rest.push(ss.last().name)
        } else {
            rest
        }
    }
}

/// Names of enabled plain rows assigned to `alias`, in catalog order.
pub open spec fn alias_names_rows(rows: Seq<RowView>, alias: Seq<char>) -> Seq<Seq<char>>
    decreases rows.len(),
{
    if rows.len() == 0 {
        Seq::empty()
    } else {
        let rest = alias_names_rows(rows.drop_last(), alias);
        if rows.last().enabled && rows.last().mode.aliases().contains(alias) {
            rest.push(rows.last().name)
        } else {
            rest
        }
    }
}

/// Everything one project's pass deploys: the enabled items whose alias list
/// holds that project's alias.
pub open spec fn spec_items_for_alias(a: App, alias: Seq<char>) -> Seq<Seq<char>> {
    alias_names_skills(a.skills(), alias) + alias_names_rows(a.hooks(), alias) + alias_names_rows(
        a.mcps(),
        alias,
    ) + alias_names_rows(a.perms(), alias)
}

/// Insert one project into a path-ordered list, before the first entry whose
/// path is not smaller.
pub open spec fn spec_insert_proj(p: ProjectView, sorted: Seq<ProjectView>) -> Seq<ProjectView>
    decreases sorted.len(),
{
    if sorted.len() == 0 {
        seq![p]
    } else if lex_le(p.path, sorted[0].path) {
        seq![p] + sorted
    } else {
        seq![sorted[0]] + spec_insert_proj(p, sorted.skip(1))
    }
}

/// The projects ordered by path: an insertion sort, for reproducible output.
pub open spec fn spec_sort_projs(ps: Seq<ProjectView>) -> Seq<ProjectView>
    decreases ps.len(),
{
    if ps.len() == 0 {
        Seq::empty()
    } else {
        spec_insert_proj(ps.last(), spec_sort_projs(ps.drop_last()))
    }
}

/// One plan entry per path-ordered project with at least one item assigned.
pub open spec fn project_entries_of(sorted: Seq<ProjectView>, a: App) -> Seq<
    (Seq<char>, Seq<Seq<char>>),
>
    decreases sorted.len(),
{
    if sorted.len() == 0 {
        Seq::empty()
    } else {
        let rest = project_entries_of(sorted.drop_last(), a);
        let items = spec_items_for_alias(a, sorted.last().alias);
        if items.len() > 0 {
            rest.push((sorted.last().path, items))
        } else {
            rest
        }
    }
}

/// The per-project half of the plan.
pub open spec fn spec_project_items(a: App) -> Seq<(Seq<char>, Seq<Seq<char>>)> {
    project_entries_of(spec_sort_projs(a.projs()), a)
}

/// Names of the scripts flagged for PATH, in order.
pub open spec fn on_path_names(scripts: Seq<ScriptView>) -> Seq<Seq<char>>
    decreases scripts.len(),
{
    if scripts.len() == 0 {
        Seq::empty()
    } else {
        let rest = on_path_names(scripts.drop_last());
        if scripts.last().on_path {
            rest.push(scripts.last().name)
        } else {
            rest
        }
    }
}

/// One entry per enabled `Global` skill with at least one flagged script.
pub open spec fn spec_on_path_scripts(ss: Seq<SkillView>) -> Seq<(Seq<char>, Seq<Seq<char>>)>
    decreases ss.len(),
{
    if ss.len() == 0 {
        Seq::empty()
    } else {
        let rest = spec_on_path_scripts(ss.drop_last());
        let s = ss.last();
        if s.enabled && s.mode.is_global() && on_path_names(s.scripts).len() > 0 {
            rest.push((s.name, on_path_names(s.scripts)))
        } else {
            rest
        }
    }
}

// ---------------------------------------------------------------------------
// Executable helpers
// ---------------------------------------------------------------------------

/// Does a mode's alias list hold this alias?
fn mode_has_alias(m: &AssignedMode, alias: &str) -> (r: bool)
    ensures
        r == m@.aliases().contains(alias@),
{
    match m {
        AssignedMode::Project(aliases) => {
            let r = crate::strutil::contains_string(aliases, alias);
            proof {
                assert(aliases.deep_view() == m@.aliases());
            }
            r
        },
        _ => {
            proof {
                assert(m@.aliases() =~= Seq::<Seq<char>>::empty());
            }
            false
        },
    }
}

impl App {
    /// Names of the enabled `Global` items across all four catalogs.
    fn collect_global_items(&self) -> (r: Vec<String>)
        ensures
            r.deep_view() == spec_global_items(*self),
    {
        let mut out: Vec<String> = Vec::new();
        let mut i: usize = 0;
        let n = self.skill_rows.len();
        while i < n
            invariant
                n == self.skill_rows@.len(),
                i <= n,
                out.deep_view() =~= global_names_skills(self.skills().take(i as int)),
            decreases n - i,
        {
            proof {
                assert(self.skills().take(i + 1).drop_last() =~= self.skills().take(i as int));
                assert(self.skills().take(i + 1).last() == self.skills()[i as int]);
            }
            if self.skill_rows[i].enabled && self.skill_rows[i].mode.is_global() {
                out.push(self.skill_rows[i].name.clone());
            }
            proof {
                assert(out.deep_view() =~= global_names_skills(self.skills().take(i + 1)));
            }
            i = i + 1;
        }
        proof {
            assert(self.skills().take(n as int) =~= self.skills());
        }
        push_global_rows(&mut out, &self.hook_rows);
        proof {
            assert(Seq::new(self.hook_rows@.len(), |i: int| self.hook_rows@[i]@) =~= self.hooks());
            assert(out.deep_view() =~= global_names_skills(self.skills()) + global_names_rows(
                self.hooks(),
            ));
        }
        push_global_rows(&mut out, &self.mcp_rows);
        proof {
            assert(Seq::new(self.mcp_rows@.len(), |i: int| self.mcp_rows@[i]@) =~= self.mcps());
            assert(out.deep_view() =~= global_names_skills(self.skills()) + global_names_rows(
                self.hooks(),
            ) + global_names_rows(self.mcps()));
        }
        push_global_rows(&mut out, &self.perm_rows);
        proof {
            assert(Seq::new(self.perm_rows@.len(), |i: int| self.perm_rows@[i]@) =~= self.perms());
            assert(out.deep_view() =~= spec_global_items(*self));
        }
        out
    }

    /// Names of the enabled items assigned to one alias, across the catalogs.
    fn collect_items_for_alias(&self, alias: &str) -> (r: Vec<String>)
        ensures
            r.deep_view() == spec_items_for_alias(*self, alias@),
    {
        let mut out: Vec<String> = Vec::new();
        let mut i: usize = 0;
        let n = self.skill_rows.len();
        while i < n
            invariant
                n == self.skill_rows@.len(),
                i <= n,
                out.deep_view() =~= alias_names_skills(self.skills().take(i as int), alias@),
            decreases n - i,
        {
            proof {
                assert(self.skills().take(i + 1).drop_last() =~= self.skills().take(i as int));
                assert(self.skills().take(i + 1).last() == self.skills()[i as int]);
            }
            if self.skill_rows[i].enabled && mode_has_alias(&self.skill_rows[i].mode, alias) {
                out.push(self.skill_rows[i].name.clone());
            }
            proof {
                assert(out.deep_view() =~= alias_names_skills(self.skills().take(i + 1), alias@));
            }
            i = i + 1;
        }
        proof {
            assert(self.skills().take(n as int) =~= self.skills());
        }
        push_alias_rows(&mut out, &self.hook_rows, alias);
        proof {
            assert(Seq::new(self.hook_rows@.len(), |i: int| self.hook_rows@[i]@) =~= self.hooks());
            assert(out.deep_view() =~= alias_names_skills(self.skills(), alias@)
                + alias_names_rows(self.hooks(), alias@));
        }
        push_alias_rows(&mut out, &self.mcp_rows, alias);
        proof {
            assert(Seq::new(self.mcp_rows@.len(), |i: int| self.mcp_rows@[i]@) =~= self.mcps());
            assert(out.deep_view() =~= alias_names_skills(self.skills(), alias@)
                + alias_names_rows(self.hooks(), alias@) + alias_names_rows(self.mcps(), alias@));
        }
        push_alias_rows(&mut out, &self.perm_rows, alias);
        proof {
            assert(Seq::new(self.perm_rows@.len(), |i: int| self.perm_rows@[i]@) =~= self.perms());
            assert(out.deep_view() =~= spec_items_for_alias(*self, alias@));
        }
        out
    }

    /// Build the deploy plan for the current assignment state: the global
    /// pass's item names in catalog order; one item list per project that has
    /// any, ordered by project path; and the PATH-flagged script names of
    /// every enabled `Global` skill. A pure function of the state: unchanged
    /// state rebuilds the identical plan.
    pub fn build_deploy_plan(&self) -> (plan: DeployPlan)
        ensures
            plan@.global_items == spec_global_items(*self),
            plan@.project_items == spec_project_items(*self),
            plan@.on_path_scripts == spec_on_path_scripts(self.skills()),
    {
        let global_items = self.collect_global_items();

        // sort the projects by path
        let mut sorted: Vec<ProjectEntry> = Vec::new();
        let mut i: usize = 0;
        let n = self.projects.len();
        while i < n
            invariant
                n == self.projects@.len(),
                i <= n,
                entry_views(sorted@) =~= spec_sort_projs(self.projs().take(i as int)),
            decreases n - i,
        {
            proof {
                assert(self.projs().take(i + 1).drop_last() =~= self.projs().take(i as int));
                assert(self.projs().take(i + 1).last() == self.projs()[i as int]);
            }
            let entry = ProjectEntry {
                path: self.projects[i].path.clone(),
                alias: self.projects[i].alias.clone(),
            };
            proof {
                assert(entry@ =~~= self.projs()[i as int]);
            }
            insert_by_path(&mut sorted, entry);
            i = i + 1;
        }
        proof {
            assert(self.projs().take(n as int) =~= self.projs());
        }

        // one pass list per sorted project that has items
        let mut project_items: Vec<(String, Vec<String>)> = Vec::new();
        let mut i: usize = 0;
        let sn = sorted.len();
        while i < sn
            invariant
                sn == sorted@.len(),
                entry_views(sorted@) == spec_sort_projs(self.projs()),
                i <= sn,
                pair_views(project_items@) =~= project_entries_of(
                    entry_views(sorted@).take(i as int),
                    *self,
                ),
            decreases sn - i,
        {
            proof {
                assert(entry_views(sorted@).take(i + 1).drop_last() =~= entry_views(
                    sorted@,
                ).take(i as int));
                assert(entry_views(sorted@).take(i + 1).last() == entry_views(sorted@)[i as int]);
            }
            let items = self.collect_items_for_alias(sorted[i].alias.as_str());
            if items.len() > 0 {
                project_items.push((sorted[i].path.clone(), items));
            }
            proof {
                assert(pair_views(project_items@) =~= project_entries_of(
                    entry_views(sorted@).take(i + 1),
                    *self,
                ));
            }
            i = i + 1;
        }
        proof {
            assert(entry_views(sorted@).take(sn as int) =~= entry_views(sorted@));
        }

        // PATH-flagged scripts of enabled Global skills
        let mut on_path_scripts: Vec<(String, Vec<String>)> = Vec::new();
        let mut i: usize = 0;
        let kn = self.skill_rows.len();
        while i < kn
            invariant
                kn == self.skill_rows@.len(),
                i <= kn,
                pair_views(on_path_scripts@) =~= spec_on_path_scripts(
                    self.skills().take(i as int),
                ),
            decreases kn - i,
        {
            proof {
                assert(self.skills().take(i + 1).drop_last() =~= self.skills().take(i as int));
                assert(self.skills().take(i + 1).last() == self.skills()[i as int]);
            }
            if self.skill_rows[i].enabled && self.skill_rows[i].mode.is_global() {
                let names = collect_on_path_names(&self.skill_rows[i].scripts);
                proof {
                    assert(Seq::new(
                        self.skill_rows@[i as int].scripts@.len(),
                        |k: int| self.skill_rows@[i as int].scripts@[k]@,
                    ) =~= self.skills()[i as int].scripts);
                }
                if names.len() > 0 {
                    on_path_scripts.push((self.skill_rows[i].name.clone(), names));
                }
            }
            proof {
                assert(pair_views(on_path_scripts@) =~= spec_on_path_scripts(
                    self.skills().take(i + 1),
                ));
            }
            i = i + 1;
        }
        proof {
            assert(self.skills().take(kn as int) =~= self.skills());
        }

        let plan = DeployPlan { global_items, project_items, on_path_scripts };
        proof {
            assert(plan@.global_items =~= spec_global_items(*self));
            assert(plan@.project_items =~~= spec_project_items(*self));
            assert(plan@.on_path_scripts =~~= spec_on_path_scripts(self.skills()));
        }
        plan
    }
}

/// The views of a list of project entries.
pub open spec fn entry_views(ps: Seq<ProjectEntry>) -> Seq<ProjectView> {
    Seq::new(ps.len(), |i: int| ps[i]@)
}

/// The views of a list of name-to-names pairs.
pub open spec fn pair_views(ps: Seq<(String, Vec<String>)>) -> Seq<(Seq<char>, Seq<Seq<char>>)> {
    Seq::new(ps.len(), |i: int| (ps[i].0@, ps[i].1.deep_view()))
}

/// Append the enabled `Global` rows' names.
fn push_global_rows(out: &mut Vec<String>, rows: &Vec<crate::rows::SimpleRow>)
    ensures
        final(out).deep_view() == old(out).deep_view() + global_names_rows(
            Seq::new(rows@.len(), |i: int| rows@[i]@),
        ),
{
    let ghost rv = Seq::new(rows@.len(), |i: int| rows@[i]@);
    let ghost base = out.deep_view();
    let n = rows.len();
    let mut i: usize = 0;
    while i < n
        invariant
            n == rows@.len(),
            rv == Seq::new(rows@.len(), |i: int| rows@[i]@),
            base == old(out).deep_view(),
            i <= n,
            out.deep_view() =~= base + global_names_rows(rv.take(i as int)),
        decreases n - i,
    {
        proof {
            assert(rv.take(i + 1).drop_last() =~= rv.take(i as int));
            assert(rv.take(i + 1).last() == rv[i as int]);
        }
        let ghost prev = out.deep_view();
        if rows[i].enabled && rows[i].mode.is_global() {
            let cl = rows[i].name.clone();
            proof {
                assert(cl@ == rv[i as int].name);
            }
            out.push(cl);
            proof {
                assert(out.deep_view() =~= prev.push(rv[i as int].name));
                assert(out.deep_view() =~= base + global_names_rows(rv.take(i + 1)));
            }
        } else {
            proof {
                assert(out.deep_view() =~= base + global_names_rows(rv.take(i + 1)));
            }
        }
        i = i + 1;
    }
    proof {
        assert(rv.take(n as int) =~= rv);
    }
}

/// Append the names of the enabled rows assigned to `alias`.
fn push_alias_rows(out: &mut Vec<String>, rows: &Vec<crate::rows::SimpleRow>, alias: &str)
    ensures
        final(out).deep_view() == old(out).deep_view() + alias_names_rows(
            Seq::new(rows@.len(), |i: int| rows@[i]@),
            alias@,
        ),
{
    let ghost rv = Seq::new(rows@.len(), |i: int| rows@[i]@);
    let ghost base = out.deep_view();
    let n = rows.len();
    let mut i: usize = 0;
    while i < n
        invariant
            n == rows@.len(),
            rv == Seq::new(rows@.len(), |i: int| rows@[i]@),
            base == old(out).deep_view(),
            i <= n,
            out.deep_view() =~= base + alias_names_rows(rv.take(i as int), alias@),
        decreases n - i,
    {
        proof {
            assert(rv.take(i + 1).drop_last() =~= rv.take(i as int));
            assert(rv.take(i + 1).last() == rv[i as int]);
        }
        let ghost prev = out.deep_view();
        if rows[i].enabled && mode_has_alias(&rows[i].mode, alias) {
            let cl = rows[i].name.clone();
            proof {
                assert(cl@ == rv[i as int].name);
            }
            out.push(cl);
            proof {
                assert(out.deep_view() =~= prev.push(rv[i as int].name));
                assert(out.deep_view() =~= base + alias_names_rows(rv.take(i + 1), alias@));
            }
        } else {
            proof {
                assert(out.deep_view() =~= base + alias_names_rows(rv.take(i + 1), alias@));
            }
        }
        i = i + 1;
    }
    proof {
        assert(rv.take(n as int) =~= rv);
    }
}

/// Names of the scripts flagged for PATH.
pub(crate) fn collect_on_path_names(scripts: &Vec<crate::rows::ScriptEntry>) -> (r: Vec<String>)
    ensures
        r.deep_view() == on_path_names(Seq::new(scripts@.len(), |i: int| scripts@[i]@)),
{
    let ghost sv = Seq::new(scripts@.len(), |i: int| scripts@[i]@);
    let mut out: Vec<String> = Vec::new();
    let n = scripts.len();
    let mut i: usize = 0;
    while i < n
        invariant
            n == scripts@.len(),
            sv == Seq::new(scripts@.len(), |i: int| scripts@[i]@),
            i <= n,
            out.deep_view() =~= on_path_names(sv.take(i as int)),
        decreases n - i,
    {
        proof {
            assert(sv.take(i + 1).drop_last() =~= sv.take(i as int));
            assert(sv.take(i + 1).last() == sv[i as int]);
        }
        if scripts[i].on_path {
            out.push(scripts[i].name.clone());
        }
        proof {
            assert(out.deep_view() =~= on_path_names(sv.take(i + 1)));
        }
        i = i + 1;
    }
    proof {
        assert(sv.take(n as int) =~= sv);
    }
    out
}

/// Insert one project into a path-ordered vector.
fn insert_by_path(sorted: &mut Vec<ProjectEntry>, entry: ProjectEntry)
    ensures
        entry_views(final(sorted)@) == spec_insert_proj(entry@, entry_views(old(sorted)@)),
{
    let n = sorted.len();
    let mut idx: usize = 0;
    while idx < n && !str_le(entry.path.as_str(), sorted[idx].path.as_str())
        invariant
            n == sorted@.len(),
            *sorted == *old(sorted),
            idx <= n,
            forall|j: int| 0 <= j < idx ==> !lex_le(entry@.path, entry_views(sorted@)[j].path),
        decreases n - idx,
    {
        proof {
            assert(!lex_le(entry@.path, entry_views(sorted@)[idx as int].path));
        }
        idx = idx + 1;
    }
    proof {
        lemma_insert_proj_at(entry@, entry_views(sorted@), idx as int);
    }
    sorted.insert(idx, entry);
    proof {
        assert(entry_views(sorted@) =~~= entry_views(old(sorted)@).insert(idx as int, entry@));
    }
}

/// Inserting before the first not-smaller element is what `spec_insert_proj`
/// does.
proof fn lemma_insert_proj_at(p: ProjectView, sorted: Seq<ProjectView>, idx: int)
    requires
        0 <= idx <= sorted.len(),
        forall|j: int| 0 <= j < idx ==> !lex_le(p.path, sorted[j].path),
        idx < sorted.len() ==> lex_le(p.path, sorted[idx].path),
    ensures
        spec_insert_proj(p, sorted) == sorted.insert(idx, p),
    decreases sorted.len(),
{
    if sorted.len() == 0 {
        assert(sorted.insert(0, p) =~= seq![p]);
    } else if lex_le(p.path, sorted[0].path) {
        assert(idx == 0);
        assert(sorted.insert(0, p) =~= seq![p] + sorted);
    } else {
        assert(idx >= 1);
        lemma_insert_proj_at(p, sorted.skip(1), idx - 1);
        assert(forall|j: int|
            0 <= j < idx - 1 ==> sorted.skip(1)[j] == sorted[j + 1]);
        assert(sorted.insert(idx, p) =~= seq![sorted[0]] + sorted.skip(1).insert(idx - 1, p));
    }
}

} // verus!

verus! {

// ---------------------------------------------------------------------------
// The partition law
// ---------------------------------------------------------------------------

/// Some enabled item named `nm` is in `Global` mode.
pub open spec fn has_enabled_global(a: App, nm: Seq<char>) -> bool {
    (exists|i: int|
        0 <= i < a.skills().len() && (#[trigger] a.skills()[i]).enabled
            && a.skills()[i].mode.is_global() && a.skills()[i].name == nm) || (exists|i: int|
        0 <= i < a.hooks().len() && (#[trigger] a.hooks()[i]).enabled
            && a.hooks()[i].mode.is_global() && a.hooks()[i].name == nm) || (exists|i: int|
        0 <= i < a.mcps().len() && (#[trigger] a.mcps()[i]).enabled
            && a.mcps()[i].mode.is_global() && a.mcps()[i].name == nm) || (exists|i: int|
        0 <= i < a.perms().len() && (#[trigger] a.perms()[i]).enabled
            && a.perms()[i].mode.is_global() && a.perms()[i].name == nm)
}

/// Some enabled item named `nm` carries `alias` in its list.
pub open spec fn has_enabled_alias(a: App, nm: Seq<char>, alias: Seq<char>) -> bool {
    (exists|i: int|
        0 <= i < a.skills().len() && (#[trigger] a.skills()[i]).enabled
            && a.skills()[i].mode.aliases().contains(alias) && a.skills()[i].name == nm) || (exists|
        i: int|
        0 <= i < a.hooks().len() && (#[trigger] a.hooks()[i]).enabled
            && a.hooks()[i].mode.aliases().contains(alias) && a.hooks()[i].name == nm) || (exists|
        i: int|
        0 <= i < a.mcps().len() && (#[trigger] a.mcps()[i]).enabled
            && a.mcps()[i].mode.aliases().contains(alias) && a.mcps()[i].name == nm) || (exists|
        i: int|
        0 <= i < a.perms().len() && (#[trigger] a.perms()[i]).enabled
            && a.perms()[i].mode.aliases().contains(alias) && a.perms()[i].name == nm)
}

/// Every item name across the four catalogs, in order.
pub open spec fn all_names(a: App) -> Seq<Seq<char>> {
    Seq::new(a.skills().len(), |i: int| a.skills()[i].name) + Seq::new(
        a.hooks().len(),
        |i: int| a.hooks()[i].name,
    ) + Seq::new(a.mcps().len(), |i: int| a.mcps()[i].name) + Seq::new(
        a.perms().len(),
        |i: int| a.perms()[i].name,
    )
}

proof fn lemma_global_names_skills_contains(ss: Seq<SkillView>, nm: Seq<char>)
    ensures
        global_names_skills(ss).contains(nm) <==> exists|i: int|
            0 <= i < ss.len() && (#[trigger] ss[i]).enabled && ss[i].mode.is_global() && ss[i].name
                == nm,
    decreases ss.len(),
{
    if ss.len() > 0 {
        lemma_global_names_skills_contains(ss.drop_last(), nm);
        assert(forall|i: int| 0 <= i < ss.len() - 1 ==> ss.drop_last()[i] == ss[i]);
        let rest = global_names_skills(ss.drop_last());
        if ss.last().enabled && ss.last().mode.is_global() {
            assert(global_names_skills(ss) == rest.push(ss.last().name));
            if global_names_skills(ss).contains(nm) {
                let k = choose|k: int|
                    0 <= k < rest.push(ss.last().name).len() && rest.push(ss.last().name)[k] == nm;
                if k < rest.len() {
                    assert(rest[k] == nm);
                } else {
                    assert(ss[ss.len() - 1].name == nm);
                }
            }
            if exists|i: int|
                0 <= i < ss.len() && (#[trigger] ss[i]).enabled && ss[i].mode.is_global()
                    && ss[i].name == nm {
                let i = choose|i: int|
                    0 <= i < ss.len() && (#[trigger] ss[i]).enabled && ss[i].mode.is_global()
                        && ss[i].name == nm;
                if i == ss.len() - 1 {
                    assert(rest.push(ss.last().name)[rest.len() as int] == nm);
                } else {
                    assert(rest.contains(nm));
                    let k = choose|k: int| 0 <= k < rest.len() && rest[k] == nm;
                    assert(rest.push(ss.last().name)[k] == nm);
                }
            }
        } else {
            if exists|i: int|
                0 <= i < ss.len() && (#[trigger] ss[i]).enabled && ss[i].mode.is_global()
                    && ss[i].name == nm {
                let i = choose|i: int|
                    0 <= i < ss.len() && (#[trigger] ss[i]).enabled && ss[i].mode.is_global()
                        && ss[i].name == nm;
                assert(i < ss.len() - 1);
            }
        }
    }
}

proof fn lemma_global_names_rows_contains(rows: Seq<RowView>, nm: Seq<char>)
    ensures
        global_names_rows(rows).contains(nm) <==> exists|i: int|
            0 <= i < rows.len() && (#[trigger] rows[i]).enabled && rows[i].mode.is_global()
                && rows[i].name == nm,
    decreases rows.len(),
{
    if rows.len() > 0 {
        lemma_global_names_rows_contains(rows.drop_last(), nm);
        assert(forall|i: int| 0 <= i < rows.len() - 1 ==> rows.drop_last()[i] == rows[i]);
        let rest = global_names_rows(rows.drop_last());
        if rows.last().enabled && rows.last().mode.is_global() {
            assert(global_names_rows(rows) == rest.push(rows.last().name));
            if global_names_rows(rows).contains(nm) {
                let k = choose|k: int|
                    0 <= k < rest.push(rows.last().name).len() && rest.push(rows.last().name)[k]
                        == nm;
                if k < rest.len() {
                    assert(rest[k] == nm);
                } else {
                    assert(rows[rows.len() - 1].name == nm);
                }
            }
            if exists|i: int|
                0 <= i < rows.len() && (#[trigger] rows[i]).enabled && rows[i].mode.is_global()
                    && rows[i].name == nm {
                let i = choose|i: int|
                    0 <= i < rows.len() && (#[trigger] rows[i]).enabled && rows[i].mode.is_global()
                        && rows[i].name == nm;
                if i == rows.len() - 1 {
                    assert(rest.push(rows.last().name)[rest.len() as int] == nm);
                } else {
                    assert(rest.contains(nm));
                    let k = choose|k: int| 0 <= k < rest.len() && rest[k] == nm;
                    assert(rest.push(rows.last().name)[k] == nm);
                }
            }
        } else {
            if exists|i: int|
                0 <= i < rows.len() && (#[trigger] rows[i]).enabled && rows[i].mode.is_global()
                    && rows[i].name == nm {
                let i = choose|i: int|
                    0 <= i < rows.len() && (#[trigger] rows[i]).enabled && rows[i].mode.is_global()
                        && rows[i].name == nm;
                assert(i < rows.len() - 1);
            }
        }
    }
}

proof fn lemma_alias_names_skills_contains(ss: Seq<SkillView>, alias: Seq<char>, nm: Seq<char>)
    ensures
        alias_names_skills(ss, alias).contains(nm) <==> exists|i: int|
            0 <= i < ss.len() && (#[trigger] ss[i]).enabled && ss[i].mode.aliases().contains(alias)
                && ss[i].name == nm,
    decreases ss.len(),
{
    if ss.len() > 0 {
        lemma_alias_names_skills_contains(ss.drop_last(), alias, nm);
        assert(forall|i: int| 0 <= i < ss.len() - 1 ==> ss.drop_last()[i] == ss[i]);
        let rest = alias_names_skills(ss.drop_last(), alias);
        if ss.last().enabled && ss.last().mode.aliases().contains(alias) {
            assert(alias_names_skills(ss, alias) == rest.push(ss.last().name));
            if alias_names_skills(ss, alias).contains(nm) {
                let k = choose|k: int|
                    0 <= k < rest.push(ss.last().name).len() && rest.push(ss.last().name)[k] == nm;
                if k < rest.len() {
                    assert(rest[k] == nm);
                } else {
                    assert(ss[ss.len() - 1].name == nm);
                }
            }
            if exists|i: int|
                0 <= i < ss.len() && (#[trigger] ss[i]).enabled && ss[i].mode.aliases().contains(
                    alias,
                ) && ss[i].name == nm {
                let i = choose|i: int|
                    0 <= i < ss.len() && (#[trigger] ss[i]).enabled
                        && ss[i].mode.aliases().contains(alias) && ss[i].name == nm;
                if i == ss.len() - 1 {
                    assert(rest.push(ss.last().name)[rest.len() as int] == nm);
                } else {
                    assert(rest.contains(nm));
                    let k = choose|k: int| 0 <= k < rest.len() && rest[k] == nm;
                    assert(rest.push(ss.last().name)[k] == nm);
                }
            }
        } else {
            if exists|i: int|
                0 <= i < ss.len() && (#[trigger] ss[i]).enabled && ss[i].mode.aliases().contains(
                    alias,
                ) && ss[i].name == nm {
                let i = choose|i: int|
                    0 <= i < ss.len() && (#[trigger] ss[i]).enabled
                        && ss[i].mode.aliases().contains(alias) && ss[i].name == nm;
                assert(i < ss.len() - 1);
            }
        }
    }
}

proof fn lemma_alias_names_rows_contains(rows: Seq<RowView>, alias: Seq<char>, nm: Seq<char>)
    ensures
        alias_names_rows(rows, alias).contains(nm) <==> exists|i: int|
            0 <= i < rows.len() && (#[trigger] rows[i]).enabled
                && rows[i].mode.aliases().contains(alias) && rows[i].name == nm,
    decreases rows.len(),
{
    if rows.len() > 0 {
        lemma_alias_names_rows_contains(rows.drop_last(), alias, nm);
        assert(forall|i: int| 0 <= i < rows.len() - 1 ==> rows.drop_last()[i] == rows[i]);
        let rest = alias_names_rows(rows.drop_last(), alias);
        if rows.last().enabled && rows.last().mode.aliases().contains(alias) {
            assert(alias_names_rows(rows, alias) == rest.push(rows.last().name));
            if alias_names_rows(rows, alias).contains(nm) {
                let k = choose|k: int|
                    0 <= k < rest.push(rows.last().name).len() && rest.push(rows.last().name)[k]
                        == nm;
                if k < rest.len() {
                    assert(rest[k] == nm);
                } else {
                    assert(rows[rows.len() - 1].name == nm);
                }
            }
            if exists|i: int|
                0 <= i < rows.len() && (#[trigger] rows[i]).enabled
                    && rows[i].mode.aliases().contains(alias) && rows[i].name == nm {
                let i = choose|i: int|
                    0 <= i < rows.len() && (#[trigger] rows[i]).enabled
                        && rows[i].mode.aliases().contains(alias) && rows[i].name == nm;
                if i == rows.len() - 1 {
                    assert(rest.push(rows.last().name)[rest.len() as int] == nm);
                } else {
                    assert(rest.contains(nm));
                    let k = choose|k: int| 0 <= k < rest.len() && rest[k] == nm;
                    assert(rest.push(rows.last().name)[k] == nm);
                }
            }
        } else {
            if exists|i: int|
                0 <= i < rows.len() && (#[trigger] rows[i]).enabled
                    && rows[i].mode.aliases().contains(alias) && rows[i].name == nm {
                let i = choose|i: int|
                    0 <= i < rows.len() && (#[trigger] rows[i]).enabled
                        && rows[i].mode.aliases().contains(alias) && rows[i].name == nm;
                assert(i < rows.len() - 1);
            }
        }
    }
}

/// The plan partitions the enabled items. A name is in the global list
/// exactly when an enabled item of that name is in `Global` mode; it is in a
/// project's list exactly when an enabled item of that name lists that
/// project's alias; and with distinct item names no name is both global and
/// project-assigned — a `Global` mode holds no aliases, a `Skip` neither.
pub proof fn lemma_plan_partition(a: App)
    ensures
        forall|nm: Seq<char>|
            #[trigger] spec_global_items(a).contains(nm) <==> has_enabled_global(a, nm),
        forall|nm: Seq<char>, alias: Seq<char>|
            #[trigger] spec_items_for_alias(a, alias).contains(nm) <==> has_enabled_alias(
                a,
                nm,
                alias,
            ),
        all_names(a).no_duplicates() ==> forall|nm: Seq<char>, alias: Seq<char>|
            !(#[trigger] spec_global_items(a).contains(nm) && #[trigger] spec_items_for_alias(
                a,
                alias,
            ).contains(nm)),
{
    assert forall|nm: Seq<char>|
        #[trigger] spec_global_items(a).contains(nm) <==> has_enabled_global(a, nm) by {
        lemma_global_names_skills_contains(a.skills(), nm);
        lemma_global_names_rows_contains(a.hooks(), nm);
        lemma_global_names_rows_contains(a.mcps(), nm);
        lemma_global_names_rows_contains(a.perms(), nm);
        lemma_contains_4cat(
            global_names_skills(a.skills()),
            global_names_rows(a.hooks()),
            global_names_rows(a.mcps()),
            global_names_rows(a.perms()),
            nm,
        );
    }
    assert forall|nm: Seq<char>, alias: Seq<char>|
        #[trigger] spec_items_for_alias(a, alias).contains(nm) <==> has_enabled_alias(
            a,
            nm,
            alias,
        ) by {
        lemma_alias_names_skills_contains(a.skills(), alias, nm);
        lemma_alias_names_rows_contains(a.hooks(), alias, nm);
        lemma_alias_names_rows_contains(a.mcps(), alias, nm);
        lemma_alias_names_rows_contains(a.perms(), alias, nm);
        lemma_contains_4cat(
            alias_names_skills(a.skills(), alias),
            alias_names_rows(a.hooks(), alias),
            alias_names_rows(a.mcps(), alias),
            alias_names_rows(a.perms(), alias),
            nm,
        );
    }
    if all_names(a).no_duplicates() {
        assert forall|nm: Seq<char>, alias: Seq<char>|
            !(#[trigger] spec_global_items(a).contains(nm) && #[trigger] spec_items_for_alias(
                a,
                alias,
            ).contains(nm)) by {
            lemma_no_double_assignment(a, nm, alias);
        }
    }
}

/// Concatenation of four lists contains an element exactly when one of them
/// does.
proof fn lemma_contains_4cat(
    s1: Seq<Seq<char>>,
    s2: Seq<Seq<char>>,
    s3: Seq<Seq<char>>,
    s4: Seq<Seq<char>>,
    nm: Seq<char>,
)
    ensures
        (s1 + s2 + s3 + s4).contains(nm) <==> (s1.contains(nm) || s2.contains(nm) || s3.contains(
            nm,
        ) || s4.contains(nm)),
{
    let all = s1 + s2 + s3 + s4;
    if all.contains(nm) {
        let k = choose|k: int| 0 <= k < all.len() && all[k] == nm;
        if k < s1.len() {
            assert(s1[k] == nm);
        } else if k < s1.len() + s2.len() {
            assert(s2[k - s1.len()] == nm);
        } else if k < s1.len() + s2.len() + s3.len() {
            assert(s3[k - s1.len() - s2.len()] == nm);
        } else {
            assert(s4[k - s1.len() - s2.len() - s3.len()] == nm);
        }
    }
    if s1.contains(nm) {
        let k = choose|k: int| 0 <= k < s1.len() && s1[k] == nm;
        assert(all[k] == nm);
    }
    if s2.contains(nm) {
        let k = choose|k: int| 0 <= k < s2.len() && s2[k] == nm;
        assert(all[s1.len() + k] == nm);
    }
    if s3.contains(nm) {
        let k = choose|k: int| 0 <= k < s3.len() && s3[k] == nm;
        assert(all[s1.len() + s2.len() + k] == nm);
    }
    if s4.contains(nm) {
        let k = choose|k: int| 0 <= k < s4.len() && s4[k] == nm;
        assert(all[s1.len() + s2.len() + s3.len() + k] == nm);
    }
}

/// With distinct names, a name cannot be both enabled-global and
/// enabled-with-alias: the two witnesses would be the same item, whose one
/// mode excludes the other.
proof fn lemma_no_double_assignment(a: App, nm: Seq<char>, alias: Seq<char>)
    requires
        all_names(a).no_duplicates(),
    ensures
        !(has_enabled_global(a, nm) && has_enabled_alias(a, nm, alias)),
{
    if has_enabled_global(a, nm) && has_enabled_alias(a, nm, alias) {
        let names = all_names(a);
        let gpos = global_witness_pos(a, nm);
        let apos = alias_witness_pos(a, nm, alias);
        assert(0 <= gpos < names.len() && names[gpos] == nm && pos_is_global(a, gpos));
        assert(0 <= apos < names.len() && names[apos] == nm && pos_has_alias(a, apos, alias));
        if gpos != apos {
            assert(names[gpos] == names[apos]);
        }
        assert(false);
    }
}

/// Position of a global witness in `all_names`.
pub open spec fn global_witness_pos(a: App, nm: Seq<char>) -> int {
    if exists|i: int|
        0 <= i < a.skills().len() && (#[trigger] a.skills()[i]).enabled
            && a.skills()[i].mode.is_global() && a.skills()[i].name == nm {
        choose|i: int|
            0 <= i < a.skills().len() && (#[trigger] a.skills()[i]).enabled
                && a.skills()[i].mode.is_global() && a.skills()[i].name == nm
    } else if exists|i: int|
        0 <= i < a.hooks().len() && (#[trigger] a.hooks()[i]).enabled
            && a.hooks()[i].mode.is_global() && a.hooks()[i].name == nm {
        a.skills().len() + choose|i: int|
            0 <= i < a.hooks().len() && (#[trigger] a.hooks()[i]).enabled
                && a.hooks()[i].mode.is_global() && a.hooks()[i].name == nm
    } else if exists|i: int|
        0 <= i < a.mcps().len() && (#[trigger] a.mcps()[i]).enabled
            && a.mcps()[i].mode.is_global() && a.mcps()[i].name == nm {
        a.skills().len() + a.hooks().len() + choose|i: int|
            0 <= i < a.mcps().len() && (#[trigger] a.mcps()[i]).enabled
                && a.mcps()[i].mode.is_global() && a.mcps()[i].name == nm
    } else {
        a.skills().len() + a.hooks().len() + a.mcps().len() + choose|i: int|
            0 <= i < a.perms().len() && (#[trigger] a.perms()[i]).enabled
                && a.perms()[i].mode.is_global() && a.perms()[i].name == nm
    }
}

/// Position of an alias witness in `all_names`.
pub open spec fn alias_witness_pos(a: App, nm: Seq<char>, alias: Seq<char>) -> int {
    if exists|i: int|
        0 <= i < a.skills().len() && (#[trigger] a.skills()[i]).enabled
            && a.skills()[i].mode.aliases().contains(alias) && a.skills()[i].name == nm {
        choose|i: int|
            0 <= i < a.skills().len() && (#[trigger] a.skills()[i]).enabled
                && a.skills()[i].mode.aliases().contains(alias) && a.skills()[i].name == nm
    } else if exists|i: int|
        0 <= i < a.hooks().len() && (#[trigger] a.hooks()[i]).enabled
            && a.hooks()[i].mode.aliases().contains(alias) && a.hooks()[i].name == nm {
        a.skills().len() + choose|i: int|
            0 <= i < a.hooks().len() && (#[trigger] a.hooks()[i]).enabled
                && a.hooks()[i].mode.aliases().contains(alias) && a.hooks()[i].name == nm
    } else if exists|i: int|
        0 <= i < a.mcps().len() && (#[trigger] a.mcps()[i]).enabled
            && a.mcps()[i].mode.aliases().contains(alias) && a.mcps()[i].name == nm {
        a.skills().len() + a.hooks().len() + choose|i: int|
            0 <= i < a.mcps().len() && (#[trigger] a.mcps()[i]).enabled
                && a.mcps()[i].mode.aliases().contains(alias) && a.mcps()[i].name == nm
    } else {
        a.skills().len() + a.hooks().len() + a.mcps().len() + choose|i: int|
            0 <= i < a.perms().len() && (#[trigger] a.perms()[i]).enabled
                && a.perms()[i].mode.aliases().contains(alias) && a.perms()[i].name == nm
    }
}

/// The item at a position of `all_names` is enabled and `Global`.
pub open spec fn pos_is_global(a: App, p: int) -> bool {
    if p < a.skills().len() {
        a.skills()[p].enabled && a.skills()[p].mode.is_global()
    } else if p < a.skills().len() + a.hooks().len() {
        let q = p - a.skills().len();
        a.hooks()[q].enabled && a.hooks()[q].mode.is_global()
    } else if p < a.skills().len() + a.hooks().len() + a.mcps().len() {
        let q = p - a.skills().len() - a.hooks().len();
        a.mcps()[q].enabled && a.mcps()[q].mode.is_global()
    } else {
        let q = p - a.skills().len() - a.hooks().len() - a.mcps().len();
        a.perms()[q].enabled && a.perms()[q].mode.is_global()
    }
}

/// The item at a position of `all_names` is enabled and lists `alias`.
pub open spec fn pos_has_alias(a: App, p: int, alias: Seq<char>) -> bool {
    if p < a.skills().len() {
        a.skills()[p].enabled && a.skills()[p].mode.aliases().contains(alias)
    } else if p < a.skills().len() + a.hooks().len() {
        let q = p - a.skills().len();
        a.hooks()[q].enabled && a.hooks()[q].mode.aliases().contains(alias)
    } else if p < a.skills().len() + a.hooks().len() + a.mcps().len() {
        let q = p - a.skills().len() - a.hooks().len();
        a.mcps()[q].enabled && a.mcps()[q].mode.aliases().contains(alias)
    } else {
        let q = p - a.skills().len() - a.hooks().len() - a.mcps().len();
        a.perms()[q].enabled && a.perms()[q].mode.aliases().contains(alias)
    }
}

} // verus!
