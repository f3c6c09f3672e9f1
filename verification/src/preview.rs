use vstd::prelude::*;
use crate::app::{App, proj_alias_index};
use crate::modes::ModeView;
use crate::rows::{ProjectView, RowView, ScriptView, SkillView};
use crate::strutil::{spec_decimal, usize_to_string, str_starts_with};

verus! {

// ---------------------------------------------------------------------------
// Home-relative display of paths
// ---------------------------------------------------------------------------

/// A path shown with the home directory abbreviated to `~`.
pub open spec fn spec_tilde(p: Seq<char>, home: Seq<char>) -> Seq<char> {
    if home.len() > 0 && home.is_prefix_of(p) {
        "~"@ + p.skip(home.len() as int)
    } else {
        p
    }
}

/// Abbreviate a leading home directory to `~` for display.
pub fn tilde_display(p: &str, home: &str) -> (r: String)
    ensures
        r@ == spec_tilde(p@, home@),
{
    if !home.is_empty() && str_starts_with(p, home) {
        let mut r = "~".to_owned();
        let rest = p.substring_char(home.unicode_len(), p.unicode_len());
        proof {
            assert(rest@ =~= p@.skip(home@.len() as int));
        }
        r.append(rest);
        r
    } else {
        p.to_owned()
    }
}

// ---------------------------------------------------------------------------
// The preview lines, by definition
// ---------------------------------------------------------------------------

/// Destination line for one alias of a project-assigned item; nothing when
/// the alias no longer resolves.
pub open spec fn alias_dest_lines(
    projs: Seq<ProjectView>,
    aliases: Seq<Seq<char>>,
    suffix: Seq<char>,
    home: Seq<char>,
) -> Seq<Seq<char>>
    decreases aliases.len(),
{
    if aliases.len() == 0 {
        Seq::empty()
    } else {
        let rest = alias_dest_lines(projs, aliases.drop_last(), suffix, home);
        let i = proj_alias_index(projs, aliases.last());
        if i >= 0 {
            rest.push("      -> "@ + spec_tilde(projs[i].path + suffix, home))
        } else {
            rest
        }
    }
}

/// PATH lines for the flagged scripts of a global skill.
pub open spec fn script_path_lines(scripts: Seq<ScriptView>) -> Seq<Seq<char>>
    decreases scripts.len(),
{
    if scripts.len() == 0 {
        Seq::empty()
    } else {
        let rest = script_path_lines(scripts.drop_last());
        if scripts.last().on_path {
            rest.push("      -> ~/.local/bin/"@ + scripts.last().name)
        } else {
            rest
        }
    }
}

/// Preview lines of one skill: skipped, global with its PATH scripts, or one
/// destination per resolvable alias.
pub open spec fn preview_skill(s: SkillView, projs: Seq<ProjectView>, gpath: Seq<char>, home: Seq<char>) -> Seq<
    Seq<char>,
> {
    if !s.enabled {
        Seq::empty()
    } else if s.mode.is_skip() {
        seq![("  - "@ + s.name + "  skipped"@)]
    } else if s.mode is Global {
        seq![("  + "@ + s.name + "  -> "@ + gpath)] + script_path_lines(s.scripts)
    } else {
        seq![("  + "@ + s.name)] + alias_dest_lines(projs, s.mode.aliases(), "/.agent/skills"@, home)
    }
}

pub open spec fn preview_skills(ss: Seq<SkillView>, projs: Seq<ProjectView>, gpath: Seq<char>, home: Seq<char>) -> Seq<
    Seq<char>,
>
    decreases ss.len(),
{
    if ss.len() == 0 {
        Seq::empty()
    } else {
        preview_skills(ss.drop_last(), projs, gpath, home) + preview_skill(
            ss.last(),
            projs,
            gpath,
            home,
        )
    }
}

/// Preview lines of one hook: hooks deploy globally or not at all.
pub open spec fn preview_hook(r: RowView, hpath: Seq<char>) -> Seq<Seq<char>> {
    if !r.enabled {
        Seq::empty()
    } else if r.mode.is_skip() {
        seq![("  - "@ + r.name + "  skipped"@)]
    } else {
        seq![("  + "@ + r.name + "  -> "@ + hpath)]
    }
}

pub open spec fn preview_hooks(rows: Seq<RowView>, hpath: Seq<char>) -> Seq<Seq<char>>
    decreases rows.len(),
{
    if rows.len() == 0 {
        Seq::empty()
    } else {
        preview_hooks(rows.drop_last(), hpath) + preview_hook(rows.last(), hpath)
    }
}

/// Preview lines of one plain row with a per-project destination suffix.
pub open spec fn preview_row(
    r: RowView,
    projs: Seq<ProjectView>,
    gpath: Seq<char>,
    suffix: Seq<char>,
    home: Seq<char>,
) -> Seq<Seq<char>> {
    if !r.enabled {
        Seq::empty()
    } else if r.mode.is_skip() {
        seq![("  - "@ + r.name + "  skipped"@)]
    } else if r.mode is Global {
        seq![("  + "@ + r.name + "  -> "@ + gpath)]
    } else {
        seq![("  + "@ + r.name)] + alias_dest_lines(projs, r.mode.aliases(), suffix, home)
    }
}

pub open spec fn preview_rows(
    rows: Seq<RowView>,
    projs: Seq<ProjectView>,
    gpath: Seq<char>,
    suffix: Seq<char>,
    home: Seq<char>,
) -> Seq<Seq<char>>
    decreases rows.len(),
{
    if rows.len() == 0 {
        Seq::empty()
    } else {
        preview_rows(rows.drop_last(), projs, gpath, suffix, home) + preview_row(
            rows.last(),
            projs,
            gpath,
            suffix,
            home,
        )
    }
}

/// How many enabled skills are skipped (respectively kept).
pub open spec fn count_skipped_skills(ss: Seq<SkillView>) -> nat
    decreases ss.len(),
{
    if ss.len() == 0 {
        0
    } else {
        count_skipped_skills(ss.drop_last()) + (if ss.last().enabled && ss.last().mode.is_skip() {
            1nat
        } else {
            0nat
        })
    }
}

pub open spec fn count_deployed_skills(ss: Seq<SkillView>) -> nat
    decreases ss.len(),
{
    if ss.len() == 0 {
        0
    } else {
        count_deployed_skills(ss.drop_last()) + (if ss.last().enabled && !ss.last().mode.is_skip() {
            1nat
        } else {
            0nat
        })
    }
}

pub open spec fn count_skipped_rows(rows: Seq<RowView>) -> nat
    decreases rows.len(),
{
    if rows.len() == 0 {
        0
    } else {
        count_skipped_rows(rows.drop_last()) + (if rows.last().enabled
            && rows.last().mode.is_skip() {
            1nat
        } else {
            0nat
        })
    }
}

pub open spec fn count_deployed_rows(rows: Seq<RowView>) -> nat
    decreases rows.len(),
{
    if rows.len() == 0 {
        0
    } else {
        count_deployed_rows(rows.drop_last()) + (if rows.last().enabled
            && !rows.last().mode.is_skip() {
            1nat
        } else {
            0nat
        })
    }
}

/// Number of enabled items the plan would deploy (everything not skipped).
pub open spec fn spec_deploy_count(a: App) -> nat {
    count_deployed_skills(a.skills()) + count_deployed_rows(a.hooks()) + count_deployed_rows(
        a.mcps(),
    ) + count_deployed_rows(a.perms())
}

/// Number of enabled items the plan skips.
pub open spec fn spec_skip_count(a: App) -> nat {
    count_skipped_skills(a.skills()) + count_skipped_rows(a.hooks()) + count_skipped_rows(a.mcps())
        + count_skipped_rows(a.perms())
}

/// The whole preview: a skills section, then hooks, MCP and permission
/// sections when those catalogs are nonempty, then the count line; empty when
/// no plan is open.
pub open spec fn spec_preview(a: App, home: Seq<char>) -> Seq<Seq<char>> {
    if a.deploy_plan is None {
        Seq::empty()
    } else {
        let cfg = a.claude_config_dir@;
        let gskills = spec_tilde(cfg + "/skills"@, home);
        let ghooks = spec_tilde(cfg + "/hooks"@, home);
        let settings = spec_tilde(cfg + "/settings.json"@, home);
        let skills_part = seq!["=== Skills ==="@] + preview_skills(
            a.skills(),
            a.projs(),
            gskills,
            home,
        );
        let hooks_part: Seq<Seq<char>> = if a.hooks().len() > 0 {
            seq![Seq::<char>::empty(), "=== Hooks ==="@] + preview_hooks(a.hooks(), ghooks)
        } else {
            Seq::empty()
        };
        let mcp_part: Seq<Seq<char>> = if a.mcps().len() > 0 {
            seq![Seq::<char>::empty(), "=== MCP ==="@] + preview_rows(
                a.mcps(),
                a.projs(),
                settings,
                "/.mcp.json"@,
                home,
            )
        } else {
            Seq::empty()
        };
        let perm_part: Seq<Seq<char>> = if a.perms().len() > 0 {
            seq![Seq::<char>::empty(), "=== Permissions ==="@] + preview_rows(
                a.perms(),
                a.projs(),
                settings,
                "/.agent/settings.json"@,
                home,
            )
        } else {
            Seq::empty()
        };
        let count_line = spec_decimal(spec_deploy_count(a)) + " to deploy, "@ + spec_decimal(
            spec_skip_count(a),
        ) + " skipped. Press [Y] to confirm."@;
        skills_part + hooks_part + mcp_part + perm_part + seq![Seq::<char>::empty(), count_line]
    }
}

} // verus!

verus! {

proof fn lemma_skill_counts_bounded(ss: Seq<SkillView>)
    ensures
        count_deployed_skills(ss) <= ss.len(),
        count_skipped_skills(ss) <= ss.len(),
    decreases ss.len(),
{
    if ss.len() > 0 {
        lemma_skill_counts_bounded(ss.drop_last());
    }
}

proof fn lemma_row_counts_bounded(rows: Seq<RowView>)
    ensures
        count_deployed_rows(rows) <= rows.len(),
        count_skipped_rows(rows) <= rows.len(),
    decreases rows.len(),
{
    if rows.len() > 0 {
        lemma_row_counts_bounded(rows.drop_last());
    }
}

/// Count the enabled skills a deploy would take and skip.
fn count_skills(rows: &Vec<crate::rows::SkillRow>) -> (r: (usize, usize))
    ensures
        r.0 == count_deployed_skills(Seq::new(rows@.len(), |i: int| rows@[i]@)),
        r.1 == count_skipped_skills(Seq::new(rows@.len(), |i: int| rows@[i]@)),
{
    let ghost sv = Seq::new(rows@.len(), |i: int| rows@[i]@);
    let mut deployed: usize = 0;
    let mut skipped: usize = 0;
    let n = rows.len();
    let mut i: usize = 0;
    while i < n
        invariant
            n == rows@.len(),
            sv == Seq::new(rows@.len(), |i: int| rows@[i]@),
            i <= n,
            deployed == count_deployed_skills(sv.take(i as int)),
            skipped == count_skipped_skills(sv.take(i as int)),
        decreases n - i,
    {
        proof {
            assert(sv.take(i + 1).drop_last() =~= sv.take(i as int));
            assert(sv.take(i + 1).last() == sv[i as int]);
            lemma_skill_counts_bounded(sv.take(i as int));
            assert(sv.take(i as int).len() == i);
        }
        if rows[i].enabled {
            if rows[i].mode.is_skip() {
                skipped = skipped + 1;
            } else {
                deployed = deployed + 1;
            }
        }
        i = i + 1;
    }
    proof {
        assert(sv.take(n as int) =~= sv);
    }
    (deployed, skipped)
}

/// Count the enabled plain rows a deploy would take and skip.
fn count_rows(rows: &Vec<crate::rows::SimpleRow>) -> (r: (usize, usize))
    ensures
        r.0 == count_deployed_rows(Seq::new(rows@.len(), |i: int| rows@[i]@)),
        r.1 == count_skipped_rows(Seq::new(rows@.len(), |i: int| rows@[i]@)),
{
    let ghost sv = Seq::new(rows@.len(), |i: int| rows@[i]@);
    let mut deployed: usize = 0;
    let mut skipped: usize = 0;
    let n = rows.len();
    let mut i: usize = 0;
    while i < n
        invariant
            n == rows@.len(),
            sv == Seq::new(rows@.len(), |i: int| rows@[i]@),
            i <= n,
            deployed == count_deployed_rows(sv.take(i as int)),
            skipped == count_skipped_rows(sv.take(i as int)),
        decreases n - i,
    {
        proof {
            assert(sv.take(i + 1).drop_last() =~= sv.take(i as int));
            assert(sv.take(i + 1).last() == sv[i as int]);
            lemma_row_counts_bounded(sv.take(i as int));
            assert(sv.take(i as int).len() == i);
        }
        if rows[i].enabled {
            if rows[i].mode.is_skip() {
                skipped = skipped + 1;
            } else {
                deployed = deployed + 1;
            }
        }
        i = i + 1;
    }
    proof {
        assert(sv.take(n as int) =~= sv);
    }
    (deployed, skipped)
}

impl App {
    /// Render the confirmation preview for the open plan: every enabled item
    /// with its destinations (home shown as `~`), section by section, and the
    /// closing count line. Empty when no plan is open.
    #[verifier::rlimit(100)]
    pub fn build_preview_lines(&self, home: &str) -> (r: Vec<String>)
        requires
            self.skills().len() + self.hooks().len() + self.mcps().len() + self.perms().len()
                <= usize::MAX,
        ensures
            r.deep_view() == spec_preview(*self, home@),
    {
        let mut lines: Vec<String> = Vec::new();
        if self.deploy_plan.is_none() {
            proof {
                assert(lines.deep_view() =~= spec_preview(*self, home@));
            }
            return lines;
        }
        let ghost homev = home@;
        let mut sk_path = self.claude_config_dir.clone();
        sk_path.append("/skills");
        let gskills = tilde_display(sk_path.as_str(), home);
        let mut hk_path = self.claude_config_dir.clone();
        hk_path.append("/hooks");
        let ghooks = tilde_display(hk_path.as_str(), home);
        let mut st_path = self.claude_config_dir.clone();
        st_path.append("/settings.json");
        let settings = tilde_display(st_path.as_str(), home);
        proof {
            assert(gskills@ == spec_tilde(self.claude_config_dir@ + "/skills"@, homev));
            assert(ghooks@ == spec_tilde(self.claude_config_dir@ + "/hooks"@, homev));
            assert(settings@ == spec_tilde(self.claude_config_dir@ + "/settings.json"@, homev));
        }

        lines.push("=== Skills ===".to_owned());
        proof {
            assert(lines.deep_view() =~= Seq::<Seq<char>>::empty().push("=== Skills ==="@));
        }
        push_skill_previews(&mut lines, self, &gskills, home);
        proof {
            assert(lines.deep_view() =~= seq!["=== Skills ==="@] + preview_skills(
                self.skills(),
                self.projs(),
                gskills@,
                homev,
            ));
        }

        if self.hook_rows.len() > 0 {
            let ghost bh = lines.deep_view();
            lines.push(String::new());
            lines.push("=== Hooks ===".to_owned());
            proof {
                assert(lines.deep_view() =~= bh.push(Seq::<char>::empty()).push("=== Hooks ==="@));
            }
            push_hook_previews(&mut lines, self, &ghooks);
        }
        let ghost done_hooks = lines.deep_view();

        if self.mcp_rows.len() > 0 {
            let ghost bm = lines.deep_view();
            lines.push(String::new());
            lines.push("=== MCP ===".to_owned());
            proof {
                assert(lines.deep_view() =~= bm.push(Seq::<char>::empty()).push("=== MCP ==="@));
            }
            push_row_previews(&mut lines, self, true, &settings, "/.mcp.json", home);
        }
        let ghost done_mcps = lines.deep_view();

        if self.perm_rows.len() > 0 {
            let ghost bp = lines.deep_view();
            lines.push(String::new());
            lines.push("=== Permissions ===".to_owned());
            proof {
                assert(lines.deep_view() =~= bp.push(Seq::<char>::empty()).push(
                    "=== Permissions ==="@,
                ));
            }
            push_row_previews(&mut lines, self, false, &settings, "/.agent/settings.json", home);
        }

        let (sd, ss) = count_skills(&self.skill_rows);
        let (hd, hs) = count_rows(&self.hook_rows);
        let (md, ms) = count_rows(&self.mcp_rows);
        let (pd, ps) = count_rows(&self.perm_rows);
        proof {
            lemma_skill_counts_bounded(self.skills());
            lemma_row_counts_bounded(self.hooks());
            lemma_row_counts_bounded(self.mcps());
            lemma_row_counts_bounded(self.perms());
        }
        let deployed = sd + hd + md + pd;
        let skipped = ss + hs + ms + ps;
        let ghost before_tail = lines.deep_view();
        lines.push(String::new());
        let mut count_line = usize_to_string(deployed);
        count_line.append(" to deploy, ");
        count_line.append(usize_to_string(skipped).as_str());
        count_line.append(" skipped. Press [Y] to confirm.");
        let ghost clv = count_line@;
        lines.push(count_line);
        proof {
            assert(lines.deep_view() =~= before_tail.push(Seq::<char>::empty()).push(clv));
            assert(lines.deep_view() =~= spec_preview(*self, homev));
        }
        lines
    }
}


/// Append the preview lines of the skills catalog.
#[verifier::rlimit(80)]
fn push_skill_previews(lines: &mut Vec<String>, app: &App, gskills: &String, home: &str)
    ensures
        final(lines).deep_view() == old(lines).deep_view() + preview_skills(
            app.skills(),
            app.projs(),
            gskills@,
            home@,
        ),
{
    let ghost base = lines.deep_view();
    let ghost homev = home@;
    let n = app.skill_rows.len();
    let mut i: usize = 0;
    while i < n
        invariant
            n == app.skill_rows@.len(),
            homev == home@,
            i <= n,
            lines.deep_view() =~= base + preview_skills(
                app.skills().take(i as int),
                app.projs(),
                gskills@,
                homev,
            ),
        decreases n - i,
    {
        proof {
            assert(app.skills().take(i + 1).drop_last() =~= app.skills().take(i as int));
            assert(app.skills().take(i + 1).last() == app.skills()[i as int]);
        }
        let ghost before = lines.deep_view();
        let skill = &app.skill_rows[i];
        if skill.enabled {
            if skill.mode.is_skip() {
                let mut line = "  - ".to_owned();
                line.append(skill.name.as_str());
                line.append("  skipped");
                let ghost lv = line@;
                lines.push(line);
                proof {
                    assert(lines.deep_view() =~= before.push(lv));
                    assert(lines.deep_view() =~= before + preview_skill(
                        app.skills()[i as int],
                        app.projs(),
                        gskills@,
                        homev,
                    ));
                }
            } else if skill.mode.is_global() {
                let mut line = "  + ".to_owned();
                line.append(skill.name.as_str());
                line.append("  -> ");
                line.append(gskills.as_str());
                let ghost lv = line@;
                lines.push(line);
                proof {
                    assert(lines.deep_view() =~= before.push(lv));
                }
                let ghost mark2 = lines.deep_view();
                let ghost scripts = app.skills()[i as int].scripts;
                let sn = skill.scripts.len();
                let mut k: usize = 0;
                while k < sn
                    invariant
                        sn == skill.scripts@.len(),
                        scripts == Seq::new(skill.scripts@.len(), |q: int| skill.scripts@[q]@),
                        sn == scripts.len(),
                        k <= sn,
                        lines.deep_view() =~= mark2 + script_path_lines(scripts.take(k as int)),
                    decreases sn - k,
                {
                    proof {
                        assert(scripts.take(k + 1).drop_last() =~= scripts.take(k as int));
                        assert(scripts.take(k + 1).last() == scripts[k as int]);
                    }
                    let ghost b2 = lines.deep_view();
                    if skill.scripts[k].on_path {
                        let mut sline = "      -> ~/.local/bin/".to_owned();
                        sline.append(skill.scripts[k].name.as_str());
                        lines.push(sline);
                        proof {
                            assert(lines.deep_view() =~= b2.push(
                                "      -> ~/.local/bin/"@ + scripts[k as int].name,
                            ));
                        }
                    }
                    proof {
                        assert(lines.deep_view() =~= mark2 + script_path_lines(
                            scripts.take(k + 1),
                        ));
                    }
                    k = k + 1;
                }
                proof {
                    assert(scripts.take(sn as int) =~= scripts);
                    assert(lines.deep_view() =~= before + preview_skill(
                        app.skills()[i as int],
                        app.projs(),
                        gskills@,
                        homev,
                    ));
                }
            } else {
                let mut line = "  + ".to_owned();
                line.append(skill.name.as_str());
                let ghost lv = line@;
                lines.push(line);
                proof {
                    assert(lines.deep_view() =~= before.push(lv));
                }
                let mode_ref = &app.skill_rows[i].mode;
                push_alias_dests(lines, app, mode_ref, "/.agent/skills", home);
                proof {
                    assert(mode_ref@ == app.skills()[i as int].mode);
                    let rest = alias_dest_lines(
                        app.projs(),
                        mode_ref@.aliases(),
                        "/.agent/skills"@,
                        home@,
                    );
                    assert(lines.deep_view() == before.push(lv) + rest);
                    lemma_push_then_add(before, lv, rest);
                    assert(lv == "  + "@ + app.skills()[i as int].name);
                    let sv = app.skills()[i as int];
                    assert(sv.enabled);
                    assert(!sv.mode.is_skip());
                    assert(!(sv.mode is Global));
                    assert(sv.name == skill.name@);
                    assert(homev == home@);
                    assert(preview_skill(sv, app.projs(), gskills@, homev) =~= seq![lv] + rest);
                    assert(lines.deep_view() =~= before + preview_skill(
                        app.skills()[i as int],
                        app.projs(),
                        gskills@,
                        homev,
                    ));
                }
            }
        } else {
            proof {
                assert(preview_skill(
                    app.skills()[i as int],
                    app.projs(),
                    gskills@,
                    homev,
                ) =~= Seq::<Seq<char>>::empty());
            }
        }
        proof {
            assert(lines.deep_view() =~= base + preview_skills(
                app.skills().take(i + 1),
                app.projs(),
                gskills@,
                homev,
            ));
        }
        i = i + 1;
    }
    proof {
        assert(app.skills().take(n as int) =~= app.skills());
    }
}


/// Append the preview lines of the hooks catalog.
fn push_hook_previews(lines: &mut Vec<String>, app: &App, ghooks: &String)
    ensures
        final(lines).deep_view() == old(lines).deep_view() + preview_hooks(app.hooks(), ghooks@),
{
    let ghost base = lines.deep_view();
    let n = app.hook_rows.len();
    let mut i: usize = 0;
    while i < n
        invariant
            n == app.hook_rows@.len(),
            i <= n,
            lines.deep_view() =~= base + preview_hooks(app.hooks().take(i as int), ghooks@),
        decreases n - i,
    {
        proof {
            assert(app.hooks().take(i + 1).drop_last() =~= app.hooks().take(i as int));
            assert(app.hooks().take(i + 1).last() == app.hooks()[i as int]);
        }
        let ghost before = lines.deep_view();
        let hook = &app.hook_rows[i];
        if hook.enabled {
            if hook.mode.is_skip() {
                let mut line = "  - ".to_owned();
                line.append(hook.name.as_str());
                line.append("  skipped");
                let ghost lv = line@;
                lines.push(line);
                proof {
                    assert(lines.deep_view() =~= before.push(lv));
                }
            } else {
                let mut line = "  + ".to_owned();
                line.append(hook.name.as_str());
                line.append("  -> ");
                line.append(ghooks.as_str());
                let ghost lv = line@;
                lines.push(line);
                proof {
                    assert(lines.deep_view() =~= before.push(lv));
                }
            }
        }
        proof {
            assert(lines.deep_view() =~= base + preview_hooks(
                app.hooks().take(i + 1),
                ghooks@,
            ));
        }
        i = i + 1;
    }
    proof {
        assert(app.hooks().take(n as int) =~= app.hooks());
    }
}

/// Pushing one line and then a block is one block of the line and the rest.
proof fn lemma_push_then_add(before: Seq<Seq<char>>, x: Seq<char>, rest: Seq<Seq<char>>)
    ensures
        before.push(x) + rest =~= before + (seq![x] + rest),
{
}

/// Append the destination lines for every alias of a project-assigned row.
fn push_alias_dests(
    lines: &mut Vec<String>,
    app: &App,
    mode: &crate::modes::AssignedMode,
    suffix: &str,
    home: &str,
)
    ensures
        final(lines).deep_view() == old(lines).deep_view() + alias_dest_lines(
            app.projs(),
            mode@.aliases(),
            suffix@,
            home@,
        ),
{
    let ghost base = lines.deep_view();
    match mode {
        crate::modes::AssignedMode::Project(aliases) => {
            let ghost av = aliases.deep_view();
            let n = aliases.len();
            let mut k: usize = 0;
            while k < n
                invariant
                    n == aliases@.len(),
                    av == aliases.deep_view(),
                    av == mode@.aliases(),
                    k <= n,
                    lines.deep_view() =~= base + alias_dest_lines(
                        app.projs(),
                        av.take(k as int),
                        suffix@,
                        home@,
                    ),
                decreases n - k,
            {
                proof {
                    assert(av.take(k + 1).drop_last() =~= av.take(k as int));
                    assert(av.take(k + 1).last() == av[k as int]);
                }
                let ghost before = lines.deep_view();
                match app.project_path_for_alias(aliases[k].as_str()) {
                    Some(path) => {
                        let mut dest = path;
                        dest.append(suffix);
                        let shown = tilde_display(dest.as_str(), home);
                        let mut line = "      -> ".to_owned();
                        line.append(shown.as_str());
                        lines.push(line);
                        proof {
                            let pi = proj_alias_index(app.projs(), av[k as int]);
                            assert(lines.deep_view() =~= before.push(
                                "      -> "@ + spec_tilde(
                                    app.projs()[pi].path + suffix@,
                                    home@,
                                ),
                            ));
                        }
                    },
                    None => {},
                }
                proof {
                    assert(lines.deep_view() =~= base + alias_dest_lines(
                        app.projs(),
                        av.take(k + 1),
                        suffix@,
                        home@,
                    ));
                }
                k = k + 1;
            }
            proof {
                assert(av.take(n as int) =~= av);
            }
        },
        _ => {
            proof {
                assert(mode@.aliases() =~= Seq::<Seq<char>>::empty());
            }
        },
    }
}

/// Append the preview lines of one plain catalog.
fn push_row_previews(
    lines: &mut Vec<String>,
    app: &App,
    mcp: bool,
    gpath: &String,
    suffix: &str,
    home: &str,
)
    ensures
        final(lines).deep_view() == old(lines).deep_view() + preview_rows(
            (if mcp {
                app.mcps()
            } else {
                app.perms()
            }),
            app.projs(),
            gpath@,
            suffix@,
            home@,
        ),
{
    let ghost base = lines.deep_view();
    let ghost rv = if mcp {
        app.mcps()
    } else {
        app.perms()
    };
    let rows = if mcp {
        &app.mcp_rows
    } else {
        &app.perm_rows
    };
    let n = rows.len();
    let mut i: usize = 0;
    while i < n
        invariant
            n == rows@.len(),
            rows == (if mcp {
                &app.mcp_rows
            } else {
                &app.perm_rows
            }),
            rv == (if mcp {
                app.mcps()
            } else {
                app.perms()
            }),
            rv == Seq::new(rows@.len(), |q: int| rows@[q]@),
            i <= n,
            lines.deep_view() =~= base + preview_rows(
                rv.take(i as int),
                app.projs(),
                gpath@,
                suffix@,
                home@,
            ),
        decreases n - i,
    {
        proof {
            assert(rv.take(i + 1).drop_last() =~= rv.take(i as int));
            assert(rv.take(i + 1).last() == rv[i as int]);
        }
        let ghost before = lines.deep_view();
        let row = &rows[i];
        if row.enabled {
            if row.mode.is_skip() {
                let mut line = "  - ".to_owned();
                line.append(row.name.as_str());
                line.append("  skipped");
                let ghost lv = line@;
                lines.push(line);
                proof {
                    assert(lines.deep_view() =~= before.push(lv));
                }
            } else if row.mode.is_global() {
                let mut line = "  + ".to_owned();
                line.append(row.name.as_str());
                line.append("  -> ");
                line.append(gpath.as_str());
                let ghost lv = line@;
                lines.push(line);
                proof {
                    assert(lines.deep_view() =~= before.push(lv));
                }
            } else {
                let mut line = "  + ".to_owned();
                line.append(row.name.as_str());
                let ghost lv = line@;
                lines.push(line);
                proof {
                    assert(lines.deep_view() =~= before.push(lv));
                }
                push_alias_dests(lines, app, &rows[i].mode, suffix, home);
            }
        }
        proof {
            assert(lines.deep_view() =~= base + preview_rows(
                rv.take(i + 1),
                app.projs(),
                gpath@,
                suffix@,
                home@,
            ));
        }
        i = i + 1;
    }
    proof {
        assert(rv.take(n as int) =~= rv);
    }
}

} // verus!
