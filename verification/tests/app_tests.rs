use deploy_rs::app::{App, TAB_HOOKS, TAB_MCP, TAB_PROJECTS, TAB_SKILLS, unique_alias};
use deploy_rs::discovery::{DiscoverResult, DiscoveredItem};
use deploy_rs::modes::{AssignedMode, Category};
use deploy_rs::results::{DeployResults, DeployStatus};
use deploy_rs::rows::{InputMode, ProjectEntry, ScriptEntry, SkillPos};

fn make_items(items: &[(&str, bool)]) -> Vec<DiscoveredItem> {
    items
        .iter()
        .map(|(name, enabled)| DiscoveredItem {
            name: name.to_string(),
            enabled: *enabled,
            scope: "global".to_string(),
            on_path: None,
        })
        .collect()
}

fn make_discover_result(
    skills: &[(&str, bool)],
    hooks: &[(&str, bool)],
    mcp: &[(&str, bool)],
    perms: &[(&str, bool)],
) -> DiscoverResult {
    DiscoverResult {
        repo_root: "/tmp/test".to_string(),
        profiles: vec![],
        skills: make_items(skills),
        hooks: make_items(hooks),
        mcp: make_items(mcp),
        permissions: make_items(perms),
    }
}

fn make_app(
    skills: &[(&str, bool)],
    hooks: &[(&str, bool)],
    mcp: &[(&str, bool)],
    perms: &[(&str, bool)],
) -> App {
    let discover = make_discover_result(skills, hooks, mcp, perms);
    App::new(
        discover,
        "/tmp".to_string(),
        "/tmp/.config".to_string(),
    )
}

#[test]
fn test_new_populates_from_discover() {
    let app = make_app(
        &[("catchup", true), ("jar-explore", true)],
        &[("bash-safety", true)],
        &[],
        &[("git", true)],
    );

    assert_eq!(app.skill_rows.len(), 2);
    assert_eq!(app.skill_rows[0].name, "catchup");
    assert_eq!(app.hook_rows.len(), 1);
    assert_eq!(app.hook_rows[0].name, "bash-safety");
    assert_eq!(app.perm_rows.len(), 1);
    assert_eq!(app.perm_rows[0].name, "git");
}

#[test]
fn test_tab_switching() {
    let mut app = make_app(&[("a", true)], &[("b", true)], &[], &[]);

    assert_eq!(app.active_tab, TAB_SKILLS);
    app.next_tab();
    assert_eq!(app.active_tab, TAB_HOOKS);
    app.next_tab();
    assert_eq!(app.active_tab, TAB_MCP);
    app.prev_tab();
    assert_eq!(app.active_tab, TAB_HOOKS);

    // Wrap around
    app.active_tab = TAB_PROJECTS;
    app.next_tab();
    assert_eq!(app.active_tab, TAB_SKILLS);

    app.prev_tab();
    assert_eq!(app.active_tab, TAB_PROJECTS);
}

#[test]
fn test_cycle_target_global_skip() {
    let mut app = make_app(&[("a", true)], &[], &[], &[]);

    // Default is Global
    assert_eq!(app.skill_rows[0].mode, AssignedMode::Global);

    // No projects: Global -> Skip -> Global
    app.cycle_target();
    assert_eq!(app.skill_rows[0].mode, AssignedMode::Skip);

    app.cycle_target();
    assert_eq!(app.skill_rows[0].mode, AssignedMode::Global);
}

#[test]
fn test_cycle_target_with_projects() {
    let mut app = make_app(&[("a", true)], &[], &[], &[]);
    app.projects.push(ProjectEntry {
        path: "/work/proj-a".to_string(),
        alias: "proj-a".to_string(),
    });

    // Global -> Project([]) -> Skip -> Global (no auto-modal)
    app.cycle_target();
    assert!(matches!(&app.skill_rows[0].mode, AssignedMode::Project(a) if a.is_empty()));
    assert_eq!(app.input_mode, InputMode::Normal); // no modal opened

    app.cycle_target();
    assert_eq!(app.skill_rows[0].mode, AssignedMode::Skip);

    app.cycle_target();
    assert_eq!(app.skill_rows[0].mode, AssignedMode::Global);
}

#[test]
fn test_project_modal_from_p_key() {
    let mut app = make_app(&[("a", true)], &[], &[], &[]);
    app.projects.push(ProjectEntry {
        path: "/work/web".to_string(),
        alias: "web".to_string(),
    });
    app.projects.push(ProjectEntry {
        path: "/work/api".to_string(),
        alias: "api".to_string(),
    });

    // Open modal via P key (from Global mode)
    app.open_project_modal("a");
    assert_eq!(app.input_mode, InputMode::SelectProjects);

    // Select first project and confirm -> sets to Project mode
    app.modal_selections[0] = true;
    app.confirm_project_modal();
    assert_eq!(
        app.skill_rows[0].mode,
        AssignedMode::Project(vec!["web".to_string()])
    );
    assert_eq!(app.input_mode, InputMode::Normal);
}

#[test]
fn test_project_modal_cancel_reverts() {
    let mut app = make_app(&[("a", true)], &[], &[], &[]);
    app.projects.push(ProjectEntry {
        path: "/work/web".to_string(),
        alias: "web".to_string(),
    });

    // Start from Global, open modal, cancel -> stays Global
    app.open_project_modal("a");
    app.cancel_project_modal();
    assert_eq!(app.skill_rows[0].mode, AssignedMode::Global);
    assert_eq!(app.input_mode, InputMode::Normal);
}

#[test]
fn test_project_modal_empty_confirm_goes_to_skip() {
    let mut app = make_app(&[("a", true)], &[], &[], &[]);
    app.projects.push(ProjectEntry {
        path: "/work/web".to_string(),
        alias: "web".to_string(),
    });

    // Open modal, confirm with nothing selected -> Skip
    app.open_project_modal("a");
    app.confirm_project_modal();
    assert_eq!(app.skill_rows[0].mode, AssignedMode::Skip);
}

#[test]
fn test_project_mode_remembers_selections() {
    let mut app = make_app(&[("a", true)], &[], &[], &[]);
    app.projects.push(ProjectEntry {
        path: "/work/web".to_string(),
        alias: "web".to_string(),
    });

    // Set to Project with "web"
    app.open_project_modal("a");
    app.modal_selections[0] = true;
    app.confirm_project_modal();
    assert_eq!(
        app.skill_rows[0].mode,
        AssignedMode::Project(vec!["web".to_string()])
    );

    // Cycle away to Skip, then back to Global
    app.cycle_target(); // Project -> Skip
    assert_eq!(app.skill_rows[0].mode, AssignedMode::Skip);
    app.cycle_target(); // Skip -> Global
    assert_eq!(app.skill_rows[0].mode, AssignedMode::Global);

    // Cycle to Project again — selections are empty (fresh cycle)
    app.cycle_target(); // Global -> Project([])
    assert!(matches!(&app.skill_rows[0].mode, AssignedMode::Project(a) if a.is_empty()));
}

#[test]
fn test_deploy_results_aggregator() {
    let mut results = DeployResults::new();

    // First pass: item deployed globally
    results.record(
        "session",
        Category::Skills,
        DeployStatus::Deployed,
        "global",
        vec![],
    );
    // Second pass: same item skipped in project pass
    results.record(
        "session",
        Category::Skills,
        DeployStatus::Skipped("filtered out".to_string()),
        "project:web",
        vec![],
    );

    // Deployed should win
    assert_eq!(results.deployed().len(), 1);
    assert_eq!(results.skipped().len(), 0);
    assert_eq!(results.deployed()[0].targets.len(), 2);
}

#[test]
fn test_deploy_results_skipped_upgrades_to_deployed() {
    let mut results = DeployResults::new();

    // First pass: skipped globally
    results.record(
        "jar",
        Category::Skills,
        DeployStatus::Skipped("filtered out".to_string()),
        "global",
        vec![],
    );
    // Second pass: deployed in project
    results.record(
        "jar",
        Category::Skills,
        DeployStatus::Deployed,
        "project:web",
        vec![],
    );

    assert_eq!(results.deployed().len(), 1);
    assert_eq!(results.skipped().len(), 0);
}

#[test]
fn test_hooks_only_global_or_skip() {
    let mut app = make_app(&[], &[("my-hook", true)], &[], &[]);
    app.active_tab = TAB_HOOKS;
    app.projects.push(ProjectEntry {
        path: "/work/proj-a".to_string(),
        alias: "proj-a".to_string(),
    });

    assert_eq!(app.hook_rows[0].mode, AssignedMode::Global);

    app.cycle_target();
    assert_eq!(app.hook_rows[0].mode, AssignedMode::Skip);

    app.cycle_target();
    assert_eq!(app.hook_rows[0].mode, AssignedMode::Global);
}

#[test]
fn test_toggle_project() {
    let mut app = make_app(&[("a", true)], &[], &[], &[]);
    app.projects.push(ProjectEntry {
        path: "/work/web".to_string(),
        alias: "web".to_string(),
    });
    app.projects.push(ProjectEntry {
        path: "/work/api".to_string(),
        alias: "api".to_string(),
    });

    // Toggle project 1
    app.toggle_project(1);
    assert_eq!(
        app.skill_rows[0].mode,
        AssignedMode::Project(vec!["web".to_string()])
    );

    // Toggle project 2
    app.toggle_project(2);
    assert_eq!(
        app.skill_rows[0].mode,
        AssignedMode::Project(vec!["web".to_string(), "api".to_string()])
    );

    // Un-toggle project 1
    app.toggle_project(1);
    assert_eq!(
        app.skill_rows[0].mode,
        AssignedMode::Project(vec!["api".to_string()])
    );

    // Un-toggle project 2 -> reverts to Skip
    app.toggle_project(2);
    assert_eq!(app.skill_rows[0].mode, AssignedMode::Skip);
}

#[test]
fn test_all_global() {
    let mut app = make_app(&[("a", true), ("b", true)], &[("c", true)], &[], &[]);

    app.skip_all();
    assert!(app.skill_rows.iter().all(|s| s.mode == AssignedMode::Skip));
    assert!(app.hook_rows.iter().all(|h| h.mode == AssignedMode::Skip));

    app.all_global();
    assert!(app
        .skill_rows
        .iter()
        .all(|s| s.mode == AssignedMode::Global));
    assert!(app.hook_rows.iter().all(|h| h.mode == AssignedMode::Global));
}

#[test]
fn test_add_project() {
    let mut app = make_app(&[("a", true)], &[], &[], &[]);

    assert!(app.projects.is_empty());

    app.start_add_project();
    assert_eq!(app.input_mode, InputMode::AddProject);

    // Use /tmp which exists
    app.project_input = "/tmp".to_string();
    let ok = app.confirm_add_project(Some("/tmp".to_string()));
    assert!(ok);
    assert_eq!(app.input_mode, InputMode::Normal);
    assert_eq!(app.projects.len(), 1);
}

#[test]
fn test_cancel_add_project() {
    let mut app = make_app(&[("a", true)], &[], &[], &[]);
    app.start_add_project();
    app.project_input = "some-text".to_string();
    app.cancel_add_project();

    assert_eq!(app.input_mode, InputMode::Normal);
    assert!(app.project_input.is_empty());
}

#[test]
fn test_delete_project_removes_assignments() {
    let mut app = make_app(&[("a", true)], &[], &[], &[]);
    app.projects.push(ProjectEntry {
        path: "/work/web".to_string(),
        alias: "web".to_string(),
    });

    // Assign skill to this project
    app.toggle_project(1);
    assert_eq!(
        app.skill_rows[0].mode,
        AssignedMode::Project(vec!["web".to_string()])
    );

    // Delete project
    app.active_tab = TAB_PROJECTS;
    app.cursors[TAB_PROJECTS] = 0;
    app.delete_project();

    assert!(app.projects.is_empty());
    assert_eq!(app.skill_rows[0].mode, AssignedMode::Skip); // reverted
}

#[test]
fn test_build_deploy_plan() {
    let mut app = make_app(&[("a", true), ("b", true), ("c", true)], &[], &[], &[]);
    app.projects.push(ProjectEntry {
        path: "/work/proj".to_string(),
        alias: "proj".to_string(),
    });

    // b -> project "proj"
    app.cursors[TAB_SKILLS] = 1; // flat index 1 = skill "b" (no scripts)
    app.toggle_project(1);

    // c -> skip
    app.cursors[TAB_SKILLS] = 2;
    app.cycle_target(); // Global -> Project([])
    app.cycle_target(); // Project -> Skip

    let plan = app.build_deploy_plan();
    assert!(plan.global_items.contains(&"a".to_string()));
    assert!(!plan.global_items.contains(&"b".to_string()));
    assert!(!plan.global_items.contains(&"c".to_string()));
    assert_eq!(plan.project_items.len(), 1);
    assert_eq!(plan.project_items[0].0, "/work/proj".to_string());
    assert!(plan.project_items[0].1.contains(&"b".to_string()));
}

#[test]
fn test_on_path_clears_on_mode_change() {
    let mut app = make_app(&[("a", true)], &[], &[], &[]);
    // Add a script by hand: script discovery is the caller's business
    app.skill_rows[0].scripts.push(ScriptEntry {
        name: "my-script".to_string(),
        on_path: true,
    });

    assert!(app.skill_rows[0].scripts[0].on_path);

    // Switch to Skip
    app.cycle_target();
    assert_eq!(app.skill_rows[0].mode, AssignedMode::Skip);
    assert!(!app.skill_rows[0].scripts[0].on_path); // cleared
}

#[test]
fn test_skill_flat_mapping() {
    let mut app = make_app(&[("a", true), ("b", true)], &[], &[], &[]);
    // Add scripts by hand
    app.skill_rows[0].scripts = vec![
        ScriptEntry {
            name: "s1".to_string(),
            on_path: false,
        },
        ScriptEntry {
            name: "s2".to_string(),
            on_path: false,
        },
    ];
    app.skill_rows[1].scripts = vec![ScriptEntry {
        name: "s3".to_string(),
        on_path: false,
    }];

    // Flat: 0=a, 1=s1, 2=s2, 3=b, 4=s3
    assert_eq!(app.skill_flat_len(), 5);
    assert_eq!(app.skill_flat_to_pos(0), Some(SkillPos::Skill(0)));
    assert_eq!(app.skill_flat_to_pos(1), Some(SkillPos::Script(0, 0)));
    assert_eq!(app.skill_flat_to_pos(2), Some(SkillPos::Script(0, 1)));
    assert_eq!(app.skill_flat_to_pos(3), Some(SkillPos::Skill(1)));
    assert_eq!(app.skill_flat_to_pos(4), Some(SkillPos::Script(1, 0)));
    assert_eq!(app.skill_flat_to_pos(5), None);

    // Reverse mapping
    assert_eq!(app.skill_pos_to_flat(&SkillPos::Skill(0)), 0);
    assert_eq!(app.skill_pos_to_flat(&SkillPos::Script(0, 1)), 2);
    assert_eq!(app.skill_pos_to_flat(&SkillPos::Skill(1)), 3);
}

#[test]
fn test_badge_display() {
    assert_eq!(AssignedMode::Global.badge(), "GLOBAL");
    assert_eq!(AssignedMode::Skip.badge(), "SKIP");
    // All Project modes show "PROJECT" in badge
    assert_eq!(
        AssignedMode::Project(vec!["web".to_string()]).badge(),
        "PROJECT"
    );
    assert_eq!(AssignedMode::Project(vec![]).badge(), "PROJECT");
}

#[test]
fn test_project_label() {
    assert_eq!(AssignedMode::Global.project_label(), None);
    assert_eq!(AssignedMode::Skip.project_label(), None);
    assert_eq!(AssignedMode::Project(vec![]).project_label(), None);
    assert_eq!(
        AssignedMode::Project(vec!["web".to_string()]).project_label(),
        Some("web".to_string())
    );
    assert_eq!(
        AssignedMode::Project(vec!["web".to_string(), "api".to_string()]).project_label(),
        Some("web, api".to_string())
    );
}

#[test]
fn test_unique_alias() {
    let projects = vec![ProjectEntry {
        path: "/a".to_string(),
        alias: "web".to_string(),
    }];
    assert_eq!(unique_alias("api", &projects), "api");
    assert_eq!(unique_alias("web", &projects), "web-2");
}
