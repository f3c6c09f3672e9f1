use deploy_rs::app::{basename, App, TAB_PROJECTS, TAB_SKILLS};
use deploy_rs::discovery::{profile_diff, DiscoverResult, DiscoveredItem};
use deploy_rs::modes::Category;
use deploy_rs::results::{DeployResults, DeployStatus};
use deploy_rs::rows::ProjectEntry;
use deploy_rs::strutil::{
    find_last_char, join_strings, str_eq, str_le, str_starts_with, str_strip_prefix, str_trim,
    trim_end_rparens, usize_to_string,
};
use deploy_rs::summary::{append_summary, json_warning_line};

fn items_from(names: &[(&str, bool)]) -> Vec<DiscoveredItem> {
    names
        .iter()
        .map(|(n, e)| DiscoveredItem {
            name: n.to_string(),
            enabled: *e,
            scope: "global".to_string(),
            on_path: None,
        })
        .collect()
}

fn app_of(skills: &[(&str, bool)]) -> App {
    let discover = DiscoverResult {
        repo_root: "/tmp/test".to_string(),
        profiles: vec![],
        skills: items_from(skills),
        hooks: vec![],
        mcp: vec![],
        permissions: vec![],
    };
    App::new(discover, "/tmp".to_string(), "/tmp/.config".to_string())
}

#[test]
fn string_helpers() {
    assert!(str_eq("alpha", "alpha"));
    assert!(!str_eq("alpha", "alphas"));
    assert!(str_starts_with("Deployed: x", "Deployed: "));
    assert!(!str_starts_with("De", "Deployed: "));
    assert_eq!(str_strip_prefix("hook guard", "hook "), Some("guard"));
    assert_eq!(str_strip_prefix("guard", "hook "), None);
    assert_eq!(str_trim("  a b\t"), "a b");
    assert_eq!(str_trim("   "), "");
    assert_eq!(find_last_char("a(b(c", '('), Some(3));
    assert_eq!(find_last_char("abc", '('), None);
    assert_eq!(trim_end_rparens("reason))"), "reason");
    assert!(str_le("abc", "abd"));
    assert!(str_le("ab", "abc"));
    assert!(!str_le("b", "abc"));
}

#[test]
fn decimal_rendering() {
    assert_eq!(usize_to_string(0), "0");
    assert_eq!(usize_to_string(7), "7");
    assert_eq!(usize_to_string(4207), "4207");
    assert_eq!(usize_to_string(1000), "1000");
}

#[test]
fn join_with_separator() {
    let v: Vec<String> = vec![];
    assert_eq!(join_strings(&v, ", "), "");
    let v = vec!["web".to_string()];
    assert_eq!(join_strings(&v, ", "), "web");
    let v = vec!["web".to_string(), "api".to_string()];
    assert_eq!(join_strings(&v, ", "), "web, api");
}

#[test]
fn basenames() {
    assert_eq!(basename("/work/web"), "web");
    assert_eq!(basename("relative"), "relative");
    assert_eq!(basename("/"), "project");
    assert_eq!(basename(""), "project");
}

/// The JSON validity check must come from the real parser: valid input gives
/// no warning, broken input names the file.
#[test]
fn json_warning_through_real_parser() {
    assert_eq!(json_warning_line("~/settings.json", "{\"a\": [1, 2]}"), None);
    assert_eq!(json_warning_line("~/settings.json", "null"), None);
    assert_eq!(
        json_warning_line("~/settings.json", "{broken"),
        Some("  WARNING: ~/settings.json is not valid JSON".to_string())
    );
    assert_eq!(
        json_warning_line("p", ""),
        Some("  WARNING: p is not valid JSON".to_string())
    );
}

#[test]
fn summary_block_exact_lines() {
    let mut results = DeployResults::new();
    results.record(
        "alpha",
        Category::Skills,
        DeployStatus::Deployed,
        "global",
        vec!["OK: alpha".to_string()],
    );
    results.record(
        "beta",
        Category::Skills,
        DeployStatus::Skipped("disabled by config".to_string()),
        "global",
        vec![],
    );
    results.record(
        "gamma",
        Category::Mcp,
        DeployStatus::Error("setup failed".to_string()),
        "global",
        vec![],
    );
    let mut out: Vec<String> = vec!["before".to_string()];
    append_summary(&results, &mut out);
    assert_eq!(
        out,
        vec![
            "before".to_string(),
            "".to_string(),
            "=== Summary ===".to_string(),
            "  Skipped (1):".to_string(),
            "    - beta".to_string(),
            "".to_string(),
            "  Deployed (1):".to_string(),
            "    + alpha -> global".to_string(),
            "        OK: alpha".to_string(),
            "".to_string(),
            "  Errors (1):".to_string(),
            "    ! gamma (setup failed)".to_string(),
            "".to_string(),
        ]
    );
}

#[test]
fn summary_block_empty() {
    let results = DeployResults::new();
    let mut out: Vec<String> = vec![];
    append_summary(&results, &mut out);
    assert_eq!(
        out,
        vec![
            "".to_string(),
            "=== Summary ===".to_string(),
            "  (no items processed)".to_string(),
            "".to_string(),
        ]
    );
}

#[test]
fn unique_alias_skips_taken_candidates() {
    let projects = vec![
        ProjectEntry {
            path: "/a".to_string(),
            alias: "web".to_string(),
        },
        ProjectEntry {
            path: "/b".to_string(),
            alias: "web-2".to_string(),
        },
    ];
    assert_eq!(deploy_rs::app::unique_alias("web", &projects), "web-3");
}

#[test]
fn move_skips_disabled_rows() {
    let mut app = app_of(&[("a", true), ("b", false), ("c", true)]);
    assert_eq!(app.cursors[TAB_SKILLS], 0);
    app.move_down();
    // the disabled skill in the middle is skipped
    assert_eq!(app.cursors[TAB_SKILLS], 2);
    app.move_down();
    assert_eq!(app.cursors[TAB_SKILLS], 0);
    app.move_up();
    assert_eq!(app.cursors[TAB_SKILLS], 2);
}

#[test]
fn delete_clamps_cursor() {
    let mut app = app_of(&[("a", true)]);
    app.projects.push(ProjectEntry {
        path: "/one".to_string(),
        alias: "one".to_string(),
    });
    app.projects.push(ProjectEntry {
        path: "/two".to_string(),
        alias: "two".to_string(),
    });
    app.active_tab = TAB_PROJECTS;
    app.cursors[TAB_PROJECTS] = 1;
    app.delete_project();
    assert_eq!(app.projects.len(), 1);
    assert_eq!(app.cursors[TAB_PROJECTS], 0);
}

#[test]
fn edit_alias_rejects_collision_and_empty() {
    let mut app = app_of(&[("a", true)]);
    app.projects.push(ProjectEntry {
        path: "/one".to_string(),
        alias: "one".to_string(),
    });
    app.projects.push(ProjectEntry {
        path: "/two".to_string(),
        alias: "two".to_string(),
    });
    app.active_tab = TAB_PROJECTS;
    app.cursors[TAB_PROJECTS] = 0;

    app.alias_input = "   ".to_string();
    assert!(!app.confirm_edit_alias());
    assert_eq!(app.projects[0].alias, "one");

    app.alias_input = "two".to_string();
    assert!(!app.confirm_edit_alias());
    assert_eq!(app.projects[0].alias, "one");

    app.alias_input = " fresh ".to_string();
    assert!(app.confirm_edit_alias());
    assert_eq!(app.projects[0].alias, "fresh");
}

#[test]
fn rename_cascades_into_items() {
    let mut app = app_of(&[("a", true)]);
    app.projects.push(ProjectEntry {
        path: "/one".to_string(),
        alias: "one".to_string(),
    });
    app.toggle_project(1);
    assert_eq!(
        app.skill_rows[0].mode,
        deploy_rs::modes::AssignedMode::Project(vec!["one".to_string()])
    );
    app.active_tab = TAB_PROJECTS;
    app.cursors[TAB_PROJECTS] = 0;
    app.alias_input = "uno".to_string();
    assert!(app.confirm_edit_alias());
    assert_eq!(
        app.skill_rows[0].mode,
        deploy_rs::modes::AssignedMode::Project(vec!["uno".to_string()])
    );
}

#[test]
fn scroll_saturates() {
    let mut app = app_of(&[("a", true)]);
    app.deploy_output = vec!["x".to_string(), "y".to_string(), "z".to_string()];
    app.scroll_up(10);
    assert_eq!(app.scroll_offset, 2);
    app.scroll_down(1);
    assert_eq!(app.scroll_offset, 1);
    app.scroll_to_bottom();
    assert_eq!(app.scroll_offset, 0);
    app.scroll_to_top();
    assert_eq!(app.scroll_offset, 2);
}

#[test]
fn profile_diff_added_and_removed() {
    let discover = DiscoverResult {
        repo_root: "/tmp".to_string(),
        profiles: vec![],
        skills: items_from(&[("alpha", true), ("beta", true)]),
        hooks: items_from(&[("guard", true)]),
        mcp: vec![],
        permissions: vec![],
    };
    let diff = profile_diff(
        &discover,
        &vec!["beta".to_string(), "gone".to_string()],
        &vec![],
        &vec![],
        &vec![],
    );
    assert_eq!(diff.added.skills, vec!["alpha".to_string()]);
    assert_eq!(diff.removed.skills, vec!["gone".to_string()]);
    assert_eq!(diff.added.hooks, vec!["guard".to_string()]);
    assert!(diff.removed.hooks.is_empty());
}

#[test]
fn confirm_add_project_rejects_duplicate_path() {
    let mut app = app_of(&[("a", true)]);
    assert!(app.confirm_add_project(Some("/work/web".to_string())));
    assert_eq!(app.projects[0].alias, "web");
    // same path again: prompt closes, nothing added
    assert!(!app.confirm_add_project(Some("/work/web".to_string())));
    assert_eq!(app.projects.len(), 1);
    // another directory with the same final component gets a fresh alias
    assert!(app.confirm_add_project(Some("/other/web".to_string())));
    assert_eq!(app.projects[1].alias, "web-2");
    // not a directory: nothing happens
    assert!(!app.confirm_add_project(None));
    assert_eq!(app.projects.len(), 2);
}

#[test]
fn preview_lines_render_sections() {
    let discover = DiscoverResult {
        repo_root: "/tmp/test".to_string(),
        profiles: vec![],
        skills: items_from(&[("alpha", true), ("beta", true)]),
        hooks: items_from(&[("guard", true)]),
        mcp: vec![],
        permissions: vec![],
    };
    let mut app = App::new(discover, "/repo".to_string(), "/home/u/.agent".to_string());
    app.projects.push(ProjectEntry {
        path: "/home/u/work/web".to_string(),
        alias: "web".to_string(),
    });
    app.skill_rows[1].mode = deploy_rs::modes::AssignedMode::Project(vec!["web".to_string()]);
    app.hook_rows[0].mode = deploy_rs::modes::AssignedMode::Skip;
    let plan = app.build_deploy_plan();
    app.start_dry_run(plan);

    let lines = app.build_preview_lines("/home/u");
    assert_eq!(
        lines,
        vec![
            "=== Skills ===".to_string(),
            "  + alpha  -> ~/.agent/skills".to_string(),
            "  + beta".to_string(),
            "      -> ~/work/web/.agent/skills".to_string(),
            "".to_string(),
            "=== Hooks ===".to_string(),
            "  - guard  skipped".to_string(),
            "".to_string(),
            "2 to deploy, 1 skipped. Press [Y] to confirm.".to_string(),
        ]
    );
}

#[test]
fn preview_empty_without_plan() {
    let app = app_of(&[("a", true)]);
    assert!(app.build_preview_lines("/home/u").is_empty());
}

#[test]
fn lcp_of_directory_names() {
    let strings = vec![
        "deploy-tools".to_string(),
        "deploy-test".to_string(),
        "deploy-temp".to_string(),
    ];
    assert_eq!(
        deploy_rs::strutil::longest_common_prefix(&strings),
        "deploy-t"
    );
    let empty: Vec<String> = vec![];
    assert_eq!(deploy_rs::strutil::longest_common_prefix(&empty), "");
    let one = vec!["alone".to_string()];
    assert_eq!(deploy_rs::strutil::longest_common_prefix(&one), "alone");
}

#[test]
fn target_counts_by_badge() {
    let mut app = app_of(&[("a", true), ("b", true), ("c", false)]);
    app.skill_rows[1].mode = deploy_rs::modes::AssignedMode::Skip;
    let counts = app.target_counts();
    assert_eq!(
        counts,
        vec![("GLOBAL".to_string(), 1usize), ("SKIP".to_string(), 1usize)]
    );
}
