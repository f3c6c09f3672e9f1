use deploy_rs::app::{App, TAB_SKILLS};
use deploy_rs::discovery::{DiscoverResult, DiscoveredItem};
use deploy_rs::modes::{AssignedMode, Category};
use deploy_rs::parser::parse_deploy_results;
use deploy_rs::results::{DeployResults, DeployStatus};
use deploy_rs::rows::ProjectEntry;

fn single_skill_app(name: &str) -> App {
    let discover = DiscoverResult {
        repo_root: "/tmp/test".to_string(),
        profiles: vec![],
        skills: vec![DiscoveredItem {
            name: name.to_string(),
            enabled: true,
            scope: "global".to_string(),
            on_path: None,
        }],
        hooks: vec![],
        mcp: vec![],
        permissions: vec![],
    };
    App::new(discover, "/tmp".to_string(), "/tmp/.config".to_string())
}

/// Cycling once with one project registered parks the item in an empty
/// `Project`; picking the project in the modal assigns it; the plan then
/// carries the item in that project's list and not in the global one.
#[test]
fn alpha_cycled_picked_and_planned() {
    let mut app = single_skill_app("alpha");
    app.projects.push(ProjectEntry {
        path: "/work/web".to_string(),
        alias: "web".to_string(),
    });

    app.cursors[TAB_SKILLS] = 0;
    app.cycle_target();
    assert_eq!(app.skill_rows[0].mode, AssignedMode::Project(vec![]));

    app.open_project_modal("alpha");
    app.modal_selections[0] = true;
    app.confirm_project_modal();
    assert_eq!(
        app.skill_rows[0].mode,
        AssignedMode::Project(vec!["web".to_string()])
    );

    let plan = app.build_deploy_plan();
    assert!(!plan.global_items.contains(&"alpha".to_string()));
    assert_eq!(plan.project_items.len(), 1);
    assert_eq!(plan.project_items[0].0, "/work/web".to_string());
    assert_eq!(plan.project_items[0].1, vec!["alpha".to_string()]);
}

/// The parser decodes one deployed item with a detail line and one skipped
/// item with a reason and no details.
#[test]
fn parser_two_results() {
    let lines: Vec<String> = vec![
        "=== Skills ===".to_string(),
        "  Deployed: x".to_string(),
        "    OK: ~/tools/x".to_string(),
        "  Skipped: y (filtered out)".to_string(),
    ];
    let mut results = DeployResults::new();
    parse_deploy_results(&lines, "global", &mut results);

    let deployed = results.deployed();
    assert_eq!(deployed.len(), 1);
    assert_eq!(deployed[0].name, "x");
    assert_eq!(deployed[0].details, vec!["OK: ~/tools/x".to_string()]);
    assert_eq!(deployed[0].targets, vec!["global".to_string()]);

    let skipped = results.skipped();
    assert_eq!(skipped.len(), 1);
    assert_eq!(skipped[0].name, "y");
    assert_eq!(
        skipped[0].status,
        DeployStatus::Skipped("filtered out".to_string())
    );
    assert!(skipped[0].details.is_empty());
}

/// A skip observed first and a deployment observed later end as `Deployed`
/// with both target labels, in order.
#[test]
fn aggregator_upgrade_keeps_targets() {
    let mut results = DeployResults::new();
    results.record(
        "alpha",
        Category::Skills,
        DeployStatus::Skipped("filtered".to_string()),
        "global",
        vec![],
    );
    results.record(
        "alpha",
        Category::Skills,
        DeployStatus::Deployed,
        "project:web",
        vec![],
    );

    let deployed = results.deployed();
    assert_eq!(deployed.len(), 1);
    assert_eq!(deployed[0].status, DeployStatus::Deployed);
    assert_eq!(
        deployed[0].targets,
        vec!["global".to_string(), "project:web".to_string()]
    );
}

/// An error overwrites anything and is never overwritten.
#[test]
fn aggregator_error_wins() {
    let mut results = DeployResults::new();
    results.record(
        "beta",
        Category::Mcp,
        DeployStatus::Deployed,
        "global",
        vec![],
    );
    results.record(
        "beta",
        Category::Mcp,
        DeployStatus::Error("boom".to_string()),
        "project:web",
        vec![],
    );
    results.record(
        "beta",
        Category::Mcp,
        DeployStatus::Deployed,
        "project:api",
        vec![],
    );

    let errors = results.errors();
    assert_eq!(errors.len(), 1);
    assert_eq!(errors[0].status, DeployStatus::Error("boom".to_string()));
    assert_eq!(errors[0].targets.len(), 3);
    assert!(results.deployed().is_empty());
}

/// A repeated target label is recorded only once.
#[test]
fn aggregator_no_duplicate_targets() {
    let mut results = DeployResults::new();
    results.record(
        "gamma",
        Category::Hooks,
        DeployStatus::Deployed,
        "global",
        vec![],
    );
    results.record(
        "gamma",
        Category::Hooks,
        DeployStatus::Deployed,
        "global",
        vec!["Linked: x".to_string()],
    );
    let deployed = results.deployed();
    assert_eq!(deployed[0].targets, vec!["global".to_string()]);
    assert_eq!(deployed[0].details, vec!["Linked: x".to_string()]);
}

/// The parser strips the `hook ` prefix the log writes for hooks, keeps
/// category context, and ignores lines outside the grammar.
#[test]
fn parser_hooks_and_noise() {
    let lines: Vec<String> = vec![
        "random noise".to_string(),
        "  Deployed: ignored-before-any-category".to_string(),
        "=== Hooks ===".to_string(),
        "  Deployed: hook guard".to_string(),
        "=== Permissions ===".to_string(),
        "  Included: git".to_string(),
    ];
    let mut results = DeployResults::new();
    parse_deploy_results(&lines, "global", &mut results);

    let deployed = results.deployed();
    assert_eq!(deployed.len(), 2);
    assert_eq!(deployed[0].name, "guard");
    assert_eq!(deployed[0].category, Category::Hooks);
    assert_eq!(deployed[1].name, "git");
    assert_eq!(deployed[1].category, Category::Permissions);
}

/// A skipped line without a parenthesised reason is tolerated.
#[test]
fn parser_skip_without_reason() {
    let lines: Vec<String> = vec![
        "=== MCP ===".to_string(),
        "  Skipped: context7".to_string(),
    ];
    let mut results = DeployResults::new();
    parse_deploy_results(&lines, "global", &mut results);
    let skipped = results.skipped();
    assert_eq!(skipped.len(), 1);
    assert_eq!(skipped[0].name, "context7");
    assert_eq!(
        skipped[0].status,
        DeployStatus::Skipped("unknown".to_string())
    );
}

/// Project lists of the plan are ordered by path, and per-skill PATH scripts
/// ride along only for enabled global skills.
#[test]
fn plan_orders_projects_by_path() {
    let mut app = single_skill_app("alpha");
    app.projects.push(ProjectEntry {
        path: "/work/zeta".to_string(),
        alias: "zeta".to_string(),
    });
    app.projects.push(ProjectEntry {
        path: "/work/api".to_string(),
        alias: "api".to_string(),
    });
    app.skill_rows[0].mode =
        AssignedMode::Project(vec!["zeta".to_string(), "api".to_string()]);

    let plan = app.build_deploy_plan();
    assert_eq!(plan.project_items.len(), 2);
    assert_eq!(plan.project_items[0].0, "/work/api".to_string());
    assert_eq!(plan.project_items[1].0, "/work/zeta".to_string());
    assert!(plan.on_path_scripts.is_empty());
}
