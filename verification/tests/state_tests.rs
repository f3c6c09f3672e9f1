use deploy_rs::app::App;
use deploy_rs::discovery::{DiscoverResult, DiscoveredItem};
use deploy_rs::modes::AssignedMode;
use deploy_rs::rows::{ProjectEntry, ScriptEntry};
use deploy_rs::state::{apply_state, capture_state, AssignmentState, ProjectState, TuiState};

fn make_state_app() -> App {
    let discover = DiscoverResult {
        repo_root: "/tmp/test".to_string(),
        profiles: vec![],
        skills: vec![DiscoveredItem {
            name: "catchup".to_string(),
            enabled: true,
            scope: "global".to_string(),
            on_path: None,
        }],
        hooks: vec![DiscoveredItem {
            name: "my-hook".to_string(),
            enabled: true,
            scope: "global".to_string(),
            on_path: None,
        }],
        mcp: vec![],
        permissions: vec![],
    };
    let mut app = App::new(
        discover,
        "/tmp".to_string(),
        "/tmp/.config".to_string(),
    );
    // Add a script by hand: script discovery is the caller's business
    app.skill_rows[0].scripts.push(ScriptEntry {
        name: "my-script".to_string(),
        on_path: true,
    });
    app
}

#[test]
fn test_capture_and_apply_roundtrip() {
    let mut app = make_state_app();
    app.projects.push(ProjectEntry {
        path: "/tmp".to_string(),
        alias: "tmp".to_string(),
    });

    let state = capture_state(&app);

    // Verify capture
    assert_eq!(state.projects.len(), 1);
    assert_eq!(state.projects[0].alias, "tmp");
    let catchup = &state
        .assignments
        .iter()
        .find(|(name, _)| name == "catchup")
        .unwrap()
        .1;
    assert_eq!(catchup.mode, "global");
    assert_eq!(catchup.on_path_scripts, vec!["my-script"]);

    // Apply to a fresh app; the one stored project path still exists
    let mut app2 = make_state_app();
    apply_state(&mut app2, &state, &vec![true]);

    assert_eq!(app2.projects.len(), 1);
    assert_eq!(app2.projects[0].alias, "tmp");
    assert!(app2.skill_rows[0].scripts[0].on_path);
}

#[test]
fn test_stale_project_removed() {
    let state = TuiState {
        projects: vec![ProjectState {
            path: "/nonexistent/path".to_string(),
            alias: "gone".to_string(),
        }],
        assignments: vec![],
    };

    let mut app = make_state_app();
    // The stored path no longer exists
    apply_state(&mut app, &state, &vec![false]);

    // Stale project should be removed
    assert!(app.projects.is_empty());
}

#[test]
fn test_unknown_item_ignored() {
    let state = TuiState {
        projects: vec![],
        assignments: vec![(
            "nonexistent-tool".to_string(),
            AssignmentState {
                mode: "global".to_string(),
                projects: vec![],
                on_path_scripts: vec![],
            },
        )],
    };

    let mut app = make_state_app();
    apply_state(&mut app, &state, &vec![]);
    // Should not panic or error
    assert_eq!(app.skill_rows[0].mode, AssignedMode::Global);
}

#[test]
fn test_capture_normalizes_empty_project_mode() {
    let mut app = make_state_app();
    app.skill_rows[0].mode = AssignedMode::Project(vec![]);
    let state = capture_state(&app);
    let catchup = &state
        .assignments
        .iter()
        .find(|(name, _)| name == "catchup")
        .unwrap()
        .1;
    // Project of nothing never round-trips: it is stored as skip
    assert_eq!(catchup.mode, "skip");
    assert!(catchup.projects.is_empty());
}

#[test]
fn test_roundtrip_project_mode_and_hooks() {
    let mut app = make_state_app();
    app.projects.push(ProjectEntry {
        path: "/work/web".to_string(),
        alias: "web".to_string(),
    });
    app.skill_rows[0].mode = AssignedMode::Project(vec!["web".to_string()]);
    app.skill_rows[0].scripts[0].on_path = false;
    app.hook_rows[0].mode = AssignedMode::Skip;

    let state = capture_state(&app);
    let mut app2 = make_state_app();
    // a freshly discovered catalog starts with no PATH flags
    app2.skill_rows[0].scripts[0].on_path = false;
    apply_state(&mut app2, &state, &vec![true]);

    assert_eq!(
        app2.skill_rows[0].mode,
        AssignedMode::Project(vec!["web".to_string()])
    );
    assert_eq!(app2.hook_rows[0].mode, AssignedMode::Skip);
    assert!(!app2.skill_rows[0].scripts[0].on_path);
}

#[test]
fn test_apply_drops_stale_alias() {
    let state = TuiState {
        projects: vec![],
        assignments: vec![(
            "catchup".to_string(),
            AssignmentState {
                mode: "project".to_string(),
                projects: vec!["gone".to_string()],
                on_path_scripts: vec![],
            },
        )],
    };

    let mut app = make_state_app();
    apply_state(&mut app, &state, &vec![]);
    // No live project carries the alias: the assignment collapses to Skip
    assert_eq!(app.skill_rows[0].mode, AssignedMode::Skip);
}

#[test]
fn test_apply_unknown_mode_word_ignored() {
    let state = TuiState {
        projects: vec![],
        assignments: vec![(
            "catchup".to_string(),
            AssignmentState {
                mode: "sideways".to_string(),
                projects: vec![],
                on_path_scripts: vec![],
            },
        )],
    };

    let mut app = make_state_app();
    apply_state(&mut app, &state, &vec![]);
    assert_eq!(app.skill_rows[0].mode, AssignedMode::Global);
}
