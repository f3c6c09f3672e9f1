use deploy_rs::permissions::{collect_permissions, permission_sort_key};

#[test]
fn test_permission_sort_key_groups() {
    let (group, _) = permission_sort_key("Bash(git status)");
    assert_eq!(group, "03-git");

    let (group, _) = permission_sort_key("Bash(cat foo)");
    assert_eq!(group, "01-bash-read");

    let (group, _) = permission_sort_key("SomeOtherTool");
    assert_eq!(group, "99-other");
}

#[test]
fn test_collect_permissions_empty() {
    let (allows, denies) = collect_permissions(&vec![], &vec![]);
    assert!(allows.is_empty());
    assert!(denies.is_empty());
}

#[test]
fn test_permission_sort_key_keeps_entry() {
    let (group, entry) = permission_sort_key("WebFetch(domain:docs.rs)");
    assert_eq!(group, "11-web");
    assert_eq!(entry, "WebFetch(domain:docs.rs)");
}

#[test]
fn test_collect_permissions_sorts_and_dedups() {
    let allows = vec![
        "Bash(git status)".to_string(),
        "WebFetch".to_string(),
        "Bash(cat x)".to_string(),
        "Bash(git status)".to_string(),
        "".to_string(),
    ];
    let denies = vec!["Bash(rm -rf)".to_string(), "Bash(docker run)".to_string()];
    let (allows, denies) = collect_permissions(&allows, &denies);
    assert_eq!(
        allows,
        vec![
            "Bash(cat x)".to_string(),
            "Bash(git status)".to_string(),
            "WebFetch".to_string(),
        ]
    );
    // deny side: docker group sorts before the ungrouped rm entry
    assert_eq!(
        denies,
        vec!["Bash(docker run)".to_string(), "Bash(rm -rf)".to_string()]
    );
}
