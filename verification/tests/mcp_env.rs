use code_core::mcp_env::{
    build_augmented_path, common_path_fallbacks, create_env_for_mcp_server, mcp_command_candidates,
    push_unique_path_entry,
};

#[test]
fn create_env_augments_path_with_common_bins() {
    let env = create_env_for_mcp_server(
        Vec::new(),
        Some(vec![
            ("HOME".to_string(), "/tmp/code-home".to_string()),
            ("PATH".to_string(), "/usr/bin".to_string()),
        ]),
        None,
        None,
    );

    let path = env.get("PATH").expect("PATH is always populated");
    let parts: Vec<&str> = path.split(':').collect();

    assert!(parts.contains(&"/opt/homebrew/bin"));
    assert!(parts.contains(&"/tmp/code-home/.local/bin"));
    assert!(parts.contains(&"/tmp/code-home/.cargo/bin"));
}

#[test]
fn create_env_honors_overrides() {
    let value = "custom".to_string();
    let env = create_env_for_mcp_server(
        vec![("TZ".to_string(), "UTC".to_string())],
        Some(vec![("TZ".to_string(), value.clone())]),
        None,
        None,
    );
    assert_eq!(env.get("TZ"), Some(value));
}

#[test]
fn server_settings_win_and_process_home_only_extends_path() {
    let env = create_env_for_mcp_server(
        vec![("TZ".to_string(), "UTC".to_string()), ("USER".to_string(), "a".to_string())],
        Some(vec![("USER".to_string(), "custom".to_string())]),
        Some("/home/a".to_string()),
        Some("/bin".to_string()),
    );
    assert_eq!(env.get("USER"), Some("custom".to_string()));
    assert_eq!(env.get("TZ"), Some("UTC".to_string()));
    assert_eq!(env.get("HOME"), None);
    let path = env.get("PATH").expect("PATH");
    assert!(path.starts_with("/bin:/opt/homebrew/bin"));
    assert!(path.ends_with("/home/a/bin"));
}

#[test]
fn fallbacks_are_added_once() {
    assert_eq!(
        build_augmented_path(Some("/usr/bin:/bin"), None),
        "/usr/bin:/bin:/opt/homebrew/bin:/usr/local/bin"
    );
    assert_eq!(
        build_augmented_path(None, Some("/h")),
        "/opt/homebrew/bin:/usr/local/bin:/usr/bin:/bin:/h/.local/bin:/h/.cargo/bin:/h/.volta/bin:/h/bin"
    );
    // A home holding the separator cannot be joined; the base path is kept.
    assert_eq!(build_augmented_path(Some("/x"), Some("/a:b")), "/x");
    assert_eq!(common_path_fallbacks(None).len(), 4);
    let mut entries = vec!["/usr/bin/".to_string()];
    push_unique_path_entry(&mut entries, "/usr/bin".to_string());
    assert_eq!(entries, vec!["/usr/bin/".to_string()]);
}

#[test]
fn bare_program_names_are_looked_for_on_the_search_path() {
    assert_eq!(
        mcp_command_candidates("toolx", Some("/opt/tools:/usr/local/bin/:")),
        Some(vec!["/opt/tools/toolx".to_string(), "/usr/local/bin/toolx".to_string(), "toolx".to_string()])
    );
    assert_eq!(mcp_command_candidates("/usr/bin/toolx", Some("/opt/tools")), None);
    assert_eq!(mcp_command_candidates("./toolx", Some("/opt/tools")), None);
    assert_eq!(mcp_command_candidates("bin/toolx", Some("/opt/tools")), None);
    assert_eq!(mcp_command_candidates("toolx", None), None);
}
