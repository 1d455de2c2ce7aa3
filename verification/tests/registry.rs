use aide_sandbox::registry::{
    get_container_config_dir, get_folder_registry_path, get_named_session,
    get_sessions_registry_path, last_session_or_default, lookup_container_by_folder,
    register_container, save_named_session, FolderRegistry, SessionsRegistry,
};
use aide_sandbox::resolve::resolve_target_to_container;

fn strings(items: &[&str]) -> Vec<String> {
    items.iter().map(|s| s.to_string()).collect()
}

#[test]
fn register_then_lookup_by_canonical_path() {
    let mut registry = FolderRegistry::new();
    register_container(
        &mut registry,
        &"aide-app".to_string(),
        &strings(&["/home/user/app"]),
    );
    let found = lookup_container_by_folder(
        &registry,
        Some(&"/home/user/app".to_string()),
        &"app".to_string(),
    );
    assert_eq!(found, Some("aide-app".to_string()));
}

#[test]
fn register_keys_by_sorted_joined_canonical_paths() {
    let mut registry = FolderRegistry::new();
    register_container(
        &mut registry,
        &"aide-api-web".to_string(),
        &strings(&["/srv/web", "/srv/api"]),
    );
    let rows = registry.rows();
    assert_eq!(rows.len(), 1);
    assert_eq!(rows[0].key, "/srv/api:/srv/web");
    assert_eq!(rows[0].entry.container_name, "aide-api-web");
    assert_eq!(rows[0].entry.folder_paths, strings(&["/srv/web", "/srv/api"]));
    assert!(!rows[0].entry.created_at.is_empty());
}

#[test]
fn register_same_folder_set_replaces_the_entry() {
    let mut registry = FolderRegistry::new();
    register_container(&mut registry, &"aide-app".to_string(), &strings(&["/a/app"]));
    register_container(&mut registry, &"aide-other".to_string(), &strings(&["/a/app"]));
    assert_eq!(registry.rows().len(), 1);
    assert_eq!(registry.rows()[0].entry.container_name, "aide-other");
}

#[test]
fn lookup_misses_on_unrelated_folder() {
    let mut registry = FolderRegistry::new();
    register_container(&mut registry, &"aide-app".to_string(), &strings(&["/a/app"]));
    let found = lookup_container_by_folder(
        &registry,
        Some(&"/b/zzz".to_string()),
        &"zzz".to_string(),
    );
    assert_eq!(found, None);
}

#[test]
fn lookup_matches_bare_folder_name_against_registered_paths() {
    let mut registry = FolderRegistry::new();
    register_container(
        &mut registry,
        &"aide-custom".to_string(),
        &strings(&["/deep/nested/widget"]),
    );
    let found = lookup_container_by_folder(&registry, None, &"widget".to_string());
    assert_eq!(found, Some("aide-custom".to_string()));
}

#[test]
fn resolving_registered_member_folder_returns_registered_identity() {
    // the folder set [A, B] is registered under an explicit identity;
    // resolving A alone must return that identity, not a fresh derivation
    let mut registry = FolderRegistry::new();
    register_container(
        &mut registry,
        &"aide-custom".to_string(),
        &strings(&["/x/alpha", "/x/beta"]),
    );
    let resolved = resolve_target_to_container(
        Some(&"/x/alpha".to_string()),
        Some(&"/x/alpha".to_string()),
        &registry,
        None,
    )
    .unwrap();
    assert_eq!(resolved, "aide-custom");
    assert_ne!(resolved, "aide-alpha");
}

#[test]
fn resolving_unregistered_directory_derives_fresh_identity() {
    let registry = FolderRegistry::new();
    let resolved = resolve_target_to_container(
        Some(&"/tmp/My-Project".to_string()),
        Some(&"/tmp/My-Project".to_string()),
        &registry,
        None,
    )
    .unwrap();
    assert_eq!(resolved, "aide-my-project");
}

#[test]
fn resolving_prefixed_target_is_literal() {
    let registry = FolderRegistry::new();
    let resolved = resolve_target_to_container(
        Some(&"aide-anything".to_string()),
        None,
        &registry,
        None,
    )
    .unwrap();
    assert_eq!(resolved, "aide-anything");
}

#[test]
fn resolving_unknown_bare_name_falls_back_to_literal() {
    let registry = FolderRegistry::new();
    let resolved =
        resolve_target_to_container(Some(&"mystery".to_string()), None, &registry, None).unwrap();
    assert_eq!(resolved, "mystery");
}

#[test]
fn resolving_no_target_uses_last_session_or_default() {
    let registry = FolderRegistry::new();
    let fallback = resolve_target_to_container(None, None, &registry, None).unwrap();
    assert_eq!(fallback, "aide");
    let last = "aide-app\n".to_string();
    let resolved = resolve_target_to_container(None, None, &registry, Some(&last)).unwrap();
    assert_eq!(resolved, "aide-app");
}

#[test]
fn last_session_fallback_trims_and_defaults() {
    assert_eq!(last_session_or_default(None), "aide");
    assert_eq!(last_session_or_default(Some(&"  \n".to_string())), "aide");
    assert_eq!(
        last_session_or_default(Some(&" aide-app \n".to_string())),
        "aide-app"
    );
}

#[test]
fn named_sessions_round_trip_and_overwrite() {
    let mut sessions = SessionsRegistry::new();
    let name = "experiment".to_string();
    assert_eq!(get_named_session(&sessions, &name), None);
    save_named_session(&mut sessions, &name, &"conv-1".to_string());
    assert_eq!(get_named_session(&sessions, &name), Some("conv-1".to_string()));
    save_named_session(&mut sessions, &name, &"conv-2".to_string());
    assert_eq!(get_named_session(&sessions, &name), Some("conv-2".to_string()));
    assert_eq!(sessions.rows().len(), 1);
    save_named_session(&mut sessions, &"other".to_string(), &"conv-3".to_string());
    assert_eq!(get_named_session(&sessions, &name), Some("conv-2".to_string()));
    assert_eq!(get_named_session(&sessions, &"other".to_string()), Some("conv-3".to_string()));
}

#[test]
fn store_paths_hang_off_the_configuration_root() {
    let root = "/home/user/.aide-sandbox".to_string();
    assert_eq!(
        get_folder_registry_path(&root),
        "/home/user/.aide-sandbox/folder_registry.json"
    );
    assert_eq!(
        get_sessions_registry_path(&root),
        "/home/user/.aide-sandbox/named_sessions.json"
    );
    assert_eq!(
        get_container_config_dir(&root, &"aide-app".to_string()),
        "/home/user/.aide-sandbox/containers/aide-app"
    );
}
