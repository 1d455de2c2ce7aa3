//! End-to-end scenario: one folder, no prior state. The identity derives to
//! `aide-app`, the orchestrator creates the container with a detached
//! `run`, the folder registry gains one entry keyed by the folder's
//! canonical path, and the identity becomes the next last-session value.

use aide_sandbox::engine::{build_run_args, FolderMount};
use aide_sandbox::naming::derive_container_name;
use aide_sandbox::orchestrator::{plan_run, ContainerState, EngineCommand, RunDecision};
use aide_sandbox::registry::{
    last_session_or_default, lookup_container_by_folder, register_container, FolderRegistry,
};

#[test]
fn first_run_of_a_single_folder() {
    // ./app canonicalizes to its absolute path; its final component is "app"
    let canonical = "/home/user/app".to_string();
    let folder_names = vec!["app".to_string()];

    let identity = derive_container_name(&folder_names).unwrap();
    assert_eq!(identity, "aide-app");

    // no prior state: the container is absent, no ports requested
    let plan = plan_run(ContainerState::Absent, false, false, false, false);
    assert!(plan.proceed);
    assert_eq!(plan.decision, RunDecision::Create);
    assert_eq!(plan.engine_commands, vec![EngineCommand::RunDetached]);

    // the detached run names the derived identity
    let mounts = vec![FolderMount {
        host_path: canonical.clone(),
        name: "app".to_string(),
    }];
    let args = build_run_args(
        &identity,
        &"/home/user/.aide-sandbox".to_string(),
        &mounts,
        None,
        None,
        &Vec::new(),
        &Vec::new(),
    )
    .unwrap();
    assert_eq!(&args[..4], &["run", "-d", "--name", "aide-app"]);

    // the folder registry gains one entry keyed by the canonical path
    let mut registry = FolderRegistry::new();
    register_container(&mut registry, &identity, &vec![canonical.clone()]);
    assert_eq!(registry.rows().len(), 1);
    assert_eq!(registry.rows()[0].key, canonical);
    assert_eq!(registry.rows()[0].entry.container_name, "aide-app");

    // the registered folder resolves back to the registered identity
    let found = lookup_container_by_folder(&registry, Some(&canonical), &"app".to_string());
    assert_eq!(found, Some("aide-app".to_string()));

    // once the identity is stored as the last session, it is what a
    // target-less command resolves to
    assert_eq!(last_session_or_default(Some(&identity)), "aide-app");
}
