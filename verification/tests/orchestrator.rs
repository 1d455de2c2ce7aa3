use aide_sandbox::orchestrator::{
    plan_run, resume_hint, session_gate, ContainerState, EngineCommand, RunDecision,
};
use aide_sandbox::registry::{save_named_session, SessionsRegistry};

#[test]
fn running_container_without_ports_attaches_with_no_mutation() {
    let plan = plan_run(ContainerState::ExistsRunning, false, false, false, false);
    assert!(plan.proceed);
    assert_eq!(plan.decision, RunDecision::Attach);
    assert!(plan.engine_commands.is_empty());
    assert!(!plan.registers_folders);
    assert!(plan.attaches_existing);
}

#[test]
fn running_container_with_ports_declined_attaches_with_no_mutation() {
    let plan = plan_run(ContainerState::ExistsRunning, true, false, false, false);
    assert!(plan.proceed);
    assert_eq!(plan.decision, RunDecision::Attach);
    assert!(plan.engine_commands.is_empty());
}

#[test]
fn running_container_with_ports_confirmed_recreates_with_stop_rm_run() {
    let plan = plan_run(ContainerState::ExistsRunning, true, true, false, false);
    assert!(plan.proceed);
    assert_eq!(plan.decision, RunDecision::Recreate);
    assert_eq!(
        plan.engine_commands,
        vec![EngineCommand::Stop, EngineCommand::Remove, EngineCommand::RunDetached]
    );
    assert!(plan.registers_folders);
}

#[test]
fn absent_container_is_created() {
    let plan = plan_run(ContainerState::Absent, false, false, false, false);
    assert!(plan.proceed);
    assert_eq!(plan.decision, RunDecision::Create);
    assert_eq!(plan.engine_commands, vec![EngineCommand::RunDetached]);
}

#[test]
fn stopped_container_is_recreated_without_stop() {
    let plan = plan_run(ContainerState::ExistsStopped, false, false, false, false);
    assert!(plan.proceed);
    assert_eq!(plan.decision, RunDecision::Recreate);
    assert_eq!(plan.engine_commands, vec![EngineCommand::Remove, EngineCommand::RunDetached]);
}

#[test]
fn declined_session_overwrite_aborts_with_no_mutation() {
    let plan = plan_run(ContainerState::Absent, false, false, true, false);
    assert!(!plan.proceed);
    assert!(plan.engine_commands.is_empty());
}

#[test]
fn confirmed_session_overwrite_proceeds() {
    let plan = plan_run(ContainerState::Absent, false, false, true, true);
    assert!(plan.proceed);
    assert_eq!(plan.decision, RunDecision::Create);
}

#[test]
fn session_gate_blocks_only_bound_names_without_confirmation() {
    let mut sessions = SessionsRegistry::new();
    save_named_session(&mut sessions, &"taken".to_string(), &"conv-1".to_string());
    assert!(session_gate(&sessions, None, false));
    assert!(session_gate(&sessions, Some(&"fresh".to_string()), false));
    assert!(!session_gate(&sessions, Some(&"taken".to_string()), false));
    assert!(session_gate(&sessions, Some(&"taken".to_string()), true));
}

#[test]
fn resume_hint_names_the_session() {
    assert_eq!(
        resume_hint(&"experiment".to_string()),
        "Use 'continue -n experiment' to resume it."
    );
}
