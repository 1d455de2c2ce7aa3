//! The run orchestrator: given the probed state of the target container and
//! the operator's intent, decide whether to attach, recreate, or create the
//! container, and which engine-mutating commands that takes.
//!
//! The decision is a pure function of the probed state and two
//! caller-supplied confirmation booleans; the prompts that obtain them are
//! input/output and live outside the library.

use vstd::prelude::*;
use vstd::string::StringExecFns;

use crate::registry::{session_lookup, SessionsRegistry};

verus! {

/// The probed existence state of the target container.
#[derive(Clone, Copy, Debug, PartialEq, Eq, Structural)]
pub enum ContainerState {
    Absent,
    ExistsStopped,
    ExistsRunning,
}

/// What the orchestrator decides to do with the target container.
#[derive(Clone, Copy, Debug, PartialEq, Eq, Structural)]
pub enum RunDecision {
    /// Join the running container; no engine mutation.
    Attach,
    /// Create the container anew.
    Create,
    /// Tear the existing container down, then create it anew.
    Recreate,
}

/// An engine-mutating command against the target container.
#[derive(Clone, Copy, Debug, PartialEq, Eq, Structural)]
pub enum EngineCommand {
    /// `stop <identity>`
    Stop,
    /// `rm <identity>`
    Remove,
    /// `run -d --name <identity> ...`
    RunDetached,
}

/// The decision table: an absent container is created; a stopped one is
/// recreated; a running one is attached to, unless ports were requested
/// and the operator confirmed the destructive recreation.
pub open spec fn spec_decision(
    state: ContainerState,
    ports_requested: bool,
    recreate_confirmed: bool,
) -> RunDecision {
    match state {
        ContainerState::Absent => RunDecision::Create,
        ContainerState::ExistsStopped => RunDecision::Recreate,
        ContainerState::ExistsRunning => if ports_requested && recreate_confirmed {
            RunDecision::Recreate
        } else {
            RunDecision::Attach
        },
    }
}

/// The engine-mutating commands a decision takes: nothing to attach; one
/// detached run to create; for a recreation, a stop first when the
/// container is running, then a removal and a detached run.
pub open spec fn spec_engine_plan(state: ContainerState, decision: RunDecision) -> Seq<
    EngineCommand,
> {
    match decision {
        RunDecision::Attach => Seq::empty(),
        RunDecision::Create => seq![EngineCommand::RunDetached],
        RunDecision::Recreate => if state == ContainerState::ExistsRunning {
            seq![EngineCommand::Stop, EngineCommand::Remove, EngineCommand::RunDetached]
        } else {
            seq![EngineCommand::Remove, EngineCommand::RunDetached]
        },
    }
}

/// The complete plan of one `run` invocation.
pub struct RunPlan {
    /// False when a named session already bound to a conversation was given
    /// and the operator declined to overwrite it: the whole command aborts
    /// with no engine mutation.
    pub proceed: bool,
    pub decision: RunDecision,
    /// The engine-mutating commands, in issue order.
    pub engine_commands: Vec<EngineCommand>,
    /// Whether the folder-set mapping is registered afterwards: exactly on
    /// the paths that provision a container.
    pub registers_folders: bool,
    /// Whether the interactive program is asked to continue the most recent
    /// conversation, as an attach does.
    pub attaches_existing: bool,
}

/// Decide one `run` invocation: the session-overwrite gate first, then the
/// decision table, then the engine plan.
pub fn plan_run(
    state: ContainerState,
    ports_requested: bool,
    recreate_confirmed: bool,
    session_conflict: bool,
    overwrite_confirmed: bool,
) -> (r: RunPlan)
    ensures
        r.proceed == !(session_conflict && !overwrite_confirmed),
        !r.proceed ==> r.engine_commands@ == Seq::<EngineCommand>::empty(),
        r.proceed ==> r.decision == spec_decision(state, ports_requested, recreate_confirmed),
        r.proceed ==> r.engine_commands@ == spec_engine_plan(state, r.decision),
        r.proceed ==> (r.registers_folders <==> r.decision != RunDecision::Attach),
        r.proceed ==> (r.attaches_existing <==> r.decision == RunDecision::Attach),
{
    if session_conflict && !overwrite_confirmed {
        let commands: Vec<EngineCommand> = Vec::new();
        proof {
            assert(commands@ =~= Seq::<EngineCommand>::empty());
        }
        return RunPlan {
            proceed: false,
            decision: RunDecision::Attach,
            engine_commands: commands,
            registers_folders: false,
            attaches_existing: false,
        };
    }
    let decision = match state {
        ContainerState::Absent => RunDecision::Create,
        ContainerState::ExistsStopped => RunDecision::Recreate,
        ContainerState::ExistsRunning => {
            if ports_requested && recreate_confirmed {
                RunDecision::Recreate
            } else {
                RunDecision::Attach
            }
        },
    };
    let mut commands: Vec<EngineCommand> = Vec::new();
    match decision {
        RunDecision::Attach => {},
        RunDecision::Create => {
            commands.push(EngineCommand::RunDetached);
        },
        RunDecision::Recreate => {
            if matches!(state, ContainerState::ExistsRunning) {
                commands.push(EngineCommand::Stop);
            }
            commands.push(EngineCommand::Remove);
            commands.push(EngineCommand::RunDetached);
        },
    }
    proof {
        assert(commands@ =~= spec_engine_plan(state, decision));
    }
    let attach = matches!(decision, RunDecision::Attach);
    RunPlan {
        proceed: true,
        decision,
        engine_commands: commands,
        registers_folders: !attach,
        attaches_existing: attach,
    }
}

/// The orchestrator's behaviour on a running container, spelled out: with
/// no port request it attaches and mutates nothing; with ports requested
/// it attaches and mutates nothing unless the operator confirms, and on
/// confirmation it issues exactly one stop, one removal, and one detached
/// run, in that order.
pub proof fn lemma_running_container_cases(recreate_confirmed: bool)
    ensures
        spec_decision(ContainerState::ExistsRunning, false, recreate_confirmed)
            == RunDecision::Attach,
        spec_engine_plan(ContainerState::ExistsRunning, RunDecision::Attach) == Seq::<
            EngineCommand,
        >::empty(),
        spec_decision(ContainerState::ExistsRunning, true, false) == RunDecision::Attach,
        spec_decision(ContainerState::ExistsRunning, true, true) == RunDecision::Recreate,
        spec_engine_plan(ContainerState::ExistsRunning, RunDecision::Recreate) == seq![
            EngineCommand::Stop,
            EngineCommand::Remove,
            EngineCommand::RunDetached,
        ],
{
}

/// The session-overwrite gate: proceed unless a named session was given,
/// it is already bound to a conversation, and the operator declined the
/// overwrite.
pub fn session_gate(
    sessions: &SessionsRegistry,
    session_name: Option<&String>,
    overwrite_confirmed: bool,
) -> (proceed: bool)
    ensures
        proceed == match session_name {
            Some(n) => !(session_lookup(sessions@, n@) is Some && !overwrite_confirmed),
            None => true,
        },
{
    match session_name {
        None => true,
        Some(n) => {
            match crate::registry::get_named_session(sessions, n) {
                Some(_) => overwrite_confirmed,
                None => true,
            }
        },
    }
}

/// The guidance printed when the overwrite is declined: how to resume the
/// existing session instead.
pub fn resume_hint(session_name: &String) -> (r: String)
    ensures
        r@ == "Use 'continue -n "@ + session_name@ + "' to resume it."@,
{
    let mut r = String::from_str("Use 'continue -n ");
    r.append(session_name.as_str());
    r.append("' to resume it.");
    r
}

} // verus!
