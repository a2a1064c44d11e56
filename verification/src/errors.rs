//! The error taxonomy of the orchestrator. Every fallible operation of the
//! library reports one of these kinds; the variant payload carries the
//! offending name, path or a diagnostic text.

use vstd::prelude::*;

verus! {

#[derive(Debug, Clone)]
pub enum OrchestratorError {
    /// A slot with the given name is already registered.
    SlotAlreadyExists(String),
    /// No slot with the given name is registered.
    SlotNotFound(String),
    /// The per-repository manifest file is absent (path given).
    ConfigNotFound(String),
    /// The manifest file exists but cannot be used.
    InvalidConfig(String),
    /// A version-control operation failed.
    Git(String),
    /// A terminal-multiplexer operation failed.
    Tmux(String),
    /// The service-composition stack failed.
    Aspire(String),
    /// An agent operation failed.
    Agent(String),
    /// The detached agent-host process failed.
    AgentHost(String),
    /// No free port could be handed out.
    PortAllocation(String),
    /// No blueprint with the given name exists.
    BlueprintNotFound(String),
    /// A blueprint with the given name already exists.
    BlueprintAlreadyExists(String),
    /// A blueprint failed validation; the payload joins the findings.
    BlueprintValidation(String),
    /// Persisting or restoring the slot registry failed.
    State(String),
    /// A child process failed.
    Process(String),
    /// A filesystem or network operation failed.
    Io(String),
    /// A persisted document could not be parsed.
    Parse(String),
}

} // verus!
