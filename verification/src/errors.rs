//! The error taxonomy of the session manager. Input errors carry the
//! offending value verbatim; container errors carry the container identity
//! and render guidance on the next step.

use vstd::prelude::*;
use vstd::string::StringExecFns;

verus! {

#[derive(Debug, Clone, PartialEq, Eq)]
pub enum Error {
    /// The configuration root could not be resolved or created.
    ConfigUnavailable,
    /// The container engine daemon did not answer the liveness probe.
    EngineUnreachable,
    /// A port mapping request that is neither `PORT`, `HOST:CONTAINER`,
    /// nor `IP:HOST:CONTAINER` with numeric 16-bit port components.
    InvalidPortSpec(String),
    /// Every requested folder yielded an empty sanitized name.
    NoDerivableName,
    /// An operation addressed a container that does not exist.
    ContainerMissing(String),
    /// An operation addressed a container that exists but is not running.
    ContainerNotRunning(String),
    /// The engine reported a failure; the payload is its diagnostic text.
    EngineFailure(String),
}

/// The operator-facing message of each error.
pub open spec fn spec_message(e: &Error) -> Seq<char> {
    match e {
        Error::ConfigUnavailable => "Could not determine the configuration directory"@,
        Error::EngineUnreachable => "Docker is not running. Please start Docker and try again."@,
        Error::InvalidPortSpec(p) => "Invalid port format: "@ + p@
            + ". Use PORT, HOST:CONTAINER, or IP:HOST:CONTAINER"@,
        Error::NoDerivableName => "Could not derive container name from folders"@,
        Error::ContainerMissing(c) => "Container '"@ + c@ + "' does not exist"@,
        Error::ContainerNotRunning(c) => "Container '"@ + c@
            + "' is not running. Use 'run' to start it."@,
        Error::EngineFailure(d) => "Docker command failed: "@ + d@,
    }
}

impl Error {
    /// Render the operator-facing message.
    pub fn message(&self) -> (r: String)
        ensures
            r@ == spec_message(self),
    {
        match self {
            Error::ConfigUnavailable => String::from_str(
                "Could not determine the configuration directory",
            ),
            Error::EngineUnreachable => String::from_str(
                "Docker is not running. Please start Docker and try again.",
            ),
            Error::InvalidPortSpec(p) => {
                let mut r = String::from_str("Invalid port format: ");
                r.append(p.as_str());
                r.append(". Use PORT, HOST:CONTAINER, or IP:HOST:CONTAINER");
                r
            },
            Error::NoDerivableName => String::from_str(
                "Could not derive container name from folders",
            ),
            Error::ContainerMissing(c) => {
                let mut r = String::from_str("Container '");
                r.append(c.as_str());
                r.append("' does not exist");
                r
            },
            Error::ContainerNotRunning(c) => {
                let mut r = String::from_str("Container '");
                r.append(c.as_str());
                r.append("' is not running. Use 'run' to start it.");
                r
            },
            Error::EngineFailure(d) => {
                let mut r = String::from_str("Docker command failed: ");
                r.append(d.as_str());
                r
            },
        }
    }
}

} // verus!
