use aide_sandbox::errors::Error;

#[test]
fn config_unavailable_message() {
    assert_eq!(
        Error::ConfigUnavailable.message(),
        "Could not determine the configuration directory"
    );
}

#[test]
fn engine_unreachable_message() {
    assert_eq!(
        Error::EngineUnreachable.message(),
        "Docker is not running. Please start Docker and try again."
    );
}

#[test]
fn container_errors_name_the_container_and_the_next_step() {
    assert_eq!(
        Error::ContainerMissing("aide-app".to_string()).message(),
        "Container 'aide-app' does not exist"
    );
    assert_eq!(
        Error::ContainerNotRunning("aide-app".to_string()).message(),
        "Container 'aide-app' is not running. Use 'run' to start it."
    );
}

#[test]
fn engine_failure_carries_the_diagnostic() {
    assert_eq!(
        Error::EngineFailure("no such image".to_string()).message(),
        "Docker command failed: no such image"
    );
}
