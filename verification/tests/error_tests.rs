use devspin_cli::ToolError;

#[test]
fn each_error_has_its_message() {
    let d = || "x y".to_string();
    assert_eq!(ToolError::ProjectNotFound(d()).message(), "Project not found x y");
    assert_eq!(ToolError::ConfigError(d()).message(), "Config error happened x y");
    assert_eq!(
        ToolError::ProcessError(d()).message(),
        "Error happened during the process x y"
    );
    assert_eq!(ToolError::NetworkError(d()).message(), "Network error happened x y");
    assert_eq!(ToolError::FileRead(d()).message(), "Failed to read config file: x y");
    assert_eq!(ToolError::ParseError(d()).message(), "Failed to parse YAML: x y");
    assert_eq!(ToolError::ValidationError(d()).message(), "Config validation failed: x y");
    assert_eq!(ToolError::HealthCheckTimeout(d()).message(), "Health check timed out: x y");
    assert_eq!(ToolError::DependencyTimeout(d()).message(), "Dependency timed out: x y");
    assert_eq!(ToolError::GenericError(d()).message(), "Generic error: x y");
}

#[test]
fn a_message_without_detail_is_the_words_of_its_kind() {
    assert_eq!(ToolError::ConfigError(String::new()).message(), "Config error happened ");
}

#[test]
fn only_missed_bounds_are_not_fatal() {
    let d = || "svc".to_string();
    assert!(ToolError::ProjectNotFound(d()).fatal());
    assert!(ToolError::ConfigError(d()).fatal());
    assert!(ToolError::ProcessError(d()).fatal());
    assert!(ToolError::NetworkError(d()).fatal());
    assert!(ToolError::FileRead(d()).fatal());
    assert!(ToolError::ParseError(d()).fatal());
    assert!(ToolError::ValidationError(d()).fatal());
    assert!(ToolError::GenericError(d()).fatal());
    assert!(!ToolError::HealthCheckTimeout(d()).fatal());
    assert!(!ToolError::DependencyTimeout(d()).fatal());
}
