//! The failures that starting a project can report.

use vstd::prelude::*;
use vstd::string::StringExecFns;

verus! {

/// Why an operation of the tool failed. Each variant carries the detail that
/// its message ends with.
#[derive(Debug)]
pub enum ToolError {
    /// No project of that name.
    ProjectNotFound(String),
    /// The configuration or the command line is not usable.
    ConfigError(String),
    /// A process could not be started, or ended in failure.
    ProcessError(String),
    /// A network operation failed.
    NetworkError(String),
    /// The configuration file could not be read.
    FileRead(String),
    /// The configuration file is no valid YAML for a project.
    ParseError(String),
    /// A value was refused.
    ValidationError(String),
    /// A service did not become ready within its bound.
    HealthCheckTimeout(String),
    /// A dependency was not running within its bound.
    DependencyTimeout(String),
    /// Any other failure.
    GenericError(String),
}

impl ToolError {
    /// The detail that the error carries.
    pub open spec fn detail(self) -> Seq<char> {
        match self {
            ToolError::ProjectNotFound(d) => d@,
            ToolError::ConfigError(d) => d@,
            ToolError::ProcessError(d) => d@,
            ToolError::NetworkError(d) => d@,
            ToolError::FileRead(d) => d@,
            ToolError::ParseError(d) => d@,
            ToolError::ValidationError(d) => d@,
            ToolError::HealthCheckTimeout(d) => d@,
            ToolError::DependencyTimeout(d) => d@,
            ToolError::GenericError(d) => d@,
        }
    }

    /// The fixed words that the message of each kind of error starts with.
    pub open spec fn prefix(self) -> Seq<char> {
        match self {
            ToolError::ProjectNotFound(_) => "Project not found "@,
            ToolError::ConfigError(_) => "Config error happened "@,
            ToolError::ProcessError(_) => "Error happened during the process "@,
            ToolError::NetworkError(_) => "Network error happened "@,
            ToolError::FileRead(_) => "Failed to read config file: "@,
            ToolError::ParseError(_) => "Failed to parse YAML: "@,
            ToolError::ValidationError(_) => "Config validation failed: "@,
            ToolError::HealthCheckTimeout(_) => "Health check timed out: "@,
            ToolError::DependencyTimeout(_) => "Dependency timed out: "@,
            ToolError::GenericError(_) => "Generic error: "@,
        }
    }

    /// The message of the error: the words of its kind, then its detail.
    pub open spec fn message_text(self) -> Seq<char> {
        self.prefix() + self.detail()
    }

    /// The one line that describes the error to a user.
    pub fn message(&self) -> (line: String)
        ensures
            line@ == self.message_text(),
    {
        match self {
            ToolError::ProjectNotFound(d) => "Project not found ".to_owned().concat(d.as_str()),
            ToolError::ConfigError(d) => "Config error happened ".to_owned().concat(d.as_str()),
            ToolError::ProcessError(d) => "Error happened during the process ".to_owned().concat(
                d.as_str(),
            ),
            ToolError::NetworkError(d) => "Network error happened ".to_owned().concat(d.as_str()),
            ToolError::FileRead(d) => "Failed to read config file: ".to_owned().concat(d.as_str()),
            ToolError::ParseError(d) => "Failed to parse YAML: ".to_owned().concat(d.as_str()),
            ToolError::ValidationError(d) => "Config validation failed: ".to_owned().concat(
                d.as_str(),
            ),
            ToolError::HealthCheckTimeout(d) => "Health check timed out: ".to_owned().concat(
                d.as_str(),
            ),
            ToolError::DependencyTimeout(d) => "Dependency timed out: ".to_owned().concat(
                d.as_str(),
            ),
            ToolError::GenericError(d) => "Generic error: ".to_owned().concat(d.as_str()),
        }
    }

    /// Whether the tool ends with a failure status on this error when it
    /// happens in the foreground: configuration and process errors do, a
    /// missed readiness or dependency bound is only reported.
    pub open spec fn is_fatal(self) -> bool {
        !(self is HealthCheckTimeout || self is DependencyTimeout)
    }

    /// Whether this error ends the tool with a failure status.
    pub fn fatal(&self) -> (b: bool)
        ensures
            b == self.is_fatal(),
    {
        match self {
            ToolError::HealthCheckTimeout(_) => false,
            ToolError::DependencyTimeout(_) => false,
            _ => true,
        }
    }
}

} // verus!
