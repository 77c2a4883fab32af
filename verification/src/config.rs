//! The description of a project: its services, their commands, what each
//! depends on and how its readiness is checked.

use vstd::prelude::*;
use std::collections::HashMap;
use std::path::Path;

verus! {

/// A project as its configuration file describes it.
#[derive(Debug, Clone)]
pub struct ProjectConfig {
    pub name: String,
    pub description: Option<String>,
    pub commands: Commands,
    pub services: Option<Vec<Service>>,
    pub environment: Option<HashMap<String, String>>,
    pub hooks: Option<Hooks>,
    /// The directory of the configuration file; relative working directories
    /// of services start there.
    pub base_path: Option<String>,
}

/// The commands of a project.
#[derive(Debug, Clone)]
pub struct Commands {
    pub start: StartCommands,
}

/// The commands that run a project in its different modes.
#[derive(Debug, Clone)]
pub struct StartCommands {
    pub dev: String,
    pub test: Option<String>,
    pub build: String,
    pub clean: Option<String>,
    pub services: Option<Services>,
}

/// A list of services.
#[derive(Debug, Clone)]
pub struct Services {
    pub services: Vec<Service>,
}

/// One named unit of work: a shell command with what it depends on and how
/// its readiness is checked.
#[derive(Debug, Clone)]
pub struct Service {
    pub name: String,
    pub service_type: String,
    pub command: String,
    pub working_dir: Option<String>,
    pub health_check: Option<HealthCheck>,
    pub dependencies: Vec<String>,
}

/// How the readiness of a service is checked.
#[derive(Debug, Clone)]
pub struct HealthCheck {
    pub type_entry: String,
    pub port: Option<i16>,
    pub http_target: String,
}

/// Commands that run before and after a project starts and stops.
#[derive(Debug, Clone)]
pub struct Hooks {
    pub pre_start: Option<String>,
    pub post_start: Option<String>,
    pub pre_stop: Option<String>,
    pub post_stop: Option<String>,
}

/// The kinds of readiness check.
#[derive(Debug, Clone, Copy, PartialEq, Eq, Structural)]
pub enum HealthCheckKind {
    /// A GET of a URL that must answer with success.
    Http,
    /// A TCP connection to a port of this machine.
    Port,
    /// Any other word: no check is made.
    Unrecognized,
}

/// The text of the path that `Path::join` of the standard library makes of
/// the path `base` and the path `relative`, by the rules for paths of the
/// platform that the library is built for.
pub uninterp spec fn joined_path(base: Seq<char>, relative: Seq<char>) -> Seq<char>;

/// Joins two paths with `Path::join` of the standard library and gives the
/// result as text. Believed, not proved: the result is `joined_path` of the
/// two texts. Both are valid UTF-8, so the text of the result loses nothing.
#[verifier::external_body]
fn join_paths(base: &str, relative: &str) -> (joined: String)
    ensures
        joined@ == joined_path(base@, relative@),
{
    Path::new(base).join(relative).to_string_lossy().into_owned()
}

/// The text of the directory that `Path::parent` of the standard library
/// finds for the path `path`, if it finds one, by the rules for paths of the
/// platform that the library is built for.
pub uninterp spec fn parent_path(path: Seq<char>) -> Option<Seq<char>>;

/// The directory that holds `path`, by `Path::parent` of the standard
/// library, as text. Believed, not proved: the result is `parent_path` of
/// the text.
#[verifier::external_body]
fn parent_of(path: &str) -> (parent: Option<String>)
    ensures
        match parent {
            Some(dir) => parent_path(path@) == Some(dir@),
            None => parent_path(path@) is None,
        },
{
    match Path::new(path).parent() {
        Some(dir) => Some(dir.to_string_lossy().into_owned()),
        None => None,
    }
}

/// The directory that relative paths of a project start from when its
/// configuration lies at `path`: the directory that holds the file, or the
/// current directory where the path names none.
pub open spec fn base_path_of(path: Seq<char>) -> Seq<char> {
    match parent_path(path) {
        Some(dir) => dir,
        None => "."@,
    }
}

/// The directory that relative paths of a project start from when its
/// configuration lies at `path`.
pub fn base_path_for(path: &str) -> (base: String)
    ensures
        base@ == base_path_of(path@),
{
    match parent_of(path) {
        Some(dir) => dir,
        None => ".".to_owned(),
    }
}

impl HealthCheck {
    /// The kind of the check: what its `type_entry` says.
    pub open spec fn kind_of(self) -> HealthCheckKind {
        if self.type_entry@ == "http"@ {
            HealthCheckKind::Http
        } else if self.type_entry@ == "port"@ {
            HealthCheckKind::Port
        } else {
            HealthCheckKind::Unrecognized
        }
    }

    /// The kind of the check.
    pub fn kind(&self) -> (kind: HealthCheckKind)
        ensures
            kind == self.kind_of(),
    {
        if self.type_entry.as_str().eq("http") {
            HealthCheckKind::Http
        } else if self.type_entry.as_str().eq("port") {
            HealthCheckKind::Port
        } else {
            HealthCheckKind::Unrecognized
        }
    }
}

impl ProjectConfig {
    /// The path `relative_path` as seen from the project's base directory;
    /// the path itself where the project has no base directory.
    pub open spec fn resolved_path(self, relative_path: Seq<char>) -> Seq<char> {
        match self.base_path {
            Some(base) => joined_path(base@, relative_path),
            None => relative_path,
        }
    }

    /// The path `relative_path` as seen from the project's base directory.
    pub fn resolve_path(&self, relative_path: &str) -> (path: String)
        ensures
            path@ == self.resolved_path(relative_path@),
    {
        if let Some(base_path) = &self.base_path {
            join_paths(base_path.as_str(), relative_path)
        } else {
            relative_path.to_owned()
        }
    }

    /// The directory in which `service` runs: its own working directory as
    /// seen from the project's base directory; without one, the base
    /// directory; without that, the current directory.
    pub open spec fn working_directory_of(self, service: Service) -> Seq<char> {
        match service.working_dir {
            Some(dir) => self.resolved_path(dir@),
            None => match self.base_path {
                Some(base) => base@,
                None => "."@,
            },
        }
    }

    /// The directory in which `service` runs.
    pub fn working_directory(&self, service: &Service) -> (dir: String)
        ensures
            dir@ == self.working_directory_of(*service),
    {
        if let Some(service_dir) = &service.working_dir {
            self.resolve_path(service_dir.as_str())
        } else {
            match &self.base_path {
                Some(base) => base.clone(),
                None => ".".to_owned(),
            }
        }
    }

    /// The services of the project; none where it declares none.
    pub open spec fn service_list(self) -> Seq<Service> {
        match self.services {
            Some(services) => services@,
            None => Seq::empty(),
        }
    }
}

} // verus!
