//! The arguments of the start command and the filters they carry.

use vstd::prelude::*;
use vstd::string::StringExecFns;
use crate::config::Service;
use crate::error::ToolError;
use crate::text::{blank, contains_name, holds_name, is_blank};

verus! {

/// What the start command was asked to do.
#[derive(Debug, Clone)]
pub struct StartArgs {
    /// Project name
    pub name: String,
    /// Environment configuration file
    pub env: Option<String>,
    /// Show detailed output
    pub verbose: bool,
    /// Run in background
    pub background: bool,
    /// Show what would start without actually starting
    pub dry_run: bool,
    /// Only start specific services
    pub only: Option<Vec<String>>,
    /// Skip specific services
    pub skip: Option<Vec<String>>,
}

/// Whether one of `names` is blank.
pub open spec fn has_blank(names: Seq<String>) -> bool {
    exists|i: int| 0 <= i < names.len() && blank((#[trigger] names[i])@)
}

/// Whether one of `names` is blank.
pub fn any_blank(names: &Vec<String>) -> (b: bool)
    ensures
        b == has_blank(names@),
{
    let mut i: usize = 0;
    while i < names.len()
        invariant
            i <= names@.len(),
            forall|j: int| 0 <= j < i ==> !blank((#[trigger] names@[j])@),
        decreases names@.len() - i,
    {
        if is_blank(names[i].as_str()) {
            return true;
        }
        i += 1;
    }
    false
}

/// How a project is to be started.
#[derive(Debug, Clone, Copy, PartialEq, Eq, Structural)]
pub enum RunMode {
    /// Show the plan and start nothing.
    DryRun,
    /// Start the services and return at once.
    Background,
    /// Start the services and stay with them.
    Foreground,
}

impl StartArgs {
    /// Whether the filters let the service named `name` start: with an
    /// `only` list the name must be on it, and with a `skip` list it must
    /// not be on that.
    pub open spec fn selects(self, name: Seq<char>) -> bool {
        &&& self.only matches Some(only) ==> holds_name(only@, name)
        &&& self.skip matches Some(skip) ==> !holds_name(skip@, name)
    }

    /// Whether the filters let `service` start.
    pub fn should_start_service(&self, service: &Service) -> (start: bool)
        ensures
            start == self.selects(service.name@),
    {
        if let Some(only_services) = &self.only {
            if !contains_name(only_services, service.name.as_str()) {
                return false;
            }
        }
        if let Some(skip_services) = &self.skip {
            if contains_name(skip_services, service.name.as_str()) {
                return false;
            }
        }
        true
    }

    /// Why the arguments are refused, if they are: both filters at once;
    /// else a blank name in the `only` list; else one in the `skip` list.
    pub open spec fn refusal(self) -> Option<Seq<char>> {
        if self.only is Some && self.skip is Some {
            Some("Cannot use both --only and --skip filters simultaneously"@)
        } else if self.only is Some && has_blank(self.only->0@) {
            Some("Empty service name in --only filter"@)
        } else if self.skip is Some && has_blank(self.skip->0@) {
            Some("Empty service name in --skip filter"@)
        } else {
            None
        }
    }

    /// Checks the filters: they are refused with a configuration error when
    /// both an `only` and a `skip` list are given, or when a list holds a
    /// blank name; `refusal` gives the words of the error.
    pub fn validate_args(&self) -> (checked: Result<(), ToolError>)
        ensures
            match checked {
                Ok(_) => self.refusal() is None,
                Err(ToolError::ConfigError(reason)) => self.refusal() == Some(reason@),
                Err(_) => false,
            },
    {
        if self.only.is_some() && self.skip.is_some() {
            return Err(
                ToolError::ConfigError(
                    "Cannot use both --only and --skip filters simultaneously".to_owned(),
                ),
            );
        }
        if let Some(only_services) = &self.only {
            if any_blank(only_services) {
                return Err(
                    ToolError::ConfigError("Empty service name in --only filter".to_owned()),
                );
            }
        }
        if let Some(skip_services) = &self.skip {
            if any_blank(skip_services) {
                return Err(
                    ToolError::ConfigError("Empty service name in --skip filter".to_owned()),
                );
            }
        }
        Ok(())
    }

    /// The mode that the arguments ask for: a dry run if that was asked,
    /// whatever else was; else the background if that was asked; else the
    /// foreground.
    pub open spec fn mode_of(self) -> RunMode {
        if self.dry_run {
            RunMode::DryRun
        } else if self.background {
            RunMode::Background
        } else {
            RunMode::Foreground
        }
    }

    /// The mode that the arguments ask for.
    pub fn mode(&self) -> (mode: RunMode)
        ensures
            mode == self.mode_of(),
    {
        if self.dry_run {
            RunMode::DryRun
        } else if self.background {
            RunMode::Background
        } else {
            RunMode::Foreground
        }
    }

    /// Where the configuration of the project lies: the file `devspin.yaml`
    /// in the directory that bears the project's name.
    pub fn config_path(&self) -> (path: String)
        ensures
            path@ == self.name@ + "/devspin.yaml"@,
    {
        self.name.clone().concat("/devspin.yaml")
    }
}

} // verus!
