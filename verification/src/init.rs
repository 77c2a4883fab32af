//! The arguments of the command that creates a new project, and the rule
//! for the name of a project.

use vstd::prelude::*;
use vstd::std_specs::iter::IteratorSpec;
use vstd::string::StringExecFns;
use crate::error::ToolError;
use crate::text::{ascii_alphanumeric, is_ascii_alphanumeric};

verus! {

/// What the command that creates a project was asked to do.
#[derive(Debug, Clone)]
pub struct InitArgs {
    /// Project name
    pub name: Option<String>,
    /// Skip interactive prompts and use defaults
    pub yes: bool,
    /// Template to use
    pub template: Option<String>,
    /// Initialize with Docker support
    pub docker: bool,
}

/// Whether `c` may stand in the name of a project: a letter or digit of
/// ASCII, a hyphen or an underscore.
pub open spec fn name_char(c: char) -> bool {
    ascii_alphanumeric(c) || c == '-' || c == '_'
}

/// Whether every character of `name` may stand in the name of a project.
pub open spec fn plain_name(name: Seq<char>) -> bool {
    forall|i: int| 0 <= i < name.len() ==> name_char(#[trigger] name[i])
}

/// Whether every character of `name` may stand in the name of a project.
pub fn is_plain_name(name: &str) -> (plain: bool)
    ensures
        plain == plain_name(name@),
{
    broadcast use vstd::string::group_string_axioms;

    let mut plain = true;
    for c in it: name.chars()
        invariant
            it.seq() == name@,
            plain == (forall|i: int| 0 <= i < it.index() ==> name_char(#[trigger] name@[i])),
    {
        if !(is_ascii_alphanumeric(c) || c == '-' || c == '_') {
            plain = false;
        }
    }
    plain
}

/// Why a name is refused.
pub enum NameRefusal {
    /// It holds a character that a name may not hold.
    BadCharacter,
    /// A directory of that name exists already.
    DirectoryExists,
}

/// What becomes of the name `name` for a new project, `directory_exists`
/// saying whether a directory of that name exists: the empty name stands
/// for the default name; a name with a character that it may not hold is
/// refused; so is a name whose directory exists; any other name is taken as
/// it is.
pub open spec fn name_verdict(name: Seq<char>, directory_exists: bool) -> Result<
    Seq<char>,
    NameRefusal,
> {
    if name.len() == 0 {
        Ok("my-devbox-project"@)
    } else if !plain_name(name) {
        Err(NameRefusal::BadCharacter)
    } else if directory_exists {
        Err(NameRefusal::DirectoryExists)
    } else {
        Ok(name)
    }
}

/// The words of the error for a refused name.
pub open spec fn refusal_text(name: Seq<char>, refusal: NameRefusal) -> Seq<char> {
    match refusal {
        NameRefusal::BadCharacter => "Project name can only contain letters, numbers, hyphens, and underscores"@,
        NameRefusal::DirectoryExists => "Directory '"@ + name + "' already exists"@,
    }
}

/// Whether `answer` is what `verdict` asks for: the name that was accepted,
/// or a validation error with the words for the refusal.
pub open spec fn answers(
    answer: Result<String, ToolError>,
    name: Seq<char>,
    verdict: Result<Seq<char>, NameRefusal>,
) -> bool {
    match answer {
        Ok(accepted) => verdict == Ok::<Seq<char>, NameRefusal>(accepted@),
        Err(ToolError::ValidationError(reason)) => verdict is Err && reason@ == refusal_text(
            name,
            verdict->Err_0,
        ),
        Err(_) => false,
    }
}

impl InitArgs {
    /// Checks the name `name` for a new project, `directory_exists` saying
    /// whether a directory of that name exists: `name_verdict`.
    pub fn accept_project_name(&self, name: &str, directory_exists: bool) -> (answer: Result<
        String,
        ToolError,
    >)
        ensures
            answers(answer, name@, name_verdict(name@, directory_exists)),
    {
        if name.unicode_len() == 0 {
            return Ok("my-devbox-project".to_owned());
        }
        if !is_plain_name(name) {
            return Err(
                ToolError::ValidationError(
                    "Project name can only contain letters, numbers, hyphens, and underscores".to_owned(),
                ),
            );
        }
        if directory_exists {
            return Err(
                ToolError::ValidationError(
                    "Directory '".to_owned().concat(name).concat("' already exists"),
                ),
            );
        }
        Ok(name.to_owned())
    }

    /// Checks the characters of the name `name` for a new project: the
    /// verdict on a name whose directory does not exist.
    pub fn validate_project_name(&self, name: &str) -> (answer: Result<String, ToolError>)
        ensures
            answers(answer, name@, name_verdict(name@, false)),
    {
        self.accept_project_name(name, false)
    }
}

} // verus!
