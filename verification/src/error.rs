use vstd::prelude::*;
use vstd::string::StringExecFns;

use crate::text::{decimal, push_decimal};

verus! {

/// Why running an external command did not yield its output.
#[derive(Debug, PartialEq, Eq)]
pub enum ExecError {
    /// The command ran and exited with a non-zero status.
    Failed { command: String, code: i32, output: String },
    /// The command could not be started. `not_found` tells whether the
    /// operating system reported that the program does not exist; `io_err`
    /// is the text of the operating system's error.
    IO { command: String, not_found: bool, io_err: String },
    /// The command was ended by a signal before it could exit.
    Terminated { command: String, output: String },
}

/// Why the reverse proxy could not be brought in line with the registry.
#[derive(Debug, PartialEq, Eq)]
pub enum CaddyError {
    /// The command that reloads the proxy failed.
    Exec(ExecError),
    /// Something else went wrong; this is its text.
    Other(String),
}

/// Why a command has failed.
#[derive(Debug, PartialEq, Eq)]
pub enum ApplicationError {
    /// The proxy could not be brought in line with the registry.
    Caddy(CaddyError),
    /// The project of this name claims this directory already.
    DuplicateDirectory(String, String),
    /// A project of this name exists already.
    DuplicateProject(String),
    /// The editor could not be run.
    EditorCommand(ExecError),
    /// The pool gave no port.
    EmptyAllocator,
    /// Git could not be run.
    GitCommand(ExecError),
    /// The configuration is not in order; this is why.
    InvalidConfig(String),
    /// This name breaks the grammar of names, for this reason.
    InvalidProjectName(String, &'static str),
    /// The configuration file that the user has named, at this path, does
    /// not exist.
    MissingCustomConfig(String),
    /// No project claims the working directory.
    NoActiveProject,
    /// There is no project of this name.
    NonExistentProject(String),
    /// No port is remembered for this repository.
    NonExistentRepo(String),
    /// Something else went wrong; this is its text.
    Other(String),
}

/// The text that is shown for an `ExecError`.
pub open spec fn exec_error_text(e: ExecError) -> Seq<char> {
    match e {
        ExecError::Failed { command, code, output } => "Command \""@ + command@
            + "\" failed with exit code "@ + signed_decimal(code as int) + " and output:\n"@
            + output@,
        ExecError::IO { command, not_found, io_err } => "Command \""@ + command@
            + "\" failed to run:\n"@ + io_err@,
        ExecError::Terminated { command, output } => "Command \""@ + command@
            + "\" was terminated with output:\n"@ + output@,
    }
}

/// `n` in base ten, with a minus sign before it where it is negative.
pub open spec fn signed_decimal(n: int) -> Seq<char> {
    if n < 0 {
        seq!['-'] + decimal((-n) as nat)
    } else {
        decimal(n as nat)
    }
}

/// The text that is shown for a `CaddyError`.
pub open spec fn caddy_error_text(e: CaddyError) -> Seq<char> {
    match e {
        CaddyError::Exec(inner) => exec_error_text(inner),
        CaddyError::Other(message) => message@,
    }
}

/// The text that is shown for an `ApplicationError`.
pub open spec fn application_error_text(e: ApplicationError) -> Seq<char> {
    match e {
        ApplicationError::Caddy(inner) => "Error reloading caddy:\n"@ + caddy_error_text(inner),
        ApplicationError::DuplicateDirectory(name, directory) => "Project "@ + name@
            + " already uses the directory \""@ + directory@ + "\""@,
        ApplicationError::DuplicateProject(name) => "A project already has the name "@ + name@,
        ApplicationError::EditorCommand(inner) => "Editor command could not be run:\n\n"@
            + exec_error_text(inner),
        ApplicationError::EmptyAllocator => "All available ports have been allocated already"@,
        ApplicationError::GitCommand(inner) => "Git command could not be run:\n\n"@
            + exec_error_text(inner),
        ApplicationError::InvalidConfig(message) => "Configuration is invalid:\n\n"@ + message@,
        ApplicationError::InvalidProjectName(name, reason) => "Project name \""@ + name@
            + "\" is invalid: "@ + reason@,
        ApplicationError::MissingCustomConfig(path) => "Custom config file at \""@ + path@
            + "\" does not exist"@,
        ApplicationError::NoActiveProject => "The current directory does not contain a project"@,
        ApplicationError::NonExistentProject(name) => "Project "@ + name@ + " does not exist"@,
        ApplicationError::NonExistentRepo(repo) => "Repo "@ + repo@ + " does not exist"@,
        ApplicationError::Other(message) => message@,
    }
}

impl ExecError {
    /// The text shown to the user for this error.
    pub fn message(&self) -> (text: String)
        ensures
            text@ == exec_error_text(*self),
    {
        match self {
            ExecError::Failed { command, code, output } => {
                let mut text = String::from_str("Command \"");
                text.append(command.as_str());
                text.append("\" failed with exit code ");
                if *code < 0 {
                    text.push('-');
                    let magnitude: i64 = -(*code as i64);
                    push_decimal(&mut text, magnitude as u64);
                } else {
                    push_decimal(&mut text, *code as u64);
                }
                text.append(" and output:\n");
                text.append(output.as_str());
                text
            },
            ExecError::IO { command, not_found, io_err } => {
                let mut text = String::from_str("Command \"");
                text.append(command.as_str());
                text.append("\" failed to run:\n");
                text.append(io_err.as_str());
                text
            },
            ExecError::Terminated { command, output } => {
                let mut text = String::from_str("Command \"");
                text.append(command.as_str());
                text.append("\" was terminated with output:\n");
                text.append(output.as_str());
                text
            },
        }
    }
}

impl CaddyError {
    /// The text shown to the user for this error.
    pub fn message(&self) -> (text: String)
        ensures
            text@ == caddy_error_text(*self),
    {
        match self {
            CaddyError::Exec(inner) => inner.message(),
            CaddyError::Other(message) => message.clone(),
        }
    }
}

impl ApplicationError {
    /// The text shown to the user for this error.
    pub fn message(&self) -> (text: String)
        ensures
            text@ == application_error_text(*self),
    {
        match self {
            ApplicationError::Caddy(inner) => {
                let mut text = String::from_str("Error reloading caddy:\n");
                text.append(inner.message().as_str());
                text
            },
            ApplicationError::DuplicateDirectory(name, directory) => {
                let mut text = String::from_str("Project ");
                text.append(name.as_str());
                text.append(" already uses the directory \"");
                text.append(directory.as_str());
                text.append("\"");
                text
            },
            ApplicationError::DuplicateProject(name) => {
                let mut text = String::from_str("A project already has the name ");
                text.append(name.as_str());
                text
            },
            ApplicationError::EditorCommand(inner) => {
                let mut text = String::from_str("Editor command could not be run:\n\n");
                text.append(inner.message().as_str());
                text
            },
            ApplicationError::EmptyAllocator => String::from_str(
                "All available ports have been allocated already",
            ),
            ApplicationError::GitCommand(inner) => {
                let mut text = String::from_str("Git command could not be run:\n\n");
                text.append(inner.message().as_str());
                text
            },
            ApplicationError::InvalidConfig(message) => {
                let mut text = String::from_str("Configuration is invalid:\n\n");
                text.append(message.as_str());
                text
            },
            ApplicationError::InvalidProjectName(name, reason) => {
                let mut text = String::from_str("Project name \"");
                text.append(name.as_str());
                text.append("\" is invalid: ");
                text.append(reason);
                text
            },
            ApplicationError::MissingCustomConfig(path) => {
                let mut text = String::from_str("Custom config file at \"");
                text.append(path.as_str());
                text.append("\" does not exist");
                text
            },
            ApplicationError::NoActiveProject => String::from_str(
                "The current directory does not contain a project",
            ),
            ApplicationError::NonExistentProject(name) => {
                let mut text = String::from_str("Project ");
                text.append(name.as_str());
                text.append(" does not exist");
                text
            },
            ApplicationError::NonExistentRepo(repo) => {
                let mut text = String::from_str("Repo ");
                text.append(repo.as_str());
                text.append(" does not exist");
                text
            },
            ApplicationError::Other(message) => message.clone(),
        }
    }
}

} // verus!
