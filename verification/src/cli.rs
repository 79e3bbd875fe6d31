use vstd::prelude::*;

verus! {

/// The shells for which an initialization script can be printed.
#[derive(Debug)]
pub enum InitShell {
    Fish,
}

/// What to do with the configuration.
#[derive(Debug)]
pub enum Config {
    /// Display the current configuration.
    Show,
    /// Open the configuration file in the editor.
    Edit,
}

/// What to do with the repositories that are remembered.
#[derive(Debug)]
pub enum Repo {
    /// Forget a repository and its port.
    Delete { repo: String },
    /// List all repositories and their ports.
    List,
}

/// A command of the tool, with its arguments.
#[derive(Debug)]
#[allow(inconsistent_fields)]
pub enum Cli {
    /// Print the shell configuration command that initializes the tool.
    Init { shell: InitShell },
    /// Manage the configuration.
    Config(Config),
    /// Print a project's port. Without a name the active project is meant.
    Get { project_name: Option<String>, extended: bool },
    /// Create a new project. Without a name the name is taken from the
    /// current directory.
    Create { project_name: Option<String>, no_activate: bool, no_link: bool, overwrite: bool },
    /// Delete a project. Without a name the active project is meant.
    Delete { project_name: Option<String> },
    /// Delete the projects whose directory is gone.
    Cleanup,
    /// List all projects.
    List,
    /// Link a port to a project.
    Link { port: Option<u16>, project_name: Option<String>, no_save: bool },
    /// Take a linked port from the project that holds it.
    Unlink { port: u16 },
    /// Manage the repositories that are remembered.
    Repo(Repo),
    /// Print the proxy configuration.
    Caddyfile,
    /// Write the proxy configuration and reload the proxy.
    ReloadCaddy,
}

impl Cli {
    /// For a `Create` command, whether it names the project; `None` for every
    /// other command.
    pub open spec fn create_names_project(&self) -> Option<bool> {
        match self {
            Cli::Create { project_name, no_activate, no_link, overwrite } => Some(
                project_name is Some,
            ),
            _ => None,
        }
    }

    /// Whether the command links a port.
    pub open spec fn is_link(&self) -> bool {
        self is Link
    }

    /// Whether the command forgets a repository.
    pub open spec fn is_repo_delete(&self) -> bool {
        self matches Cli::Repo(Repo::Delete { repo })
    }
}

} // verus!
