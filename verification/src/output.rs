use vstd::prelude::*;
use vstd::string::StringExecFns;

use crate::cli::{Cli, Repo};
use crate::config::{config_text, Config};
use crate::error::{application_error_text, ApplicationError, CaddyError, ExecError};
use crate::registry::{Project, ProjectView, Registry};
use crate::report::{format_project, format_repo, project_line, repo_line};
use crate::text::{decimal, push_decimal};

verus! {

/// What the user is advised to do about the error `err` of the command `cli`;
/// empty where there is no advice.
pub open spec fn suggestion_text(err: ApplicationError, cli: Cli) -> Seq<char> {
    match err {
        ApplicationError::Caddy(CaddyError::Exec(ExecError::IO { command, not_found, io_err })) =>
            if not_found {
                "Try running `brew install caddy` or making sure that caddy is in your PATH.\n"@
            } else {
                Seq::empty()
            },
        ApplicationError::Caddy(CaddyError::Exec(ExecError::Failed { command, code, output })) =>
            if code == 1 {
                "Try running `brew services start caddy` to make sure that caddy is running.\n"@
            } else {
                Seq::empty()
            },
        ApplicationError::DuplicateDirectory(name, directory) =>
            "Try running the command in a different directory, providing the --no-activate flag, or running `portman delete "@
                + name@ + "` and rerunning the command.\n"@,
        ApplicationError::DuplicateProject(name) => match cli.create_names_project() {
            Some(true) => "Try providing the --overwrite flag to modify the existing project.\n"@,
            Some(false) => "Try manually providing a project name.\n"@,
            None => Seq::empty(),
        },
        ApplicationError::EditorCommand(ExecError::IO { command, not_found, io_err }) =>
            if not_found {
                "Try setting the $EDITOR environment variable to a valid command like vi or nano.\n"@
            } else {
                Seq::empty()
            },
        ApplicationError::EmptyAllocator =>
            "Try running `portman config edit` to edit the config file and modify the `ranges` field to allow more ports.\n"@,
        ApplicationError::GitCommand(inner) =>
            "Try running `portman link` in a directory with a git repo or providing an explicit port.\n"@,
        ApplicationError::InvalidConfig(message) =>
            "Try running `portman config edit` to edit the config file and correct the error.\n"@,
        ApplicationError::InvalidProjectName(name, reason) => if cli.create_names_project()
            == Some(false) {
            "Try manually providing a project name.\n"@
        } else {
            Seq::empty()
        },
        ApplicationError::MissingCustomConfig(path) => "Try creating a config file at \""@ + path@
            + "\" or unsetting the $PORTMAN_CONFIG environment variable.\n"@,
        ApplicationError::NoActiveProject =>
            "Try running the command again in a directory containing a project or providing an explicit project name.\n"@,
        ApplicationError::NonExistentProject(name) => "Try providing a different project name.\n"@,
        ApplicationError::NonExistentRepo(repo) => (if cli.is_link() {
            "Try providing an explicit port.\n"@
        } else {
            Seq::empty()
        }) + (if cli.is_repo_delete() {
            "Try running `portman repo list` to see which repos exist.\n"@
        } else {
            Seq::empty()
        }),
        _ => Seq::empty(),
    }
}

/// What is printed when the command `cli` fails with `err`: the message of
/// the error on a line, then the advice.
pub open spec fn failure_text(err: ApplicationError, cli: Cli) -> Seq<char> {
    application_error_text(err) + "\n"@ + suggestion_text(err, cli)
}

fn names_project(cli: &Cli) -> (answer: Option<bool>)
    ensures
        answer == cli.create_names_project(),
{
    match cli {
        Cli::Create { project_name, no_activate, no_link, overwrite } => Some(
            project_name.is_some(),
        ),
        _ => None,
    }
}

/// What the user is advised to do about the error `err` of the command `cli`.
pub fn suggestion(err: &ApplicationError, cli: &Cli) -> (advice: String)
    ensures
        advice@ == suggestion_text(*err, *cli),
{
    match err {
        ApplicationError::Caddy(CaddyError::Exec(ExecError::IO { command, not_found, io_err })) => {
            if *not_found {
                String::from_str(
                    "Try running `brew install caddy` or making sure that caddy is in your PATH.\n",
                )
            } else {
                String::new()
            }
        },
        ApplicationError::Caddy(
            CaddyError::Exec(ExecError::Failed { command, code, output }),
        ) => {
            if *code == 1 {
                String::from_str(
                    "Try running `brew services start caddy` to make sure that caddy is running.\n",
                )
            } else {
                String::new()
            }
        },
        ApplicationError::DuplicateDirectory(name, directory) => {
            let mut advice = String::from_str(
                "Try running the command in a different directory, providing the --no-activate flag, or running `portman delete ",
            );
            advice.append(name.as_str());
            advice.append("` and rerunning the command.\n");
            advice
        },
        ApplicationError::DuplicateProject(name) => match names_project(cli) {
            Some(true) => String::from_str(
                "Try providing the --overwrite flag to modify the existing project.\n",
            ),
            Some(false) => String::from_str("Try manually providing a project name.\n"),
            None => String::new(),
        },
        ApplicationError::EditorCommand(ExecError::IO { command, not_found, io_err }) => {
            if *not_found {
                String::from_str(
                    "Try setting the $EDITOR environment variable to a valid command like vi or nano.\n",
                )
            } else {
                String::new()
            }
        },
        ApplicationError::EmptyAllocator => String::from_str(
            "Try running `portman config edit` to edit the config file and modify the `ranges` field to allow more ports.\n",
        ),
        ApplicationError::GitCommand(inner) => String::from_str(
            "Try running `portman link` in a directory with a git repo or providing an explicit port.\n",
        ),
        ApplicationError::InvalidConfig(message) => String::from_str(
            "Try running `portman config edit` to edit the config file and correct the error.\n",
        ),
        ApplicationError::InvalidProjectName(name, reason) => match names_project(cli) {
            Some(false) => String::from_str("Try manually providing a project name.\n"),
            _ => String::new(),
        },
        ApplicationError::MissingCustomConfig(path) => {
            let mut advice = String::from_str("Try creating a config file at \"");
            advice.append(path.as_str());
            advice.append("\" or unsetting the $PORTMAN_CONFIG environment variable.\n");
            advice
        },
        ApplicationError::NoActiveProject => String::from_str(
            "Try running the command again in a directory containing a project or providing an explicit project name.\n",
        ),
        ApplicationError::NonExistentProject(name) => String::from_str(
            "Try providing a different project name.\n",
        ),
        ApplicationError::NonExistentRepo(repo) => {
            let mut advice = String::new();
            if let Cli::Link { port, project_name, no_save } = cli {
                advice.append("Try providing an explicit port.\n");
            }
            if let Cli::Repo(Repo::Delete { repo }) = cli {
                advice.append("Try running `portman repo list` to see which repos exist.\n");
            }
            assert(advice@ =~= suggestion_text(*err, *cli));
            advice
        },
        _ => String::new(),
    }
}

/// What is printed when the command `cli` fails with `err`.
pub fn failure_output(err: &ApplicationError, cli: &Cli) -> (output: String)
    ensures
        output@ == failure_text(*err, *cli),
{
    let mut output = err.message();
    output.append("\n");
    output.append(suggestion(err, cli).as_str());
    output
}

/// The text of a port that may be absent.
pub open spec fn optional_port_text(port: Option<u16>) -> Seq<char> {
    match port {
        Some(port) => decimal(port as nat),
        None => Seq::empty(),
    }
}

/// The text of a directory that may be absent.
pub open spec fn optional_directory_text(directory: Option<Seq<char>>) -> Seq<char> {
    match directory {
        Some(directory) => directory,
        None => Seq::empty(),
    }
}

/// What `get` prints for a project: its port on a line; in the extended form
/// the port, the name, the directory and the linked port, a line each, with
/// a label before each where the output goes to a terminal.
pub open spec fn get_text(
    name: Seq<char>,
    project: ProjectView,
    extended: bool,
    is_tty: bool,
) -> Seq<char> {
    if !extended {
        decimal(project.port as nat) + "\n"@
    } else if is_tty {
        "port: "@ + decimal(project.port as nat) + "\nname: "@ + name + "\ndirectory: "@
            + optional_directory_text(project.directory) + "\nlinked port: "@ + optional_port_text(
            project.linked_port,
        ) + "\n"@
    } else {
        decimal(project.port as nat) + "\n"@ + name + "\n"@ + optional_directory_text(
            project.directory,
        ) + "\n"@ + optional_port_text(project.linked_port) + "\n"@
    }
}

fn push_optional_port(out: &mut String, port: Option<u16>)
    ensures
        final(out)@ == old(out)@ + optional_port_text(port),
{
    if let Some(port) = port {
        push_decimal(out, port as u64);
    }
    assert(out@ =~= old(out)@ + optional_port_text(port));
}

fn push_optional_directory(out: &mut String, directory: &Option<String>)
    ensures
        final(out)@ == old(out)@ + optional_directory_text(
            match *directory {
                Some(d) => Some(d@),
                None => None,
            },
        ),
{
    if let Some(directory) = directory {
        out.append(directory.as_str());
    }
    assert(out@ =~= old(out)@ + optional_directory_text(
        match *directory {
            Some(d) => Some(d@),
            None => None,
        },
    ));
}

/// What `get` prints for a project.
pub fn get_output(name: &str, project: &Project, extended: bool, is_tty: bool) -> (output: String)
    ensures
        output@ == get_text(name@, project@, extended, is_tty),
{
    let mut output = String::new();
    if !extended {
        push_decimal(&mut output, project.port as u64);
        output.append("\n");
    } else if is_tty {
        output.append("port: ");
        push_decimal(&mut output, project.port as u64);
        output.append("\nname: ");
        output.append(name);
        output.append("\ndirectory: ");
        push_optional_directory(&mut output, &project.directory);
        output.append("\nlinked port: ");
        push_optional_port(&mut output, project.linked_port);
        output.append("\n");
    } else {
        push_decimal(&mut output, project.port as u64);
        output.append("\n");
        output.append(name);
        output.append("\n");
        push_optional_directory(&mut output, &project.directory);
        output.append("\n");
        push_optional_port(&mut output, project.linked_port);
        output.append("\n");
    }
    assert(output@ =~= get_text(name@, project@, extended, is_tty));
    output
}

/// What `create` prints: on a terminal whether the project was created or
/// updated, and its line; else its port alone.
pub open spec fn create_text(
    name: Seq<char>,
    project: ProjectView,
    updated: bool,
    is_tty: bool,
) -> Seq<char> {
    if is_tty {
        (if updated {
            "Updated"@
        } else {
            "Created"@
        }) + " project "@ + project_line(name, project) + "\n"@
    } else {
        decimal(project.port as nat) + "\n"@
    }
}

/// What `create` prints.
pub fn create_output(name: &str, project: &Project, updated: bool, is_tty: bool) -> (output: String)
    ensures
        output@ == create_text(name@, project@, updated, is_tty),
{
    let mut output = String::new();
    if is_tty {
        if updated {
            output.append("Updated");
        } else {
            output.append("Created");
        }
        output.append(" project ");
        output.append(format_project(name, project).as_str());
        output.append("\n");
    } else {
        push_decimal(&mut output, project.port as u64);
        output.append("\n");
    }
    assert(output@ =~= create_text(name@, project@, updated, is_tty));
    output
}

/// What `delete` prints for the project it deleted.
pub fn delete_output(name: &str, project: &Project) -> (output: String)
    ensures
        output@ == "Deleted project "@ + project_line(name@, project@) + "\n"@,
{
    let mut output = String::from_str("Deleted project ");
    output.append(format_project(name, project).as_str());
    output.append("\n");
    output
}

/// The lines of the projects `names` and `records`, one for each.
pub open spec fn project_lines(names: Seq<Seq<char>>, records: Seq<ProjectView>) -> Seq<char>
    decreases names.len(),
{
    if names.len() == 0 || records.len() == 0 {
        Seq::empty()
    } else {
        project_lines(names.drop_last(), records.drop_last()) + project_line(
            names.last(),
            records.last(),
        ) + "\n"@
    }
}

/// The names of `entries`, one for one.
pub open spec fn entry_names(entries: Seq<(String, Project)>) -> Seq<Seq<char>> {
    entries.map_values(|e: (String, Project)| e.0@)
}

/// The projects of `entries`, one for one.
pub open spec fn entry_records(entries: Seq<(String, Project)>) -> Seq<ProjectView> {
    entries.map_values(|e: (String, Project)| e.1@)
}

fn push_project_lines(out: &mut String, entries: &Vec<(String, Project)>)
    ensures
        final(out)@ == old(out)@ + project_lines(entry_names(entries@), entry_records(entries@)),
{
    let ghost names = entry_names(entries@);
    let ghost records = entry_records(entries@);
    let mut i: usize = 0;
    while i < entries.len()
        invariant
            i <= entries.len(),
            names == entry_names(entries@),
            records == entry_records(entries@),
            out@ == old(out)@ + project_lines(names.take(i as int), records.take(i as int)),
        decreases entries.len() - i,
    {
        out.append(format_project(entries[i].0.as_str(), &entries[i].1).as_str());
        out.append("\n");
        proof {
            assert(names.take(i + 1).drop_last() == names.take(i as int));
            assert(records.take(i + 1).drop_last() == records.take(i as int));
            assert(out@ =~= old(out)@ + project_lines(names.take(i + 1), records.take(i + 1)));
        }
        i += 1;
    }
    assert(names.take(i as int) == names && records.take(i as int) == records);
}

/// What `list` prints: the line of each project, in the order of the names.
pub fn list_output(registry: &Registry) -> (output: String)
    requires
        registry.inv(),
    ensures
        output@ == project_lines(registry.names(), registry.records()),
{
    let mut output = String::new();
    let entries = registry.iter_projects();
    push_project_lines(&mut output, entries);
    proof {
        registry.lemma_inv();
        assert(entry_names(entries@) =~= registry.names());
        assert(entry_records(entries@) =~= registry.records());
        assert(Seq::<char>::empty() + project_lines(registry.names(), registry.records())
            =~= project_lines(registry.names(), registry.records()));
    }
    output
}

/// What `cleanup` prints: how many projects were deleted, then their lines.
pub open spec fn cleanup_text(names: Seq<Seq<char>>, records: Seq<ProjectView>) -> Seq<char> {
    "Deleted "@ + (if names.len() == 1 {
        "1 project"@
    } else {
        decimal(names.len()) + " projects"@
    }) + "\n"@ + project_lines(names, records)
}

/// What `cleanup` prints for the projects it deleted.
pub fn cleanup_output(deleted: &Vec<(String, Project)>) -> (output: String)
    ensures
        output@ == cleanup_text(entry_names(deleted@), entry_records(deleted@)),
{
    let mut output = String::from_str("Deleted ");
    if deleted.len() == 1 {
        output.append("1 project");
    } else {
        push_decimal(&mut output, deleted.len() as u64);
        output.append(" projects");
    }
    output.append("\n");
    push_project_lines(&mut output, deleted);
    assert(output@ =~= cleanup_text(entry_names(deleted@), entry_records(deleted@)));
    output
}

/// What `link` prints once the port is linked.
pub fn link_output(port: u16, project_name: &str) -> (output: String)
    ensures
        output@ == "Linked port "@ + decimal(port as nat) + " to project "@ + project_name@
            + "\n"@,
{
    let mut output = String::from_str("Linked port ");
    push_decimal(&mut output, port as u64);
    output.append(" to project ");
    output.append(project_name);
    output.append("\n");
    output
}

/// What `link` prints once the port is remembered for the repository.
pub fn saved_repo_output(port: u16, repo: &str) -> (output: String)
    ensures
        output@ == "Saved default port "@ + decimal(port as nat) + " for repo "@ + repo@ + "\n"@,
{
    let mut output = String::from_str("Saved default port ");
    push_decimal(&mut output, port as u64);
    output.append(" for repo ");
    output.append(repo);
    output.append("\n");
    output
}

/// Whether `link` remembers the port for the repository: where the port is
/// given, the project is the active one, and the user has not said no.
pub fn link_saves_repo(port: Option<u16>, project_name: &Option<String>, no_save: bool) -> (save:
    bool)
    ensures
        save == (port is Some && *project_name is None && !no_save),
{
    port.is_some() && project_name.is_none() && !no_save
}

/// What `unlink` prints: the project that held the port, or that none did.
pub open spec fn unlink_text(port: u16, holder: Option<Seq<char>>) -> Seq<char> {
    match holder {
        Some(name) => "Unlinked port "@ + decimal(port as nat) + " from project "@ + name + "\n"@,
        None => "Port "@ + decimal(port as nat) + " was not linked to a project\n"@,
    }
}

/// What `unlink` prints.
pub fn unlink_output(port: u16, holder: &Option<String>) -> (output: String)
    ensures
        output@ == unlink_text(
            port,
            match *holder {
                Some(name) => Some(name@),
                None => None,
            },
        ),
{
    let mut output = String::new();
    match holder {
        Some(name) => {
            output.append("Unlinked port ");
            push_decimal(&mut output, port as u64);
            output.append(" from project ");
            output.append(name.as_str());
            output.append("\n");
        },
        None => {
            output.append("Port ");
            push_decimal(&mut output, port as u64);
            output.append(" was not linked to a project\n");
        },
    }
    assert(output@ =~= unlink_text(
        port,
        match *holder {
            Some(name) => Some(name@),
            None => None,
        },
    ));
    output
}

/// What `repo delete` prints for the repository it forgot.
pub fn repo_delete_output(repo: &str, port: u16) -> (output: String)
    ensures
        output@ == "Deleted repo "@ + repo_line(repo@, port) + "\n"@,
{
    let mut output = String::from_str("Deleted repo ");
    output.append(format_repo(repo, port).as_str());
    output.append("\n");
    output
}

/// The lines of the repositories `repos` with their `ports`.
pub open spec fn repo_lines(repos: Seq<Seq<char>>, ports: Seq<u16>) -> Seq<char>
    decreases repos.len(),
{
    if repos.len() == 0 || ports.len() == 0 {
        Seq::empty()
    } else {
        repo_lines(repos.drop_last(), ports.drop_last()) + repo_line(repos.last(), ports.last())
            + "\n"@
    }
}

/// What `repo list` prints: the line of each repository, in order.
pub fn repo_list_output(registry: &Registry) -> (output: String)
    requires
        registry.inv(),
    ensures
        output@ == repo_lines(registry.repo_names(), registry.repo_ports()),
{
    let mut output = String::new();
    let entries = registry.iter_repos();
    let ghost repos = registry.repo_names();
    let ghost ports = registry.repo_ports();
    proof {
        registry.lemma_inv();
    }
    let mut i: usize = 0;
    while i < entries.len()
        invariant
            i <= entries.len(),
            entries@.len() == repos.len(),
            repos.len() == ports.len(),
            forall|k: int|
                0 <= k < entries@.len() ==> (#[trigger] entries@[k]).0@ == repos[k]
                    && entries@[k].1 == ports[k],
            output@ == repo_lines(repos.take(i as int), ports.take(i as int)),
        decreases entries.len() - i,
    {
        output.append(format_repo(entries[i].0.as_str(), entries[i].1).as_str());
        output.append("\n");
        proof {
            assert(repos.take(i + 1).drop_last() == repos.take(i as int));
            assert(ports.take(i + 1).drop_last() == ports.take(i as int));
            assert(output@ =~= repo_lines(repos.take(i + 1), ports.take(i + 1)));
        }
        i += 1;
    }
    assert(repos.take(i as int) == repos && ports.take(i as int) == ports);
    output
}

/// What `config show` prints: where the configuration and the registry are
/// kept, and the configuration.
pub fn config_show_output(config_path: &str, registry_path: &str, config: &Config) -> (output:
    String)
    ensures
        output@ == "Config path: "@ + config_path@ + "\nRegistry path: "@ + registry_path@
            + "\nConfiguration:\n--------------\n"@ + config_text(
            config.ranges@,
            config.reserved@,
        ) + "\n"@,
{
    let mut output = String::from_str("Config path: ");
    output.append(config_path);
    output.append("\nRegistry path: ");
    output.append(registry_path);
    output.append("\nConfiguration:\n--------------\n");
    output.append(config.describe().as_str());
    output.append("\n");
    output
}

/// What `config edit` prints before the editor is started.
pub fn config_edit_output(config_path: &str, editor: &str) -> (output: String)
    ensures
        output@ == "Opening \""@ + config_path@ + "\" with \""@ + editor@ + "\"\n"@,
{
    let mut output = String::from_str("Opening \"");
    output.append(config_path);
    output.append("\" with \"");
    output.append(editor);
    output.append("\"\n");
    output
}

} // verus!
