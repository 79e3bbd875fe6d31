use std::collections::HashSet;

use portman::allocator::PortAllocator;
use portman::cli::{Cli, Config as ConfigCommand, InitShell, Repo};
use portman::config::Config;
use portman::dependencies::{exec_outcome, format_command, read_outcome, ChoosePort, ExecStatus};
use portman::error::{ApplicationError, CaddyError, ExecError};
use portman::init::init_fish;
use portman::output::{
    cleanup_output, config_edit_output, config_show_output, create_output, delete_output,
    failure_output, get_output, link_output, link_saves_repo, list_output, repo_delete_output,
    repo_list_output, saved_repo_output, suggestion, unlink_output,
};
use portman::registry::{Project, Registry, RegistryData};
use portman::report::{
    cleanup, create, default_link, format_project, format_repo, get_active_project,
};

struct NoChoice;

impl ChoosePort for NoChoice {
    fn choose_port(&self, _available_ports: &HashSet<u16>) -> Option<u16> {
        None
    }
}

struct LowestPort;

impl ChoosePort for LowestPort {
    fn choose_port(&self, available_ports: &HashSet<u16>) -> Option<u16> {
        available_ports.iter().min().copied()
    }
}

fn sample_registry() -> Registry {
    let mut data = RegistryData::new();
    data.projects.insert(
        String::from("app1"),
        Project { port: 3001, directory: None, linked_port: None },
    );
    data.projects.insert(
        String::from("app2"),
        Project { port: 3002, directory: None, linked_port: Some(3000) },
    );
    data.projects.insert(
        String::from("app3"),
        Project {
            port: 3003,
            directory: Some(String::from("/projects/app3")),
            linked_port: None,
        },
    );
    data.repos
        .insert(String::from("https://github.com/user/app3.git"), 3004);
    let allocator = PortAllocator::new(Config::default().get_valid_ports());
    Registry::new(&LowestPort, allocator, data).unwrap()
}

fn create_command(project_name: Option<&str>) -> Cli {
    Cli::Create {
        project_name: project_name.map(String::from),
        no_activate: false,
        no_link: false,
        overwrite: false,
    }
}

#[test]
fn test_format_project_simple() {
    assert_eq!(
        format_project(
            "app1",
            &Project {
                port: 3001,
                directory: None,
                linked_port: None,
            },
        ),
        String::from("app1 :3001"),
    );
}

#[test]
fn test_format_project_complex() {
    assert_eq!(
        format_project(
            "app1",
            &Project {
                port: 3001,
                directory: Some(String::from("/projects/app1")),
                linked_port: Some(3000),
            },
        ),
        String::from("app1 :3001 -> :3000 (/projects/app1)"),
    );
}

#[test]
fn format_repo_is_exact() {
    assert_eq!(format_repo("https://github.com/user/app3.git", 3004), "https://github.com/user/app3.git: 3004");
    assert_eq!(format_repo("r", 0), "r: 0");
    assert_eq!(format_repo("r", 65535), "r: 65535");
}

#[test]
fn test_config_init_fish() {
    let output = init_fish();
    assert!(!output.is_empty());
    assert!(output.starts_with("function __portman_sync_env\n"));
    assert!(matches!(InitShell::Fish, InitShell::Fish));
}

#[test]
fn test_config_edit() {
    assert_eq!(
        config_edit_output("/data/config.toml", "editor"),
        "Opening \"/data/config.toml\" with \"editor\"\n"
    );
}

#[test]
fn test_config_edit_editor_not_found() {
    let command = format_command("editor", &vec![String::from("/data/config.toml")]);
    let err = ApplicationError::EditorCommand(ExecError::IO {
        command,
        not_found: true,
        io_err: String::from("entity not found"),
    });
    assert_eq!(
        failure_output(&err, &Cli::Config(ConfigCommand::Edit)),
        r#"Editor command could not be run:

Command "editor /data/config.toml" failed to run:
entity not found
Try setting the $EDITOR environment variable to a valid command like vi or nano.
"#
    );
}

#[test]
fn test_config_edit_editor_failed() {
    let command = format_command("editor", &vec![String::from("/data/config.toml")]);
    let status = ExecStatus::from_exit(false, Some(1), String::new(), String::from("Invalid config\n"));
    let err = ApplicationError::EditorCommand(exec_outcome(command, status).unwrap_err());
    assert_eq!(
        failure_output(&err, &Cli::Config(ConfigCommand::Edit)),
        r#"Editor command could not be run:

Command "editor /data/config.toml" failed with exit code 1 and output:
Invalid config

"#
    );
}

#[test]
fn test_config_show() {
    assert_eq!(
        config_show_output("/data/config.toml", "/data/registry.toml", &Config::default()),
        r"Config path: /data/config.toml
Registry path: /data/registry.toml
Configuration:
--------------
Allowed port ranges: 3000-3999
"
    );
}

#[test]
fn test_config_show_custom_config() {
    let config = Config::from_parts(vec![(2000, 2199), (4100, 4199)], vec![2002, 4004]).unwrap();
    assert_eq!(
        config_show_output("/data/config.toml", "/data/registry.toml", &config),
        r"Config path: /data/config.toml
Registry path: /data/registry.toml
Configuration:
--------------
Allowed port ranges: 2000-2199 & 4100-4199
Reserved ports: 2002, 4004
"
    );
}

#[test]
fn test_config_show_custom_path_not_found() {
    let err = ApplicationError::MissingCustomConfig(String::from("/data/custom_config.toml"));
    assert_eq!(
        failure_output(&err, &Cli::Config(ConfigCommand::Show)),
        r#"Custom config file at "/data/custom_config.toml" does not exist
Try creating a config file at "/data/custom_config.toml" or unsetting the $PORTMAN_CONFIG environment variable.
"#
    );
}

#[test]
fn main_test_get() {
    let registry = sample_registry();
    let (name, project) = get_active_project(&registry, "/projects/app3").unwrap();
    assert_eq!(get_output(name, project, false, true), "3003\n");
}

#[test]
fn main_test_get_name() {
    let registry = sample_registry();
    let project = registry.get("app2").unwrap();
    assert_eq!(get_output("app2", project, false, false), "3002\n");
}

#[test]
fn test_get_name_non_existent() {
    let err = ApplicationError::NonExistentProject(String::from("project"));
    let cli = Cli::Get { project_name: Some(String::from("project")), extended: false };
    assert_eq!(
        failure_output(&err, &cli),
        r"Project project does not exist
Try providing a different project name.
"
    );
}

#[test]
fn test_get_extended() {
    let registry = sample_registry();
    let (name, project) = get_active_project(&registry, "/projects/app3").unwrap();
    assert_eq!(
        get_output(name, project, true, true),
        "port: 3003\nname: app3\ndirectory: /projects/app3\nlinked port: \n"
    );
}

#[test]
fn test_get_extended_not_tty() {
    let registry = sample_registry();
    let (name, project) = get_active_project(&registry, "/projects/app3").unwrap();
    assert_eq!(
        get_output(name, project, true, false),
        r"3003
app3
/projects/app3

"
    );
    let linked = registry.get("app2").unwrap();
    assert_eq!(get_output("app2", linked, true, false), "3002\napp2\n\n3000\n");
}

#[test]
fn main_test_create() {
    let mut registry = sample_registry();
    let (name, project, updated) = create(
        &LowestPort,
        &mut registry,
        None,
        "project",
        Some(String::from("/projects/project")),
        None,
        false,
    )
    .unwrap();
    assert_eq!(
        create_output(&name, &project, updated, true),
        "Created project project :3004 (/projects/project)\n"
    );
}

#[test]
fn test_create_not_tty() {
    let mut registry = sample_registry();
    let (name, project, updated) = create(
        &LowestPort,
        &mut registry,
        None,
        "project",
        Some(String::from("/projects/project")),
        None,
        false,
    )
    .unwrap();
    assert_eq!(create_output(&name, &project, updated, false), "3004\n");
}

#[test]
fn main_test_create_duplicate_directory() {
    let mut registry = sample_registry();
    let err = create(
        &LowestPort,
        &mut registry,
        Some(String::from("project")),
        "app3",
        Some(String::from("/projects/app3")),
        None,
        false,
    )
    .unwrap_err();
    assert_eq!(
        failure_output(&err, &create_command(Some("project"))),
        r#"Project app3 already uses the directory "/projects/app3"
Try running the command in a different directory, providing the --no-activate flag, or running `portman delete app3` and rerunning the command.
"#
    );
}

#[test]
fn test_create_duplicate_project() {
    let mut registry = sample_registry();
    let err = create(
        &LowestPort,
        &mut registry,
        None,
        "app3",
        Some(String::from("/projects/app3")),
        Some(3004),
        false,
    )
    .unwrap_err();
    assert_eq!(
        failure_output(&err, &create_command(None)),
        r"A project already has the name app3
Try manually providing a project name.
"
    );
}

#[test]
fn test_create_duplicate_project_explicit_name() {
    let mut registry = sample_registry();
    let err = create(
        &LowestPort,
        &mut registry,
        Some(String::from("app3")),
        "app3",
        Some(String::from("/projects/app3")),
        Some(3004),
        false,
    )
    .unwrap_err();
    assert_eq!(
        failure_output(&err, &create_command(Some("app3"))),
        r"A project already has the name app3
Try providing the --overwrite flag to modify the existing project.
"
    );
}

#[test]
fn test_create_link() {
    let mut registry = sample_registry();
    let linked_port = default_link(&registry, false, Some("https://github.com/user/app3.git"));
    let (name, project, updated) = create(
        &LowestPort,
        &mut registry,
        None,
        "project",
        Some(String::from("/projects/project")),
        linked_port,
        false,
    )
    .unwrap();
    assert_eq!(
        create_output(&name, &project, updated, true),
        "Created project project :3005 -> :3004 (/projects/project)\n"
    );
}

#[test]
fn test_create_unknown_repo() {
    let mut registry = sample_registry();
    let linked_port = default_link(
        &registry,
        false,
        Some("https://github.com/user/project.git"),
    );
    let (name, project, updated) = create(
        &LowestPort,
        &mut registry,
        None,
        "project",
        Some(String::from("/projects/project")),
        linked_port,
        false,
    )
    .unwrap();
    assert_eq!(
        create_output(&name, &project, updated, true),
        "Created project project :3004 (/projects/project)\n"
    );
}

#[test]
fn test_create_caddy_failed() {
    let status = ExecStatus::from_exit(false, Some(1), String::new(), String::from("caddy is not running\n"));
    let command = format_command(
        "caddy",
        &vec![
            String::from("reload"),
            String::from("--adapter"),
            String::from("caddyfile"),
            String::from("--config"),
            String::from("/homebrew/etc/Caddyfile"),
        ],
    );
    let err = ApplicationError::Caddy(CaddyError::Exec(exec_outcome(command, status).unwrap_err()));
    assert_eq!(
        failure_output(&err, &create_command(None)),
        "Error reloading caddy:\nCommand \"caddy reload --adapter caddyfile --config /homebrew/etc/Caddyfile\" failed with exit code 1 and output:\ncaddy is not running\n\nTry running `brew services start caddy` to make sure that caddy is running.\n"
    );
}

#[test]
fn test_create_caddy_not_found() {
    let err = ApplicationError::Caddy(CaddyError::Exec(ExecError::IO {
        command: String::from("caddy reload"),
        not_found: true,
        io_err: String::from("entity not found"),
    }));
    assert_eq!(
        suggestion(&err, &create_command(None)),
        "Try running `brew install caddy` or making sure that caddy is in your PATH.\n"
    );
}

#[test]
fn test_create_empty_allocator() {
    let mut registry = sample_registry();
    let linked_port = default_link(
        &registry,
        false,
        Some("https://github.com/user/project.git"),
    );
    let err = create(
        &NoChoice,
        &mut registry,
        None,
        "project",
        Some(String::from("/projects/project")),
        linked_port,
        false,
    )
    .unwrap_err();
    assert_eq!(
        failure_output(&err, &create_command(None)),
        r"All available ports have been allocated already
Try running `portman config edit` to edit the config file and modify the `ranges` field to allow more ports.
"
    );
    assert!(registry.get("project").is_none());
    assert!(!registry.dirty());
}

#[test]
fn default_link_follows_the_repository() {
    let registry = sample_registry();
    assert_eq!(
        default_link(&registry, false, Some("https://github.com/user/app3.git")),
        Some(3004)
    );
    assert_eq!(
        default_link(&registry, true, Some("https://github.com/user/app3.git")),
        None
    );
    assert_eq!(
        default_link(&registry, false, Some("https://github.com/user/project.git")),
        None
    );
    assert_eq!(default_link(&registry, false, None), None);
}

#[test]
fn test_create_invalid_config() {
    let err = Config::from_parts(vec![], vec![]).unwrap_err();
    assert_eq!(
        failure_output(&err, &create_command(None)),
        "Configuration is invalid:\n\nValidation error: port ranges must not be empty\n\nTry running `portman config edit` to edit the config file and correct the error.\n"
    );
}

#[test]
fn main_test_create_invalid_name() {
    let mut registry = sample_registry();
    let err = create(&LowestPort, &mut registry, None, "", None, None, false).unwrap_err();
    assert_eq!(
        failure_output(&err, &create_command(None)),
        "Project name \"\" is invalid: must not be empty\nTry manually providing a project name.\n"
    );
    let named = registry.create(&LowestPort, "-x", None, None).unwrap_err();
    assert_eq!(
        failure_output(&named, &create_command(Some("-x"))),
        "Project name \"-x\" is invalid: must not start or end with a dash\n"
    );
}

#[test]
fn test_create_name() {
    let mut registry = sample_registry();
    let (name, project, updated) = create(
        &LowestPort,
        &mut registry,
        Some(String::from("project")),
        "ignored",
        Some(String::from("/projects/project")),
        None,
        false,
    )
    .unwrap();
    assert_eq!(
        create_output(&name, &project, updated, true),
        "Created project project :3004 (/projects/project)\n"
    );
}

#[test]
fn test_create_no_activate() {
    let mut registry = sample_registry();
    let (name, project, updated) = create(
        &LowestPort,
        &mut registry,
        Some(String::from("project")),
        "",
        None,
        None,
        false,
    )
    .unwrap();
    assert_eq!(
        create_output(&name, &project, updated, true),
        "Created project project :3004\n"
    );
}

#[test]
fn test_create_overwrite() {
    let mut registry = sample_registry();
    let (name, project, updated) = create(
        &LowestPort,
        &mut registry,
        Some(String::from("app3")),
        "project",
        Some(String::from("/projects/project")),
        None,
        true,
    )
    .unwrap();
    assert_eq!(
        create_output(&name, &project, updated, true),
        "Updated project app3 :3003 (/projects/project)\n"
    );
    assert!(registry.dirty());
}

#[test]
fn test_create_overwrite_link() {
    let mut registry = sample_registry();
    let linked_port = default_link(&registry, false, Some("https://github.com/user/app3.git"));
    let (name, project, updated) = create(
        &LowestPort,
        &mut registry,
        Some(String::from("app3")),
        "project",
        Some(String::from("/projects/project")),
        linked_port,
        true,
    )
    .unwrap();
    assert_eq!(
        create_output(&name, &project, updated, true),
        "Updated project app3 :3003 -> :3004 (/projects/project)\n"
    );
}

#[test]
fn overwrite_refuses_a_claimed_directory() {
    let mut registry = sample_registry();
    let err = create(
        &LowestPort,
        &mut registry,
        Some(String::from("app1")),
        "app3",
        Some(String::from("/projects/app3")),
        Some(3002),
        true,
    )
    .unwrap_err();
    assert_eq!(
        err,
        ApplicationError::DuplicateDirectory(String::from("app3"), String::from("/projects/app3")),
    );
    assert_eq!(registry.get("app2").unwrap().port, 3002);
    assert!(!registry.dirty());
}

#[test]
fn overwrite_of_a_new_name_creates() {
    let mut registry = sample_registry();
    let (name, project, updated) = create(
        &LowestPort,
        &mut registry,
        None,
        "My Project",
        None,
        None,
        true,
    )
    .unwrap();
    assert_eq!(name, "my-project");
    assert!(!updated);
    assert_eq!(project.port, 3004);
}

#[test]
fn main_test_delete() {
    let mut registry = sample_registry();
    let name = get_active_project(&registry, "/projects/app3").unwrap().0.clone();
    let project = registry.delete(&name).unwrap();
    assert_eq!(
        delete_output(&name, &project),
        "Deleted project app3 :3003 (/projects/app3)\n"
    );
}

#[test]
fn test_delete_no_active() {
    let registry = sample_registry();
    let err = get_active_project(&registry, "/projects/app2").unwrap_err();
    assert_eq!(
        failure_output(&err, &Cli::Delete { project_name: None }),
        "The current directory does not contain a project\nTry running the command again in a directory containing a project or providing an explicit project name.\n"
    );
}

#[test]
fn test_cleanup_single() {
    let mut registry = sample_registry();
    let deleted = cleanup(&mut registry, &vec![String::from("/projects/app3")]).unwrap();
    assert_eq!(
        cleanup_output(&deleted),
        r"Deleted 1 project
app3 :3003 (/projects/app3)
"
    );
    assert!(registry.get("app3").is_none());
    assert!(registry.dirty());
}

#[test]
fn test_cleanup_none() {
    let mut registry = sample_registry();
    let deleted = cleanup(&mut registry, &vec![]).unwrap();
    assert_eq!(cleanup_output(&deleted), "Deleted 0 projects\n");
    assert!(!registry.dirty());
}

#[test]
fn cleanup_deletes_every_project_that_is_gone() {
    let mut registry = sample_registry();
    registry.update("app1", Some(String::from("/projects/app1"))).unwrap();
    registry.update("app2", Some(String::from("/projects/app2"))).unwrap();
    let gone = vec![String::from("/projects/app3"), String::from("/projects/app1"), String::from("/elsewhere")];
    let deleted = cleanup(&mut registry, &gone).unwrap();
    assert_eq!(
        cleanup_output(&deleted),
        "Deleted 2 projects\napp1 :3001 (/projects/app1)\napp3 :3003 (/projects/app3)\n"
    );
    assert_eq!(list_output(&registry), "app2 :3002 -> :3000 (/projects/app2)\n");
}

#[test]
fn test_list() {
    let registry = sample_registry();
    assert_eq!(
        list_output(&registry),
        r"app1 :3001
app2 :3002 -> :3000
app3 :3003 (/projects/app3)
"
    );
}

#[test]
fn test_link() {
    let mut registry = sample_registry();
    let name = get_active_project(&registry, "/projects/app3").unwrap().0.clone();
    let port = registry
        .get_repo_port("https://github.com/user/app3.git")
        .unwrap();
    registry.link(&LowestPort, &name, port).unwrap();
    assert_eq!(link_output(port, &name), "Linked port 3004 to project app3\n");
    assert!(!link_saves_repo(None, &None, false));
    assert_eq!(registry.get("app3").unwrap().linked_port, Some(3004));
}

#[test]
fn test_link_unknown_repo() {
    let registry = sample_registry();
    let err = registry
        .get_repo_port("https://github.com/user/project.git")
        .unwrap_err();
    let cli = Cli::Link { port: None, project_name: None, no_save: false };
    assert_eq!(
        failure_output(&err, &cli),
        "Repo https://github.com/user/project.git does not exist\nTry providing an explicit port.\n"
    );
}

#[test]
fn test_link_no_repo() {
    let err = ApplicationError::GitCommand(ExecError::Failed {
        command: String::from("git remote get-url origin"),
        code: 1,
        output: String::from("No repo\n"),
    });
    let cli = Cli::Link { port: None, project_name: None, no_save: false };
    assert_eq!(
        failure_output(&err, &cli),
        "Git command could not be run:\n\nCommand \"git remote get-url origin\" failed with exit code 1 and output:\nNo repo\n\nTry running `portman link` in a directory with a git repo or providing an explicit port.\n"
    );
}

#[test]
fn test_link_port() {
    let mut registry = sample_registry();
    registry.link(&LowestPort, "app3", 3005).unwrap();
    assert!(link_saves_repo(Some(3005), &None, false));
    registry.set_repo_port(String::from("https://github.com/user/app3.git"), 3005);
    assert_eq!(
        link_output(3005, "app3") + &saved_repo_output(3005, "https://github.com/user/app3.git"),
        "Linked port 3005 to project app3\nSaved default port 3005 for repo https://github.com/user/app3.git\n"
    );
    assert_eq!(registry.get_repo_port("https://github.com/user/app3.git").unwrap(), 3005);
}

#[test]
fn test_link_port_no_save() {
    assert!(!link_saves_repo(Some(3005), &None, true));
    assert_eq!(link_output(3005, "app3"), "Linked port 3005 to project app3\n");
}

#[test]
fn test_link_port_and_project() {
    assert!(!link_saves_repo(Some(3005), &Some(String::from("app3")), false));
    assert_eq!(link_output(3005, "app3"), "Linked port 3005 to project app3\n");
}

#[test]
fn main_test_unlink() {
    let mut registry = sample_registry();
    let holder = registry.unlink(3000);
    assert_eq!(
        unlink_output(3000, &holder),
        "Unlinked port 3000 from project app2\n"
    );
}

#[test]
fn main_test_unlink_not_linked() {
    let mut registry = sample_registry();
    let holder = registry.unlink(3005);
    assert_eq!(
        unlink_output(3005, &holder),
        "Port 3005 was not linked to a project\n"
    );
}

#[test]
fn test_repo_delete() {
    let mut registry = sample_registry();
    let port = registry
        .delete_repo("https://github.com/user/app3.git")
        .unwrap();
    assert_eq!(
        repo_delete_output("https://github.com/user/app3.git", port),
        "Deleted repo https://github.com/user/app3.git: 3004\n"
    );
    assert!(registry.dirty());
}

#[test]
fn test_repo_delete_non_existent() {
    let mut registry = sample_registry();
    let err = registry
        .delete_repo("https://github.com/user/project.git")
        .unwrap_err();
    let cli = Cli::Repo(Repo::Delete { repo: String::from("https://github.com/user/project.git") });
    assert_eq!(
        failure_output(&err, &cli),
        "Repo https://github.com/user/project.git does not exist\nTry running `portman repo list` to see which repos exist.\n"
    );
    assert_eq!(suggestion(&err, &Cli::Repo(Repo::List)), "");
}

#[test]
fn test_repo_delete_list() {
    let registry = sample_registry();
    assert_eq!(
        repo_list_output(&registry),
        "https://github.com/user/app3.git: 3004\n"
    );
}

#[test]
fn errors_without_advice() {
    let other = ApplicationError::Other(String::from("Failed"));
    assert_eq!(failure_output(&other, &Cli::Config(ConfigCommand::Edit)), "Failed\n");
    let duplicate = ApplicationError::DuplicateProject(String::from("app3"));
    assert_eq!(suggestion(&duplicate, &Cli::List), "");
    let editor = ApplicationError::EditorCommand(ExecError::IO {
        command: String::from("editor"),
        not_found: false,
        io_err: String::from("permission denied"),
    });
    assert_eq!(suggestion(&editor, &Cli::Config(ConfigCommand::Edit)), "");
    let caddy = ApplicationError::Caddy(CaddyError::Exec(ExecError::Failed {
        command: String::from("caddy reload"),
        code: 2,
        output: String::new(),
    }));
    assert_eq!(suggestion(&caddy, &Cli::ReloadCaddy), "");
    let wrapped = ApplicationError::Caddy(CaddyError::Other(String::from("Error writing")));
    assert_eq!(wrapped.message(), "Error reloading caddy:\nError writing");
    assert_eq!(suggestion(&wrapped, &Cli::Caddyfile), "");
}

#[test]
fn exec_errors_are_described() {
    let terminated = exec_outcome(
        String::from("caddy reload"),
        ExecStatus::from_exit(false, None, String::from("out"), String::from("killed")),
    )
    .unwrap_err();
    assert_eq!(
        terminated,
        ExecError::Terminated { command: String::from("caddy reload"), output: String::from("killed") },
    );
    assert_eq!(
        terminated.message(),
        "Command \"caddy reload\" was terminated with output:\nkilled"
    );
    let negative = ExecError::Failed {
        command: String::from("x"),
        code: -2147483648,
        output: String::new(),
    };
    assert_eq!(
        negative.message(),
        "Command \"x\" failed with exit code -2147483648 and output:\n"
    );
    assert_eq!(
        exec_outcome(
            String::from("git"),
            ExecStatus::from_exit(true, Some(0), String::from("out"), String::from("err")),
        ),
        Ok(String::from("out")),
    );
    assert_eq!(format_command("git", &vec![]), "git");
}

#[test]
fn reading_a_file_that_is_absent_is_no_error() {
    assert_eq!(
        read_outcome("config.toml", Ok(String::from("ranges = []"))),
        Ok(Some(String::from("ranges = []"))),
    );
    assert_eq!(read_outcome("config.toml", Err(true)), Ok(None));
    assert_eq!(
        read_outcome("config.toml", Err(false)),
        Err(String::from("Failed to read file at \"config.toml\"")),
    );
}
