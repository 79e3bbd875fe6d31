use std::collections::HashSet;

use portman::allocator::PortAllocator;
use portman::config::Config;
use portman::dependencies::ChoosePort;
use portman::error::ApplicationError;
use portman::name_map::NameMap;
use portman::registry::{Project, Registry, RegistryData};

struct LowestPort;

impl ChoosePort for LowestPort {
    fn choose_port(&self, available_ports: &HashSet<u16>) -> Option<u16> {
        available_ports.iter().min().copied()
    }
}

struct NoPort;

impl ChoosePort for NoPort {
    fn choose_port(&self, _available_ports: &HashSet<u16>) -> Option<u16> {
        panic!("the strategy must not be consulted")
    }
}

fn project(port: u16, directory: Option<&str>, linked_port: Option<u16>) -> Project {
    Project {
        port,
        directory: directory.map(String::from),
        linked_port,
    }
}

fn document(projects: Vec<(&str, Project)>) -> RegistryData {
    let mut data = RegistryData::new();
    for (name, project) in projects {
        data.projects.insert(String::from(name), project);
    }
    data
}

fn stored_registry() -> RegistryData {
    let mut data = document(vec![
        ("app1", project(3001, None, None)),
        ("app2", project(3002, None, Some(3000))),
        ("app3", project(3003, Some("/projects/app3"), None)),
    ]);
    data.repos
        .insert(String::from("https://github.com/user/app3.git"), 3004);
    data
}

fn load(deps: &impl ChoosePort, config: &Config, data: RegistryData) -> Result<Registry, ApplicationError> {
    let allocator = PortAllocator::new(config.get_valid_ports());
    Registry::new(deps, allocator, data)
}

fn sample_registry() -> Result<Registry, ApplicationError> {
    load(&NoPort, &Config::default(), stored_registry())
}

fn names(registry: &Registry) -> Vec<String> {
    registry
        .iter_projects()
        .iter()
        .map(|(name, _)| name.clone())
        .collect()
}

fn assert_unique(registry: &Registry) {
    let projects = registry.iter_projects();
    for (i, (_, a)) in projects.iter().enumerate() {
        for (j, (_, b)) in projects.iter().enumerate() {
            assert!(a.linked_port != Some(b.port));
            if i != j {
                assert_ne!(a.port, b.port);
                assert!(a.linked_port.is_none() || a.linked_port != b.linked_port);
                assert!(a.directory.is_none() || a.directory != b.directory);
            }
        }
    }
}

#[test]
fn test_load_invalid_name() {
    let data = document(vec![("App1", project(3001, None, None))]);
    let err = load(&NoPort, &Config::default(), data).err().unwrap();
    assert!(matches!(err, ApplicationError::InvalidProjectName(name, _) if name == "App1"));
}

#[test]
fn test_load_duplicate_directory() {
    let data = document(vec![
        ("app1", project(3001, Some("/projects/app"), None)),
        ("app2", project(3002, Some("/projects/app"), None)),
    ]);
    let registry = load(&NoPort, &Config::default(), data).unwrap();
    assert!(registry.get("app1").unwrap().directory.is_some());
    assert!(registry.get("app2").unwrap().directory.is_none());
    assert!(registry.dirty());
}

#[test]
fn test_load_duplicate_linked() {
    let data = document(vec![
        ("app1", project(3001, None, Some(3000))),
        ("app2", project(3002, None, Some(3000))),
    ]);
    let registry = load(&NoPort, &Config::default(), data).unwrap();
    assert!(registry.get("app1").unwrap().linked_port.is_some());
    assert!(registry.get("app2").unwrap().linked_port.is_none());
    assert!(registry.dirty());
}

#[test]
fn test_load_reallocates_for_linked() {
    let data = document(vec![("app1", project(3001, None, Some(3001)))]);
    let registry = load(&LowestPort, &Config::default(), data).unwrap();
    assert_eq!(registry.get("app1").unwrap().port, 3000);
    assert!(registry.dirty());
}

#[test]
fn test_load_normalizes() {
    let config = Config {
        ranges: vec![(4000, 4999)],
        ..Default::default()
    };
    let registry = load(&LowestPort, &config, stored_registry()).unwrap();
    assert_eq!(registry.get("app1").unwrap().port, 4000);
    assert_eq!(registry.get("app2").unwrap().port, 4001);
    assert_eq!(registry.get("app3").unwrap().port, 4002);
    assert!(registry.dirty());
}

#[test]
fn test_save_clean() {
    let registry = sample_registry().unwrap();
    assert!(!registry.dirty());
    assert!(registry.save().is_none());
}

#[test]
fn registry_test_get() {
    let registry = sample_registry().unwrap();
    assert_eq!(registry.get("app1").unwrap().port, 3001);
    assert!(registry.get("app4").is_none());
}

#[test]
fn registry_test_create() {
    let mut registry = sample_registry().unwrap();
    registry.create(&LowestPort, "app4", None, None).unwrap();
    assert!(registry.get("app4").is_some());
    assert!(registry.dirty());
}

#[test]
fn registry_test_create_invalid_name() {
    let mut registry = sample_registry().unwrap();
    let err = registry.create(&NoPort, "App3", None, None).err().unwrap();
    assert!(matches!(err, ApplicationError::InvalidProjectName(_, _)));
    assert!(!registry.dirty());
}

#[test]
fn test_create_duplicate_name() {
    let mut registry = sample_registry().unwrap();
    let err = registry.create(&NoPort, "app3", None, None).err().unwrap();
    assert!(matches!(err, ApplicationError::DuplicateProject(_)));
    assert!(!registry.dirty());
}

#[test]
fn test_create_linked_port() {
    let mut registry = sample_registry().unwrap();
    registry
        .create(&LowestPort, "app4", None, Some(3100))
        .unwrap();
    assert_eq!(registry.get("app4").unwrap().linked_port.unwrap(), 3100);
    assert!(registry.dirty());
}

#[test]
fn test_create_linked_port_reallocates_previous() {
    let mut registry = sample_registry().unwrap();
    registry
        .create(&LowestPort, "app4", None, Some(3001))
        .unwrap();
    assert_eq!(registry.get("app1").unwrap().port, 3005);
    assert!(registry.dirty());
}

#[test]
fn registry_test_create_duplicate_directory() {
    let mut registry = sample_registry().unwrap();
    let result = registry.create(
        &NoPort,
        "app4",
        Some(String::from("/projects/app3")),
        None,
    );
    assert!(matches!(
        result,
        Err(ApplicationError::DuplicateDirectory(_, _)),
    ));
    assert!(!registry.dirty());
}

#[test]
fn test_update() {
    let mut registry = sample_registry().unwrap();
    let path = String::from("/projects/app2");
    assert_eq!(
        registry
            .update("app2", Some(path.clone()))
            .ok()
            .unwrap()
            .directory
            .unwrap(),
        path,
    );
    assert_eq!(
        registry.get("app2").unwrap().directory.as_ref().unwrap(),
        &path,
    );
    assert!(registry.dirty());
}

#[test]
fn test_update_same() {
    let mut registry = sample_registry().unwrap();
    let path = String::from("/projects/app3");
    assert_eq!(
        registry
            .update("app3", Some(path.clone()))
            .ok()
            .unwrap()
            .directory
            .unwrap(),
        path,
    );
    assert_eq!(
        registry.get("app3").unwrap().directory.as_ref().unwrap(),
        &path,
    );
    assert!(!registry.dirty());
}

#[test]
fn test_update_nonexistent() {
    let mut registry = sample_registry().unwrap();
    let err = registry.update("app4", None).err().unwrap();
    assert!(matches!(err, ApplicationError::NonExistentProject(_)));
}

#[test]
fn update_refuses_a_claimed_directory() {
    let mut registry = sample_registry().unwrap();
    let err = registry
        .update("app2", Some(String::from("/projects/app3")))
        .err()
        .unwrap();
    assert!(matches!(
        err,
        ApplicationError::DuplicateDirectory(owner, directory)
            if owner == "app3" && directory == "/projects/app3"
    ));
    assert!(registry.get("app2").unwrap().directory.is_none());
    assert!(!registry.dirty());
}

#[test]
fn registry_test_delete() {
    let mut registry = sample_registry().unwrap();
    registry.delete("app2").ok().unwrap();
    assert!(registry.get("app2").is_none());
}

#[test]
fn test_delete_nonexistent() {
    let mut registry = sample_registry().unwrap();
    let err = registry.delete("app4").err().unwrap();
    assert!(matches!(err, ApplicationError::NonExistentProject(_)));
}

#[test]
fn test_delete_many() {
    let mut registry = sample_registry().unwrap();
    let deleted_projects = registry
        .delete_many(vec![String::from("app1"), String::from("app2")])
        .ok()
        .unwrap()
        .into_iter()
        .map(|(name, _)| name)
        .collect::<Vec<_>>();
    assert_eq!(
        deleted_projects,
        vec![String::from("app1"), String::from("app2")],
    );
    assert_eq!(names(&registry), vec!["app3"]);
}

#[test]
fn test_delete_many_none() {
    let mut registry = sample_registry().unwrap();
    assert!(registry.delete_many(vec![]).ok().unwrap().is_empty());
    assert!(!registry.dirty());
}

#[test]
fn delete_many_stops_at_a_missing_name() {
    let mut registry = sample_registry().unwrap();
    let err = registry
        .delete_many(vec![
            String::from("app1"),
            String::from("app4"),
            String::from("app2"),
        ])
        .err()
        .unwrap();
    assert!(matches!(err, ApplicationError::NonExistentProject(name) if name == "app4"));
    assert_eq!(names(&registry), vec!["app2", "app3"]);
    assert!(registry.dirty());
}

#[test]
fn test_delete_all() {
    let mut registry = sample_registry().unwrap();
    registry.delete_all();
    assert!(registry.iter_projects().is_empty());
    assert!(registry.dirty());
}

#[test]
fn delete_all_hands_back_what_it_removed() {
    let mut registry = sample_registry().unwrap();
    let deleted = registry.delete_all();
    assert_eq!(
        deleted,
        vec![
            (String::from("app1"), project(3001, None, None)),
            (String::from("app2"), project(3002, None, Some(3000))),
            (String::from("app3"), project(3003, Some("/projects/app3"), None)),
        ],
    );
    assert!(registry.iter_projects().is_empty());
    assert!(registry.dirty());
    let mut empty = load(&NoPort, &Config::default(), RegistryData::new()).unwrap();
    assert!(empty.delete_all().is_empty());
    assert!(!empty.dirty());
}

#[test]
fn load_clears_repeats_without_drawing() {
    let data = document(vec![
        ("app1", project(3001, Some("/projects/app"), Some(3000))),
        ("app2", project(3002, Some("/projects/app"), Some(3000))),
    ]);
    let registry = load(&NoPort, &Config::default(), data).unwrap();
    assert_eq!(registry.get("app1").unwrap(), &project(3001, Some("/projects/app"), Some(3000)));
    assert_eq!(registry.get("app2").unwrap(), &project(3002, None, None));
    assert!(registry.dirty());
}

#[test]
fn load_moves_a_project_off_a_linked_port() {
    let data = document(vec![
        ("app1", project(3001, None, None)),
        ("app2", project(3002, None, Some(3001))),
    ]);
    let registry = load(&LowestPort, &Config::default(), data).unwrap();
    assert_eq!(registry.get("app1").unwrap().port, 3000);
    assert_eq!(registry.get("app2").unwrap().port, 3002);
    assert_eq!(registry.get("app2").unwrap().linked_port, Some(3001));
    assert!(registry.dirty());
}

#[test]
fn test_link_create() {
    let mut registry = sample_registry().unwrap();
    registry.link(&NoPort, "app2", 3005).ok().unwrap();
    assert_eq!(registry.get("app2").unwrap().linked_port.unwrap(), 3005);
    assert!(registry.dirty());
}

#[test]
fn test_link_change() {
    let mut registry = sample_registry().unwrap();
    registry.link(&NoPort, "app2", 3100).ok().unwrap();
    assert_eq!(registry.get("app2").unwrap().linked_port.unwrap(), 3100);
    assert!(registry.dirty());
}

#[test]
fn test_link_move() {
    let mut registry = sample_registry().unwrap();
    registry.link(&NoPort, "app3", 3000).ok().unwrap();
    assert!(registry.get("app2").unwrap().linked_port.is_none());
    assert_eq!(registry.get("app3").unwrap().linked_port.unwrap(), 3000);
    assert!(registry.dirty());
}

#[test]
fn test_link_noop() {
    let mut registry = sample_registry().unwrap();
    registry.link(&NoPort, "app2", 3000).ok().unwrap();
    assert!(!registry.dirty());
}

#[test]
fn test_link_nonexistent() {
    let mut registry = sample_registry().unwrap();
    let err = registry.link(&NoPort, "app4", 3004).err().unwrap();
    assert!(matches!(err, ApplicationError::NonExistentProject(_)));
    assert!(!registry.dirty());
}

#[test]
fn test_link_reallocates_previous() {
    let mut registry = sample_registry().unwrap();
    registry.link(&LowestPort, "app2", 3001).ok().unwrap();
    assert_ne!(registry.get("app1").unwrap().port, 3001);
    assert_eq!(registry.get("app2").unwrap().linked_port.unwrap(), 3001);
    assert!(registry.dirty());
}

#[test]
fn test_link_reallocates_self() {
    let mut registry = sample_registry().unwrap();
    registry.link(&LowestPort, "app1", 3001).ok().unwrap();
    assert_ne!(registry.get("app1").unwrap().port, 3001);
    assert_eq!(registry.get("app1").unwrap().linked_port.unwrap(), 3001);
    assert!(registry.dirty());
}

#[test]
fn link_evicts_the_project_on_the_port() {
    let mut registry = sample_registry().unwrap();
    registry.link(&LowestPort, "app2", 3001).ok().unwrap();
    assert_eq!(registry.get("app1").unwrap().port, 3004);
    assert_eq!(registry.get("app2").unwrap().linked_port, Some(3001));
    assert_unique(&registry);
}

#[test]
fn link_fails_where_the_pool_gives_no_port() {
    let config = Config {
        ranges: vec![(3001, 3003)],
        ..Default::default()
    };
    let mut registry = load(&NoPort, &config, stored_registry()).unwrap();
    let err = registry.link(&LowestPort, "app2", 3001).err().unwrap();
    assert!(matches!(err, ApplicationError::EmptyAllocator));
    assert_eq!(registry.get("app1").unwrap().port, 3001);
    assert_eq!(registry.get("app2").unwrap().linked_port, Some(3000));
    assert!(!registry.dirty());
}

#[test]
fn linked_port_is_not_handed_out_afterwards() {
    let mut registry = sample_registry().unwrap();
    registry.link(&NoPort, "app1", 3004).ok().unwrap();
    let created = registry.create(&LowestPort, "app4", None, None).ok().unwrap();
    assert_eq!(created.port, 3005);
    assert_unique(&registry);
}

#[test]
fn registry_test_unlink() {
    let mut registry = sample_registry().unwrap();
    assert_eq!(registry.unlink(3000).unwrap(), String::from("app2"));
    assert!(registry.dirty());
}

#[test]
fn registry_test_unlink_not_linked() {
    let mut registry = sample_registry().unwrap();
    assert!(registry.unlink(3001).is_none());
    assert!(!registry.dirty());
}

#[test]
fn test_match_cwd_dir() {
    let registry = sample_registry().unwrap();
    assert_eq!(registry.match_cwd("/projects/app3").unwrap().0, "app3");
}

#[test]
fn match_cwd_finds_nothing_elsewhere() {
    let registry = sample_registry().unwrap();
    assert!(registry.match_cwd("/projects/app1").is_none());
}

#[test]
fn test_normalize_name() {
    assert_eq!(
        Registry::normalize_name("--ABC_def---_123-"),
        String::from("abc-def-123"),
    );
    assert_eq!(Registry::normalize_name(&"a".repeat(100)).len(), 63);
    assert_eq!(
        Registry::normalize_name(&format!("{}-a", "a".repeat(62))).len(),
        62,
    );
}

#[test]
fn normalize_name_edge_cases() {
    assert_eq!(Registry::normalize_name(""), "");
    assert_eq!(Registry::normalize_name("---"), "");
    assert_eq!(Registry::normalize_name("Über Project"), "ber-project");
    assert_eq!(Registry::normalize_name("a"), "a");
    let slug = Registry::normalize_name(&"x_".repeat(50));
    assert_eq!(slug.len(), 63);
    assert!(Registry::validate_name(&slug).is_ok());
}

#[test]
fn test_validate_name() {
    assert!(matches!(
        Registry::validate_name("").unwrap_err(),
        ApplicationError::InvalidProjectName(_, reason) if reason == "must not be empty",
    ));
    assert!(matches!(
        Registry::validate_name(&"a".repeat(64)).unwrap_err(),
        ApplicationError::InvalidProjectName(_, reason) if reason == "must not exceed 63 characters",
    ));
    assert!(matches!(
        Registry::validate_name("-a").unwrap_err(),
        ApplicationError::InvalidProjectName(_, reason) if reason == "must not start or end with a dash",
    ));
    assert!(matches!(
        Registry::validate_name("a-").unwrap_err(),
        ApplicationError::InvalidProjectName(_, reason) if reason == "must not start or end with a dash",
    ));
    assert!(matches!(
        Registry::validate_name("a--b").unwrap_err(),
        ApplicationError::InvalidProjectName(_, reason) if reason == "must not contain consecutive dashes",
    ));
    assert!(matches!(
        Registry::validate_name("a_b").unwrap_err(),
        ApplicationError::InvalidProjectName(_, reason) if reason == "must only contain lowercase alphanumeric characters and dashes",
    ));
    assert!(matches!(
        Registry::validate_name("A-B").unwrap_err(),
        ApplicationError::InvalidProjectName(_, reason) if reason == "must only contain lowercase alphanumeric characters and dashes",
    ));
    assert!(Registry::validate_name("a").is_ok());
    assert!(Registry::validate_name("a-0").is_ok());
}

#[test]
fn validate_name_accepts_the_longest_name() {
    assert!(Registry::validate_name(&"a".repeat(63)).is_ok());
}

#[test]
fn load_replaces_ports_outside_the_ranges() {
    let config = Config {
        ranges: vec![(4000, 4999)],
        ..Default::default()
    };
    let data = document(vec![("app1", project(3001, None, None))]);
    let registry = load(&LowestPort, &config, data).unwrap();
    let port = registry.get("app1").unwrap().port;
    assert!((4000..=4999).contains(&port));
    assert_eq!(port, 4000);
    assert!(registry.dirty());
}

#[test]
fn load_keeps_a_settled_document() {
    let registry = sample_registry().unwrap();
    assert!(!registry.dirty());
    assert_eq!(registry.get("app1").unwrap().port, 3001);
    assert_eq!(registry.get("app2").unwrap().port, 3002);
    assert_eq!(registry.get("app2").unwrap().linked_port, Some(3000));
    assert_eq!(registry.get("app3").unwrap().port, 3003);
    assert_eq!(
        registry.get("app3").unwrap().directory.as_deref(),
        Some("/projects/app3"),
    );
    assert_eq!(names(&registry), vec!["app1", "app2", "app3"]);
    assert_unique(&registry);
}

#[test]
fn load_fails_where_the_pool_is_too_small() {
    let config = Config {
        ranges: vec![(4000, 4001)],
        ..Default::default()
    };
    let err = load(&LowestPort, &config, stored_registry()).err().unwrap();
    assert!(matches!(err, ApplicationError::EmptyAllocator));
}

#[test]
fn load_of_nothing_is_empty_and_clean() {
    let registry = load(&NoPort, &Config::default(), RegistryData::new()).unwrap();
    assert!(registry.iter_projects().is_empty());
    assert!(registry.iter_repos().is_empty());
    assert!(!registry.dirty());
}

#[test]
fn save_hands_out_the_document_once() {
    let mut registry = sample_registry().unwrap();
    registry.create(&LowestPort, "app0", None, None).ok().unwrap();
    let document = registry.save().unwrap();
    let stored: Vec<(String, u16)> = document
        .projects
        .as_entries()
        .iter()
        .map(|(name, project)| (name.clone(), project.port))
        .collect();
    assert_eq!(
        stored,
        vec![
            (String::from("app0"), 3004),
            (String::from("app1"), 3001),
            (String::from("app2"), 3002),
            (String::from("app3"), 3003),
        ],
    );
    assert_eq!(document.repos.get("https://github.com/user/app3.git"), Some(&3004));
    registry.mark_saved();
    assert!(!registry.dirty());
    assert!(registry.save().is_none());
    let reloaded = load(&NoPort, &Config::default(), document).unwrap();
    assert!(!reloaded.dirty());
    assert_eq!(names(&reloaded), names(&registry));
}

#[test]
fn repositories_are_remembered() {
    let mut registry = sample_registry().unwrap();
    assert_eq!(
        registry.get_repo_port("https://github.com/user/app3.git").ok(),
        Some(3004),
    );
    assert!(matches!(
        registry.get_repo_port("https://github.com/user/project.git"),
        Err(ApplicationError::NonExistentRepo(repo)) if repo == "https://github.com/user/project.git",
    ));
    registry.set_repo_port(String::from("https://github.com/user/app3.git"), 3004);
    assert!(!registry.dirty());
    registry.set_repo_port(String::from("https://github.com/user/app1.git"), 3010);
    assert!(registry.dirty());
    let repos: Vec<(String, u16)> = registry.iter_repos().clone();
    assert_eq!(
        repos,
        vec![
            (String::from("https://github.com/user/app1.git"), 3010),
            (String::from("https://github.com/user/app3.git"), 3004),
        ],
    );
    assert_eq!(
        registry.delete_repo("https://github.com/user/app3.git").ok(),
        Some(3004),
    );
    assert!(matches!(
        registry.delete_repo("https://github.com/user/app3.git"),
        Err(ApplicationError::NonExistentRepo(_)),
    ));
}

#[test]
fn projects_are_kept_in_the_order_of_names() {
    let mut map: NameMap<u16> = NameMap::new();
    for (key, value) in [("b", 2), ("a", 1), ("ab", 3), ("B", 4), ("a-", 5)] {
        assert!(map.insert(String::from(key), value).is_none());
    }
    assert_eq!(map.insert(String::from("a"), 6), Some(1));
    let keys: Vec<&str> = map.as_entries().iter().map(|(key, _)| key.as_str()).collect();
    assert_eq!(keys, vec!["B", "a", "a-", "ab", "b"]);
    assert_eq!(map.get("a"), Some(&6));
    assert_eq!(map.remove("ab"), Some(3));
    assert_eq!(map.remove("ab"), None);
    assert_eq!(map.len(), 4);
}

#[test]
fn creation_keeps_the_invariants() {
    let mut registry = sample_registry().unwrap();
    registry
        .create(&LowestPort, "zeta", Some(String::from("/projects/zeta")), Some(3002))
        .ok()
        .unwrap();
    registry
        .create(&LowestPort, "alpha", None, Some(3004))
        .ok()
        .unwrap();
    assert_eq!(names(&registry), vec!["alpha", "app1", "app2", "app3", "zeta"]);
    assert_unique(&registry);
    assert_eq!(registry.get("zeta").unwrap().linked_port, Some(3002));
    assert_eq!(registry.get("alpha").unwrap().linked_port, Some(3004));
}
