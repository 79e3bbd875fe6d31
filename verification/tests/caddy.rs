use std::collections::HashSet;

use portman::allocator::PortAllocator;
use portman::caddy::{generate_caddyfile, generate_gallery_index, update_import};
use portman::config::Config;
use portman::dependencies::ChoosePort;
use portman::registry::{Project, Registry, RegistryData};

struct NoPort;

impl ChoosePort for NoPort {
    fn choose_port(&self, _available_ports: &HashSet<u16>) -> Option<u16> {
        None
    }
}

fn sample_registry() -> Registry {
    let mut data = RegistryData::new();
    data.projects.insert(
        String::from("app1"),
        Project { port: 3001, directory: None, linked_port: None },
    );
    data.projects.insert(
        String::from("app2"),
        Project { port: 3002, directory: None, linked_port: Some(3000) },
    );
    data.projects.insert(
        String::from("app3"),
        Project {
            port: 3003,
            directory: Some(String::from("/projects/app3")),
            linked_port: None,
        },
    );
    let allocator = PortAllocator::new(Config::default().get_valid_ports());
    Registry::new(&NoPort, allocator, data).unwrap()
}

const GOLDEN_CADDYFILE: &str = "localhost {
	file_server {
		root \"/data/gallery_www\"
	}
}

app1.localhost {
\treverse_proxy localhost:3001
}

app2.localhost {
\treverse_proxy localhost:3002
}

http://localhost:3000 {
\treverse_proxy localhost:3002
}

app3.localhost {
\treverse_proxy localhost:3003
}
";

#[test]
fn caddy_test_caddyfile() {
    let registry = sample_registry();
    assert_eq!(
        generate_caddyfile("/data/gallery_www", &registry),
        GOLDEN_CADDYFILE
    );
}

#[test]
fn caddyfile_of_an_empty_registry() {
    let allocator = PortAllocator::new(vec![]);
    let registry = Registry::new(&NoPort, allocator, RegistryData::new()).unwrap();
    assert_eq!(
        generate_caddyfile("/www", &registry),
        "localhost {\n\tfile_server {\n\t\troot \"/www\"\n\t}\n}\n"
    );
}

#[test]
fn test_update_import_no_existing() {
    assert_eq!(
        update_import("/data/Caddyfile", None),
        Some(String::from("import \"/data/Caddyfile\"\n"))
    );
}

#[test]
fn test_update_import_already_present() {
    assert!(update_import(
        "/data/Caddyfile",
        Some(String::from(
            "import \"/data/Caddyfile\"\n# Other content\n"
        ))
    )
    .is_none());
}

#[test]
fn test_update_import_prepend() {
    assert_eq!(
        update_import("/data/Caddyfile", Some(String::from("# Suffix\n"))),
        Some(String::from("import \"/data/Caddyfile\"\n# Suffix\n"))
    );
}

#[test]
fn update_import_finds_the_line_anywhere() {
    assert!(update_import(
        "/data/Caddyfile",
        Some(String::from("# Prefix\nimport \"/data/Caddyfile\"\n"))
    )
    .is_none());
    assert_eq!(
        update_import(
            "/data/Caddyfile",
            Some(String::from("import \"/data/Caddyfile\""))
        ),
        Some(String::from(
            "import \"/data/Caddyfile\"\nimport \"/data/Caddyfile\""
        ))
    );
}

#[test]
fn update_import_is_idempotent() {
    let first = update_import("/data/Caddyfile", Some(String::from("# Suffix\n"))).unwrap();
    assert!(update_import("/data/Caddyfile", Some(first)).is_none());
}

#[test]
fn test_generate_gallery() {
    let registry = sample_registry();
    let gallery = generate_gallery_index(&registry);
    assert!(gallery.contains("portman projects (3)"));
    assert!(gallery.contains("href=\"https://app1.localhost\""));
    assert!(gallery.contains("<p class=\"monospace\">\"/projects/app3\"</p>"));
}

#[test]
fn gallery_cards_are_exact() {
    let registry = sample_registry();
    let gallery = generate_gallery_index(&registry);
    assert!(gallery.starts_with("\n<!DOCTYPE html>\n<html lang=\"en\">\n  <head>\n    <style>\n      .container {\n"));
    assert!(gallery.contains(
        "      <div class=\"gallery\">
        <a class=\"project\" href=\"https://app1.localhost\">
          <h2>app1</h2>
          <p>Port: <strong>3001</strong></p>
        </a>
        <a class=\"project\" href=\"https://app2.localhost\">
          <h2>app2</h2>
          <p>Port: <strong>3002</strong></p>
        </a>
        <a class=\"project\" href=\"https://app3.localhost\">
          <h2>app3</h2>
          <p>Port: <strong>3003</strong></p>
          <p class=\"monospace\">\"/projects/app3\"</p>
        </a>
      </div>
    </div>
  </body>
</html>
"
    ));
    assert!(gallery.ends_with("</html>\n"));
}
