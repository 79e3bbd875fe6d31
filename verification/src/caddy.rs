use vstd::prelude::*;
use vstd::string::StringExecFns;

use crate::registry::{Project, ProjectView, Registry};
use crate::text::{contains_text, decimal, push_decimal, text_contains};

verus! {

/// The gallery page up to the number of projects.
pub const GALLERY_HEAD: &'static str = "\n<!DOCTYPE html>\n<html lang=\"en\">\n  <head>\n    <style>\n      .container {\n        font-family: Arial, Helvetica, sans-serif;\n      }\n\n      .container h1 {\n        text-align: center;\n        margin-bottom: 1em;\n      }\n\n      .gallery {\n        flex-wrap: wrap;\n        justify-content: center;\n        gap: 2em;\n        margin: auto 3em;\n        display: flex;\n      }\n\n      .project {\n        width: 22em;\n        color: #222;\n        background-color: #eee;\n        border-radius: 1.5em;\n        padding: 1em 2em;\n        text-decoration: none;\n        overflow: scroll;\n      }\n\n      .project:hover {\n        background-color: #ddd;\n      }\n\n      .project:active {\n        background-color: #ccc;\n      }\n\n      .project h1 {\n        text-align: center;\n        border-bottom: 1px solid #444;\n        padding-bottom: 0.5em;\n      }\n\n      .monospace {\n        font-family: Courier New, Courier, monospace;\n        font-size: 0.8em;\n      }\n    </style>\n    <meta charset=\"utf-8\" />\n    <title>portman Localhost Projects</title>\n  </head>\n  <body>\n    <div class=\"container\">\n      <h1>portman projects (";

/// The gallery page between the number of projects and the projects.
pub const GALLERY_MIDDLE: &'static str = ")</h1>\n      <div class=\"gallery\">";

/// The gallery page after the projects.
pub const GALLERY_TAIL: &'static str = "\n      </div>\n    </div>\n  </body>\n</html>\n";

/// The block of the proxy configuration that serves the gallery from the
/// directory `gallery_www_path`.
pub open spec fn file_server_block(gallery_www_path: Seq<char>) -> Seq<char> {
    "localhost {\n\tfile_server {\n\t\troot \""@ + gallery_www_path + "\"\n\t}\n}\n"@
}

/// The block that routes `host` to the local port `port`.
pub open spec fn proxy_block(host: Seq<char>, port: u16) -> Seq<char> {
    "\n"@ + host + " {\n\treverse_proxy localhost:"@ + decimal(port as nat) + "\n}\n"@
}

/// The blocks of one project: its host `<name>.localhost`, and where it has a
/// linked port the host `http://localhost:<linked port>`, both routed to its
/// port.
pub open spec fn project_blocks(name: Seq<char>, project: ProjectView) -> Seq<char> {
    proxy_block(name + ".localhost"@, project.port) + match project.linked_port {
        Some(linked) => proxy_block("http://localhost:"@ + decimal(linked as nat), project.port),
        None => Seq::empty(),
    }
}

/// The blocks of all projects, in their order.
pub open spec fn all_project_blocks(names: Seq<Seq<char>>, records: Seq<ProjectView>) -> Seq<char>
    decreases names.len(),
{
    if names.len() == 0 || records.len() == 0 {
        Seq::empty()
    } else {
        all_project_blocks(names.drop_last(), records.drop_last()) + project_blocks(
            names.last(),
            records.last(),
        )
    }
}

/// The proxy configuration of a registry.
pub open spec fn caddyfile_text(
    gallery_www_path: Seq<char>,
    names: Seq<Seq<char>>,
    records: Seq<ProjectView>,
) -> Seq<char> {
    file_server_block(gallery_www_path) + all_project_blocks(names, records)
}

fn push_proxy_block(out: &mut String, host: &str, port: u16)
    ensures
        final(out)@ == old(out)@ + proxy_block(host@, port),
{
    out.append("\n");
    out.append(host);
    out.append(" {\n\treverse_proxy localhost:");
    push_decimal(out, port as u64);
    out.append("\n}\n");
    assert(out@ =~= old(out)@ + proxy_block(host@, port));
}

fn push_project_blocks(out: &mut String, name: &str, project: &Project)
    ensures
        final(out)@ == old(out)@ + project_blocks(name@, project@),
{
    let mut host = String::from_str(name);
    host.append(".localhost");
    push_proxy_block(out, host.as_str(), project.port);
    if let Some(linked) = project.linked_port {
        let mut linked_host = String::from_str("http://localhost:");
        push_decimal(&mut linked_host, linked as u64);
        push_proxy_block(out, linked_host.as_str(), project.port);
    }
    assert(out@ =~= old(out)@ + project_blocks(name@, project@));
}

/// The proxy configuration of `registry`: the block that serves the gallery
/// from `gallery_www_path`, then the blocks of the projects in the order of
/// their names.
pub fn generate_caddyfile(gallery_www_path: &str, registry: &Registry) -> (text: String)
    requires
        registry.inv(),
    ensures
        text@ == caddyfile_text(gallery_www_path@, registry.names(), registry.records()),
{
    let mut out = String::from_str("localhost {\n\tfile_server {\n\t\troot \"");
    out.append(gallery_www_path);
    out.append("\"\n\t}\n}\n");
    let projects = registry.iter_projects();
    let ghost names = registry.names();
    let ghost records = registry.records();
    proof {
        registry.lemma_inv();
    }
    let mut i: usize = 0;
    while i < projects.len()
        invariant
            i <= projects.len(),
            projects@.len() == names.len(),
            names.len() == records.len(),
            forall|k: int|
                0 <= k < projects@.len() ==> (#[trigger] projects@[k]).0@ == names[k]
                    && projects@[k].1@ == records[k],
            out@ == file_server_block(gallery_www_path@) + all_project_blocks(
                names.take(i as int),
                records.take(i as int),
            ),
        decreases projects.len() - i,
    {
        let ghost before = out@;
        push_project_blocks(&mut out, projects[i].0.as_str(), &projects[i].1);
        proof {
            assert(names.take(i + 1).drop_last() == names.take(i as int));
            assert(records.take(i + 1).drop_last() == records.take(i as int));
            assert(out@ =~= file_server_block(gallery_www_path@) + all_project_blocks(
                names.take(i + 1),
                records.take(i + 1),
            ));
        }
        i += 1;
    }
    assert(names.take(i as int) == names && records.take(i as int) == records);
    out
}

/// The card of one project on the gallery page.
pub open spec fn gallery_card(name: Seq<char>, project: ProjectView) -> Seq<char> {
    "\n        <a class=\"project\" href=\"https://"@ + name + ".localhost\">\n          <h2>"@
        + name + "</h2>\n          <p>Port: <strong>"@ + decimal(project.port as nat)
        + "</strong></p>"@ + match project.directory {
        Some(directory) => "\n          <p class=\"monospace\">\""@ + directory + "\"</p>"@,
        None => Seq::empty(),
    } + "\n        </a>"@
}

/// The cards of all projects, in their order.
pub open spec fn gallery_cards(names: Seq<Seq<char>>, records: Seq<ProjectView>) -> Seq<char>
    decreases names.len(),
{
    if names.len() == 0 || records.len() == 0 {
        Seq::empty()
    } else {
        gallery_cards(names.drop_last(), records.drop_last()) + gallery_card(
            names.last(),
            records.last(),
        )
    }
}

/// The gallery page of a registry.
pub open spec fn gallery_text(names: Seq<Seq<char>>, records: Seq<ProjectView>) -> Seq<char> {
    GALLERY_HEAD@ + decimal(names.len()) + GALLERY_MIDDLE@ + gallery_cards(names, records)
        + GALLERY_TAIL@
}

fn push_gallery_card(out: &mut String, name: &str, project: &Project)
    ensures
        final(out)@ == old(out)@ + gallery_card(name@, project@),
{
    out.append("\n        <a class=\"project\" href=\"https://");
    out.append(name);
    out.append(".localhost\">\n          <h2>");
    out.append(name);
    out.append("</h2>\n          <p>Port: <strong>");
    push_decimal(out, project.port as u64);
    out.append("</strong></p>");
    if let Some(directory) = &project.directory {
        out.append("\n          <p class=\"monospace\">\"");
        out.append(directory.as_str());
        out.append("\"</p>");
    }
    out.append("\n        </a>");
    assert(out@ =~= old(out)@ + gallery_card(name@, project@));
}

/// The page that lists the projects of `registry` with their ports and
/// directories, in the order of their names.
pub fn generate_gallery_index(registry: &Registry) -> (page: String)
    requires
        registry.inv(),
    ensures
        page@ == gallery_text(registry.names(), registry.records()),
{
    let projects = registry.iter_projects();
    let ghost names = registry.names();
    let ghost records = registry.records();
    proof {
        registry.lemma_inv();
    }
    let mut out = String::from_str(GALLERY_HEAD);
    push_decimal(&mut out, projects.len() as u64);
    out.append(GALLERY_MIDDLE);
    let ghost start = out@;
    let mut i: usize = 0;
    while i < projects.len()
        invariant
            i <= projects.len(),
            projects@.len() == names.len(),
            names.len() == records.len(),
            forall|k: int|
                0 <= k < projects@.len() ==> (#[trigger] projects@[k]).0@ == names[k]
                    && projects@[k].1@ == records[k],
            out@ == start + gallery_cards(names.take(i as int), records.take(i as int)),
        decreases projects.len() - i,
    {
        push_gallery_card(&mut out, projects[i].0.as_str(), &projects[i].1);
        proof {
            assert(names.take(i + 1).drop_last() == names.take(i as int));
            assert(records.take(i + 1).drop_last() == records.take(i as int));
            assert(out@ =~= start + gallery_cards(names.take(i + 1), records.take(i + 1)));
        }
        i += 1;
    }
    assert(names.take(i as int) == names && records.take(i as int) == records);
    out.append(GALLERY_TAIL);
    out
}

/// The line of the root configuration that brings in the file at
/// `import_path`.
pub open spec fn import_statement(import_path: Seq<char>) -> Seq<char> {
    "import \""@ + import_path + "\"\n"@
}

/// The root configuration that has to be written so that it brings in the
/// file at `import_path`: none where `existing` holds the import line already,
/// else `existing` with that line before it. A root configuration that does
/// not exist counts as empty.
pub open spec fn updated_import(import_path: Seq<char>, existing: Option<Seq<char>>) -> Option<
    Seq<char>,
> {
    let current = match existing {
        Some(text) => text,
        None => Seq::empty(),
    };
    if contains_text(current, import_statement(import_path)) {
        None
    } else {
        Some(import_statement(import_path) + current)
    }
}

/// Sees to it that the root configuration brings in the file at
/// `import_path`; answers with the text to write, or `None` where nothing has
/// to be written.
pub fn update_import(import_path: &str, existing_caddyfile: Option<String>) -> (updated: Option<
    String,
>)
    ensures
        match updated_import(
            import_path@,
            match existing_caddyfile {
                Some(text) => Some(text@),
                None => None,
            },
        ) {
            Some(text) => updated matches Some(out) && out@ == text,
            None => updated is None,
        },
{
    let mut statement = String::from_str("import \"");
    statement.append(import_path);
    statement.append("\"\n");
    let existing = match existing_caddyfile {
        Some(text) => text,
        None => String::new(),
    };
    if text_contains(existing.as_str(), statement.as_str()) {
        None
    } else {
        statement.append(existing.as_str());
        Some(statement)
    }
}

} // verus!
