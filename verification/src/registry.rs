use vstd::prelude::*;

use crate::allocator::PortAllocator;
use crate::name::valid_name;
use crate::name_map::{ascending, place_of, NameMap};

pub mod edit;
pub mod link;
pub mod load;
pub mod repos;
pub mod save;

verus! {

/// A named development workspace with the port it listens on.
#[derive(Debug, PartialEq, Eq)]
pub struct Project {
    pub port: u16,
    pub directory: Option<String>,
    pub linked_port: Option<u16>,
}

/// What a `Project` holds, with the directory as a sequence of characters.
pub struct ProjectView {
    pub port: u16,
    pub directory: Option<Seq<char>>,
    pub linked_port: Option<u16>,
}

impl View for Project {
    type V = ProjectView;

    open spec fn view(&self) -> ProjectView {
        ProjectView {
            port: self.port,
            directory: match self.directory {
                Some(directory) => Some(directory@),
                None => None,
            },
            linked_port: self.linked_port,
        }
    }
}

impl Clone for Project {
    fn clone(&self) -> (copy: Self)
        ensures
            copy == *self,
    {
        Project {
            port: self.port,
            directory: match &self.directory {
                Some(directory) => Some(directory.clone()),
                None => None,
            },
            linked_port: self.linked_port,
        }
    }
}

/// The views of `projects`, one for one.
pub open spec fn views(projects: Seq<Project>) -> Seq<ProjectView> {
    projects.map_values(|p: Project| p@)
}

/// The document that is kept between runs: the projects by name, and for each
/// repository that was linked the port it was last linked to.
#[derive(Debug)]
pub struct RegistryData {
    pub projects: NameMap<Project>,
    pub repos: NameMap<u16>,
}

impl RegistryData {
    /// A document without projects and repositories.
    pub fn new() -> (data: Self)
        ensures
            data.projects.wf(),
            data.repos.wf(),
            data.projects.keys().len() == 0,
            data.repos.keys().len() == 0,
    {
        RegistryData { projects: NameMap::new(), repos: NameMap::new() }
    }
}

/// Whether no two of `records` listen on one port.
pub open spec fn distinct_ports(records: Seq<ProjectView>) -> bool {
    forall|i: int, j: int|
        0 <= i < records.len() && 0 <= j < records.len() && i != j ==> (#[trigger] records[i]).port
            != (#[trigger] records[j]).port
}

/// Whether no two of `records` hold the same linked port.
pub open spec fn distinct_linked_ports(records: Seq<ProjectView>) -> bool {
    forall|i: int, j: int|
        0 <= i < records.len() && 0 <= j < records.len() && i != j && (
        #[trigger] records[i]).linked_port is Some ==> records[i].linked_port
            != (#[trigger] records[j]).linked_port
}

/// Whether no linked port of `records` is the port of one of them.
pub open spec fn linked_apart_from_ports(records: Seq<ProjectView>) -> bool {
    forall|i: int, j: int|
        0 <= i < records.len() && 0 <= j < records.len() ==> (#[trigger] records[i]).linked_port
            != Some((#[trigger] records[j]).port)
}

/// Whether no two of `records` claim the same directory.
pub open spec fn distinct_directories(records: Seq<ProjectView>) -> bool {
    forall|i: int, j: int|
        0 <= i < records.len() && 0 <= j < records.len() && i != j && (
        #[trigger] records[i]).directory is Some ==> records[i].directory
            != (#[trigger] records[j]).directory
}

/// Whether `available` holds none of the ports and linked ports of `records`.
pub open spec fn ports_reserved(records: Seq<ProjectView>, available: Set<u16>) -> bool {
    forall|i: int|
        0 <= i < records.len() ==> !available.contains((#[trigger] records[i]).port) && (
        records[i].linked_port matches Some(port) ==> !available.contains(port))
}

/// The invariants of a registry, over its names, its projects in the order of
/// their names, and the ports that are still free.
pub open spec fn consistent(
    names: Seq<Seq<char>>,
    records: Seq<ProjectView>,
    available: Set<u16>,
) -> bool {
    &&& names.len() == records.len()
    &&& ascending(names)
    &&& forall|i: int| 0 <= i < names.len() ==> valid_name(#[trigger] names[i])
    &&& distinct_ports(records)
    &&& distinct_linked_ports(records)
    &&& linked_apart_from_ports(records)
    &&& distinct_directories(records)
    &&& ports_reserved(records, available)
}

/// The registry of projects and their ports.
#[derive(Debug)]
pub struct Registry {
    projects: NameMap<Project>,
    repos: NameMap<u16>,
    allocator: PortAllocator,
    dirty: bool,
}

impl Registry {
    /// The names of the projects, in order.
    pub closed spec fn names(&self) -> Seq<Seq<char>> {
        self.projects.keys()
    }

    /// The projects, in the order of their names.
    pub closed spec fn records(&self) -> Seq<ProjectView> {
        views(self.projects.values())
    }

    /// The repositories that are remembered, in order.
    pub closed spec fn repo_names(&self) -> Seq<Seq<char>> {
        self.repos.keys()
    }

    /// The port remembered for each repository, in the order of `repo_names`.
    pub closed spec fn repo_ports(&self) -> Seq<u16> {
        self.repos.values()
    }

    /// The ports that can still be handed out.
    pub closed spec fn available(&self) -> Set<u16> {
        self.allocator@
    }

    /// Whether the registry differs from what was last written.
    pub closed spec fn is_dirty(&self) -> bool {
        self.dirty
    }

    /// The invariant of the type.
    pub closed spec fn inv(&self) -> bool {
        &&& self.projects.wf()
        &&& self.repos.wf()
        &&& consistent(self.names(), self.records(), self.available())
        &&& ascending(self.repo_names())
        &&& self.repo_names().len() == self.repo_ports().len()
    }

    /// The project of the name `name`, if there is one.
    pub open spec fn project(&self, name: Seq<char>) -> Option<ProjectView> {
        match place_of(self.names(), name) {
            Some(i) => Some(self.records()[i]),
            None => None,
        }
    }

    /// The port remembered for the repository `repo`, if there is one.
    pub open spec fn repo_port(&self, repo: Seq<char>) -> Option<u16> {
        match place_of(self.repo_names(), repo) {
            Some(i) => Some(self.repo_ports()[i]),
            None => None,
        }
    }

    /// Whether `self` and `other` are the same in all that the contracts speak
    /// of.
    pub open spec fn same_as(&self, other: &Registry) -> bool {
        &&& self.names() == other.names()
        &&& self.records() == other.records()
        &&& self.repo_names() == other.repo_names()
        &&& self.repo_ports() == other.repo_ports()
        &&& self.available() == other.available()
        &&& self.is_dirty() == other.is_dirty()
    }

    /// In every registry that a constructor or a method of this type leaves
    /// behind, the names are valid and in order, no two projects share a port,
    /// a linked port or a directory, no linked port is the port of a project,
    /// and no port or linked port of a project is in the pool.
    pub proof fn lemma_inv(&self)
        requires
            self.inv(),
        ensures
            consistent(self.names(), self.records(), self.available()),
            ascending(self.repo_names()),
            self.repo_names().len() == self.repo_ports().len(),
    {
    }

    /// Whether the registry differs from what was last written.
    pub fn dirty(&self) -> (dirty: bool)
        ensures
            dirty == self.is_dirty(),
    {
        self.dirty
    }

    /// The project of the name `name`.
    pub fn get(&self, name: &str) -> (project: Option<&Project>)
        requires
            self.inv(),
        ensures
            match project {
                Some(p) => self.project(name@) == Some(p@),
                None => self.project(name@) is None,
            },
    {
        self.projects.get(name)
    }

    /// The projects with their names, in the order of the names.
    pub fn iter_projects(&self) -> (projects: &Vec<(String, Project)>)
        requires
            self.inv(),
        ensures
            projects@.len() == self.names().len(),
            forall|i: int|
                0 <= i < projects@.len() ==> (#[trigger] projects@[i]).0@ == self.names()[i]
                    && projects@[i].1@ == self.records()[i],
    {
        proof {
            self.projects.lemma_entries();
        }
        self.projects.as_entries()
    }
}

} // verus!
