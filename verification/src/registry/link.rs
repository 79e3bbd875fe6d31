use vstd::prelude::*;
use vstd::string::StringExecFns;

use crate::allocator::{drew, lemma_refused_on_empty_pool, picks_free_port, refused};
use crate::dependencies::ChoosePort;
use crate::error::ApplicationError;
use crate::name::valid_name;
use crate::name_map::place_of;
use crate::registry::edit::{claims, directory_view};
use crate::registry::{
    consistent, distinct_directories, distinct_linked_ports, distinct_ports,
    linked_apart_from_ports, ports_reserved, Project, ProjectView, Registry, views,
};

verus! {

/// Whether the project at `k` of `records` listens on `port`.
pub open spec fn holds_port(records: Seq<ProjectView>, k: int, port: u16) -> bool {
    0 <= k < records.len() && records[k].port == port
}

/// The place of the project of `records` that listens on `port`, if any.
pub open spec fn holder_of(records: Seq<ProjectView>, port: u16) -> Option<int> {
    if exists|k: int| holds_port(records, k, port) {
        Some(choose|k: int| holds_port(records, k, port))
    } else {
        None
    }
}

/// `records` after `port` has been linked to the project at `target`: the
/// project that listened on `port` listens on `fresh`, the target holds the
/// linked port `port`, and no other project holds it.
pub open spec fn relinked(
    records: Seq<ProjectView>,
    target: int,
    port: u16,
    fresh: u16,
) -> Seq<ProjectView> {
    Seq::new(
        records.len(),
        |i: int|
            ProjectView {
                port: if records[i].port == port {
                    fresh
                } else {
                    records[i].port
                },
                directory: records[i].directory,
                linked_port: if i == target {
                    Some(port)
                } else if records[i].linked_port == Some(port) {
                    None
                } else {
                    records[i].linked_port
                },
            },
    )
}

/// The free ports after `port` has been linked, where the project that
/// listened on it, if there was one, got the port `fresh`.
pub open spec fn available_after_link(
    records: Seq<ProjectView>,
    available: Set<u16>,
    port: u16,
    fresh: u16,
) -> Set<u16> {
    if holder_of(records, port) is Some {
        available.remove(fresh).remove(port)
    } else {
        available.remove(port)
    }
}

/// A registry stays consistent when a port is linked, provided that the port
/// handed to the project that listened on it was free.
pub proof fn lemma_relinked_consistent(
    names: Seq<Seq<char>>,
    records: Seq<ProjectView>,
    available: Set<u16>,
    target: int,
    port: u16,
    fresh: u16,
)
    requires
        consistent(names, records, available),
        0 <= target < records.len(),
        holder_of(records, port) is Some ==> available.contains(fresh),
    ensures
        consistent(
            names,
            relinked(records, target, port, fresh),
            available_after_link(records, available, port, fresh),
        ),
{
    let rs = relinked(records, target, port, fresh);
    let free = available_after_link(records, available, port, fresh);
    assert forall|i: int| 0 <= i < rs.len() implies {
        &&& (#[trigger] rs[i]).directory == records[i].directory
        &&& (records[i].port != port ==> rs[i].port == records[i].port)
        &&& (records[i].port == port ==> rs[i].port == fresh && available.contains(fresh) && fresh
            != port)
        &&& (rs[i].linked_port == Some(port) <==> i == target)
        &&& (rs[i].linked_port != Some(port) && rs[i].linked_port is Some ==> rs[i].linked_port
            == records[i].linked_port)
        &&& rs[i].port != port
        &&& !available.contains(records[i].port)
    } by {
        if records[i].port == port {
            assert(holds_port(records, i, port));
        }
    }
    assert(distinct_ports(rs)) by {
        assert forall|i: int, j: int|
            0 <= i < rs.len() && 0 <= j < rs.len() && i != j implies (#[trigger] rs[i]).port != (
        #[trigger] rs[j]).port by {
            assert(records[i].port != records[j].port);
        }
    }
    assert(distinct_linked_ports(rs)) by {
        assert forall|i: int, j: int|
            0 <= i < rs.len() && 0 <= j < rs.len() && i != j && (
            #[trigger] rs[i]).linked_port is Some implies rs[i].linked_port != (
        #[trigger] rs[j]).linked_port by {
            if rs[i].linked_port != Some(port) && rs[j].linked_port != Some(port)
                && rs[j].linked_port is Some {
                assert(records[i].linked_port != records[j].linked_port);
            }
        }
    }
    assert(linked_apart_from_ports(rs)) by {
        assert forall|i: int, j: int| 0 <= i < rs.len() && 0 <= j < rs.len() implies (
        #[trigger] rs[i]).linked_port != Some((#[trigger] rs[j]).port) by {
            if rs[i].linked_port != Some(port) && rs[i].linked_port is Some {
                assert(records[i].linked_port != Some(records[j].port));
                assert(!available.contains(records[i].linked_port->0));
            }
        }
    }
    assert(distinct_directories(rs)) by {
        assert forall|i: int, j: int|
            0 <= i < rs.len() && 0 <= j < rs.len() && i != j && (
            #[trigger] rs[i]).directory is Some implies rs[i].directory != (
        #[trigger] rs[j]).directory by {
            assert(records[i].directory != records[j].directory);
        }
    }
    assert(ports_reserved(rs, free)) by {
        assert forall|i: int| 0 <= i < rs.len() implies !free.contains((#[trigger] rs[i]).port) && (
        rs[i].linked_port matches Some(p) ==> !free.contains(p)) by {
            if records[i].port == port {
                assert(holds_port(records, i, port));
            }
            if rs[i].linked_port is Some && rs[i].linked_port != Some(port) {
                assert(!available.contains(records[i].linked_port->0));
            }
        }
    }
}

/// What `Registry::link` does to a registry and answers, for the project
/// `project_name` and the port `linked_port`.
pub open spec fn linked<C: ChoosePort>(
    before: &Registry,
    deps: &C,
    project_name: Seq<char>,
    linked_port: u16,
    result: Result<(), ApplicationError>,
    after: &Registry,
) -> bool {
    &&& after.names() == before.names()
    &&& after.repo_names() == before.repo_names()
    &&& after.repo_ports() == before.repo_ports()
    &&& match place_of(before.names(), project_name) {
        None => {
            &&& result matches Err(ApplicationError::NonExistentProject(missing))
                && missing@ == project_name
            &&& after.same_as(before)
        },
        Some(target) => match result {
            Ok(_) => {
                let fresh = match holder_of(before.records(), linked_port) {
                    Some(h) => after.records()[h].port,
                    None => linked_port,
                };
                &&& after.records() == relinked(
                    before.records(),
                    target,
                    linked_port,
                    fresh,
                )
                &&& holder_of(before.records(), linked_port) is Some ==> drew(
                    deps,
                    before.available(),
                    fresh,
                )
                &&& after.available() == available_after_link(
                    before.records(),
                    before.available(),
                    linked_port,
                    fresh,
                )
                &&& after.is_dirty() == (before.is_dirty() || after.records()
                    != before.records())
            },
            Err(err) => {
                &&& err is EmptyAllocator
                &&& holder_of(before.records(), linked_port) is Some
                &&& refused(deps, before.available())
                &&& after.same_as(before)
            },
        },
    }
}

impl Registry {
    /// The place of the project that listens on `port`.
    #[verifier::loop_isolation(false)]
    pub(crate) fn find_holder(&self, port: u16) -> (place: Option<usize>)
        requires
            self.inv(),
        ensures
            match place {
                Some(k) => holder_of(self.records(), port) == Some(k as int) && holds_port(
                    self.records(),
                    k as int,
                    port,
                ),
                None => holder_of(self.records(), port) is None,
            },
    {
        let mut k: usize = 0;
        while k < self.projects.len()
            invariant
                k <= self.names().len(),
                forall|j: int| 0 <= j < k ==> !holds_port(self.records(), j, port),
            decreases self.names().len() - k,
        {
            if self.projects.value(k).port == port {
                assert(holds_port(self.records(), k as int, port));
                let ghost h = choose|h: int| holds_port(self.records(), h, port);
                assert(self.records()[h].port == self.records()[k as int].port);
                return Some(k);
            }
            k += 1;
        }
        None
    }

    /// Links `linked_port` to the project `project_name`.
    ///
    /// A project that listens on that port, be it another one or this one,
    /// gets a new port from the pool; a project that held the port as its
    /// linked port loses it; the port leaves the pool. The registry becomes
    /// dirty where a project changes.
    ///
    /// Fails with `NonExistentProject` where there is no such project, and
    /// with `EmptyAllocator` only where a project listens on the port and the
    /// strategy `deps`, asked on the free ports, names no free port for it;
    /// then nothing changes. Where no project listens on the port, linking a
    /// project that exists succeeds.
    #[verifier::loop_isolation(false)]
    pub fn link<C: ChoosePort>(
        &mut self,
        deps: &C,
        project_name: &str,
        linked_port: u16,
    ) -> (result: Result<(), ApplicationError>)
        requires
            old(self).inv(),
        ensures
            final(self).inv(),
            linked(old(self), deps, project_name@, linked_port, result, final(self)),
    {
        let Some(target) = self.projects.position(project_name) else {
            return Err(ApplicationError::NonExistentProject(String::from_str(project_name)));
        };
        let holder = self.find_holder(linked_port);
        let mut fresh: u16 = linked_port;
        if holder.is_some() {
            match self.allocator.allocate(deps, None) {
                Ok(port) => {
                    fresh = port;
                },
                Err(err) => {
                    return Err(err);
                },
            }
        }
        self.allocator.discard(linked_port);
        let ghost before = old(self).records();
        let ghost after = relinked(before, target as int, linked_port, fresh);
        let n = self.projects.len();
        let mut i: usize = 0;
        while i < n
            invariant
                i <= n,
                n == before.len(),
                self.projects.wf(),
                self.repos == old(self).repos,
                self.allocator@ == available_after_link(
                    before,
                    old(self).available(),
                    linked_port,
                    fresh,
                ),
                self.names() == old(self).names(),
                self.records().len() == n,
                forall|j: int| 0 <= j < i ==> self.records()[j] == after[j],
                forall|j: int| i <= j < n ==> self.records()[j] == before[j],
                self.dirty == (old(self).dirty || exists|j: int|
                    0 <= j < i && after[j] != before[j]),
            decreases n - i,
        {
            let current = self.projects.value(i);
            let port = if current.port == linked_port {
                fresh
            } else {
                current.port
            };
            let link = if i == target {
                Some(linked_port)
            } else if current.linked_port == Some(linked_port) {
                None
            } else {
                current.linked_port
            };
            if port != current.port || link != current.linked_port {
                let changed = Project {
                    port,
                    directory: match &current.directory {
                        Some(d) => Some(d.clone()),
                        None => None,
                    },
                    linked_port: link,
                };
                let ghost earlier = self.records();
                self.projects.replace_value(i, changed);
                self.dirty = true;
                assert(self.records() =~= earlier.update(i as int, after[i as int]));
                assert(after[i as int] != before[i as int]);
            } else {
                assert(after[i as int] == before[i as int]);
            }
            i += 1;
        }
        proof {
            assert(self.records() =~= after);
            lemma_relinked_consistent(
                old(self).names(),
                before,
                old(self).available(),
                target as int,
                linked_port,
                fresh,
            );
            if after != before {
                assert(!(after =~= before));
            }
            if let Some(h) = holder_of(before, linked_port) {
                assert(holds_port(before, h, linked_port));
                assert(after[h].port == fresh);
            }
        }
        Ok(())
    }
}

/// Where the entry that stood at `k` stands once an entry has been put in at
/// `at`.
pub open spec fn shifted(k: int, at: int) -> int {
    if k < at {
        k
    } else {
        k + 1
    }
}

/// A registry stays consistent when ports leave the pool.
pub proof fn lemma_fewer_available(
    names: Seq<Seq<char>>,
    records: Seq<ProjectView>,
    available: Set<u16>,
    fewer: Set<u16>,
)
    requires
        consistent(names, records, available),
        fewer.subset_of(available),
    ensures
        consistent(names, records, fewer),
{
}

/// A registry stays consistent when it gets a project with a valid new name,
/// a free port, a directory that no project claims, and no linked port.
pub proof fn lemma_insert_consistent(
    names: Seq<Seq<char>>,
    records: Seq<ProjectView>,
    available: Set<u16>,
    name: Seq<char>,
    added: ProjectView,
)
    requires
        consistent(names, records, available),
        valid_name(name),
        !names.contains(name),
        available.contains(added.port),
        added.linked_port is None,
        added.directory matches Some(d) ==> forall|k: int| !claims(records, k, d),
    ensures
        consistent(
            names.insert(crate::name_map::rank_of(names, name), name),
            records.insert(crate::name_map::rank_of(names, name), added),
            available.remove(added.port),
        ),
{
    crate::name_map::lemma_rank_of(names, name);
    crate::name_map::lemma_insert_ascending(names, name);
    let at = crate::name_map::rank_of(names, name);
    let ns = names.insert(at, name);
    let rs = records.insert(at, added);
    assert forall|i: int| 0 <= i < rs.len() && i != at implies #[trigger] rs[i] == records[if i
        < at {
        i
    } else {
        i - 1
    }] by {}
    assert forall|i: int| 0 <= i < ns.len() implies valid_name(#[trigger] ns[i]) by {
        if i != at {
            assert(ns[i] == names[if i < at {
                i
            } else {
                i - 1
            }]);
        }
    }
    assert(distinct_directories(rs)) by {
        assert forall|i: int, j: int|
            0 <= i < rs.len() && 0 <= j < rs.len() && i != j && (
            #[trigger] rs[i]).directory is Some implies rs[i].directory != (
        #[trigger] rs[j]).directory by {
            let a = if i < at {
                i
            } else {
                i - 1
            };
            let b = if j < at {
                j
            } else {
                j - 1
            };
            if i == at {
                if rs[j].directory == added.directory {
                    assert(claims(records, b, added.directory->0));
                }
            } else if j == at {
                if rs[i].directory == added.directory {
                    assert(claims(records, a, added.directory->0));
                }
            } else {
                assert(records[a].directory != records[b].directory);
            }
        }
    }
    assert(distinct_ports(rs)) by {
        assert forall|i: int, j: int|
            0 <= i < rs.len() && 0 <= j < rs.len() && i != j implies (#[trigger] rs[i]).port != (
        #[trigger] rs[j]).port by {
            let a = if i < at {
                i
            } else {
                i - 1
            };
            let b = if j < at {
                j
            } else {
                j - 1
            };
            if i != at && j != at {
                assert(records[a].port != records[b].port);
            } else if i == at {
                assert(!available.contains(records[b].port));
            } else {
                assert(!available.contains(records[a].port));
            }
        }
    }
    assert(distinct_linked_ports(rs)) by {
        assert forall|i: int, j: int|
            0 <= i < rs.len() && 0 <= j < rs.len() && i != j && (
            #[trigger] rs[i]).linked_port is Some implies rs[i].linked_port != (
        #[trigger] rs[j]).linked_port by {
            let a = if i < at {
                i
            } else {
                i - 1
            };
            let b = if j < at {
                j
            } else {
                j - 1
            };
            if j != at {
                assert(records[a].linked_port != records[b].linked_port);
            }
        }
    }
    assert(linked_apart_from_ports(rs)) by {
        assert forall|i: int, j: int| 0 <= i < rs.len() && 0 <= j < rs.len() implies (
        #[trigger] rs[i]).linked_port != Some((#[trigger] rs[j]).port) by {
            let a = if i < at {
                i
            } else {
                i - 1
            };
            let b = if j < at {
                j
            } else {
                j - 1
            };
            if i != at && j != at {
                assert(records[a].linked_port != Some(records[b].port));
            } else if i != at {
                assert(records[a].linked_port matches Some(p) ==> !available.contains(p));
            }
        }
    }
    assert(ports_reserved(rs, available.remove(added.port))) by {
        assert forall|i: int| 0 <= i < rs.len() implies !available.remove(added.port).contains(
            (#[trigger] rs[i]).port,
        ) && (rs[i].linked_port matches Some(p) ==> !available.remove(added.port).contains(p)) by {
            let a = if i < at {
                i
            } else {
                i - 1
            };
            if i != at {
                assert(!available.contains(records[a].port));
            }
        }
    }
}

/// The projects after one has been created at the place `at`: `created` stands
/// there; where it has a linked port, the projects that were there before are
/// as after linking that port to none of them, with `fresh` for the project
/// that listened on it.
pub open spec fn records_after_create(
    before: Seq<ProjectView>,
    at: int,
    created: ProjectView,
    fresh: u16,
) -> Seq<ProjectView> {
    match created.linked_port {
        Some(port) => relinked(before, -1, port, fresh).insert(at, created),
        None => before.insert(at, created),
    }
}

/// The free ports after a project has been created.
pub open spec fn available_after_create(
    before: Seq<ProjectView>,
    available: Set<u16>,
    created: ProjectView,
    fresh: u16,
) -> Set<u16> {
    match created.linked_port {
        Some(port) => available_after_link(before, available, port, fresh).remove(created.port),
        None => available.remove(created.port),
    }
}

/// Two places that hold one port are one place.
pub proof fn lemma_holder_of(records: Seq<ProjectView>, k: int, port: u16)
    requires
        distinct_ports(records),
        holds_port(records, k, port),
    ensures
        holder_of(records, port) == Some(k),
{
    let h = choose|h: int| holds_port(records, h, port);
    assert(records[h].port == records[k].port);
}

/// What `Registry::create` does to a registry and answers, for the name
/// `name`, the directory `directory` and the linked port `linked_port`.
///
/// The rules are tried in this order: a name that breaks the grammar, a name
/// that is taken, a directory that is claimed; each fails and changes
/// nothing. Else the project gets a free port and its place in the order of
/// names; the linked port is linked to it as `Registry::link` does.
pub open spec fn created<C: ChoosePort>(
    before: &Registry,
    deps: &C,
    name: Seq<char>,
    directory: Option<Seq<char>>,
    linked_port: Option<u16>,
    result: Result<Project, ApplicationError>,
    after: &Registry,
) -> bool {
    &&& after.repo_names() == before.repo_names()
    &&& after.repo_ports() == before.repo_ports()
    &&& if let Some(problem) = crate::name::name_problem(name) {
        &&& result matches Err(ApplicationError::InvalidProjectName(invalid, reason))
            && invalid@ == name && reason@ == crate::name::problem_reason(problem)
        &&& after.same_as(before)
    } else if before.names().contains(name) {
        &&& result matches Err(ApplicationError::DuplicateProject(taken)) && taken@
            == name
        &&& after.same_as(before)
    } else if directory is Some && exists|k: int|
        claims(before.records(), k, directory->0) {
        &&& result matches Err(ApplicationError::DuplicateDirectory(owner, claimed))
            && claimed@ == directory->0 && exists|k: int|
            claims(before.records(), k, claimed@) && owner@ == before.names()[k]
        &&& after.same_as(before)
    } else {
        match result {
            Ok(project) => {
                let at = crate::name_map::rank_of(before.names(), name);
                let fresh = match linked_port {
                    Some(port) => match holder_of(before.records(), port) {
                        Some(h) => after.records()[shifted(h, at)].port,
                        None => port,
                    },
                    None => 0u16,
                };
                &&& project@.directory == directory
                &&& project@.linked_port == linked_port
                &&& before.available().contains(project@.port)
                &&& drew(deps, before.available(), project@.port) || (linked_port matches Some(
                    port,
                ) && drew(deps, before.available(), port) && drew(
                    deps,
                    before.available().remove(port),
                    project@.port,
                ))
                &&& linked_port matches Some(port) ==> (holder_of(before.records(), port) is Some
                    ==> drew(deps, before.available().remove(project@.port), fresh))
                &&& linked_port matches Some(port) ==> (holder_of(
                    before.records(),
                    port,
                ) is Some ==> before.available().contains(fresh) && fresh
                    != project@.port)
                &&& after.names() == before.names().insert(at, name)
                &&& after.records() == records_after_create(
                    before.records(),
                    at,
                    project@,
                    fresh,
                )
                &&& after.available() == available_after_create(
                    before.records(),
                    before.available(),
                    project@,
                    fresh,
                )
                &&& after.is_dirty()
            },
            Err(err) => {
                &&& err is EmptyAllocator
                &&& refused(deps, before.available()) || (linked_port matches Some(port)
                    && exists|first: u16|
                    #[trigger] drew(deps, before.available(), first) && (first == port
                        || holder_of(before.records(), port) is Some) && refused(
                        deps,
                        before.available().remove(first),
                    ))
                &&& after.names() == before.names()
                &&& after.records() == before.records()
                &&& after.is_dirty() == before.is_dirty()
                &&& after.available().subset_of(before.available())
            },
        }
    }
}

impl Registry {
    /// Creates the project `name` with a port from the pool, and links
    /// `linked_port` to it where one is given.
    ///
    /// Fails, and changes nothing, with `InvalidProjectName` where the name
    /// breaks the grammar, else with `DuplicateProject` where the name is
    /// taken, else with `DuplicateDirectory` where a project claims the
    /// directory. Fails with `EmptyAllocator` only where the strategy `deps`
    /// names no free port: for the project, asked on the free ports, or, once
    /// the project has its port, for the project that listens on the linked
    /// port. Projects and repositories are then as before.
    /// Answers with the project as it stands in the registry.
    pub fn create<C: ChoosePort>(
        &mut self,
        deps: &C,
        name: &str,
        directory: Option<String>,
        linked_port: Option<u16>,
    ) -> (result: Result<Project, ApplicationError>)
        requires
            old(self).inv(),
        ensures
            final(self).inv(),
            created(
                old(self),
                deps,
                name@,
                directory_view(directory),
                linked_port,
                result,
                final(self),
            ),
    {
        match Registry::validate_name(name) {
            Err(err) => {
                return Err(err);
            },
            Ok(_) => {},
        }
        if self.projects.contains_key(name) {
            return Err(ApplicationError::DuplicateProject(String::from_str(name)));
        }
        if let Some(d) = &directory {
            if let Some(k) = self.find_claimant(d.as_str(), None) {
                assert(claims(old(self).records(), k as int, d@));
                assert(directory_view(directory)->0 == d@);
                assert(exists|k: int| claims(old(self).records(), k, directory_view(directory)->0));
                return Err(
                    ApplicationError::DuplicateDirectory(self.projects.key(k).clone(), d.clone()),
                );
            }
        }
        let ghost wanted = directory_view(directory);
        assert(!(directory is Some && exists|k: int| claims(old(self).records(), k, wanted->0)));
        let port = match self.allocator.allocate(deps, None) {
            Ok(port) => port,
            Err(err) => {
                return Err(err);
            },
        };
        let added = Project { port, directory, linked_port: None };
        let ghost at = crate::name_map::rank_of(old(self).names(), name@);
        proof {
            crate::name_map::lemma_rank_of(old(self).names(), name@);
        }
        let ghost mid = old(self).records().insert(at, added@);
        let ghost values = self.projects.values();
        proof {
            lemma_insert_consistent(
                old(self).names(),
                old(self).records(),
                old(self).available(),
                name@,
                added@,
            );
        }
        self.projects.insert(String::from_str(name), added);
        assert(self.projects.values() == values.insert(at, added));
        assert(self.records() =~= mid);
        assert(self.names()[at] == name@);
        proof {
            crate::name_map::lemma_rank_of(old(self).names(), name@);
            crate::name_map::lemma_place_of(self.names(), at);
        }
        if let Some(linked) = linked_port {
            match self.link(deps, name, linked) {
                Ok(_) => {
                    proof {
                        lemma_holder_after_insert(
                            old(self).records(),
                            old(self).available(),
                            at,
                            added@,
                            linked,
                        );
                        lemma_created_linked(
                            old(self).records(),
                            old(self).available(),
                            at,
                            added@,
                            linked,
                            self.records(),
                        );
                        assert(mid[at].port == port);
                    }
                },
                Err(err) => {
                    proof {
                        lemma_holder_after_insert(
                            old(self).records(),
                            old(self).available(),
                            at,
                            added@,
                            linked,
                        );
                        assert(drew(deps, old(self).available(), port));
                    }
                    let place = match self.projects.position(name) {
                        Some(place) => place,
                        None => vstd::pervasive::unreached(),
                    };
                    assert(place == at);
                    let ghost linked_values = self.projects.values();
                    assert(views(linked_values) == mid);
                    self.projects.remove_at(place);
                    assert(self.names() =~= old(self).names());
                    assert(self.records() =~= mid.remove(at));
                    assert(mid.remove(at) =~= old(self).records());
                    proof {
                        lemma_fewer_available(
                            old(self).names(),
                            old(self).records(),
                            old(self).available(),
                            self.available(),
                        );
                    }
                    return Err(err);
                },
            }
        }
        self.dirty = true;
        match self.projects.get(name) {
            Some(created) => Ok(created.clone()),
            None => vstd::pervasive::unreached(),
        }
    }
}

/// The project that listens on `port` once `added` has been put in at `at`:
/// `added` itself if it listens there, else the one that did before, at its
/// new place.
pub proof fn lemma_holder_after_insert(
    before: Seq<ProjectView>,
    available: Set<u16>,
    at: int,
    added: ProjectView,
    port: u16,
)
    requires
        distinct_ports(before),
        ports_reserved(before, available),
        0 <= at <= before.len(),
        available.contains(added.port),
    ensures
        holder_of(before.insert(at, added), port) == if added.port == port {
            Some(at)
        } else {
            match holder_of(before, port) {
                Some(h) => Some(shifted(h, at)),
                None => None,
            }
        },
        added.port == port ==> holder_of(before, port) is None,
{
    let mid = before.insert(at, added);
    assert forall|i: int| 0 <= i < mid.len() && i != at implies #[trigger] mid[i] == before[if i
        < at {
        i
    } else {
        i - 1
    }] by {}
    assert(distinct_ports(mid)) by {
        assert forall|i: int, j: int|
            0 <= i < mid.len() && 0 <= j < mid.len() && i != j implies (#[trigger] mid[i]).port
            != (#[trigger] mid[j]).port by {
            let a = if i < at {
                i
            } else {
                i - 1
            };
            let b = if j < at {
                j
            } else {
                j - 1
            };
            if i != at && j != at {
                assert(before[a].port != before[b].port);
            } else if i == at {
                assert(!available.contains(before[b].port));
            } else {
                assert(!available.contains(before[a].port));
            }
        }
    }
    if added.port == port {
        assert(holds_port(mid, at, port));
        lemma_holder_of(mid, at, port);
        if holder_of(before, port) is Some {
            let h = holder_of(before, port)->0;
            assert(holds_port(before, h, port));
            assert(!available.contains(before[h].port));
        }
    } else if holder_of(before, port) is Some {
        let h = holder_of(before, port)->0;
        assert(holds_port(before, h, port));
        assert(holds_port(mid, shifted(h, at), port));
        lemma_holder_of(mid, shifted(h, at), port);
    } else {
        if exists|k: int| holds_port(mid, k, port) {
            let k = choose|k: int| holds_port(mid, k, port);
            assert(k != at);
            assert(holds_port(before, if k < at {
                k
            } else {
                k - 1
            }, port));
        }
    }
}

/// What linking a port to a project that was just put in at `at` comes to, in
/// terms of the projects that were there before.
pub proof fn lemma_created_linked(
    before: Seq<ProjectView>,
    available: Set<u16>,
    at: int,
    added: ProjectView,
    port: u16,
    after: Seq<ProjectView>,
)
    requires
        distinct_ports(before),
        ports_reserved(before, available),
        0 <= at <= before.len(),
        available.contains(added.port),
        added.linked_port is None,
        after == relinked(
            before.insert(at, added),
            at,
            port,
            match holder_of(before.insert(at, added), port) {
                Some(h) => after[h].port,
                None => port,
            },
        ),
        holder_of(before.insert(at, added), port) is Some ==> available.remove(added.port).contains(
            after[holder_of(before.insert(at, added), port)->0].port,
        ),
    ensures
        ({
            let fresh = match holder_of(before, port) {
                Some(h) => after[shifted(h, at)].port,
                None => port,
            };
            &&& after[at].directory == added.directory
            &&& after[at].linked_port == Some(port)
            &&& available.contains(after[at].port)
            &&& holder_of(before, port) is Some ==> available.contains(fresh) && fresh
                != after[at].port
            &&& after == records_after_create(before, at, after[at], fresh)
            &&& available_after_link(
                before.insert(at, added),
                available.remove(added.port),
                port,
                match holder_of(before.insert(at, added), port) {
                    Some(h) => after[h].port,
                    None => port,
                },
            ) == available_after_create(before, available, after[at], fresh)
        }),
{
    let mid = before.insert(at, added);
    let fresh_mid = match holder_of(mid, port) {
        Some(h) => after[h].port,
        None => port,
    };
    let fresh = match holder_of(before, port) {
        Some(h) => after[shifted(h, at)].port,
        None => port,
    };
    assert forall|i: int| 0 <= i < mid.len() && i != at implies #[trigger] mid[i] == before[if i
        < at {
        i
    } else {
        i - 1
    }] by {}
    assert(distinct_ports(mid)) by {
        assert forall|i: int, j: int|
            0 <= i < mid.len() && 0 <= j < mid.len() && i != j implies (#[trigger] mid[i]).port
            != (#[trigger] mid[j]).port by {
            let a = if i < at {
                i
            } else {
                i - 1
            };
            let b = if j < at {
                j
            } else {
                j - 1
            };
            if i != at && j != at {
                assert(before[a].port != before[b].port);
            } else if i == at {
                assert(!available.contains(before[b].port));
            } else {
                assert(!available.contains(before[a].port));
            }
        }
    }
    if holder_of(before, port) is Some {
        let h = holder_of(before, port)->0;
        assert(holds_port(before, h, port));
        assert(!available.contains(before[h].port));
        assert(holds_port(mid, shifted(h, at), port));
        lemma_holder_of(mid, shifted(h, at), port);
        assert(fresh_mid == fresh);
    } else if added.port == port {
        assert(holds_port(mid, at, port));
        lemma_holder_of(mid, at, port);
        assert forall|k: int| 0 <= k < before.len() implies (#[trigger] before[k]).port != port
            && before[k].linked_port != Some(port) by {
            if before[k].port == port {
                assert(holds_port(before, k, port));
            }
        }
    } else {
        assert forall|k: int| 0 <= k < mid.len() implies (#[trigger] mid[k]).port != port by {
            if k != at && mid[k].port == port {
                assert(holds_port(before, if k < at {
                    k
                } else {
                    k - 1
                }, port));
            }
        }
        assert(holder_of(mid, port) is None) by {
            if exists|k: int| holds_port(mid, k, port) {
                let k = choose|k: int| holds_port(mid, k, port);
                assert(mid[k].port == port);
            }
        }
    }
    let target = records_after_create(before, at, after[at], fresh);
    assert(after[at].linked_port == Some(port));
    assert(after =~= target) by {
        assert forall|i: int| 0 <= i < after.len() implies after[i] == target[i] by {
            if i != at {
                let k = if i < at {
                    i
                } else {
                    i - 1
                };
                assert(mid[i] == before[k]);
                assert(target[i] == relinked(before, -1, port, fresh)[k]);
                if before[k].port == port {
                    assert(holds_port(before, k, port));
                    lemma_holder_of(before, k, port);
                }
            }
        }
    }
    assert(available_after_link(mid, available.remove(added.port), port, fresh_mid)
        =~= available_after_create(before, available, after[at], fresh));
}

/// With a strategy that does what is expected of one, linking a port to a
/// project that exists succeeds whenever the pool is not empty: the project
/// that listens on the port, if there is one, gets another port.
pub proof fn lemma_link_succeeds<C: ChoosePort>(
    before: &Registry,
    deps: &C,
    project_name: Seq<char>,
    linked_port: u16,
    result: Result<(), ApplicationError>,
    after: &Registry,
)
    requires
        linked(before, deps, project_name, linked_port, result, after),
        picks_free_port(deps),
        before.names().contains(project_name),
        exists|port: u16| before.available().contains(port),
    ensures
        result is Ok,
{
    if result is Err {
        lemma_refused_on_empty_pool(deps, before.available());
    }
}

/// With a strategy that does what is expected of one, creating a project
/// succeeds whenever the name is valid and new, no project claims the
/// directory, and the pool holds two ports; one port is enough where no port
/// is to be linked.
pub proof fn lemma_create_succeeds<C: ChoosePort>(
    before: &Registry,
    deps: &C,
    name: Seq<char>,
    directory: Option<Seq<char>>,
    linked_port: Option<u16>,
    result: Result<Project, ApplicationError>,
    after: &Registry,
)
    requires
        created(before, deps, name, directory, linked_port, result, after),
        picks_free_port(deps),
        crate::name::valid_name(name),
        !before.names().contains(name),
        directory matches Some(d) ==> forall|k: int| !claims(before.records(), k, d),
        exists|a: u16, b: u16|
            before.available().contains(a) && before.available().contains(b) && (a != b
                || linked_port is None),
    ensures
        result is Ok,
{
    if result is Err {
        let (a, b) = choose|a: u16, b: u16|
            before.available().contains(a) && before.available().contains(b) && (a != b
                || linked_port is None);
        if refused(deps, before.available()) {
            lemma_refused_on_empty_pool(deps, before.available());
        } else {
            let port = linked_port->0;
            let first = choose|first: u16|
                #[trigger] drew(deps, before.available(), first) && (first == port || holder_of(
                    before.records(),
                    port,
                ) is Some) && refused(deps, before.available().remove(first));
            lemma_refused_on_empty_pool(deps, before.available().remove(first));
            assert(before.available().remove(first).contains(a) || before.available().remove(
                first,
            ).contains(b));
        }
    }
}

} // verus!
