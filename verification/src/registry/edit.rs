use vstd::prelude::*;
use vstd::string::StringExecFns;

use crate::error::ApplicationError;
use crate::name::valid_name;
use crate::name_map::{place_of, NameMap};
use crate::registry::{consistent, views, Project, ProjectView, Registry};
use crate::text::same_text;

verus! {

/// Whether the project at `k` of `records` claims `directory`.
pub open spec fn claims(records: Seq<ProjectView>, k: int, directory: Seq<char>) -> bool {
    0 <= k < records.len() && records[k].directory == Some(directory)
}

/// Whether the project at `k` of `records` holds the linked port `port`.
pub open spec fn holds_link(records: Seq<ProjectView>, k: int, port: u16) -> bool {
    0 <= k < records.len() && records[k].linked_port == Some(port)
}

/// `record` with the directory `directory`.
pub open spec fn with_directory(record: ProjectView, directory: Option<Seq<char>>) -> ProjectView {
    ProjectView { port: record.port, directory, linked_port: record.linked_port }
}

/// `record` without a linked port.
pub open spec fn without_link(record: ProjectView) -> ProjectView {
    ProjectView { port: record.port, directory: record.directory, linked_port: None }
}

/// The view of a directory that may be absent.
pub open spec fn directory_view(directory: Option<String>) -> Option<Seq<char>> {
    match directory {
        Some(d) => Some(d@),
        None => None,
    }
}

fn same_directory(a: &Option<String>, b: &Option<String>) -> (same: bool)
    ensures
        same == (directory_view(*a) == directory_view(*b)),
{
    match (a, b) {
        (Some(x), Some(y)) => same_text(x.as_str(), y.as_str()),
        (None, None) => true,
        _ => false,
    }
}

impl Registry {
    /// The place of a project other than the one at `skip` that claims
    /// `directory`.
    #[verifier::loop_isolation(false)]
    pub(crate) fn find_claimant(&self, directory: &str, skip: Option<usize>) -> (place: Option<
        usize,
    >)
        requires
            self.inv(),
        ensures
            match place {
                Some(k) => claims(self.records(), k as int, directory@) && skip != Some(k),
                None => forall|k: int|
                    claims(self.records(), k, directory@) ==> skip is Some && skip->0 as int == k,
            },
    {
        let mut k: usize = 0;
        while k < self.projects.len()
            invariant
                k <= self.names().len(),
                forall|j: int|
                    0 <= j < k && claims(self.records(), j, directory@) ==> skip is Some
                        && skip->0 as int == j,
            decreases self.names().len() - k,
        {
            let claimed = match &self.projects.value(k).directory {
                Some(d) => same_text(d.as_str(), directory),
                None => false,
            };
            let skipped = match skip {
                Some(s) => s == k,
                None => false,
            };
            if claimed && !skipped {
                return Some(k);
            }
            k += 1;
        }
        None
    }

    /// The name of a project other than `except` that claims `directory`.
    pub(crate) fn claimant_other_than(&self, directory: &str, except: &str) -> (owner: Option<
        &String,
    >)
        requires
            self.inv(),
        ensures
            match owner {
                Some(owner) => exists|k: int|
                    claims(self.records(), k, directory@) && self.names()[k] != except@ && owner@
                        == self.names()[k],
                None => forall|k: int|
                    claims(self.records(), k, directory@) ==> self.names()[k] == except@,
            },
    {
        let skip = self.projects.position(except);
        proof {
            crate::name_map::lemma_ascending_distinct(self.names());
            if let Some(t) = skip {
                assert(self.names()[t as int] == except@);
            }
        }
        match self.find_claimant(directory, skip) {
            Some(k) => {
                assert(claims(self.records(), k as int, directory@));
                Some(self.projects.key(k))
            },
            None => None,
        }
    }

    /// Gives the project `name` the directory `directory`.
    ///
    /// Fails with `NonExistentProject` where there is no such project, and
    /// with `DuplicateDirectory` where another project claims the directory.
    /// The registry becomes dirty only where the directory changes.
    pub fn update(&mut self, name: &str, directory: Option<String>) -> (result: Result<
        Project,
        ApplicationError,
    >)
        requires
            old(self).inv(),
        ensures
            final(self).inv(),
            final(self).names() == old(self).names(),
            final(self).repo_names() == old(self).repo_names(),
            final(self).repo_ports() == old(self).repo_ports(),
            final(self).available() == old(self).available(),
            match place_of(old(self).names(), name@) {
                None => {
                    &&& result matches Err(ApplicationError::NonExistentProject(missing))
                        && missing@ == name@
                    &&& final(self).same_as(old(self))
                },
                Some(i) => {
                    if exists|k: int|
                        k != i && directory is Some && claims(
                            old(self).records(),
                            k,
                            directory_view(directory)->0,
                        ) {
                        &&& result matches Err(ApplicationError::DuplicateDirectory(owner, claimed))
                            && claimed@ == directory_view(directory)->0 && exists|k: int|
                            k != i && claims(old(self).records(), k, claimed@) && owner@ == old(
                                self,
                            ).names()[k]
                        &&& final(self).same_as(old(self))
                    } else {
                        &&& result matches Ok(project) && project@ == with_directory(
                            old(self).records()[i],
                            directory_view(directory),
                        )
                        &&& final(self).records() == old(self).records().update(
                            i,
                            with_directory(old(self).records()[i], directory_view(directory)),
                        )
                        &&& final(self).is_dirty() == (old(self).is_dirty() || old(
                            self,
                        ).records()[i].directory != directory_view(directory))
                    }
                },
            },
    {
        let Some(i) = self.projects.position(name) else {
            return Err(ApplicationError::NonExistentProject(String::from_str(name)));
        };
        if same_directory(&self.projects.value(i).directory, &directory) {
            assert(old(self).records().update(i as int, old(self).records()[i as int]) =~= old(
                self,
            ).records());
            return Ok(self.projects.value(i).clone());
        }
        if let Some(d) = &directory {
            if let Some(k) = self.find_claimant(d.as_str(), Some(i)) {
                assert(k != i && claims(old(self).records(), k as int, d@));
                assert(directory_view(directory)->0 == d@);
                let owner = self.projects.key(k).clone();
                assert(owner@ == old(self).names()[k as int]);
                return Err(ApplicationError::DuplicateDirectory(owner, d.clone()));
            }
        }
        let ghost wanted = directory_view(directory);
        assert(wanted matches Some(d) ==> forall|k: int|
            claims(old(self).records(), k, d) ==> k == i) by {
            if let Some(d) = wanted {
                assert forall|k: int| claims(old(self).records(), k, d) implies k == i by {}
            }
        }
        assert(!exists|k: int|
            k != i && directory is Some && claims(old(self).records(), k, wanted->0));
        let current = self.projects.value(i);
        let updated = Project { port: current.port, directory, linked_port: current.linked_port };
        let copy = updated.clone();
        self.projects.replace_value(i, updated);
        self.dirty = true;
        assert(self.records() =~= old(self).records().update(i as int, copy@));
        proof {
            lemma_update_directory_consistent(
                old(self).names(),
                old(self).records(),
                old(self).available(),
                i as int,
                wanted,
            );
        }
        Ok(copy)
    }

    /// Removes the project `name` and hands it back.
    ///
    /// Fails with `NonExistentProject` where there is no such project. The
    /// ports of the project stay out of the pool.
    pub fn delete(&mut self, name: &str) -> (result: Result<Project, ApplicationError>)
        requires
            old(self).inv(),
        ensures
            final(self).inv(),
            final(self).repo_names() == old(self).repo_names(),
            final(self).repo_ports() == old(self).repo_ports(),
            final(self).available() == old(self).available(),
            match place_of(old(self).names(), name@) {
                None => {
                    &&& result matches Err(ApplicationError::NonExistentProject(missing))
                        && missing@ == name@
                    &&& final(self).same_as(old(self))
                },
                Some(i) => {
                    &&& result matches Ok(project) && project@ == old(self).records()[i]
                    &&& final(self).names() == old(self).names().remove(i)
                    &&& final(self).records() == old(self).records().remove(i)
                    &&& final(self).is_dirty()
                },
            },
    {
        let Some(i) = self.projects.position(name) else {
            return Err(ApplicationError::NonExistentProject(String::from_str(name)));
        };
        let entry = self.projects.remove_at(i);
        self.dirty = true;
        assert(self.records() =~= old(self).records().remove(i as int));
        proof {
            lemma_remove_consistent(
                old(self).names(),
                old(self).records(),
                old(self).available(),
                i as int,
            );
        }
        Ok(entry.1)
    }

    /// Removes all projects and answers with them and their names, in the
    /// order of the names. The registry becomes dirty where there was one.
    pub fn delete_all(&mut self) -> (deleted: Vec<(String, Project)>)
        requires
            old(self).inv(),
        ensures
            final(self).inv(),
            final(self).names().len() == 0,
            final(self).records().len() == 0,
            final(self).repo_names() == old(self).repo_names(),
            final(self).repo_ports() == old(self).repo_ports(),
            final(self).available() == old(self).available(),
            final(self).is_dirty() == (old(self).is_dirty() || old(self).names().len() > 0),
            deleted@.len() == old(self).names().len(),
            forall|k: int|
                0 <= k < deleted@.len() ==> (#[trigger] deleted@[k]).0@ == old(self).names()[k]
                    && deleted@[k].1@ == old(self).records()[k],
    {
        proof {
            self.projects.lemma_entries();
        }
        let deleted = self.projects.take_entries();
        if deleted.len() > 0 {
            self.dirty = true;
        }
        deleted
    }

    /// Takes the linked port `port` from the project that holds it and answers
    /// with the name of that project; answers `None`, and changes nothing,
    /// where no project holds it.
    #[verifier::loop_isolation(false)]
    pub fn unlink(&mut self, port: u16) -> (name: Option<String>)
        requires
            old(self).inv(),
        ensures
            final(self).inv(),
            final(self).names() == old(self).names(),
            final(self).repo_names() == old(self).repo_names(),
            final(self).repo_ports() == old(self).repo_ports(),
            final(self).available() == old(self).available(),
            match name {
                Some(holder) => exists|k: int|
                    {
                        &&& holds_link(old(self).records(), k, port)
                        &&& holder@ == old(self).names()[k]
                        &&& final(self).records() == old(self).records().update(
                            k,
                            without_link(old(self).records()[k]),
                        )
                        &&& final(self).is_dirty()
                    },
                None => {
                    &&& forall|k: int| !holds_link(old(self).records(), k, port)
                    &&& final(self).same_as(old(self))
                },
            },
    {
        let mut k: usize = 0;
        while k < self.projects.len()
            invariant
                k <= self.names().len(),
                forall|j: int| 0 <= j < k ==> !holds_link(self.records(), j, port),
                *self == *old(self),
            decreases self.names().len() - k,
        {
            let current = self.projects.value(k);
            if current.linked_port == Some(port) {
                let cleared = Project {
                    port: current.port,
                    directory: match &current.directory {
                        Some(d) => Some(d.clone()),
                        None => None,
                    },
                    linked_port: None,
                };
                let holder = self.projects.key(k).clone();
                self.projects.replace_value(k, cleared);
                self.dirty = true;
                assert(self.records() =~= old(self).records().update(
                    k as int,
                    without_link(old(self).records()[k as int]),
                ));
                assert(holds_link(old(self).records(), k as int, port));
                return Some(holder);
            }
            k += 1;
        }
        None
    }

    /// The project whose directory is `cwd`, with its name.
    #[verifier::loop_isolation(false)]
    pub fn match_cwd(&self, cwd: &str) -> (found: Option<(&String, &Project)>)
        requires
            self.inv(),
        ensures
            match found {
                Some((name, project)) => exists|k: int|
                    claims(self.records(), k, cwd@) && name@ == self.names()[k] && project@
                        == self.records()[k],
                None => forall|k: int| !claims(self.records(), k, cwd@),
            },
    {
        match self.find_claimant(cwd, None) {
            Some(k) => Some((self.projects.key(k), self.projects.value(k))),
            None => None,
        }
    }
}

/// A registry stays consistent when a project gets a directory that no other
/// project claims.
pub proof fn lemma_update_directory_consistent(
    names: Seq<Seq<char>>,
    records: Seq<ProjectView>,
    available: Set<u16>,
    at: int,
    directory: Option<Seq<char>>,
)
    requires
        consistent(names, records, available),
        0 <= at < names.len(),
        directory matches Some(d) ==> forall|k: int| claims(records, k, d) ==> k == at,
    ensures
        consistent(names, records.update(at, with_directory(records[at], directory)), available),
{
    let rs = records.update(at, with_directory(records[at], directory));
    assert forall|i: int| 0 <= i < rs.len() implies (#[trigger] rs[i]).port == records[i].port
        && rs[i].linked_port == records[i].linked_port && (i != at ==> rs[i].directory
        == records[i].directory) by {}
    assert forall|i: int, j: int|
        0 <= i < rs.len() && 0 <= j < rs.len() && i != j && (
        #[trigger] rs[i]).directory is Some implies rs[i].directory != (
    #[trigger] rs[j]).directory by {
        if i == at {
            if rs[j].directory == directory {
                assert(claims(records, j, directory->0));
            }
        } else if j == at {
            if rs[i].directory == directory {
                assert(claims(records, i, directory->0));
            }
        } else {
            assert(records[i].directory != records[j].directory);
        }
    }
}

/// A registry stays consistent when a project leaves it.
pub proof fn lemma_remove_consistent(
    names: Seq<Seq<char>>,
    records: Seq<ProjectView>,
    available: Set<u16>,
    at: int,
)
    requires
        consistent(names, records, available),
        0 <= at < names.len(),
    ensures
        consistent(names.remove(at), records.remove(at), available),
{
    crate::name_map::lemma_remove_ascending(names, at);
    let ns = names.remove(at);
    let rs = records.remove(at);
    assert forall|i: int| 0 <= i < rs.len() implies #[trigger] rs[i] == records[if i < at {
        i
    } else {
        i + 1
    }] by {}
    assert forall|i: int| 0 <= i < ns.len() implies valid_name(#[trigger] ns[i]) by {
        assert(ns[i] == names[if i < at {
            i
        } else {
            i + 1
        }]);
    }
}

/// The views of `names`, one for one.
pub open spec fn name_views(names: Seq<String>) -> Seq<Seq<char>> {
    names.map_values(|name: String| name@)
}

/// How many of the names `requested`, taken in turn, can be deleted from
/// `names`: the number of those before the first that is not there, or is
/// there no more, when its turn comes.
pub open spec fn deletable(names: Seq<Seq<char>>, requested: Seq<Seq<char>>) -> nat
    decreases requested.len(),
{
    if requested.len() == 0 {
        0
    } else {
        match place_of(names, requested.first()) {
            Some(i) => 1 + deletable(names.remove(i), requested.drop_first()),
            None => 0,
        }
    }
}

/// The names that are left of `names` once those of `requested` that can be
/// deleted have been.
pub open spec fn names_after_delete(names: Seq<Seq<char>>, requested: Seq<Seq<char>>) -> Seq<
    Seq<char>,
>
    decreases requested.len(),
{
    if requested.len() == 0 {
        names
    } else {
        match place_of(names, requested.first()) {
            Some(i) => names_after_delete(names.remove(i), requested.drop_first()),
            None => names,
        }
    }
}

/// The projects that are left, in the order of `names_after_delete`.
pub open spec fn records_after_delete(
    names: Seq<Seq<char>>,
    records: Seq<ProjectView>,
    requested: Seq<Seq<char>>,
) -> Seq<ProjectView>
    decreases requested.len(),
{
    if requested.len() == 0 {
        records
    } else {
        match place_of(names, requested.first()) {
            Some(i) => records_after_delete(
                names.remove(i),
                records.remove(i),
                requested.drop_first(),
            ),
            None => records,
        }
    }
}

/// The projects that are deleted, in the order in which they were requested.
pub open spec fn records_deleted(
    names: Seq<Seq<char>>,
    records: Seq<ProjectView>,
    requested: Seq<Seq<char>>,
) -> Seq<ProjectView>
    decreases requested.len(),
{
    if requested.len() == 0 {
        Seq::empty()
    } else {
        match place_of(names, requested.first()) {
            Some(i) => seq![records[i]] + records_deleted(
                names.remove(i),
                records.remove(i),
                requested.drop_first(),
            ),
            None => Seq::empty(),
        }
    }
}

impl Registry {
    /// Deletes the projects `project_names`, one after the other.
    ///
    /// Stops at the first name that has no project when its turn comes, and
    /// fails with `NonExistentProject` for it; the projects before it stay
    /// deleted. Else answers with the deleted projects and their names, in
    /// the order of `project_names`. The registry becomes dirty where a
    /// project was deleted.
    #[verifier::loop_isolation(false)]
    pub fn delete_many(&mut self, project_names: Vec<String>) -> (result: Result<
        Vec<(String, Project)>,
        ApplicationError,
    >)
        requires
            old(self).inv(),
        ensures
            final(self).inv(),
            final(self).repo_names() == old(self).repo_names(),
            final(self).repo_ports() == old(self).repo_ports(),
            final(self).available() == old(self).available(),
            final(self).names() == names_after_delete(
                old(self).names(),
                name_views(project_names@),
            ),
            final(self).records() == records_after_delete(
                old(self).names(),
                old(self).records(),
                name_views(project_names@),
            ),
            final(self).is_dirty() == (old(self).is_dirty() || deletable(
                old(self).names(),
                name_views(project_names@),
            ) > 0),
            match result {
                Ok(deleted) => {
                    &&& deletable(old(self).names(), name_views(project_names@))
                        == project_names@.len()
                    &&& deleted@.len() == project_names@.len()
                    &&& forall|k: int|
                        0 <= k < deleted@.len() ==> (#[trigger] deleted@[k]).0@
                            == project_names@[k]@ && deleted@[k].1@ == records_deleted(
                            old(self).names(),
                            old(self).records(),
                            name_views(project_names@),
                        )[k]
                },
                Err(err) => {
                    let stop = deletable(old(self).names(), name_views(project_names@)) as int;
                    &&& stop < project_names@.len()
                    &&& err matches ApplicationError::NonExistentProject(missing) && missing@
                        == project_names@[stop]@
                },
            },
    {
        let ghost requested = name_views(project_names@);
        let ghost names0 = old(self).names();
        let ghost records0 = old(self).records();
        let mut deleted: Vec<(String, Project)> = Vec::new();
        let mut k: usize = 0;
        assert(requested.skip(0) == requested);
        while k < project_names.len()
            invariant
                k <= project_names.len(),
                self.inv(),
                self.repos == old(self).repos,
                self.allocator == old(self).allocator,
                self.dirty == (old(self).dirty || k > 0),
                deleted@.len() == k,
                deletable(names0, requested) == k + deletable(
                    self.names(),
                    requested.skip(k as int),
                ),
                names_after_delete(names0, requested) == names_after_delete(
                    self.names(),
                    requested.skip(k as int),
                ),
                records_after_delete(names0, records0, requested) == records_after_delete(
                    self.names(),
                    self.records(),
                    requested.skip(k as int),
                ),
                records_deleted(names0, records0, requested) == views(
                    deleted@.map_values(|e: (String, Project)| e.1),
                ) + records_deleted(self.names(), self.records(), requested.skip(k as int)),
                forall|j: int|
                    0 <= j < k ==> (#[trigger] deleted@[j]).0@ == project_names@[j]@,
            decreases project_names.len() - k,
        {
            let ghost rest = requested.skip(k as int);
            let ghost names = self.names();
            let ghost records = self.records();
            let ghost sofar = views(deleted@.map_values(|e: (String, Project)| e.1));
            assert(rest.first() == project_names@[k as int]@);
            assert(rest.drop_first() == requested.skip(k + 1));
            let Some(i) = self.projects.position(project_names[k].as_str()) else {
                return Err(
                    ApplicationError::NonExistentProject(project_names[k].clone()),
                );
            };
            let entry = self.projects.remove_at(i);
            self.dirty = true;
            proof {
                assert(self.records() =~= records.remove(i as int));
                lemma_remove_consistent(names, records, self.available(), i as int);
            }
            deleted.push(entry);
            proof {
                let now = views(deleted@.map_values(|e: (String, Project)| e.1));
                assert(now =~= sofar + seq![records[i as int]]);
                assert(sofar + (seq![records[i as int]] + records_deleted(
                    self.names(),
                    self.records(),
                    requested.skip(k + 1),
                )) =~= now + records_deleted(
                    self.names(),
                    self.records(),
                    requested.skip(k + 1),
                ));
            }
            k += 1;
        }
        proof {
            assert(requested.skip(k as int).len() == 0);
            let all = views(deleted@.map_values(|e: (String, Project)| e.1));
            assert(all + Seq::<ProjectView>::empty() =~= all);
        }
        Ok(deleted)
    }
}

} // verus!
