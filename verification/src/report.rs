use vstd::prelude::*;
use vstd::string::StringExecFns;

use crate::config::Config;
use crate::error::ApplicationError;
use crate::allocator::{drew, refused};
use crate::dependencies::ChoosePort;
use crate::name_map::ascending;
use crate::registry::edit::{
    claims, deletable, directory_view, name_views, names_after_delete, records_after_delete,
    records_deleted, with_directory,
};
use crate::registry::link::{available_after_link, created, holder_of, relinked};
use crate::registry::{Project, ProjectView, Registry};
use crate::text::{decimal, push_decimal};

verus! {

/// The line that describes a project: its name and port, then its linked port
/// and its directory where it has them.
pub open spec fn project_line(name: Seq<char>, project: ProjectView) -> Seq<char> {
    name + " :"@ + decimal(project.port as nat) + match project.linked_port {
        Some(port) => " -> :"@ + decimal(port as nat),
        None => Seq::empty(),
    } + match project.directory {
        Some(directory) => " ("@ + directory + ")"@,
        None => Seq::empty(),
    }
}

/// The line that describes a project.
pub fn format_project(name: &str, project: &Project) -> (line: String)
    ensures
        line@ == project_line(name@, project@),
{
    let mut line = String::from_str(name);
    line.append(" :");
    push_decimal(&mut line, project.port as u64);
    if let Some(port) = project.linked_port {
        line.append(" -> :");
        push_decimal(&mut line, port as u64);
    }
    if let Some(directory) = &project.directory {
        line.append(" (");
        line.append(directory.as_str());
        line.append(")");
    }
    assert(line@ =~= project_line(name@, project@));
    line
}

/// The line that describes a repository and the port remembered for it.
pub open spec fn repo_line(repo: Seq<char>, port: u16) -> Seq<char> {
    repo + ": "@ + decimal(port as nat)
}

/// The line that describes a repository and the port remembered for it.
pub fn format_repo(repo: &str, port: u16) -> (line: String)
    ensures
        line@ == repo_line(repo@, port),
{
    let mut line = String::from_str(repo);
    line.append(": ");
    push_decimal(&mut line, port as u64);
    line
}

/// The project that is active in the directory `cwd`, with its name.
///
/// Fails with `NoActiveProject` where no project claims the directory.
pub fn get_active_project<'a>(registry: &'a Registry, cwd: &str) -> (result: Result<
    (&'a String, &'a Project),
    ApplicationError,
>)
    requires
        registry.inv(),
    ensures
        match result {
            Ok((name, project)) => exists|k: int|
                claims(registry.records(), k, cwd@) && name@ == registry.names()[k] && project@
                    == registry.records()[k],
            Err(err) => err is NoActiveProject && forall|k: int|
                !claims(registry.records(), k, cwd@),
        },
{
    match registry.match_cwd(cwd) {
        Some(found) => Ok(found),
        None => Err(ApplicationError::NoActiveProject),
    }
}

/// The configuration to work with, from what was found at `config_path`: the
/// configuration that was loaded; the default one where the file does not
/// exist; but `MissingCustomConfig` where the user has named that file.
pub fn load_config(loaded: Option<Config>, config_path: String, custom_path: bool) -> (result:
    Result<Config, ApplicationError>)
    ensures
        match loaded {
            Some(config) => result == Ok::<Config, ApplicationError>(config),
            None => if custom_path {
                result == Err::<Config, ApplicationError>(
                    ApplicationError::MissingCustomConfig(config_path),
                )
            } else {
                result matches Ok(config) && config.ranges@ == seq![(3000u16, 3999u16)]
                    && config.reserved@ == Seq::<u16>::empty()
            },
        },
{
    match loaded {
        Some(config) => Ok(config),
        None => {
            if custom_path {
                Err(ApplicationError::MissingCustomConfig(config_path))
            } else {
                Ok(Config::default())
            }
        },
    }
}

/// The port that is linked to a project at its creation where the user names
/// none: none where the user wants no link or the working directory belongs
/// to no repository, else the port that is remembered for `repo`, if one is.
pub fn default_link(registry: &Registry, no_link: bool, repo: Option<&str>) -> (port: Option<u16>)
    requires
        registry.inv(),
    ensures
        port == if no_link {
            None
        } else {
            match repo {
                Some(repo) => registry.repo_port(repo@),
                None => None,
            }
        },
{
    if no_link {
        return None;
    }
    match repo {
        Some(repo) => match registry.get_repo_port(repo) {
            Ok(port) => Some(port),
            Err(_) => None,
        },
        None => None,
    }
}

/// The name under which a project is created: the one that is given, else the
/// normalized form of the name of the working directory.
pub open spec fn resolved_name(name: Option<String>, basename: Seq<char>) -> Seq<char> {
    match name {
        Some(name) => name@,
        None => crate::name::normalized(basename),
    }
}

/// The projects after the project at `target` has been overwritten: the port
/// `linked_port`, where one is given, is linked to it, `fresh` going to the
/// project that listened on that port; then it has the directory `directory`.
pub open spec fn overwritten(
    records: Seq<ProjectView>,
    target: int,
    directory: Option<Seq<char>>,
    linked_port: Option<u16>,
    fresh: u16,
) -> Seq<ProjectView> {
    let linked = match linked_port {
        Some(port) => relinked(records, target, port, fresh),
        None => records,
    };
    linked.update(target, with_directory(linked[target], directory))
}

/// Creates a project, or overwrites the one of that name.
///
/// The name is `name`, or where none is given the normalized `basename`, the
/// name of the working directory. Where `overwrite` is set and a project of
/// that name exists, `linked_port` is linked to it, if one is given, and it
/// gets the directory `directory`; the answer then ends in `true`. Else the
/// project is created as `Registry::create` does, and the answer ends in
/// `false`. The answer begins with the name and the project as it stands in
/// the registry.
///
/// Overwriting fails with `DuplicateDirectory` where another project claims
/// the directory, and with `EmptyAllocator` where the project that listens on
/// the linked port needs a port that the pool does not give; then nothing
/// changes.
pub fn create<C: ChoosePort>(
    deps: &C,
    registry: &mut Registry,
    name: Option<String>,
    basename: &str,
    directory: Option<String>,
    linked_port: Option<u16>,
    overwrite: bool,
) -> (result: Result<(String, Project, bool), ApplicationError>)
    requires
        old(registry).inv(),
    ensures
        final(registry).inv(),
        if overwrite && old(registry).names().contains(resolved_name(name, basename@)) {
            let resolved = resolved_name(name, basename@);
            let target = old(registry).names().index_of(resolved);
            let wanted = directory_view(directory);
            if wanted is Some && exists|k: int|
                k != target && claims(old(registry).records(), k, wanted->0) {
                &&& result matches Err(ApplicationError::DuplicateDirectory(owner, claimed))
                    && claimed@ == wanted->0 && exists|k: int|
                    k != target && claims(old(registry).records(), k, claimed@) && owner@
                        == old(registry).names()[k]
                &&& final(registry).same_as(old(registry))
            } else {
                match result {
                    Ok((created_name, project, updated)) => {
                        let fresh = match linked_port {
                            Some(port) => match holder_of(old(registry).records(), port) {
                                Some(h) => final(registry).records()[h].port,
                                None => port,
                            },
                            None => 0u16,
                        };
                        &&& created_name@ == resolved
                        &&& updated
                        &&& project@ == final(registry).records()[target]
                        &&& final(registry).names() == old(registry).names()
                        &&& final(registry).repo_names() == old(registry).repo_names()
                        &&& final(registry).repo_ports() == old(registry).repo_ports()
                        &&& final(registry).records() == overwritten(
                            old(registry).records(),
                            target,
                            wanted,
                            linked_port,
                            fresh,
                        )
                        &&& linked_port matches Some(port) ==> {
                            &&& holder_of(old(registry).records(), port) is Some ==> drew(
                                deps,
                                old(registry).available(),
                                fresh,
                            )
                            &&& final(registry).available() == available_after_link(
                                old(registry).records(),
                                old(registry).available(),
                                port,
                                fresh,
                            )
                        }
                        &&& linked_port is None ==> final(registry).available()
                            == old(registry).available()
                        &&& final(registry).is_dirty() == (old(registry).is_dirty()
                            || final(registry).records() != old(registry).records())
                    },
                    Err(err) => {
                        &&& err is EmptyAllocator
                        &&& linked_port matches Some(port) && holder_of(
                            old(registry).records(),
                            port,
                        ) is Some
                        &&& refused(deps, old(registry).available())
                        &&& final(registry).same_as(old(registry))
                    },
                }
            }
        } else {
            match result {
                Ok((created_name, project, updated)) => {
                    &&& created_name@ == resolved_name(name, basename@)
                    &&& !updated
                    &&& created(
                        old(registry),
                        deps,
                        resolved_name(name, basename@),
                        directory_view(directory),
                        linked_port,
                        Ok(project),
                        final(registry),
                    )
                },
                Err(err) => created(
                    old(registry),
                    deps,
                    resolved_name(name, basename@),
                    directory_view(directory),
                    linked_port,
                    Err(err),
                    final(registry),
                ),
            }
        },
{
    let name = match name {
        Some(name) => name,
        None => Registry::normalize_name(basename),
    };
    let ghost resolved = name@;
    let ghost wanted = directory_view(directory);
    let ghost before = old(registry).records();
    if overwrite && registry.get(name.as_str()).is_some() {
        let ghost target = old(registry).names().index_of(resolved);
        let ghost names = registry.names();
        proof {
            registry.lemma_inv();
            crate::name_map::lemma_ascending_distinct(names);
            assert(names.contains(resolved));
            assert(0 <= target < names.len() && names[target] == resolved);
        }
        if let Some(d) = &directory {
            if let Some(owner) = registry.claimant_other_than(d.as_str(), name.as_str()) {
                proof {
                    let k = choose|k: int|
                        claims(before, k, d@) && names[k] != resolved && owner@ == names[k];
                    assert(k != target && claims(before, k, wanted->0) && owner@ == names[k]);
                }
                return Err(ApplicationError::DuplicateDirectory(owner.clone(), d.clone()));
            }
            assert forall|k: int| claims(before, k, wanted->0) implies k == target by {
                assert(names[k] == resolved);
            }
        }
        if let Some(port) = linked_port {
            match registry.link(deps, name.as_str(), port) {
                Ok(_) => {},
                Err(err) => {
                    return Err(err);
                },
            }
        }
        let ghost middle = registry.records();
        let ghost middle_dirty = registry.is_dirty();
        proof {
            assert forall|k: int| 0 <= k < before.len() implies (#[trigger] middle[k]).directory
                == before[k].directory by {}
            assert forall|k: int| claims(middle, k, wanted->0) implies claims(
                before,
                k,
                wanted->0,
            ) by {}
        }
        match registry.update(name.as_str(), directory) {
            Ok(project) => {
                proof {
                    let after = registry.records();
                    assert forall|k: int| 0 <= k < before.len() implies (#[trigger] after[k]).port
                        == middle[k].port && after[k].linked_port == middle[k].linked_port by {}
                    crate::name_map::lemma_place_of(names, target);
                    assert(after == middle.update(
                        target,
                        with_directory(middle[target], wanted),
                    ));
                    if middle[target].directory == wanted {
                        assert(with_directory(middle[target], wanted) == middle[target]);
                        assert(after =~= middle);
                    }
                    if after == before {
                        assert(middle =~= before);
                    }
                    if middle != before {
                        assert(!(middle =~= before));
                        let k = choose|k: int|
                            0 <= k < middle.len() && middle[k] != before[k];
                        assert(after[k] != before[k]);
                    }
                    if middle[target].directory != wanted {
                        assert(after[target].directory != before[target].directory);
                    }
                }
                Ok((name, project, true))
            },
            Err(_) => vstd::pervasive::unreached(),
        }
    } else {
        match registry.create(deps, name.as_str(), directory, linked_port) {
            Ok(project) => Ok((name, project, false)),
            Err(err) => Err(err),
        }
    }
}

/// Whether the directory of `record` is one of `gone`.
pub open spec fn vanished(record: ProjectView, gone: Seq<Seq<char>>) -> bool {
    record.directory matches Some(directory) && gone.contains(directory)
}

/// The names of the projects whose directory is one of `gone`, in order.
pub open spec fn vanished_names(
    names: Seq<Seq<char>>,
    records: Seq<ProjectView>,
    gone: Seq<Seq<char>>,
) -> Seq<Seq<char>>
    decreases names.len(),
{
    if names.len() == 0 || records.len() == 0 {
        Seq::empty()
    } else if vanished(records.first(), gone) {
        seq![names.first()] + vanished_names(names.drop_first(), records.drop_first(), gone)
    } else {
        vanished_names(names.drop_first(), records.drop_first(), gone)
    }
}

/// The names of the projects whose directory is none of `gone`, in order.
pub open spec fn lasting_names(
    names: Seq<Seq<char>>,
    records: Seq<ProjectView>,
    gone: Seq<Seq<char>>,
) -> Seq<Seq<char>>
    decreases names.len(),
{
    if names.len() == 0 || records.len() == 0 {
        Seq::empty()
    } else if vanished(records.first(), gone) {
        lasting_names(names.drop_first(), records.drop_first(), gone)
    } else {
        seq![names.first()] + lasting_names(names.drop_first(), records.drop_first(), gone)
    }
}

/// The projects whose directory is one of `gone`, if `wanted`, and those
/// whose directory is none of them, if not; in order.
pub open spec fn records_where(
    records: Seq<ProjectView>,
    gone: Seq<Seq<char>>,
    wanted: bool,
) -> Seq<ProjectView>
    decreases records.len(),
{
    if records.len() == 0 {
        Seq::empty()
    } else if vanished(records.first(), gone) == wanted {
        seq![records.first()] + records_where(records.drop_first(), gone, wanted)
    } else {
        records_where(records.drop_first(), gone, wanted)
    }
}

/// Deleting, one after the other, the projects whose directory is gone
/// succeeds for each of them and leaves the others as they were.
pub proof fn lemma_delete_vanished(
    kept_names: Seq<Seq<char>>,
    kept: Seq<ProjectView>,
    names: Seq<Seq<char>>,
    records: Seq<ProjectView>,
    gone: Seq<Seq<char>>,
)
    requires
        ascending(kept_names + names),
        kept_names.len() == kept.len(),
        names.len() == records.len(),
    ensures
        deletable(kept_names + names, vanished_names(names, records, gone)) == vanished_names(
            names,
            records,
            gone,
        ).len(),
        names_after_delete(kept_names + names, vanished_names(names, records, gone))
            == kept_names + lasting_names(names, records, gone),
        records_after_delete(
            kept_names + names,
            kept + records,
            vanished_names(names, records, gone),
        ) == kept + records_where(records, gone, false),
        records_deleted(kept_names + names, kept + records, vanished_names(names, records, gone))
            == records_where(records, gone, true),
    decreases names.len(),
{
    let all = kept_names + names;
    let requested = vanished_names(names, records, gone);
    if names.len() == 0 {
        assert(kept_names + names =~= kept_names);
        assert(kept + records =~= kept);
        assert(kept + records_where(records, gone, false) =~= kept);
        assert(kept_names + lasting_names(names, records, gone) =~= kept_names);
    } else if vanished(records.first(), gone) {
        let at = kept_names.len() as int;
        assert(all[at] == names.first());
        crate::name_map::lemma_place_of(all, at);
        assert(all.remove(at) =~= kept_names + names.drop_first());
        assert((kept + records).remove(at) =~= kept + records.drop_first());
        assert((kept + records)[at] == records.first());
        crate::name_map::lemma_remove_ascending(all, at);
        assert(requested.first() == names.first());
        assert(requested.drop_first() =~= vanished_names(
            names.drop_first(),
            records.drop_first(),
            gone,
        ));
        lemma_delete_vanished(kept_names, kept, names.drop_first(), records.drop_first(), gone);
    } else {
        assert(kept_names.push(names.first()) + names.drop_first() =~= all);
        assert(kept.push(records.first()) + records.drop_first() =~= kept + records);
        lemma_delete_vanished(
            kept_names.push(names.first()),
            kept.push(records.first()),
            names.drop_first(),
            records.drop_first(),
            gone,
        );
        assert(kept_names.push(names.first()) + lasting_names(
            names.drop_first(),
            records.drop_first(),
            gone,
        ) =~= kept_names + lasting_names(names, records, gone));
        assert(kept.push(records.first()) + records_where(records.drop_first(), gone, false)
            =~= kept + records_where(records, gone, false));
    }
}

#[verifier::loop_isolation(false)]
fn is_gone(directory: &Option<String>, gone: &Vec<String>) -> (found: bool)
    ensures
        found == (directory_view(*directory) matches Some(d) && name_views(gone@).contains(d)),
{
    let Some(d) = directory else {
        return false;
    };
    let mut i: usize = 0;
    while i < gone.len()
        invariant
            i <= gone.len(),
            forall|k: int| 0 <= k < i ==> name_views(gone@)[k] != d@,
        decreases gone.len() - i,
    {
        if crate::text::same_text(gone[i].as_str(), d.as_str()) {
            assert(name_views(gone@)[i as int] == d@);
            return true;
        }
        i += 1;
    }
    false
}

/// Deletes the projects whose directory is one of `gone`, the directories
/// that are no longer there, and answers with them and their names, in the
/// order of the names.
#[verifier::loop_isolation(false)]
pub fn cleanup(registry: &mut Registry, gone: &Vec<String>) -> (result: Result<
    Vec<(String, Project)>,
    ApplicationError,
>)
    requires
        old(registry).inv(),
    ensures
        final(registry).inv(),
        final(registry).repo_names() == old(registry).repo_names(),
        final(registry).repo_ports() == old(registry).repo_ports(),
        final(registry).available() == old(registry).available(),
        final(registry).names() == lasting_names(
            old(registry).names(),
            old(registry).records(),
            name_views(gone@),
        ),
        final(registry).records() == records_where(
            old(registry).records(),
            name_views(gone@),
            false,
        ),
        result matches Ok(deleted) && deleted@.len() == vanished_names(
            old(registry).names(),
            old(registry).records(),
            name_views(gone@),
        ).len() && forall|k: int|
            0 <= k < deleted@.len() ==> (#[trigger] deleted@[k]).0@ == vanished_names(
                old(registry).names(),
                old(registry).records(),
                name_views(gone@),
            )[k] && deleted@[k].1@ == records_where(
                old(registry).records(),
                name_views(gone@),
                true,
            )[k],
        final(registry).is_dirty() == (old(registry).is_dirty() || vanished_names(
            old(registry).names(),
            old(registry).records(),
            name_views(gone@),
        ).len() > 0),
{
    let ghost names = registry.names();
    let ghost records = registry.records();
    let ghost lost = name_views(gone@);
    proof {
        registry.lemma_inv();
    }
    let mut requested: Vec<String> = Vec::new();
    let projects = registry.iter_projects();
    let mut i: usize = 0;
    assert(names.skip(0) == names && records.skip(0) == records);
    while i < projects.len()
        invariant
            i <= projects.len(),
            vanished_names(names, records, lost) == name_views(requested@) + vanished_names(
                names.skip(i as int),
                records.skip(i as int),
                lost,
            ),
        decreases projects.len() - i,
    {
        let ghost sofar = name_views(requested@);
        let ghost rest = vanished_names(names.skip(i as int), records.skip(i as int), lost);
        proof {
            assert(names.skip(i as int).drop_first() == names.skip(i + 1));
            assert(records.skip(i as int).drop_first() == records.skip(i + 1));
            assert(records.skip(i as int).first() == projects@[i as int].1@);
        }
        if is_gone(&projects[i].1.directory, gone) {
            requested.push(projects[i].0.clone());
            proof {
                let next = vanished_names(names.skip(i + 1), records.skip(i + 1), lost);
                assert(name_views(requested@) =~= sofar.push(names[i as int]));
                assert(sofar + (seq![names[i as int]] + next) =~= sofar.push(names[i as int])
                    + next);
            }
        }
        i += 1;
    }
    proof {
        assert(name_views(requested@) + Seq::<Seq<char>>::empty() =~= name_views(requested@));
        lemma_delete_vanished(Seq::empty(), Seq::empty(), names, records, lost);
        assert(Seq::<Seq<char>>::empty() + names =~= names);
        assert(Seq::<ProjectView>::empty() + records =~= records);
        assert(Seq::<Seq<char>>::empty() + lasting_names(names, records, lost)
            =~= lasting_names(names, records, lost));
        assert(Seq::<ProjectView>::empty() + records_where(records, lost, false)
            =~= records_where(records, lost, false));
    }
    registry.delete_many(requested)
}

} // verus!
