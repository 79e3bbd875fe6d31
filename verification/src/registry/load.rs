use vstd::prelude::*;

use crate::allocator::{
    drew, lemma_refused_on_empty_pool, picks_free_port, refused, PortAllocator,
};
use crate::dependencies::ChoosePort;
use crate::error::ApplicationError;
use crate::name::valid_name;
use crate::name_map::ascending;
use crate::registry::{
    consistent, distinct_directories, distinct_linked_ports, distinct_ports,
    linked_apart_from_ports, ports_reserved, Project, ProjectView, Registry, RegistryData, views,
};
use crate::text::same_text;

verus! {

/// Whether the linked port of the project at `i` is held by a project before
/// it.
pub open spec fn link_repeats(records: Seq<ProjectView>, i: int) -> bool {
    records[i].linked_port is Some && exists|j: int|
        0 <= j < i && (#[trigger] records[j]).linked_port == records[i].linked_port
}

/// Whether the directory of the project at `i` is claimed by a project before
/// it.
pub open spec fn directory_repeats(records: Seq<ProjectView>, i: int) -> bool {
    records[i].directory is Some && exists|j: int|
        0 <= j < i && (#[trigger] records[j]).directory == records[i].directory
}

/// The linked port that the project at `i` keeps when a document is loaded:
/// its own, unless a project before it holds the same.
pub open spec fn kept_link(records: Seq<ProjectView>, i: int) -> Option<u16> {
    if link_repeats(records, i) {
        None
    } else {
        records[i].linked_port
    }
}

/// The directory that the project at `i` keeps when a document is loaded: its
/// own, unless a project before it claims the same.
pub open spec fn kept_directory(records: Seq<ProjectView>, i: int) -> Option<Seq<char>> {
    if directory_repeats(records, i) {
        None
    } else {
        records[i].directory
    }
}

/// Whether none of the first `upto` projects of `records` holds `port` as its
/// linked port.
pub open spec fn no_link_to(records: Seq<ProjectView>, upto: int, port: u16) -> bool {
    forall|k: int| 0 <= k < upto ==> (#[trigger] records[k]).linked_port != Some(port)
}

/// Whether none of the first `upto` projects of `records` listens on `port`.
pub open spec fn no_port(records: Seq<ProjectView>, upto: int, port: u16) -> bool {
    forall|k: int| 0 <= k < upto ==> (#[trigger] records[k]).port != port
}

/// The ports of `available` that no project of `records` holds as its linked
/// port.
pub open spec fn unlinked_ports(records: Seq<ProjectView>, available: Set<u16>) -> Set<u16> {
    Set::new(|p: u16| available.contains(p) && no_link_to(records, records.len() as int, p))
}

/// The ports of `pool` on which no project of `records` listens.
pub open spec fn unassigned_ports(records: Seq<ProjectView>, pool: Set<u16>) -> Set<u16> {
    Set::new(|p: u16| pool.contains(p) && no_port(records, records.len() as int, p))
}

/// Whether the project at `i` can keep its stored port when a document is
/// loaded: the port is in `pool`, and none of the projects before it has got
/// it.
pub open spec fn port_still_free(
    stored: Seq<ProjectView>,
    pool: Set<u16>,
    loaded: Seq<ProjectView>,
    i: int,
) -> bool {
    pool.contains(stored[i].port) && no_port(loaded, i, stored[i].port)
}

/// How the projects `loaded` of a registry belong to the projects `stored` of
/// the document it was loaded from, where `available` were the ports of the
/// allocator.
///
/// Linked ports and directories are kept unless they repeat. Every port is
/// one of `available` that is no linked port of the document, and no two are
/// the same. A project keeps its stored port if and only if that port could
/// still be had when its turn came, the projects taken in the order of their
/// names.
pub open spec fn reconciled(
    stored: Seq<ProjectView>,
    available: Set<u16>,
    loaded: Seq<ProjectView>,
) -> bool {
    let pool = unlinked_ports(stored, available);
    &&& loaded.len() == stored.len()
    &&& forall|i: int|
        0 <= i < loaded.len() ==> {
            &&& (#[trigger] loaded[i]).linked_port == kept_link(stored, i)
            &&& loaded[i].directory == kept_directory(stored, i)
            &&& pool.contains(loaded[i].port)
            &&& loaded[i].port == stored[i].port <==> port_still_free(stored, pool, loaded, i)
        }
    &&& distinct_ports(loaded)
}

/// Whether every project of a document can keep its stored port under the
/// ports `available`: no two ports are the same, and each is one of
/// `available` that is no linked port of the document. Loading such a
/// document draws no port.
pub open spec fn ports_can_stay(stored: Seq<ProjectView>, available: Set<u16>) -> bool {
    &&& distinct_ports(stored)
    &&& forall|i: int|
        0 <= i < stored.len() ==> unlinked_ports(stored, available).contains(
            (#[trigger] stored[i]).port,
        )
}

/// How the projects `loaded` belong to the first projects of `stored`, as
/// many as `loaded` holds: as in `reconciled`.
pub open spec fn reconciled_so_far(
    stored: Seq<ProjectView>,
    available: Set<u16>,
    loaded: Seq<ProjectView>,
) -> bool {
    let pool = unlinked_ports(stored, available);
    &&& loaded.len() <= stored.len()
    &&& forall|i: int|
        0 <= i < loaded.len() ==> {
            &&& (#[trigger] loaded[i]).linked_port == kept_link(stored, i)
            &&& loaded[i].directory == kept_directory(stored, i)
            &&& pool.contains(loaded[i].port)
            &&& loaded[i].port == stored[i].port <==> port_still_free(stored, pool, loaded, i)
        }
    &&& distinct_ports(loaded)
}

/// Whether every project of `loaded` that did not keep its stored port has a
/// port that the strategy `deps` may have picked, asked on the ports that
/// were free when the turn of that project came.
pub open spec fn draws_made<C: ChoosePort>(
    deps: &C,
    stored: Seq<ProjectView>,
    available: Set<u16>,
    loaded: Seq<ProjectView>,
) -> bool {
    forall|i: int|
        0 <= i < loaded.len() && i < stored.len() && (#[trigger] loaded[i]).port
            != stored[i].port ==> drew(
            deps,
            unassigned_ports(loaded.take(i), unlinked_ports(stored, available)),
            loaded[i].port,
        )
}

/// Whether loading may have failed for want of a port: some of the projects,
/// `partial`, had their ports; the next one could not keep its stored port;
/// and the strategy `deps`, asked on the ports that were free then, named no
/// free port.
pub open spec fn draw_refused<C: ChoosePort>(
    deps: &C,
    stored: Seq<ProjectView>,
    available: Set<u16>,
) -> bool {
    exists|partial: Seq<ProjectView>|
        {
            &&& partial.len() < stored.len()
            &&& #[trigger] reconciled_so_far(stored, available, partial)
            &&& draws_made(deps, stored, available, partial)
            &&& !port_still_free(
                stored,
                unlinked_ports(stored, available),
                partial,
                partial.len() as int,
            )
            &&& refused(deps, unassigned_ports(partial, unlinked_ports(stored, available)))
        }
}

/// Whether a document needs no repair under the ports `available`: no port,
/// linked port or directory repeats, no linked port is a port, and every port
/// is one of `available`.
pub open spec fn settled(stored: Seq<ProjectView>, available: Set<u16>) -> bool {
    &&& distinct_ports(stored)
    &&& distinct_linked_ports(stored)
    &&& linked_apart_from_ports(stored)
    &&& distinct_directories(stored)
    &&& forall|i: int| 0 <= i < stored.len() ==> available.contains((#[trigger] stored[i]).port)
}

/// In a document that needs no repair every project can keep its port.
pub proof fn lemma_settled_can_stay(stored: Seq<ProjectView>, available: Set<u16>)
    requires
        settled(stored, available),
    ensures
        ports_can_stay(stored, available),
{
    assert forall|i: int| 0 <= i < stored.len() implies unlinked_ports(
        stored,
        available,
    ).contains((#[trigger] stored[i]).port) by {
        assert forall|k: int| 0 <= k < stored.len() implies (#[trigger] stored[k]).linked_port
            != Some(stored[i].port) by {}
    }
}

/// Loading a document that needs no repair changes none of its projects.
pub proof fn lemma_settled_is_kept(
    stored: Seq<ProjectView>,
    available: Set<u16>,
    loaded: Seq<ProjectView>,
)
    requires
        settled(stored, available),
        reconciled(stored, available, loaded),
    ensures
        loaded == stored,
{
    let pool = unlinked_ports(stored, available);
    assert forall|i: int| 0 <= i < stored.len() implies loaded[i] == stored[i] by {
        lemma_settled_prefix(stored, available, loaded, i);
    }
    assert(loaded =~= stored);
}

/// Under the conditions of `lemma_settled_is_kept`, the projects up to `i`
/// are unchanged.
pub proof fn lemma_settled_prefix(
    stored: Seq<ProjectView>,
    available: Set<u16>,
    loaded: Seq<ProjectView>,
    i: int,
)
    requires
        settled(stored, available),
        reconciled(stored, available, loaded),
        0 <= i < stored.len(),
    ensures
        loaded[i] == stored[i],
    decreases i,
{
    let pool = unlinked_ports(stored, available);
    assert(!link_repeats(stored, i)) by {
        if link_repeats(stored, i) {
            let j = choose|j: int|
                0 <= j < i && (#[trigger] stored[j]).linked_port == stored[i].linked_port;
            assert(stored[i].linked_port != stored[j].linked_port);
        }
    }
    assert(!directory_repeats(stored, i)) by {
        if directory_repeats(stored, i) {
            let j = choose|j: int|
                0 <= j < i && (#[trigger] stored[j]).directory == stored[i].directory;
            assert(stored[i].directory != stored[j].directory);
        }
    }
    assert(pool.contains(stored[i].port)) by {
        assert forall|k: int| 0 <= k < stored.len() implies (#[trigger] stored[k]).linked_port
            != Some(stored[i].port) by {}
    }
    assert(port_still_free(stored, pool, loaded, i)) by {
        assert forall|j: int| 0 <= j < i implies (#[trigger] loaded[j]).port
            != stored[i].port by {
            lemma_settled_prefix(stored, available, loaded, j);
            assert(stored[j].port != stored[i].port);
        }
    }
    assert(loaded[i].port == stored[i].port);
}

/// A project whose stored port is not among the ports of the allocator gets
/// another port, one of the allocator's.
pub proof fn lemma_invalid_port_is_replaced(
    stored: Seq<ProjectView>,
    available: Set<u16>,
    loaded: Seq<ProjectView>,
    i: int,
)
    requires
        reconciled(stored, available, loaded),
        0 <= i < stored.len(),
        !available.contains(stored[i].port),
    ensures
        loaded[i].port != stored[i].port,
        available.contains(loaded[i].port),
        loaded != stored,
{
    let pool = unlinked_ports(stored, available);
    assert(pool.contains(loaded[i].port));
    assert(!port_still_free(stored, pool, loaded, i));
}

/// The projects of a registry that was loaded satisfy the invariants.
pub proof fn lemma_reconciled_consistent(
    names: Seq<Seq<char>>,
    stored: Seq<ProjectView>,
    available: Set<u16>,
    loaded: Seq<ProjectView>,
)
    requires
        names.len() == stored.len(),
        ascending(names),
        forall|i: int| 0 <= i < names.len() ==> valid_name(#[trigger] names[i]),
        reconciled(stored, available, loaded),
    ensures
        consistent(
            names,
            loaded,
            unassigned_ports(loaded, unlinked_ports(stored, available)),
        ),
{
    let pool = unlinked_ports(stored, available);
    let free = unassigned_ports(loaded, pool);
    assert forall|i: int| 0 <= i < loaded.len() && (#[trigger] loaded[i]).linked_port is Some implies
        loaded[i].linked_port == stored[i].linked_port && !link_repeats(stored, i) by {}
    assert forall|i: int| 0 <= i < loaded.len() && (#[trigger] loaded[i]).directory is Some implies
        loaded[i].directory == stored[i].directory && !directory_repeats(stored, i) by {}
    assert(distinct_linked_ports(loaded)) by {
        assert forall|i: int, j: int|
            0 <= i < loaded.len() && 0 <= j < loaded.len() && i != j && (
            #[trigger] loaded[i]).linked_port is Some implies loaded[i].linked_port != (
        #[trigger] loaded[j]).linked_port by {
            if loaded[j].linked_port is Some && loaded[i].linked_port == loaded[j].linked_port {
                if i < j {
                    assert(stored[i].linked_port == stored[j].linked_port);
                    assert(link_repeats(stored, j));
                } else {
                    assert(stored[j].linked_port == stored[i].linked_port);
                    assert(link_repeats(stored, i));
                }
            }
        }
    }
    assert(distinct_directories(loaded)) by {
        assert forall|i: int, j: int|
            0 <= i < loaded.len() && 0 <= j < loaded.len() && i != j && (
            #[trigger] loaded[i]).directory is Some implies loaded[i].directory != (
        #[trigger] loaded[j]).directory by {
            if loaded[j].directory is Some && loaded[i].directory == loaded[j].directory {
                if i < j {
                    assert(stored[i].directory == stored[j].directory);
                    assert(directory_repeats(stored, j));
                } else {
                    assert(stored[j].directory == stored[i].directory);
                    assert(directory_repeats(stored, i));
                }
            }
        }
    }
    assert(linked_apart_from_ports(loaded)) by {
        assert forall|i: int, j: int| 0 <= i < loaded.len() && 0 <= j < loaded.len() implies (
        #[trigger] loaded[i]).linked_port != Some((#[trigger] loaded[j]).port) by {
            assert(pool.contains(loaded[j].port));
            if loaded[i].linked_port is Some {
                assert(stored[i].linked_port == loaded[i].linked_port);
            }
        }
    }
    assert(ports_reserved(loaded, free)) by {
        assert forall|i: int| 0 <= i < loaded.len() implies !free.contains(
            (#[trigger] loaded[i]).port,
        ) && (loaded[i].linked_port matches Some(p) ==> !free.contains(p)) by {
            if loaded[i].linked_port is Some {
                assert(stored[i].linked_port == loaded[i].linked_port);
            }
        }
    }
}

#[verifier::loop_isolation(false)]
fn link_seen_before(stored: &Vec<Project>, i: usize) -> (seen: bool)
    requires
        i < stored.len(),
    ensures
        seen == link_repeats(views(stored@), i as int),
{
    let Some(port) = stored[i].linked_port else {
        return false;
    };
    let mut j: usize = 0;
    while j < i
        invariant
            j <= i,
            forall|k: int| 0 <= k < j ==> (#[trigger] views(stored@)[k]).linked_port != Some(port),
        decreases i - j,
    {
        if stored[j].linked_port == Some(port) {
            assert(views(stored@)[j as int].linked_port == views(stored@)[i as int].linked_port);
            return true;
        }
        j += 1;
    }
    false
}

#[verifier::loop_isolation(false)]
fn directory_seen_before(stored: &Vec<Project>, i: usize) -> (seen: bool)
    requires
        i < stored.len(),
    ensures
        seen == directory_repeats(views(stored@), i as int),
{
    let Some(directory) = &stored[i].directory else {
        return false;
    };
    let mut j: usize = 0;
    while j < i
        invariant
            j <= i,
            forall|k: int|
                0 <= k < j ==> (#[trigger] views(stored@)[k]).directory != Some(directory@),
        decreases i - j,
    {
        let same = match &stored[j].directory {
            Some(other) => same_text(other.as_str(), directory.as_str()),
            None => false,
        };
        if same {
            assert(views(stored@)[j as int].directory == views(stored@)[i as int].directory);
            return true;
        }
        j += 1;
    }
    false
}

impl Registry {
    /// Loads the document `data` under the ports of `port_allocator`.
    ///
    /// Fails with `InvalidProjectName` for the first name, in the order of
    /// names, that breaks the grammar. Else every project keeps its linked
    /// port and its directory unless a project before it has the same; the
    /// linked ports that are kept leave the pool; then every project, in the
    /// order of names, keeps its port if the pool still holds it, and gets
    /// another from the pool if not, picked by the strategy `deps`. Fails with
    /// `EmptyAllocator` only where a project needs another port and the
    /// strategy, asked on the ports that are free at that turn, names no free
    /// port. The registry is dirty where a project has changed.
    ///
    /// Where every project can keep its port, no port is drawn and loading
    /// succeeds, though linked ports or directories repeat. A document that
    /// needs no repair is loaded as it is, and the registry is not dirty.
    #[verifier::loop_isolation(false)]
    pub fn new<C: ChoosePort>(
        deps: &C,
        port_allocator: PortAllocator,
        data: RegistryData,
    ) -> (result: Result<Registry, ApplicationError>)
        requires
            data.projects.wf(),
            data.repos.wf(),
        ensures
            if exists|k: int|
                0 <= k < data.projects.keys().len() && !valid_name(
                    #[trigger] data.projects.keys()[k],
                ) {
                result matches Err(ApplicationError::InvalidProjectName(invalid, reason))
                    && exists|k: int|
                    {
                        &&& 0 <= k < data.projects.keys().len()
                        &&& forall|j: int| 0 <= j < k ==> valid_name(#[trigger] data.projects.keys()[j])
                        &&& invalid@ == data.projects.keys()[k]
                        &&& crate::name::name_problem(invalid@) matches Some(problem) && reason@
                            == crate::name::problem_reason(problem)
                    }
            } else {
                match result {
                    Ok(registry) => {
                        &&& registry.inv()
                        &&& registry.names() == data.projects.keys()
                        &&& registry.repo_names() == data.repos.keys()
                        &&& registry.repo_ports() == data.repos.values()
                        &&& reconciled(
                            views(data.projects.values()),
                            port_allocator@,
                            registry.records(),
                        )
                        &&& registry.available() == unassigned_ports(
                            registry.records(),
                            unlinked_ports(views(data.projects.values()), port_allocator@),
                        )
                        &&& registry.is_dirty() == (registry.records() != views(
                            data.projects.values(),
                        ))
                        &&& draws_made(
                            deps,
                            views(data.projects.values()),
                            port_allocator@,
                            registry.records(),
                        )
                        &&& ports_can_stay(views(data.projects.values()), port_allocator@)
                            ==> forall|i: int|
                            0 <= i < registry.records().len() ==> (
                            #[trigger] registry.records()[i]).port == views(
                                data.projects.values(),
                            )[i].port
                        &&& settled(views(data.projects.values()), port_allocator@)
                            ==> registry.records() == views(data.projects.values())
                            && !registry.is_dirty()
                        &&& forall|i: int|
                            0 <= i < registry.records().len() && !port_allocator@.contains(
                                (#[trigger] views(data.projects.values())[i]).port,
                            ) ==> {
                                &&& registry.records()[i].port != views(
                                    data.projects.values(),
                                )[i].port
                                &&& port_allocator@.contains(registry.records()[i].port)
                                &&& registry.is_dirty()
                            }
                    },
                    Err(err) => {
                        &&& err is EmptyAllocator
                        &&& !ports_can_stay(views(data.projects.values()), port_allocator@)
                        &&& !settled(views(data.projects.values()), port_allocator@)
                        &&& draw_refused(deps, views(data.projects.values()), port_allocator@)
                    },
                }
            },
    {
        let mut projects = data.projects;
        let repos = data.repos;
        let mut allocator = port_allocator;
        let n = projects.len();
        let ghost names = projects.keys();
        let ghost before = views(projects.values());
        let ghost given = port_allocator@;
        let ghost pool = unlinked_ports(before, given);
        proof {
            projects.lemma_entries();
        }

        let mut stored: Vec<Project> = Vec::new();
        let mut s: usize = 0;
        while s < n
            invariant
                s <= n,
                stored@ == projects.values().take(s as int),
                forall|j: int| 0 <= j < s ==> valid_name(#[trigger] names[j]),
            decreases n - s,
        {
            match Registry::validate_name(projects.key(s).as_str()) {
                Err(err) => {
                    assert(!valid_name(names[s as int]));
                    return Err(err);
                },
                Ok(_) => {},
            }
            stored.push(projects.value(s).clone());
            assert(projects.values().take(s + 1) == projects.values().take(s as int).push(
                projects.values()[s as int],
            ));
            s += 1;
        }
        assert(projects.values().take(n as int) == projects.values());
        assert(views(stored@) == before);
        assert(!exists|k: int| 0 <= k < names.len() && !valid_name(#[trigger] names[k]));

        let mut d: usize = 0;
        while d < n
            invariant
                d <= n,
                forall|p: u16|
                    #[trigger] allocator@.contains(p) <==> given.contains(p) && no_link_to(
                        before,
                        d as int,
                        p,
                    ),
            decreases n - d,
        {
            let ghost prev = allocator@;
            if let Some(port) = stored[d].linked_port {
                allocator.discard(port);
            }
            proof {
                assert(before[d as int].linked_port == stored[d as int].linked_port);
                assert forall|p: u16| #[trigger]
                    allocator@.contains(p) <==> given.contains(p) && no_link_to(
                        before,
                        d + 1,
                        p,
                    ) by {
                    assert(prev.contains(p) <==> given.contains(p) && no_link_to(
                        before,
                        d as int,
                        p,
                    ));
                }
            }
            d += 1;
        }
        assert(before.len() == n);
        assert(allocator@ =~= pool);

        let mut dirty = false;
        let mut i: usize = 0;
        while i < n
            invariant
                i <= n,
                projects.wf(),
                projects.keys() == names,
                projects.values().len() == n,
                forall|j: int| i <= j < n ==> views(projects.values())[j] == before[j],
                forall|j: int|
                    0 <= j < i ==> {
                        &&& (#[trigger] views(projects.values())[j]).linked_port == kept_link(
                            before,
                            j,
                        )
                        &&& views(projects.values())[j].directory == kept_directory(before, j)
                        &&& pool.contains(views(projects.values())[j].port)
                        &&& views(projects.values())[j].port == before[j].port <==> port_still_free(
                            before,
                            pool,
                            views(projects.values()),
                            j,
                        )
                    },
                forall|a: int, b: int|
                    0 <= a < i && 0 <= b < i && a != b ==> (#[trigger] views(
                        projects.values(),
                    )[a]).port != (#[trigger] views(projects.values())[b]).port,
                forall|p: u16|
                    #[trigger] allocator@.contains(p) <==> pool.contains(p) && no_port(
                        views(projects.values()),
                        i as int,
                        p,
                    ),
                dirty == exists|j: int|
                    0 <= j < i && (#[trigger] views(projects.values())[j]) != before[j],
                ports_can_stay(before, given) ==> forall|j: int|
                    0 <= j < i ==> (#[trigger] views(projects.values())[j]).port
                        == before[j].port,
                draws_made(deps, before, given, views(projects.values()).take(i as int)),
            decreases n - i,
        {
            let ghost earlier = views(projects.values());
            let current = &stored[i];
            let drop_link = link_seen_before(&stored, i);
            let drop_directory = directory_seen_before(&stored, i);
            let ghost free = allocator@;
            let port = match allocator.allocate(deps, Some(current.port)) {
                Ok(port) => port,
                Err(err) => {
                    proof {
                        let partial = earlier.take(i as int);
                        let wanted = before[i as int].port;
                        assert(!free.contains(wanted));
                        assert(free =~= unassigned_ports(partial, pool)) by {
                            assert forall|p: u16| free.contains(p) == unassigned_ports(
                                partial,
                                pool,
                            ).contains(p) by {
                                if no_port(earlier, i as int, p) {
                                    assert forall|k: int| 0 <= k < i implies (
                                    #[trigger] partial[k]).port != p by {
                                        assert(earlier[k].port != p);
                                    }
                                }
                                if no_port(partial, i as int, p) {
                                    assert forall|k: int| 0 <= k < i implies (
                                    #[trigger] earlier[k]).port != p by {
                                        assert(partial[k].port != p);
                                    }
                                }
                            }
                        }
                        assert(!port_still_free(before, pool, partial, i as int)) by {
                            if port_still_free(before, pool, partial, i as int) {
                                assert forall|k: int| 0 <= k < i implies (
                                #[trigger] earlier[k]).port != wanted by {
                                    assert(partial[k].port != wanted);
                                }
                            }
                        }
                        assert(reconciled_so_far(before, given, partial)) by {
                            assert forall|j: int| 0 <= j < partial.len() implies {
                                &&& (#[trigger] partial[j]).linked_port == kept_link(before, j)
                                &&& partial[j].directory == kept_directory(before, j)
                                &&& pool.contains(partial[j].port)
                                &&& partial[j].port == before[j].port <==> port_still_free(
                                    before,
                                    pool,
                                    partial,
                                    j,
                                )
                            } by {
                                assert(partial[j] == earlier[j]);
                                if port_still_free(before, pool, earlier, j) {
                                    assert forall|k: int| 0 <= k < j implies (
                                    #[trigger] partial[k]).port != before[j].port by {
                                        assert(earlier[k].port != before[j].port);
                                    }
                                }
                                if port_still_free(before, pool, partial, j) {
                                    assert forall|k: int| 0 <= k < j implies (
                                    #[trigger] earlier[k]).port != before[j].port by {
                                        assert(partial[k].port != before[j].port);
                                    }
                                }
                            }
                            assert forall|a: int, b: int|
                                0 <= a < partial.len() && 0 <= b < partial.len() && a
                                    != b implies (#[trigger] partial[a]).port != (
                            #[trigger] partial[b]).port by {
                                assert(earlier[a].port != earlier[b].port);
                            }
                        }
                        assert(refused(deps, unassigned_ports(partial, pool)));
                        if ports_can_stay(before, given) {
                            assert(pool.contains(wanted));
                            assert forall|k: int| 0 <= k < i implies (#[trigger] earlier[k]).port
                                != wanted by {
                                assert(before[k].port != wanted);
                            }
                            assert(free.contains(wanted));
                        }
                        if settled(before, given) {
                            lemma_settled_can_stay(before, given);
                        }
                    }
                    return Err(err);
                },
            };
            let loaded = Project {
                port,
                directory: if drop_directory {
                    None
                } else {
                    match &current.directory {
                        Some(dir) => Some(dir.clone()),
                        None => None,
                    }
                },
                linked_port: if drop_link {
                    None
                } else {
                    current.linked_port
                },
            };
            if port != current.port || drop_link || drop_directory {
                dirty = true;
            }
            let ghost loaded_view = loaded@;
            projects.replace_value(i, loaded);
            proof {
                let now = views(projects.values());
                assert(now =~= earlier.update(i as int, loaded_view));
                assert(free.contains(port));
                assert(loaded_view.port == before[i as int].port <==> port_still_free(
                    before,
                    pool,
                    now,
                    i as int,
                )) by {
                    if free.contains(before[i as int].port) {
                        assert(port == before[i as int].port);
                    }
                    if port_still_free(before, pool, now, i as int) {
                        assert forall|k: int| 0 <= k < i implies (#[trigger] earlier[k]).port
                            != before[i as int].port by {
                            assert(now[k].port != before[i as int].port);
                        }
                    }
                }
                assert forall|j: int| 0 <= j < i implies (#[trigger] now[j]).port == before[j].port
                    <==> port_still_free(before, pool, now, j) by {
                    assert(now[j] == earlier[j]);
                    assert(port_still_free(before, pool, now, j) == port_still_free(
                        before,
                        pool,
                        earlier,
                        j,
                    )) by {
                        if port_still_free(before, pool, earlier, j) {
                            assert forall|k: int| 0 <= k < j implies (#[trigger] now[k]).port
                                != before[j].port by {
                                assert(earlier[k].port != before[j].port);
                            }
                        }
                        if port_still_free(before, pool, now, j) {
                            assert forall|k: int| 0 <= k < j implies (#[trigger] earlier[k]).port
                                != before[j].port by {
                                assert(now[k].port != before[j].port);
                            }
                        }
                    }
                }
                assert forall|a: int, b: int| 0 <= a < i + 1 && 0 <= b < i + 1 && a != b implies (
                #[trigger] now[a]).port != (#[trigger] now[b]).port by {
                    if a < i && b < i {
                        assert(earlier[a].port != earlier[b].port);
                    } else if a == i {
                        assert(earlier[b].port != port);
                    } else {
                        assert(earlier[a].port != port);
                    }
                }
                assert forall|p: u16| #[trigger]
                    allocator@.contains(p) <==> pool.contains(p) && no_port(now, i + 1, p) by {
                    assert(free.contains(p) <==> pool.contains(p) && no_port(earlier, i as int, p));
                    if no_port(earlier, i as int, p) {
                        assert forall|k: int| 0 <= k < i implies (#[trigger] now[k]).port != p by {
                            assert(earlier[k].port != p);
                        }
                    }
                    if no_port(now, i + 1, p) {
                        assert forall|k: int| 0 <= k < i implies (#[trigger] earlier[k]).port
                            != p by {
                            assert(now[k].port != p);
                        }
                        assert(now[i as int].port != p);
                    }
                }
                assert(dirty == exists|j: int| 0 <= j < i + 1 && (#[trigger] now[j]) != before[j]) by {
                    if loaded_view != before[i as int] {
                        assert(now[i as int] != before[i as int]);
                    }
                    if exists|j: int| 0 <= j < i && (#[trigger] earlier[j]) != before[j] {
                        let j = choose|j: int| 0 <= j < i && (#[trigger] earlier[j]) != before[j];
                        assert(now[j] != before[j]);
                    }
                    if exists|j: int| 0 <= j < i + 1 && (#[trigger] now[j]) != before[j] {
                        let j = choose|j: int| 0 <= j < i + 1 && (#[trigger] now[j]) != before[j];
                        if j < i {
                            assert(earlier[j] != before[j]);
                        }
                    }
                }
                if ports_can_stay(before, given) {
                    assert(pool.contains(before[i as int].port));
                    assert forall|k: int| 0 <= k < i implies (#[trigger] earlier[k]).port
                        != before[i as int].port by {
                        assert(before[k].port != before[i as int].port);
                    }
                    assert(free.contains(before[i as int].port));
                    assert forall|j: int| 0 <= j < i + 1 implies (#[trigger] now[j]).port
                        == before[j].port by {
                        if j < i {
                            assert(earlier[j].port == before[j].port);
                        }
                    }
                }
                assert(draws_made(deps, before, given, now.take(i + 1))) by {
                    let so_far = now.take(i + 1);
                    assert forall|j: int|
                        0 <= j < so_far.len() && j < before.len() && (#[trigger] so_far[j]).port
                            != before[j].port implies drew(
                        deps,
                        unassigned_ports(so_far.take(j), pool),
                        so_far[j].port,
                    ) by {
                        if j < i {
                            assert(so_far[j] == earlier.take(i as int)[j]);
                            assert(so_far.take(j) =~= earlier.take(i as int).take(j));
                        } else {
                            assert(so_far.take(j) =~= earlier.take(i as int));
                            assert(free =~= unassigned_ports(earlier.take(i as int), pool)) by {
                                let partial = earlier.take(i as int);
                                assert forall|p: u16| free.contains(p) == unassigned_ports(
                                    partial,
                                    pool,
                                ).contains(p) by {
                                    if no_port(earlier, i as int, p) {
                                        assert forall|k: int| 0 <= k < i implies (
                                        #[trigger] partial[k]).port != p by {
                                            assert(earlier[k].port != p);
                                        }
                                    }
                                    if no_port(partial, i as int, p) {
                                        assert forall|k: int| 0 <= k < i implies (
                                        #[trigger] earlier[k]).port != p by {
                                            assert(partial[k].port != p);
                                        }
                                    }
                                }
                            }
                            assert(drew(deps, free, port));
                        }
                    }
                }
            }
            i += 1;
        }
        let registry = Registry { projects, repos, allocator, dirty };
        proof {
            let loaded = registry.records();
            assert(reconciled(before, given, loaded));
            assert(registry.available() =~= unassigned_ports(loaded, pool));
            lemma_reconciled_consistent(names, before, given, loaded);
            if dirty {
                let j = choose|j: int| 0 <= j < n && (#[trigger] loaded[j]) != before[j];
                assert(loaded != before);
            } else {
                assert(loaded =~= before);
            }
            registry.repos.lemma_entries();
            if settled(before, given) {
                lemma_settled_is_kept(before, given, loaded);
            }
            assert(loaded.take(n as int) =~= loaded);
            assert forall|i: int|
                0 <= i < loaded.len() && !given.contains((#[trigger] before[i]).port) implies {
                &&& loaded[i].port != before[i].port
                &&& given.contains(loaded[i].port)
                &&& registry.is_dirty()
            } by {
                lemma_invalid_port_is_replaced(before, given, loaded, i);
            }
        }
        Ok(registry)
    }
}

/// The ports on which the projects of `records` listen, one for one.
pub open spec fn ports_of(records: Seq<ProjectView>) -> Seq<u16> {
    records.map_values(|record: ProjectView| record.port)
}

/// With a strategy that does what is expected of one, loading does not fail
/// for want of a port where the ports of the allocator that are no linked
/// port of the document are at least as many as the projects.
pub proof fn lemma_load_finds_ports<C: ChoosePort>(
    deps: &C,
    stored: Seq<ProjectView>,
    available: Set<u16>,
)
    requires
        picks_free_port(deps),
        unlinked_ports(stored, available).finite(),
        unlinked_ports(stored, available).len() >= stored.len(),
    ensures
        !draw_refused(deps, stored, available),
{
    let pool = unlinked_ports(stored, available);
    if draw_refused(deps, stored, available) {
        let partial = choose|partial: Seq<ProjectView>|
            {
                &&& partial.len() < stored.len()
                &&& #[trigger] reconciled_so_far(stored, available, partial)
                &&& draws_made(deps, stored, available, partial)
                &&& !port_still_free(stored, pool, partial, partial.len() as int)
                &&& refused(deps, unassigned_ports(partial, pool))
            };
        lemma_refused_on_empty_pool(deps, unassigned_ports(partial, pool));
        let taken = ports_of(partial).to_set();
        assert(pool.subset_of(taken)) by {
            assert forall|p: u16| pool.contains(p) implies taken.contains(p) by {
                assert(!unassigned_ports(partial, pool).contains(p));
                let k = choose|k: int| 0 <= k < partial.len() && (#[trigger] partial[k]).port == p;
                assert(ports_of(partial)[k] == p);
            }
        }
        vstd::seq_lib::seq_to_set_is_finite(ports_of(partial));
        ports_of(partial).lemma_cardinality_of_set();
        vstd::set_lib::lemma_len_subset(pool, taken);
    }
}

} // verus!
