use vstd::prelude::*;

use crate::registry::load::settled;
use crate::registry::{views, Registry, RegistryData};

verus! {

/// Whether `document` is what `registry` holds: the same projects under the
/// same names and the same repositories with the same ports.
pub open spec fn holds_document(registry: &Registry, document: &RegistryData) -> bool {
    &&& document.projects.wf()
    &&& document.repos.wf()
    &&& document.projects.keys() == registry.names()
    &&& views(document.projects.values()) == registry.records()
    &&& document.repos.keys() == registry.repo_names()
    &&& document.repos.values() == registry.repo_ports()
}

/// What `save` answers: the document of the registry where that has to be
/// written, and nothing where the registry is not dirty.
pub open spec fn save_answer(registry: &Registry, answer: Option<RegistryData>) -> bool {
    match answer {
        Some(document) => registry.is_dirty() && holds_document(registry, &document),
        None => !registry.is_dirty(),
    }
}

/// How a registry stands after `mark_saved`: as before, and not dirty.
pub open spec fn saved(before: &Registry, after: &Registry) -> bool {
    &&& after.names() == before.names()
    &&& after.records() == before.records()
    &&& after.repo_names() == before.repo_names()
    &&& after.repo_ports() == before.repo_ports()
    &&& after.available() == before.available()
    &&& !after.is_dirty()
}

/// A registry that has been saved asks for no second write: `save` answers
/// `None` until the registry is changed again.
pub proof fn lemma_save_once(before: &Registry, after: &Registry, again: Option<RegistryData>)
    requires
        saved(before, after),
        save_answer(after, again),
    ensures
        again is None,
{
}

/// The document of a registry needs no repair when it is loaded again under
/// ports that hold the ports of its projects: it is loaded as it is, and the
/// registry that comes of it is not dirty.
pub proof fn lemma_document_is_settled(registry: &Registry, available: Set<u16>)
    requires
        registry.inv(),
        forall|i: int|
            0 <= i < registry.records().len() ==> available.contains(
                (#[trigger] registry.records()[i]).port,
            ),
    ensures
        settled(registry.records(), available),
{
    registry.lemma_inv();
}

impl Registry {
    /// The document to write, where the registry is dirty; `None` where
    /// nothing has to be written. The caller writes the document and then
    /// calls `mark_saved`.
    pub fn save(&self) -> (answer: Option<RegistryData>)
        requires
            self.inv(),
        ensures
            save_answer(self, answer),
    {
        if !self.dirty {
            return None;
        }
        let projects = self.projects.clone();
        let repos = self.repos.clone();
        assert(projects.values() =~= self.projects.values());
        assert(repos.values() =~= self.repos.values());
        Some(RegistryData { projects, repos })
    }

    /// Records that the document handed out by `save` has been written.
    pub fn mark_saved(&mut self)
        requires
            old(self).inv(),
        ensures
            final(self).inv(),
            saved(old(self), final(self)),
    {
        self.dirty = false;
    }
}

} // verus!
