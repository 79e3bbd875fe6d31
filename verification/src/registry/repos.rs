use vstd::prelude::*;
use vstd::string::StringExecFns;

use crate::error::ApplicationError;
use crate::name_map::{place_of, rank_of};
use crate::registry::Registry;

verus! {

impl Registry {
    /// The port that is remembered for the repository `repo`.
    ///
    /// Fails with `NonExistentRepo` where none is.
    pub fn get_repo_port(&self, repo: &str) -> (result: Result<u16, ApplicationError>)
        requires
            self.inv(),
        ensures
            match self.repo_port(repo@) {
                Some(port) => result == Ok::<u16, ApplicationError>(port),
                None => result matches Err(ApplicationError::NonExistentRepo(missing)) && missing@
                    == repo@,
            },
    {
        match self.repos.get(repo) {
            Some(port) => Ok(*port),
            None => Err(ApplicationError::NonExistentRepo(String::from_str(repo))),
        }
    }

    /// Remembers `port` for the repository `repo`. The registry becomes dirty
    /// where that is new.
    pub fn set_repo_port(&mut self, repo: String, port: u16)
        requires
            old(self).inv(),
        ensures
            final(self).inv(),
            final(self).names() == old(self).names(),
            final(self).records() == old(self).records(),
            final(self).available() == old(self).available(),
            final(self).repo_port(repo@) == Some(port),
            match place_of(old(self).repo_names(), repo@) {
                Some(i) => {
                    &&& final(self).repo_names() == old(self).repo_names()
                    &&& final(self).repo_ports() == old(self).repo_ports().update(i, port)
                },
                None => {
                    &&& final(self).repo_names() == old(self).repo_names().insert(
                        rank_of(old(self).repo_names(), repo@),
                        repo@,
                    )
                    &&& final(self).repo_ports() == old(self).repo_ports().insert(
                        rank_of(old(self).repo_names(), repo@),
                        port,
                    )
                },
            },
            final(self).is_dirty() == (old(self).is_dirty() || old(self).repo_port(repo@) != Some(
                port,
            )),
    {
        let ghost key = repo@;
        let previous = self.repos.insert(repo, port);
        if previous != Some(port) {
            self.dirty = true;
        }
        proof {
            crate::name_map::lemma_rank_of(old(self).repo_names(), key);
            match place_of(old(self).repo_names(), key) {
                Some(i) => {
                    crate::name_map::lemma_place_of(self.repo_names(), i);
                },
                None => {
                    self.repos.lemma_entries();
                    crate::name_map::lemma_place_of(
                        self.repo_names(),
                        rank_of(old(self).repo_names(), key),
                    );
                },
            }
        }
    }

    /// Forgets the repository `repo` and answers with the port that was
    /// remembered for it.
    ///
    /// Fails with `NonExistentRepo`, and changes nothing, where none was.
    pub fn delete_repo(&mut self, repo: &str) -> (result: Result<u16, ApplicationError>)
        requires
            old(self).inv(),
        ensures
            final(self).inv(),
            final(self).names() == old(self).names(),
            final(self).records() == old(self).records(),
            final(self).available() == old(self).available(),
            match place_of(old(self).repo_names(), repo@) {
                Some(i) => {
                    &&& result == Ok::<u16, ApplicationError>(old(self).repo_ports()[i])
                    &&& final(self).repo_names() == old(self).repo_names().remove(i)
                    &&& final(self).repo_ports() == old(self).repo_ports().remove(i)
                    &&& final(self).is_dirty()
                },
                None => {
                    &&& result matches Err(ApplicationError::NonExistentRepo(missing)) && missing@
                        == repo@
                    &&& final(self).same_as(old(self))
                },
            },
    {
        match self.repos.remove(repo) {
            Some(port) => {
                self.dirty = true;
                proof {
                    self.repos.lemma_entries();
                }
                Ok(port)
            },
            None => Err(ApplicationError::NonExistentRepo(String::from_str(repo))),
        }
    }

    /// The repositories with their ports, in the order of the repositories.
    pub fn iter_repos(&self) -> (repos: &Vec<(String, u16)>)
        requires
            self.inv(),
        ensures
            repos@.len() == self.repo_names().len(),
            forall|i: int|
                0 <= i < repos@.len() ==> (#[trigger] repos@[i]).0@ == self.repo_names()[i]
                    && repos@[i].1 == self.repo_ports()[i],
    {
        proof {
            self.repos.lemma_entries();
        }
        self.repos.as_entries()
    }
}

} // verus!
