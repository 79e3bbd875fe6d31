use std::collections::HashSet;
use vstd::prelude::*;

use crate::dependencies::{ChoosePort, RandomChoice};
use crate::error::ApplicationError;

verus! {

/// The ports that may still be handed out. Its view is the set of those ports.
#[derive(Debug)]
pub struct PortAllocator {
    available_ports: HashSet<u16>,
}

impl View for PortAllocator {
    type V = Set<u16>;

    closed spec fn view(&self) -> Set<u16> {
        self.available_ports@
    }
}

/// The port that leaves the pool `available` when `desired_port` is asked for
/// and the strategy, where it is consulted, answers `choice`: the desired port
/// if it is free, else the strategy's answer if that is free, else none.
pub open spec fn allocation(
    available: Set<u16>,
    desired_port: Option<u16>,
    choice: Option<u16>,
) -> Option<u16> {
    if desired_port matches Some(port) && available.contains(port) {
        desired_port
    } else if choice matches Some(port) && available.contains(port) {
        choice
    } else {
        None
    }
}

/// How the pool and the answer of an allocation belong together: a port that
/// is handed out was free before and is the one port that left the pool; a
/// failure is `EmptyAllocator` and leaves the pool as it was.
pub open spec fn granted(
    before: Set<u16>,
    result: Result<u16, ApplicationError>,
    after: Set<u16>,
) -> bool {
    match result {
        Ok(port) => before.contains(port) && after == before.remove(port),
        Err(err) => err is EmptyAllocator && after == before,
    }
}

/// The answer and the pool after it that belong to handing out `port`.
pub open spec fn outcome(before: Set<u16>, port: Option<u16>) -> (
    Result<u16, ApplicationError>,
    Set<u16>,
) {
    match port {
        Some(p) => (Ok(p), before.remove(p)),
        None => (Err(ApplicationError::EmptyAllocator), before),
    }
}

/// Whether the strategy `deps` may answer `choice` when it is asked on a set
/// that holds exactly the ports of `free`.
pub open spec fn may_answer<C: ChoosePort>(deps: &C, free: Set<u16>, choice: Option<u16>) -> bool {
    exists|pool: HashSet<u16>|
        pool@ == free && #[trigger] call_ensures(C::choose_port, (deps, &pool), choice)
}

/// Whether the strategy `deps`, asked on the free ports `free`, may have
/// picked the free port `port`.
pub open spec fn drew<C: ChoosePort>(deps: &C, free: Set<u16>, port: u16) -> bool {
    free.contains(port) && may_answer(deps, free, Some(port))
}

/// Whether the strategy `deps`, asked on the free ports `free`, may have
/// named no free port: only then does a draw fail.
pub open spec fn refused<C: ChoosePort>(deps: &C, free: Set<u16>) -> bool {
    exists|choice: Option<u16>|
        #[trigger] may_answer(deps, free, choice) && allocation(free, None, choice) is None
}

/// Whether the strategy `deps` does what is expected of one: it answers with
/// a port of the set it is asked on, and with none only where that set is
/// empty.
pub open spec fn picks_free_port<C: ChoosePort>(deps: &C) -> bool {
    forall|pool: HashSet<u16>, choice: Option<u16>|
        #[trigger] call_ensures(C::choose_port, (deps, &pool), choice) ==> match choice {
            Some(port) => pool@.contains(port),
            None => pool@ =~= Set::<u16>::empty(),
        }
}

/// A strategy that does what is expected of one is refused only on an empty
/// pool: with it, a draw from a pool that is not empty succeeds.
pub proof fn lemma_refused_on_empty_pool<C: ChoosePort>(deps: &C, free: Set<u16>)
    requires
        picks_free_port(deps),
        refused(deps, free),
    ensures
        free =~= Set::<u16>::empty(),
{
    let choice = choose|choice: Option<u16>|
        #[trigger] may_answer(deps, free, choice) && allocation(free, None, choice) is None;
    let pool = choose|pool: HashSet<u16>|
        pool@ == free && #[trigger] call_ensures(C::choose_port, (deps, &pool), choice);
    assert(call_ensures(C::choose_port, (deps, &pool), choice));
}

/// The random strategy does what is expected of one.
pub proof fn lemma_random_choice_picks_free_port(deps: &RandomChoice)
    ensures
        picks_free_port(deps),
{
}

/// The pool that is left of `available` once the ports of `taken` have been
/// handed out of it, one after the other.
pub open spec fn drained(available: Set<u16>, taken: Seq<u16>) -> Set<u16>
    decreases taken.len(),
{
    if taken.len() == 0 {
        available
    } else {
        drained(available, taken.drop_last()).remove(taken.last())
    }
}

/// Whether the ports of `taken` can be handed out of `available` one after the
/// other: each is free when its turn comes.
pub open spec fn can_take(available: Set<u16>, taken: Seq<u16>) -> bool
    decreases taken.len(),
{
    taken.len() > 0 ==> can_take(available, taken.drop_last()) && drained(
        available,
        taken.drop_last(),
    ).contains(taken.last())
}

impl PortAllocator {
    /// An allocator that hands out the ports of `available_ports`.
    pub fn new(available_ports: Vec<u16>) -> (allocator: Self)
        ensures
            allocator@ == available_ports@.to_set(),
            allocator@.finite(),
    {
        let mut set: HashSet<u16> = HashSet::new();
        let mut i: usize = 0;
        while i < available_ports.len()
            invariant
                i <= available_ports.len(),
                set@ == available_ports@.take(i as int).to_set(),
            decreases available_ports.len() - i,
        {
            set.insert(available_ports[i]);
            proof {
                let before = available_ports@.take(i as int);
                let after = available_ports@.take(i + 1);
                assert(after == before.push(available_ports@[i as int]));
                assert(after.to_set() =~= before.to_set().insert(available_ports@[i as int])) by {
                    assert forall|p: u16| after.to_set().contains(p) implies before.to_set().insert(
                        available_ports@[i as int],
                    ).contains(p) by {
                        let k = choose|k: int| 0 <= k < after.len() && after[k] == p;
                        if k < i {
                            assert(before[k] == p);
                        }
                    }
                    assert forall|p: u16|
                        before.to_set().insert(available_ports@[i as int]).contains(
                            p,
                        ) implies after.to_set().contains(p) by {
                        if p == available_ports@[i as int] {
                            assert(after[i as int] == p);
                        } else {
                            let k = choose|k: int| 0 <= k < before.len() && before[k] == p;
                            assert(after[k] == p);
                        }
                    }
                }
            }
            i += 1;
        }
        proof {
            assert(available_ports@.take(available_ports.len() as int) == available_ports@);
            vstd::seq_lib::seq_to_set_is_finite(available_ports@);
        }
        PortAllocator { available_ports: set }
    }

    /// Takes `port` out of the pool, whether it was free or not.
    pub fn discard(&mut self, port: u16)
        ensures
            final(self)@ == old(self)@.remove(port),
    {
        self.available_ports.remove(&port);
    }

    /// Whether `port` is still free.
    pub fn is_available(&self, port: u16) -> (free: bool)
        ensures
            free == self@.contains(port),
    {
        self.available_ports.contains(&port)
    }

    /// Hands out the port that a strategy picked, if that port is free.
    ///
    /// An answer that names no free port counts as no answer, and the
    /// allocation fails with `EmptyAllocator`.
    pub fn accept(&mut self, choice: Option<u16>) -> (result: Result<u16, ApplicationError>)
        ensures
            (result, final(self)@) == outcome(old(self)@, allocation(old(self)@, None, choice)),
    {
        match choice {
            Some(port) => {
                if self.available_ports.contains(&port) {
                    self.available_ports.remove(&port);
                    Ok(port)
                } else {
                    Err(ApplicationError::EmptyAllocator)
                }
            },
            None => Err(ApplicationError::EmptyAllocator),
        }
    }

    /// The set of free ports as it is handed to the strategy.
    pub closed spec fn pool(&self) -> HashSet<u16> {
        self.available_ports
    }

    /// The set that is handed to the strategy holds exactly the free ports.
    pub proof fn lemma_pool(&self)
        ensures
            self.pool()@ == self@,
    {
    }

    /// Hands out a free port: `desired_port` if it is free, else one that
    /// `deps` picks among the free ports.
    ///
    /// Succeeds with `desired_port` whenever that port is free, and fails
    /// whenever no port is. Else the strategy is asked, once, on the set of
    /// the free ports, and the result is that of `accept` on its answer: the
    /// allocation fails only where the strategy names no free port.
    pub fn allocate<C: ChoosePort>(&mut self, deps: &C, desired_port: Option<u16>) -> (result:
        Result<u16, ApplicationError>)
        ensures
            granted(old(self)@, result, final(self)@),
            desired_port matches Some(port) ==> (old(self)@.contains(port) ==> result == Ok::<
                u16,
                ApplicationError,
            >(port)),
            old(self)@ =~= Set::<u16>::empty() ==> result is Err,
            !(desired_port matches Some(port) && old(self)@.contains(port)) ==> exists|
                choice: Option<u16>,
            |
                call_ensures(C::choose_port, (deps, &old(self).pool()), choice) && (
                    result,
                    final(self)@,
                ) == outcome(old(self)@, #[trigger] allocation(old(self)@, desired_port, choice)),
            !(desired_port matches Some(port) && old(self)@.contains(port)) ==> match result {
                Ok(port) => drew(deps, old(self)@, port),
                Err(_) => refused(deps, old(self)@),
            },
    {
        if let Some(port) = desired_port {
            if self.available_ports.contains(&port) {
                self.available_ports.remove(&port);
                return Ok(port);
            }
        }
        let choice = deps.choose_port(&self.available_ports);
        let result = self.accept(choice);
        proof {
            assert(allocation(old(self)@, desired_port, choice) == allocation(
                old(self)@,
                None,
                choice,
            ));
            assert(call_ensures(C::choose_port, (deps, &old(self).pool()), choice));
            assert(may_answer(deps, old(self)@, choice));
        }
        result
    }
}

/// Once as many ports have been handed out of a pool as it held, none is left:
/// the next allocation fails with `EmptyAllocator`, whatever port is asked for
/// and whatever the strategy answers.
pub proof fn lemma_exhausted_pool_fails(
    available: Set<u16>,
    taken: Seq<u16>,
    desired_port: Option<u16>,
    choice: Option<u16>,
)
    requires
        available.finite(),
        can_take(available, taken),
        taken.len() == available.len(),
    ensures
        drained(available, taken) =~= Set::<u16>::empty(),
        allocation(drained(available, taken), desired_port, choice) is None,
        outcome(
            drained(available, taken),
            allocation(drained(available, taken), desired_port, choice),
        ).0 == Err::<u16, ApplicationError>(ApplicationError::EmptyAllocator),
{
    lemma_drained_len(available, taken);
    let rest = drained(available, taken);
    assert(rest.len() == 0);
    assert(rest.finite());
    if !(rest =~= Set::<u16>::empty()) {
        let p = choose|p: u16| rest.contains(p);
        assert(rest.contains(p));
        vstd::set_lib::lemma_set_empty_equivalency_len(rest);
    }
}

/// Each port that is handed out makes the pool one smaller.
pub proof fn lemma_drained_len(available: Set<u16>, taken: Seq<u16>)
    requires
        available.finite(),
        can_take(available, taken),
    ensures
        drained(available, taken).finite(),
        drained(available, taken).len() + taken.len() == available.len(),
        drained(available, taken).subset_of(available),
    decreases taken.len(),
{
    if taken.len() > 0 {
        lemma_drained_len(available, taken.drop_last());
    }
}

} // verus!
