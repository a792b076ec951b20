//! The supervised worker hierarchy: every thread of the system is a worker
//! with a parent, cooperative cancellation, and deterministic teardown. The
//! pool records each worker's link to its parent and its lifecycle state;
//! the threads themselves live outside the core.
use vstd::prelude::*;

use crate::errors::InternalError;

verus! {

/// A worker's lifecycle: `Ended` is terminal.
#[derive(Debug, Clone, Copy, PartialEq, Eq, Structural)]
pub enum WorkerState {
    Running,
    Cancelled,
    Ended,
}

/// How a worker's work came out.
#[derive(Debug)]
pub enum WorkerError {
    /// The worker was cancelled cooperatively: a normal terminal state.
    Cancelled,
    /// The worker's closure returned an error.
    Failed(InternalError),
    /// The worker's thread panicked or its state became unreachable.
    Aborted(String),
}

/// What `tick` reports inside a worker.
#[derive(Debug)]
pub enum TickError {
    /// A cancel signal was delivered.
    Cancelled,
    /// The worker's shared state became unreachable.
    Aborted(String),
}

/// One worker's supervision record.
struct WorkerNode {
    parent: Option<usize>,
    state: WorkerState,
    detached: bool,
}

/// The pool of supervision records; workers are identified by the position
/// at which they were spawned.
pub struct WorkerPool {
    nodes: Vec<WorkerNode>,
}

/// Whether `j` is `i` or sits below `i` in the parent forest.
pub open spec fn is_desc(parents: Seq<Option<usize>>, j: int, i: int) -> bool
    decreases j,
{
    if j == i {
        true
    } else if 0 <= j < parents.len() {
        match parents[j] {
            Some(p) => 0 <= p < j && is_desc(parents, p as int, i),
            None => false,
        }
    } else {
        false
    }
}

/// A descendant of `i` never sits before `i`.
pub proof fn lemma_desc_at_least(parents: Seq<Option<usize>>, j: int, i: int)
    requires
        is_desc(parents, j, i),
    ensures
        j >= i,
    decreases j,
{
    if j != i {
        match parents[j] {
            Some(p) => {
                lemma_desc_at_least(parents, p as int, i);
            },
            None => (),
        }
    }
}

impl WorkerPool {
    /// Each worker's parent link.
    pub closed spec fn parents(&self) -> Seq<Option<usize>> {
        Seq::new(self.nodes@.len(), |i: int| self.nodes@[i].parent)
    }

    /// Each worker's lifecycle state.
    pub closed spec fn states(&self) -> Seq<WorkerState> {
        Seq::new(self.nodes@.len(), |i: int| self.nodes@[i].state)
    }

    /// Each worker's detach flag.
    pub closed spec fn detached(&self) -> Seq<bool> {
        Seq::new(self.nodes@.len(), |i: int| self.nodes@[i].detached)
    }

    /// The number of workers ever spawned.
    pub open spec fn spec_len(&self) -> nat {
        self.parents().len()
    }

    /// Every parent was spawned before its child.
    pub open spec fn wf(&self) -> bool {
        forall|j: int| 0 <= j < self.parents().len() ==> match #[trigger] self.parents()[j] {
            Some(p) => p < j,
            None => true,
        }
    }

    /// An empty pool.
    pub fn new() -> (r: WorkerPool)
        ensures
            r.wf(),
            r.spec_len() == 0,
    {
        WorkerPool { nodes: Vec::new() }
    }

    /// The number of workers ever spawned.
    pub fn len(&self) -> (r: usize)
        ensures
            r == self.spec_len(),
    {
        self.nodes.len()
    }

    /// The state of worker `i`.
    pub fn state(&self, i: usize) -> (r: WorkerState)
        requires
            i < self.spec_len(),
        ensures
            r == self.states()[i as int],
    {
        self.nodes[i].state
    }

    /// Spawn a worker, linked under `parent` when one is given; it starts
    /// running and attached.
    pub fn spawn(&mut self, parent: Option<usize>) -> (id: usize)
        requires
            old(self).wf(),
            match parent {
                Some(p) => p < old(self).spec_len(),
                None => true,
            },
        ensures
            final(self).wf(),
            id == old(self).spec_len(),
            final(self).spec_len() == old(self).spec_len() + 1,
            final(self).parents() == old(self).parents().push(parent),
            final(self).states() == old(self).states().push(WorkerState::Running),
            final(self).detached() == old(self).detached().push(false),
    {
        let id = self.nodes.len();
        self.nodes.push(WorkerNode { parent, state: WorkerState::Running, detached: false });
        proof {
            assert(final(self).parents() =~= old(self).parents().push(parent));
            assert(final(self).states() =~= old(self).states().push(WorkerState::Running));
            assert(final(self).detached() =~= old(self).detached().push(false));
        }
        id
    }

    /// What a running worker's cancellation check reports: fine while it is
    /// running, cancelled once a signal was delivered.
    pub fn tick(&self, i: usize) -> (r: Result<(), TickError>)
        requires
            i < self.spec_len(),
        ensures
            (r is Ok) == (self.states()[i as int] == WorkerState::Running),
            r matches Err(e) ==> e is Cancelled,
    {
        match self.nodes[i].state {
            WorkerState::Running => Ok(()),
            _ => Err(TickError::Cancelled),
        }
    }

    /// Detach worker `i`: it is unlinked from its parent, so tearing the
    /// parent down leaves it be, and dropping its handle leaves it running.
    pub fn detach(&mut self, i: usize)
        requires
            old(self).wf(),
            i < old(self).spec_len(),
        ensures
            final(self).wf(),
            final(self).parents() == old(self).parents().update(i as int, None),
            final(self).states() == old(self).states(),
            final(self).spec_len() == old(self).spec_len(),
            forall|j: int| 0 <= j < old(self).detached().len() && j != i ==> final(self).detached()[j] == old(self).detached()[j],
            final(self).detached()[i as int] == true,
    {
        let node = self.nodes.remove(i);
        self.nodes.insert(i, WorkerNode { parent: None, state: node.state, detached: true });
        proof {
            assert(final(self).parents() =~= old(self).parents().update(i as int, None));
            assert(final(self).states() =~= old(self).states());
        }
    }

    /// The per-worker records all have one entry per spawned worker.
    pub proof fn lemma_lens(&self)
        ensures
            self.states().len() == self.spec_len(),
            self.detached().len() == self.spec_len(),
            self.parents().len() == self.spec_len(),
    {
    }

    /// Whether worker `j` is `i` itself or one of its transitive children.
    pub fn is_descendant(&self, j: usize, i: usize) -> (r: bool)
        requires
            self.wf(),
            j < self.spec_len(),
            i < self.spec_len(),
        ensures
            r == is_desc(self.parents(), j as int, i as int),
    {
        let mut cur = j;
        loop
            invariant
                cur < self.spec_len(),
                self.wf(),
                j < self.spec_len(),
                i < self.spec_len(),
                is_desc(self.parents(), j as int, i as int) == is_desc(
                    self.parents(),
                    cur as int,
                    i as int,
                ),
            ensures
                is_desc(self.parents(), j as int, i as int) == is_desc(
                    self.parents(),
                    cur as int,
                    i as int,
                ),
                cur == i || self.parents()[cur as int] is None,
            decreases cur,
        {
            if cur == i {
                break ;
            }
            match self.nodes[cur].parent {
                Some(p) => {
                    proof {
                        assert(self.parents()[cur as int] == Some(p));
                    }
                    cur = p;
                },
                None => {
                    proof {
                        assert(self.parents()[cur as int] is None);
                    }
                    break ;
                },
            }
        }
        cur == i
    }

    /// Terminate worker `i`: it and every transitive child move to `Ended`;
    /// nothing else changes. No worker below `i` survives the teardown.
    #[verifier::loop_isolation(false)]
    pub fn terminate(&mut self, i: usize)
        requires
            old(self).wf(),
            i < old(self).spec_len(),
        ensures
            final(self).wf(),
            final(self).spec_len() == old(self).spec_len(),
            final(self).parents() == old(self).parents(),
            final(self).detached() == old(self).detached(),
            forall|j: int| 0 <= j < old(self).spec_len() ==> final(self).states()[j] == (
            if is_desc(old(self).parents(), j, i as int) {
                WorkerState::Ended
            } else {
                old(self).states()[j]
            }),
    {
        let n = self.nodes.len();
        let mut j: usize = 0;
        while j < n
            invariant
                j <= n,
                n == old(self).spec_len(),
                self.spec_len() == old(self).spec_len(),
                self.parents() == old(self).parents(),
                self.detached() == old(self).detached(),
                self.wf(),
                forall|k: int| j <= k < n ==> self.states()[k] == old(self).states()[k],
                forall|k: int| 0 <= k < j ==> self.states()[k] == (
                if is_desc(old(self).parents(), k, i as int) {
                    WorkerState::Ended
                } else {
                    old(self).states()[k]
                }),
            decreases n - j,
        {
            let ghost st0 = self.states();
            if self.is_descendant(j, i) {
                let node = self.nodes.remove(j);
                self.nodes.insert(
                    j,
                    WorkerNode { parent: node.parent, state: WorkerState::Ended, detached: node.detached },
                );
                proof {
                    assert(self.parents() =~= old(self).parents());
                    assert(self.detached() =~= old(self).detached());
                    assert(self.states() =~= st0.update(j as int, WorkerState::Ended));
                }
            }
            j += 1;
        }
    }

    /// Record worker `i`'s failure: the worker itself ends, and the failure
    /// cancels its parent and every running sibling so the subtree unwinds.
    #[verifier::loop_isolation(false)]
    pub fn fail(&mut self, i: usize)
        requires
            old(self).wf(),
            i < old(self).spec_len(),
        ensures
            final(self).wf(),
            final(self).spec_len() == old(self).spec_len(),
            final(self).parents() == old(self).parents(),
            final(self).detached() == old(self).detached(),
            final(self).states()[i as int] == WorkerState::Ended,
            forall|j: int| 0 <= j < old(self).spec_len() && j != i ==> final(self).states()[j]
                == (if fail_cancels(old(self).parents(), j, i as int) && old(self).states()[j]
                == WorkerState::Running {
                WorkerState::Cancelled
            } else {
                old(self).states()[j]
            }),
    {
        let parent = self.nodes[i].parent;
        let n = self.nodes.len();
        let mut j: usize = 0;
        while j < n
            invariant
                j <= n,
                n == old(self).spec_len(),
                self.spec_len() == old(self).spec_len(),
                self.parents() == old(self).parents(),
                self.detached() == old(self).detached(),
                self.wf(),
                parent == old(self).parents()[i as int],
                forall|k: int| j <= k < n ==> self.states()[k] == old(self).states()[k],
                forall|k: int| 0 <= k < j && k != i ==> self.states()[k] == (
                if fail_cancels(old(self).parents(), k, i as int) && old(self).states()[k]
                    == WorkerState::Running {
                    WorkerState::Cancelled
                } else {
                    old(self).states()[k]
                }),
                forall|k: int| 0 <= k < j && k == i ==> self.states()[k] == WorkerState::Ended,
            decreases n - j,
        {
            let change: Option<WorkerState> = if j == i {
                Some(WorkerState::Ended)
            } else {
                let cancels = match (parent, self.nodes[j].parent) {
                    (Some(p), Some(q)) => p == q || p == j,
                    (Some(p), None) => p == j,
                    (None, _) => false,
                };
                proof {
                    assert(self.parents()[j as int] == old(self).parents()[j as int]);
                }
                if cancels {
                    match self.nodes[j].state {
                        WorkerState::Running => Some(WorkerState::Cancelled),
                        _ => None,
                    }
                } else {
                    None
                }
            };
            let ghost st0 = self.states();
            match change {
                Some(st) => {
                    let node = self.nodes.remove(j);
                    self.nodes.insert(
                        j,
                        WorkerNode { parent: node.parent, state: st, detached: node.detached },
                    );
                    proof {
                        assert(self.parents() =~= old(self).parents());
                        assert(self.detached() =~= old(self).detached());
                        assert(self.states() =~= st0.update(j as int, st));
                    }
                },
                None => {},
            }
            j += 1;
        }
    }
}


/// How a worker's own outcome composes with a reaped child's, as `wait`
/// reports it: the first failure wins, a clean child leaves the own outcome.
pub fn combine_outcome(own: Result<(), WorkerError>, child: Result<(), WorkerError>) -> (r: Result<
    (),
    WorkerError,
>)
    ensures
        (r is Ok) == (own is Ok && child is Ok),
        own matches Err(e) ==> (r matches Err(e2) && e2 == e),
        own is Ok ==> r == child,
{
    match own {
        Ok(()) => child,
        Err(e) => Err(e),
    }
}

/// Whether worker `i`'s failure signals worker `j`: `j` is `i`'s parent or
/// shares it.
pub open spec fn fail_cancels(parents: Seq<Option<usize>>, j: int, i: int) -> bool {
    match parents[i] {
        Some(p) => j == p || parents[j] == Some(p),
        None => false,
    }
}

} // verus!
