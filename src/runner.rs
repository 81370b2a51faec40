use vstd::prelude::*;

use crate::graph::{
    references, references_resolve,
    graph_error_matches, graph_error_text, GraphError,
    graph_nodes, is_topological_order, ordered_graph, acyclic, all_references_resolve, create_graph, dependency_edges, graph_edges, is_path,
    neighbors_directed, on_cycle, reaches, StepGraph,
};
use crate::outputs::{recorded, StepOutputs};
use crate::step::{dependency_not_met_text, Outcome, Step};
use crate::submitter::{opt_text, result_matches_step, step_from_error, StepResult};

verus! {

/// Where a step stands in a run.
#[derive(Clone, Copy, Debug, PartialEq, Eq, Structural)]
pub enum Status {
    Awaiting,
    Completed,
    Error,
}

/// The scheduler's decisions for one run of a plan. It admits a step only
/// once every step it depends on has completed successfully, never admits
/// one twice, and at the end names the steps that were never admitted, so
/// that each step is reported exactly once.
///
/// The caller performs the work: it runs each admitted step's pipeline and
/// reports its completion back with `complete`.
pub struct Scheduler {
    graph: StepGraph,
    statuses: Vec<Status>,
    dispatched: Vec<bool>,
    emitted: Vec<bool>,
    started: bool,
}

impl Scheduler {
    /// The steps that depend on no other have been handed out.
    pub closed spec fn started(&self) -> bool {
        self.started
    }

    /// Some step that `v` depends on has not completed successfully.
    pub open spec fn has_unmet_dependency(&self, v: int) -> bool {
        exists|u: usize| #[trigger] self.edges().contains((u, v as usize)) && self.status(u as int) != Status::Completed
    }

    /// No step is held back without cause: each step not handed out has a
    /// dependency that has not completed successfully.
    pub open spec fn unreached_blocked(&self) -> bool {
        forall|v: int|
            0 <= v < self.len() && !#[trigger] self.was_dispatched(v) ==> self.has_unmet_dependency(v)
    }

    pub closed spec fn len(&self) -> nat {
        self.statuses@.len()
    }

    pub closed spec fn edges(&self) -> Set<(usize, usize)> {
        graph_edges(self.graph)
    }

    pub closed spec fn status(&self, i: int) -> Status {
        self.statuses@[i]
    }

    /// The step has been handed out to run.
    pub closed spec fn was_dispatched(&self, i: int) -> bool {
        self.dispatched@[i]
    }

    /// The step's result has been reported.
    pub closed spec fn was_emitted(&self, i: int) -> bool {
        self.emitted@[i]
    }

    /// The step runs now: handed out, not yet reported back.
    pub open spec fn running(&self, i: int) -> bool {
        self.was_dispatched(i) && !self.was_emitted(i)
    }

    /// Every step that `v` depends on has completed successfully.
    pub open spec fn dependencies_met(&self, v: int) -> bool {
        forall|u: usize| #[trigger] self.edges().contains((u, v as usize)) ==> self.status(u as int) == Status::Completed
    }

    pub closed spec fn wf(&self) -> bool {
        &&& self.dispatched@.len() == self.len()
        &&& self.emitted@.len() == self.len()
        &&& forall|e: (usize, usize)|
            #[trigger] self.edges().contains(e) ==> e.0 < self.len() && e.1 < self.len()
        &&& forall|i: int|
            0 <= i < self.len() ==> (#[trigger] self.emitted@[i] <==> self.statuses@[i]
                != Status::Awaiting)
        &&& forall|i: int|
            0 <= i < self.len() && #[trigger] self.statuses@[i] == Status::Completed
                ==> self.dispatched@[i]
        &&& forall|i: int|
            0 <= i < self.len() && #[trigger] self.dispatched@[i] ==> self.dependencies_met(i)
        &&& !self.started ==> forall|i: int| 0 <= i < self.len() ==> !#[trigger] self.dispatched@[i]
        &&& ordered_graph(self.graph)
    }

    /// A scheduler for `n` steps over `graph`, with nothing run yet.
    pub fn new(graph: StepGraph, n: usize) -> (r: Scheduler)
        requires
            forall|e: (usize, usize)| #[trigger] graph_edges(graph).contains(e) ==> e.0 < n && e.1 < n,
            ordered_graph(graph),
        ensures
            r.wf(),
            !r.started(),
            r.len() == n,
            r.edges() == graph_edges(graph),
            forall|i: int|
                0 <= i < n ==> r.status(i) == Status::Awaiting && !r.was_dispatched(i)
                    && !r.was_emitted(i),
    {
        let mut statuses: Vec<Status> = Vec::new();
        let mut dispatched: Vec<bool> = Vec::new();
        let mut emitted: Vec<bool> = Vec::new();
        let mut i: usize = 0;
        while i < n
            invariant
                i <= n,
                statuses@.len() == i,
                dispatched@.len() == i,
                emitted@.len() == i,
                forall|j: int|
                    0 <= j < i ==> statuses@[j] == Status::Awaiting && !dispatched@[j]
                        && !emitted@[j],
            decreases n - i,
        {
            statuses.push(Status::Awaiting);
            dispatched.push(false);
            emitted.push(false);
            i = i + 1;
        }
        Scheduler { graph, statuses, dispatched, emitted, started: false }
    }

    /// Whether every step that `idx` depends on has completed successfully.
    pub fn can_start(&self, idx: usize) -> (r: bool)
        requires
            self.wf(),
            idx < self.len(),
        ensures
            r == self.dependencies_met(idx as int),
    {
        let preds = neighbors_directed(&self.graph, idx, false);
        let mut k: usize = 0;
        while k < preds.len()
            invariant
                self.wf(),
                k <= preds@.len(),
                forall|u: usize| preds@.contains(u) <==> self.edges().contains((u, idx)),
                forall|j: int| 0 <= j < k ==> self.status(preds@[j] as int) == Status::Completed,
            decreases preds@.len() - k,
        {
            let u = preds[k];
            assert(preds@.contains(u));
            match self.statuses[u] {
                Status::Completed => {},
                _ => {
                    return false;
                },
            }
            k = k + 1;
        }
        assert forall|u: usize| #[trigger] self.edges().contains((u, idx)) implies self.status(
            u as int,
        ) == Status::Completed by {
            assert(preds@.contains(u));
            let j = preds@.index_of(u);
        }
        true
    }

    /// Hands out every step that depends on no other, in index order.
    pub fn start(&mut self) -> (r: Vec<usize>)
        requires
            old(self).wf(),
            !old(self).started(),
        ensures
            final(self).wf(),
            final(self).started(),
            final(self).unreached_blocked(),
            final(self).len() == old(self).len(),
            final(self).edges() == old(self).edges(),
            r@.no_duplicates(),
            forall|i: int|
                0 <= i < final(self).len() ==> final(self).status(i) == old(self).status(i)
                    && final(self).was_emitted(i) == old(self).was_emitted(i)
                    && (final(self).was_dispatched(i) <==> r@.contains(i as usize)),
            forall|i: usize|
                r@.contains(i) <==> i < old(self).len() && forall|u: usize|
                    !old(self).edges().contains((u, i)),
    {
        let n = self.statuses.len();
        let mut r: Vec<usize> = Vec::new();
        let mut i: usize = 0;
        assert forall|j: int| 0 <= j < n implies !old(self).was_dispatched(j) by {
            assert(!self.dispatched@[j]);
        }
        assert forall|j: int| 0 <= j < n implies self.status(j) != Status::Completed by {
            if self.statuses@[j] == Status::Completed {
                assert(self.dispatched@[j]);
                assert(!old(self).was_dispatched(j));
            }
        }
        self.started = true;
        proof {
            lemma_wf_frame(*old(self), *self);
        }
        assert forall|j: int| 0 <= j < n implies old(self).statuses@[j] != Status::Completed
            && !old(self).dispatched@[j] by {
            assert(self.status(j) != Status::Completed);
            assert(!old(self).was_dispatched(j));
        }
        while i < n
            invariant
                n == self.len(),
                self.started,
                self.wf(),
                self.len() == old(self).len(),
                self.edges() == old(self).edges(),
                i <= n,
                r@.no_duplicates(),
                forall|j: usize| r@.contains(j) ==> j < i,
                forall|j: int| 0 <= j < n ==> self.statuses@[j] == old(self).statuses@[j],
                forall|j: int| 0 <= j < n ==> self.emitted@[j] == old(self).emitted@[j],
                forall|j: int| 0 <= j < n ==> (self.dispatched@[j] <==> r@.contains(j as usize)),
                forall|j: usize|
                    j < i ==> (r@.contains(j) <==> forall|u: usize|
                        !old(self).edges().contains((u, j))),
                forall|j: int| 0 <= j < n ==> old(self).statuses@[j] != Status::Completed,
                forall|j: int| 0 <= j < n ==> !old(self).dispatched@[j],
            decreases n - i,
        {
            if self.can_start(i) {
                assert forall|u: usize| !old(self).edges().contains((u, i)) by {
                    if old(self).edges().contains((u, i)) {
                        assert(self.status(u as int) == Status::Completed);
                    }
                }
                let ghost before = r@;
                assert(!before.contains(i));
                self.dispatched[i] = true;
                r.push(i);
                proof {
                    lemma_push_contains(before, i);
                }
            } else {
                assert(!forall|u: usize| !old(self).edges().contains((u, i)));
            }
            i = i + 1;
        }
        assert forall|v: int| 0 <= v < self.len() && !#[trigger] self.was_dispatched(v) implies self.has_unmet_dependency(v) by {
            assert((v as usize) as int == v);
            assert(!r@.contains(v as usize));
            let u = choose|u: usize| #[trigger] old(self).edges().contains((u, v as usize));
            assert(self.edges().contains((u, v as usize)));
            assert(u < n);
            assert(old(self).statuses@[u as int] != Status::Completed);
        }
        r
    }

    /// Whether some handed-out step has not been reported back.
    pub fn has_running(&self) -> (r: bool)
        requires
            self.wf(),
        ensures
            r == exists|i: int| 0 <= i < self.len() && self.running(i),
    {
        let mut i: usize = 0;
        while i < self.dispatched.len()
            invariant
                self.wf(),
                i <= self.len(),
                forall|j: int| 0 <= j < i ==> !self.running(j),
            decreases self.len() - i,
        {
            if self.dispatched[i] && !self.emitted[i] {
                assert(self.running(i as int));
                return true;
            }
            i = i + 1;
        }
        false
    }

    /// Records that the running step `idx` finished, failed or not, and
    /// hands out the steps after it whose dependencies are now all met.
    /// Nothing is handed out after a failure: the failed step's dependents
    /// can no longer run.
    pub fn complete(&mut self, idx: usize, failed: bool) -> (r: Vec<usize>)
        requires
            old(self).wf(),
            idx < old(self).len(),
            old(self).running(idx as int),
        ensures
            final(self).wf(),
            final(self).len() == old(self).len(),
            final(self).edges() == old(self).edges(),
            final(self).status(idx as int) == (if failed {
                Status::Error
            } else {
                Status::Completed
            }),
            final(self).was_emitted(idx as int),
            final(self).started() == old(self).started(),
            old(self).unreached_blocked() ==> final(self).unreached_blocked(),
            r@.no_duplicates(),
            failed ==> r@.len() == 0,
            forall|i: int|
                0 <= i < final(self).len() && i != idx ==> final(self).status(i) == old(
                    self,
                ).status(i) && final(self).was_emitted(i) == old(self).was_emitted(i),
            forall|i: int|
                0 <= i < final(self).len() ==> (final(self).was_dispatched(i) <==> old(
                    self,
                ).was_dispatched(i) || r@.contains(i as usize)),
            forall|w: usize|
                #[trigger] r@.contains(w) ==> w < final(self).len() && !old(self).was_dispatched(
                    w as int,
                ) && final(self).dependencies_met(w as int),
            forall|w: usize|
                !failed && #[trigger] old(self).edges().contains((idx, w)) && !old(
                    self,
                ).was_dispatched(w as int) && final(self).dependencies_met(w as int)
                    ==> r@.contains(w),
    {
        let n = self.statuses.len();
        assert(self.dispatched@[idx as int]);
        assert(self.started);
        if failed {
            self.statuses[idx] = Status::Error;
        } else {
            self.statuses[idx] = Status::Completed;
        }
        self.emitted[idx] = true;
        assert(self.edges() == old(self).edges());
        assert(self.wf()) by {
            assert forall|i: int| 0 <= i < self.len() && #[trigger] self.dispatched@[i] implies self.dependencies_met(i) by {
                assert(old(self).dependencies_met(i));
                assert forall|u: usize| #[trigger] self.edges().contains((u, i as usize)) implies self.status(u as int)
                    == Status::Completed by {
                    assert(old(self).status(u as int) == Status::Completed);
                    if u == idx {
                        assert(old(self).statuses@[idx as int] != Status::Awaiting);
                    }
                }
            }
        }
        let mut r: Vec<usize> = Vec::new();
        if failed {
            proof {
                if old(self).unreached_blocked() {
                    lemma_blocked_preserved(*old(self), *self, idx as int);
                }
            }
            return r;
        }
        let succs = neighbors_directed(&self.graph, idx, true);
        let ghost mid = *self;
        let mut k: usize = 0;
        while k < succs.len()
            invariant
                self.wf(),
                self.started,
                self.len() == n,
                self.edges() == old(self).edges(),
                idx < n,
                forall|u: usize| succs@.contains(u) <==> self.edges().contains((idx, u)),
                self.graph == mid.graph,
                self.statuses@ == mid.statuses@,
                self.emitted@ == mid.emitted@,
                forall|i: int| 0 <= i < n ==> self.statuses@[i] == mid.statuses@[i],
                forall|i: int| 0 <= i < n ==> self.emitted@[i] == mid.emitted@[i],
                forall|i: int|
                    0 <= i < n ==> (self.dispatched@[i] <==> mid.dispatched@[i] || r@.contains(
                        i as usize,
                    )),
                forall|i: int| 0 <= i < n ==> mid.dispatched@[i] == old(self).dispatched@[i],
                forall|i: int|
                    0 <= i < n && i != idx ==> mid.statuses@[i] == old(self).statuses@[i]
                        && mid.emitted@[i] == old(self).emitted@[i],
                mid.statuses@[idx as int] == Status::Completed,
                mid.emitted@[idx as int],
                !failed,
                k <= succs@.len(),
                r@.no_duplicates(),
                forall|w: usize|
                    #[trigger] r@.contains(w) ==> w < n && !old(self).dispatched@[w as int]
                        && mid.dependencies_met(w as int),
                forall|j: int|
                    0 <= j < k && !old(self).dispatched@[#[trigger] succs@[j] as int]
                        && mid.dependencies_met(succs@[j] as int) ==> r@.contains(succs@[j]),
            decreases succs@.len() - k,
        {
            let w = succs[k];
            assert(succs@.contains(w));
            assert(self.edges().contains((idx, w)));
            assert(w < n);
            assert(self.dispatched@[w as int] <==> mid.dispatched@[w as int] || r@.contains(w));
            proof {
                lemma_same_dependencies(*self, mid, w as int);
            }
            if !self.dispatched[w] && self.can_start(w) {
                let ghost before = r@;
                let ghost prev = self.dispatched@;
                assert(forall|i: int|
                    0 <= i < n ==> (#[trigger] prev[i] <==> mid.dispatched@[i] || before.contains(
                        i as usize,
                    )));
                assert(!before.contains(w));
                self.dispatched[w] = true;
                r.push(w);
                proof {
                    lemma_push_contains(before, w);
                    assert forall|i: int| 0 <= i < n implies (self.dispatched@[i] <==> mid.dispatched@[i]
                        || r@.contains(i as usize)) by {
                        assert(r@ == before.push(w));
                        if i != w {
                            assert((i as usize) as int == i);
                            assert((i as usize) != w);
                            assert(prev[i] == self.dispatched@[i]);
                            assert(prev[i] <==> mid.dispatched@[i] || before.contains(i as usize));
                            assert(before.push(w).contains(i as usize) <==> before.contains(
                                i as usize,
                            ));
                        } else {
                            assert(self.dispatched@[i]);
                            assert(before.push(w).contains(w));
                        }
                    }
                }
            }
            k = k + 1;
        }
        assert forall|i: int|
            0 <= i < n && i != idx implies self.status(i) == old(self).status(i)
            && self.was_emitted(i) == old(self).was_emitted(i) by {
            assert(self.statuses@[i] == mid.statuses@[i]);
            assert(self.emitted@[i] == mid.emitted@[i]);
        }
        assert forall|i: int| 0 <= i < n implies (self.was_dispatched(i) <==> old(
            self,
        ).was_dispatched(i) || r@.contains(i as usize)) by {
            assert(self.dispatched@[i] <==> mid.dispatched@[i] || r@.contains(i as usize));
            assert(mid.dispatched@[i] == old(self).dispatched@[i]);
        }
        assert(self.statuses@[idx as int] == mid.statuses@[idx as int]);
        assert(self.emitted@[idx as int] == mid.emitted@[idx as int]);
        assert forall|w: usize|
            #[trigger] old(self).edges().contains((idx, w)) && !old(self).was_dispatched(w as int)
                && self.dependencies_met(w as int) implies r@.contains(w) by {
            assert(succs@.contains(w));
            let j = succs@.index_of(w);
            lemma_same_dependencies(*self, mid, w as int);
        }
        assert forall|w: usize| #[trigger] r@.contains(w) implies self.dependencies_met(w as int) by {
            lemma_same_dependencies(*self, mid, w as int);
        }
        proof {
            if old(self).unreached_blocked() {
                lemma_blocked_preserved(*old(self), *self, idx as int);
            }
        }
        r
    }

    /// Once nothing runs, reports every step that was never reported, as
    /// failed: none of them ever ran, and each has an ancestor that failed
    /// (`lemma_unreached_has_failed_ancestor`). The steps come in index
    /// order; afterwards every step has been reported.
    pub fn skip_unreached(&mut self) -> (r: Vec<usize>)
        requires
            old(self).wf(),
            forall|i: int| 0 <= i < old(self).len() ==> !old(self).running(i),
        ensures
            final(self).wf(),
            final(self).len() == old(self).len(),
            final(self).edges() == old(self).edges(),
            final(self).started() == old(self).started(),
            old(self).unreached_blocked() ==> final(self).unreached_blocked(),
            r@.no_duplicates(),
            forall|k: int, l: int| 0 <= k < l < r@.len() ==> r@[k] < r@[l],
            forall|i: usize|
                r@.contains(i) <==> i < old(self).len() && !old(self).was_emitted(i as int),
            forall|i: usize| #[trigger] r@.contains(i) ==> !old(self).was_dispatched(i as int),
            forall|i: int|
                0 <= i < final(self).len() ==> final(self).was_emitted(i)
                    && final(self).was_dispatched(i) == old(self).was_dispatched(i),
            forall|i: int|
                0 <= i < final(self).len() ==> final(self).status(i) == (if old(self).was_emitted(
                    i,
                ) {
                    old(self).status(i)
                } else {
                    Status::Error
                }),
    {
        let n = self.statuses.len();
        let mut r: Vec<usize> = Vec::new();
        let mut i: usize = 0;
        assert forall|j: int| 0 <= j < n implies !(old(self).dispatched@[j]
            && !old(self).emitted@[j]) by {
            assert(!old(self).running(j));
        }
        while i < n
            invariant
                n == self.len(),
                n == old(self).len(),
                self.started == old(self).started,
                self.wf(),
                self.edges() == old(self).edges(),
                i <= n,
                r@.no_duplicates(),
                forall|k: int, l: int| 0 <= k < l < r@.len() ==> r@[k] < r@[l],
                forall|k: int| 0 <= k < r@.len() ==> r@[k] < i,
                forall|j: usize|
                    r@.contains(j) <==> j < i && !old(self).emitted@[j as int],
                forall|j: usize| #[trigger] r@.contains(j) ==> !old(self).dispatched@[j as int],
                forall|j: int| 0 <= j < n ==> !(old(self).dispatched@[j] && !old(self).emitted@[j]),
                forall|j: int|
                    0 <= j < n ==> self.dispatched@[j] == old(self).dispatched@[j],
                forall|j: int|
                    0 <= j < n ==> (self.emitted@[j] <==> j < i || old(self).emitted@[j]),
                forall|j: int|
                    0 <= j < n ==> self.statuses@[j] == (if old(self).emitted@[j] || j >= i {
                        old(self).statuses@[j]
                    } else {
                        Status::Error
                    }),
            decreases n - i,
        {
            if !self.emitted[i] {
                assert(!old(self).running(i as int));
                let ghost before = r@;
                assert(!before.contains(i));
                self.statuses[i] = Status::Error;
                self.emitted[i] = true;
                r.push(i);
                proof {
                    lemma_push_contains(before, i);
                }
            }
            i = i + 1;
        }
        assert forall|v: int|
            0 <= v < self.len() && !#[trigger] self.was_dispatched(v) && old(
                self,
            ).unreached_blocked() implies self.has_unmet_dependency(v) by {
            assert(!old(self).was_dispatched(v));
            let u = choose|u: usize|
                #[trigger] old(self).edges().contains((u, v as usize)) && old(self).status(u as int)
                    != Status::Completed;
            assert(self.edges().contains((u, v as usize)));
            assert(u < n);
            assert(self.statuses@[u as int] != Status::Completed);
        }
        r
    }
}

/// Prepares the run of a plan: a scheduler over its dependency graph with
/// nothing run yet, or, when the graph cannot be built, the one record that
/// stands in for the whole plan, so that no step runs.
pub fn prepare_run(steps: &[Step]) -> (r: Result<Scheduler, StepResult>)
    ensures
        r is Ok <==> all_references_resolve(steps@) && acyclic(dependency_edges(steps@)),
        r matches Ok(s) ==> {
            &&& s.wf()
            &&& !s.started()
            &&& s.len() == steps@.len()
            &&& s.edges() == dependency_edges(steps@)
            &&& forall|i: int|
                0 <= i < s.len() ==> s.status(i) == Status::Awaiting && !s.was_dispatched(i)
                    && !s.was_emitted(i)
        },
        r matches Err(e) ==> e.name@ == "lorikeet"@ && !e.pass && exists|g: GraphError|
            opt_text(e.error) == Some(graph_error_text(g)) && graph_error_matches(steps@, g),
{
    match create_graph(steps) {
        Ok(g) => {
            assert forall|e: (usize, usize)| #[trigger] graph_edges(g).contains(e) implies e.0
                < steps@.len() && e.1 < steps@.len() by {
                let v = choose|v: int| 0 <= v < steps@.len() && crate::graph::step_edge(steps@, v, e);
            }
            Ok(Scheduler::new(g, steps.len()))
        },
        Err(e) => {
            let r = step_from_error(e.message());
            assert(opt_text(r.error) == Some(graph_error_text(e)));
            Err(r)
        },
    }
}

/// One run of a plan: the scheduler, the outputs shared between steps, and
/// the steps not reported yet. The caller runs each handed-out step's
/// pipeline against a snapshot of the outputs taken when the step is handed
/// out, and reports its outcome with `finish`; a step's output is recorded
/// before any step after it is handed out.
pub struct PlanRun {
    scheduler: Scheduler,
    outputs: StepOutputs,
    slots: Vec<Option<Step>>,
    reported: Ghost<Seq<usize>>,
}

impl PlanRun {
    pub closed spec fn scheduler(&self) -> Scheduler {
        self.scheduler
    }

    pub closed spec fn shared(&self) -> Map<Seq<char>, Seq<char>> {
        self.outputs@
    }

    /// The step at `i`, while it has not been reported.
    pub closed spec fn slot(&self, i: int) -> Option<Step> {
        self.slots@[i]
    }

    /// The indices of the steps reported so far, in the order reported.
    pub closed spec fn reported(&self) -> Seq<usize> {
        self.reported@
    }

    pub closed spec fn wf(&self) -> bool {
        &&& self.scheduler.wf()
        &&& self.scheduler.started() ==> self.scheduler.unreached_blocked()
        &&& self.slots@.len() == self.scheduler.len()
        &&& forall|i: int|
            0 <= i < self.slots@.len() ==> (#[trigger] self.slots@[i] is Some
                <==> !self.scheduler.was_emitted(i))
        &&& self.reported@.no_duplicates()
        &&& forall|k: int| 0 <= k < self.reported@.len() ==> self.reported@[k] < self.slots@.len()
        &&& forall|i: usize|
            i < self.slots@.len() ==> (#[trigger] self.reported@.contains(i) <==> self.slots@[i as int]
                is None)
    }

    /// Starts a run of `steps`, or gives the one record that stands in for
    /// a plan whose dependency graph cannot be built.
    pub fn new(steps: Vec<Step>) -> (r: Result<PlanRun, StepResult>)
        ensures
            r is Ok <==> all_references_resolve(steps@) && acyclic(dependency_edges(steps@)),
            r matches Ok(run) ==> {
                &&& run.wf()
                &&& run.scheduler().len() == steps@.len()
                &&& run.scheduler().edges() == dependency_edges(steps@)
                &&& run.shared() == Map::<Seq<char>, Seq<char>>::empty()
                &&& !run.scheduler().started()
                &&& run.reported() == Seq::<usize>::empty()
                &&& forall|i: int|
                    0 <= i < steps@.len() ==> run.slot(i) == Some(steps@[i])
                        && !run.scheduler().was_dispatched(i)
            },
            r matches Err(e) ==> e.name@ == "lorikeet"@ && !e.pass && exists|g: GraphError|
                opt_text(e.error) == Some(graph_error_text(g)) && graph_error_matches(steps@, g),
    {
        let scheduler = match prepare_run(steps.as_slice()) {
            Ok(s) => s,
            Err(e) => {
                return Err(e);
            },
        };
        let ghost given = steps@;
        let mut slots: Vec<Option<Step>> = Vec::new();
        let mut rest = steps;
        let mut taken: Vec<Step> = Vec::new();
        while rest.len() > 0
            invariant
                given == rest@ + taken@.reverse(),
            decreases rest@.len(),
        {
            let s = rest.pop().unwrap();
            taken.push(s);
            assert(given =~= rest@ + taken@.reverse());
        }
        assert(taken@.reverse() =~= given);
        let ghost seq_taken = taken@;
        while taken.len() > 0
            invariant
                seq_taken.reverse() == given,
                slots@.len() + taken@.len() == given.len(),
                taken@ == seq_taken.subrange(0, taken@.len() as int),
                forall|i: int| 0 <= i < slots@.len() ==> slots@[i] == Some(given[i]),
            decreases taken@.len(),
        {
            let s = taken.pop().unwrap();
            let ghost k = slots@.len();
            assert(s == given[k as int]);
            slots.push(Some(s));
        }
        Ok(PlanRun { scheduler, outputs: StepOutputs::new(), slots, reported: Ghost(Seq::empty()) })
    }

    /// Hands out the steps that depend on no other.
    pub fn start(&mut self) -> (r: Vec<usize>)
        requires
            old(self).wf(),
            !old(self).scheduler().started(),
            forall|i: int| 0 <= i < old(self).scheduler().len() ==> !old(self).scheduler().was_dispatched(i),
        ensures
            final(self).wf(),
            final(self).scheduler().started(),
            final(self).reported() == old(self).reported(),
            final(self).shared() == old(self).shared(),
            forall|i: int| 0 <= i < old(self).scheduler().len() ==> final(self).slot(i) == old(self).slot(i),
            final(self).scheduler().len() == old(self).scheduler().len(),
            final(self).scheduler().edges() == old(self).scheduler().edges(),
            forall|i: usize|
                r@.contains(i) <==> i < old(self).scheduler().len() && forall|u: usize|
                    !old(self).scheduler().edges().contains((u, i)),
            forall|i: int|
                0 <= i < final(self).scheduler().len() ==> (final(self).scheduler().was_dispatched(i)
                    <==> r@.contains(i as usize)),
    {
        assert forall|i: int| 0 <= i < self.scheduler.len() implies !self.scheduler.was_dispatched(i) by {
            assert(!old(self).scheduler().was_dispatched(i));
        }
        let r = self.scheduler.start();
        r
    }

    /// The step at `idx`, to be run.
    pub fn step(&self, idx: usize) -> (r: &Step)
        requires
            self.wf(),
            idx < self.scheduler().len(),
            !self.scheduler().was_emitted(idx as int),
        ensures
            self.slot(idx as int) == Some(*r),
    {
        self.slots[idx].as_ref().unwrap()
    }

    /// The outputs of the steps that succeeded so far.
    pub fn outputs(&self) -> (r: &StepOutputs)
        ensures
            r@ == self.shared(),
    {
        &self.outputs
    }

    /// Whether some handed-out step has not been reported back.
    pub fn has_running(&self) -> (r: bool)
        requires
            self.wf(),
        ensures
            r == exists|i: int| 0 <= i < self.scheduler().len() && self.scheduler().running(i),
    {
        let r = self.scheduler.has_running();
        proof {
            if r {
                let i = choose|i: int| 0 <= i < self.scheduler.len() && self.scheduler.running(i);
                assert(self.scheduler().running(i));
            } else {
                assert forall|i: int| 0 <= i < self.scheduler().len() implies !self.scheduler().running(i) by {
                    assert(!self.scheduler.running(i));
                }
            }
        }
        r
    }

    /// Takes the outcome of the running step `idx`: its output is shared if
    /// it succeeded, its record is returned, and the steps after it whose
    /// dependencies are now met are handed out.
    pub fn finish(&mut self, idx: usize, outcome: Outcome) -> (r: (StepResult, Vec<usize>))
        requires
            old(self).wf(),
            idx < old(self).scheduler().len(),
            old(self).scheduler().running(idx as int),
        ensures
            final(self).wf(),
            final(self).scheduler().len() == old(self).scheduler().len(),
            final(self).scheduler().edges() == old(self).scheduler().edges(),
            old(self).slot(idx as int) matches Some(step) && {
                &&& result_matches_step(r.0, Step { outcome: Some(outcome), ..step })
                &&& final(self).shared() == recorded(old(self).shared(), step.name@, outcome)
            },
            final(self).slot(idx as int) is None,
            final(self).reported() == old(self).reported().push(idx),
            forall|i: int|
                0 <= i < final(self).scheduler().len() && i != idx ==> final(self).slot(i) == old(
                    self,
                ).slot(i),
            final(self).scheduler().status(idx as int) == (if outcome.error is Some {
                Status::Error
            } else {
                Status::Completed
            }),
            outcome.error is Some ==> r.1@.len() == 0,
            forall|w: usize|
                #[trigger] r.1@.contains(w) ==> w < final(self).scheduler().len() && !old(
                    self,
                ).scheduler().was_dispatched(w as int) && final(self).scheduler().dependencies_met(
                    w as int,
                ),
            forall|i: int|
                0 <= i < final(self).scheduler().len() ==> (final(self).scheduler().was_dispatched(i)
                    <==> old(self).scheduler().was_dispatched(i) || r.1@.contains(i as usize)),
            forall|w: usize|
                outcome.error is None && #[trigger] old(self).scheduler().edges().contains((idx, w))
                    && !old(self).scheduler().was_dispatched(w as int)
                    && final(self).scheduler().dependencies_met(w as int) ==> r.1@.contains(w),
    {
        let ghost before = self.slots@;
        let taken = self.slots[idx].take();
        proof {
            assert(self.slots@ == before.update(idx as int, None));
            assert(!self.reported@.contains(idx));
            lemma_push_contains(self.reported@, idx);
        }
        self.reported = Ghost(self.reported@.push(idx));
        let step = taken.unwrap();
        self.outputs.record(&step.name, &outcome);
        let failed = outcome.error.is_some();
        let next = self.scheduler.complete(idx, failed);
        let step = step.with_outcome(outcome);
        let record = StepResult::from_step(&step);
        (record, next)
    }

    /// Once nothing runs, the records of the steps never handed out, each
    /// with its index, in index order: each of them is skipped with the
    /// error `Dependency Not Met`. Afterwards every step has been reported.
    pub fn sweep(&mut self) -> (r: Vec<(usize, StepResult)>)
        requires
            old(self).wf(),
            old(self).scheduler().started(),
            forall|i: int| 0 <= i < old(self).scheduler().len() ==> !old(self).scheduler().running(i),
        ensures
            final(self).wf(),
            final(self).reported() == old(self).reported() + r@.map_values(
                |p: (usize, StepResult)| p.0,
            ),
            final(self).shared() == old(self).shared(),
            final(self).scheduler().len() == old(self).scheduler().len(),
            forall|i: int|
                0 <= i < final(self).scheduler().len() ==> final(self).scheduler().was_emitted(i)
                    && final(self).slot(i) is None && !(old(self).slot(i) is Some && old(
                    self,
                ).scheduler().was_dispatched(i)),
            forall|k: int|
                0 <= k < r@.len() ==> {
                    &&& r@[k].0 < old(self).scheduler().len()
                    &&& old(self).slot(r@[k].0 as int) is Some
                    &&& r@[k].1.name@ == old(self).slot(r@[k].0 as int)->0.name@
                    &&& !r@[k].1.pass
                    &&& opt_text(r@[k].1.error) == Some(dependency_not_met_text())
                    &&& r@[k].1.duration_nanos == 0
                    &&& r@[k].1.output@.len() == 0
                    &&& r@[k].1.on_fail_output is None
                    &&& r@[k].1.on_fail_error is None
                },
            forall|i: int|
                0 <= i < old(self).scheduler().len() && old(self).slot(i) is Some ==> exists|k: int|
                    0 <= k < r@.len() && r@[k].0 == i,
            forall|k: int|
                0 <= k < r@.len() ==> has_failed_ancestor(old(self).scheduler(), #[trigger] r@[k].0),
    {
        assert forall|i: int| 0 <= i < self.scheduler.len() implies !self.scheduler.running(i) by {
            assert(!old(self).scheduler().running(i));
        }
        let skipped = self.scheduler.skip_unreached();
        let mut records: Vec<(usize, StepResult)> = Vec::new();
        let mut k: usize = 0;
        while k < skipped.len()
            invariant
                0 <= k <= skipped@.len(),
                records@.len() == k,
                self.reported@ == old(self).reported@ + records@.map_values(
                    |p: (usize, StepResult)| p.0,
                ),
                self.reported@.no_duplicates(),
                forall|j: int| 0 <= j < self.reported@.len() ==> self.reported@[j] < self.slots@.len(),
                forall|j: usize|
                    j < self.slots@.len() ==> (#[trigger] self.reported@.contains(j)
                        <==> self.slots@[j as int] is None),
                self.scheduler.wf(),
                self.scheduler.started() ==> self.scheduler.unreached_blocked(),
                self.scheduler.len() == old(self).scheduler.len(),
                self.slots@.len() == self.scheduler.len(),
                old(self).slots@.len() == self.scheduler.len(),
                self.outputs@ == old(self).outputs@,
                skipped@.no_duplicates(),
                forall|j: usize|
                    skipped@.contains(j) <==> j < old(self).scheduler.len() && !old(
                        self,
                    ).scheduler.was_emitted(j as int),
                forall|j: usize| #[trigger] skipped@.contains(j) ==> !old(self).scheduler.was_dispatched(j as int),
                forall|j: int| 0 <= j < self.slots@.len() ==> self.scheduler.was_emitted(j),
                forall|j: int|
                    0 <= j < self.slots@.len() ==> self.scheduler.was_dispatched(j) == old(
                        self,
                    ).scheduler.was_dispatched(j),
                forall|j: int|
                    0 <= j < self.slots@.len() && old(self).scheduler.was_emitted(j)
                        ==> self.slots@[j] is None,
                forall|j: int|
                    0 <= j < self.slots@.len() ==> (old(self).slots@[j] is Some <==> !old(
                        self,
                    ).scheduler.was_emitted(j)),
                forall|l: int| 0 <= l < k ==> self.slots@[#[trigger] skipped@[l] as int] is None,
                forall|l: int|
                    k <= l < skipped@.len() ==> self.slots@[#[trigger] skipped@[l] as int] == old(
                        self,
                    ).slots@[skipped@[l] as int],
                forall|l: int|
                    0 <= l < k ==> {
                        &&& #[trigger] records@[l].0 == skipped@[l]
                        &&& records@[l].0 < old(self).scheduler.len()
                        &&& old(self).slots@[records@[l].0 as int] is Some
                        &&& records@[l].1.name@ == old(self).slots@[records@[l].0 as int]->0.name@
                        &&& !records@[l].1.pass
                        &&& opt_text(records@[l].1.error) == Some(dependency_not_met_text())
                        &&& records@[l].1.duration_nanos == 0
                        &&& records@[l].1.output@.len() == 0
                        &&& records@[l].1.on_fail_output is None
                        &&& records@[l].1.on_fail_error is None
                    },
            decreases skipped@.len() - k,
        {
            let idx = skipped[k];
            assert(skipped@.contains(idx));
            assert(self.slots@[skipped@[k as int] as int] == old(self).slots@[idx as int]);
            let ghost before = self.slots@;
            let ghost rep = self.reported@;
            let taken = self.slots[idx].take();
            assert(self.slots@ == before.update(idx as int, None));
            proof {
                assert(!rep.contains(idx));
                lemma_push_contains(rep, idx);
                assert forall|j: usize| j < self.slots@.len() implies (#[trigger] rep.push(idx).contains(j)
                    <==> self.slots@[j as int] is None) by {
                    if j != idx {
                        assert(self.slots@[j as int] == before[j as int]);
                    }
                }
            }
            self.reported = Ghost(self.reported@.push(idx));
            assert forall|l: int| k < l < skipped@.len() implies self.slots@[#[trigger] skipped@[l] as int]
                == old(self).slots@[skipped@[l] as int] by {
                let x = skipped@[l] as int;
                assert(skipped@.contains(skipped@[l]));
                assert(skipped@[l] != skipped@[k as int]);
                assert(x != idx as int);
                assert(self.slots@[x] == before[x]);
                assert(before[x] == old(self).slots@[x]);
            }
            assert forall|l: int| 0 <= l < k implies self.slots@[#[trigger] skipped@[l] as int] is None by {
                let x = skipped@[l] as int;
                assert(skipped@.contains(skipped@[l]));
                assert(before[x] is None);
                if x != idx as int {
                    assert(self.slots@[x] == before[x]);
                }
            }
            let step = taken.unwrap();
            let step = step.with_outcome(Outcome::dependency_not_met());
            let ghost recs = records@;
            records.push((idx, StepResult::from_step(&step)));
            assert(records@.map_values(|p: (usize, StepResult)| p.0) =~= recs.map_values(
                |p: (usize, StepResult)| p.0,
            ).push(idx));
            assert(self.reported@ =~= old(self).reported@ + records@.map_values(
                |p: (usize, StepResult)| p.0,
            ));
            k = k + 1;
        }
        let n = self.slots.len();
        assert forall|i: int| 0 <= i < self.slots@.len() implies self.slots@[i] is None by {
            assert((i as usize) as int == i);
            if !old(self).scheduler.was_emitted(i) {
                assert(skipped@.contains(i as usize));
                let l = skipped@.index_of(i as usize);
                assert(self.slots@[skipped@[l] as int] is None);
            }
        }
        assert forall|k: int| 0 <= k < records@.len() implies has_failed_ancestor(
            old(self).scheduler(),
            #[trigger] records@[k].0,
        ) by {
            let idx = records@[k].0;
            assert(skipped@.contains(idx));
            assert(!old(self).scheduler.was_dispatched(idx as int));
            lemma_unreached_has_failed_ancestor(&old(self).scheduler, idx);
        }
        assert forall|i: int|
            0 <= i < old(self).scheduler().len() && old(self).slot(i) is Some implies exists|k: int|
                0 <= k < records@.len() && records@[k].0 == i by {
            assert((i as usize) as int == i);
            assert(skipped@.contains(i as usize));
            let l = skipped@.index_of(i as usize);
            assert(records@[l].0 == skipped@[l]);
        }
        records
    }
}

/// Once a run has swept, every step has been reported exactly once: the
/// reported indices are the steps' indices, each once. `finish` and
/// `sweep` add to them only a step not reported before.
pub proof fn lemma_every_step_reported_once(run: &PlanRun)
    requires
        run.wf(),
        forall|i: int| 0 <= i < run.scheduler().len() ==> run.slot(i) is None,
    ensures
        run.reported().no_duplicates(),
        forall|i: usize| i < run.scheduler().len() ==> run.reported().contains(i),
        forall|k: int| 0 <= k < run.reported().len() ==> run.reported()[k] < run.scheduler().len(),
{
    assert forall|i: usize| i < run.scheduler().len() implies run.reported().contains(i) by {
        assert(run.slot(i as int) is None);
    }
}

/// A plan whose names all resolve and whose dependencies form a cycle is
/// rejected as a whole: `prepare_run` and `PlanRun::new` give the one
/// stand-in record, and its error, being the text of an error that
/// matches the plan, names a step on a cycle as having a circular
/// dependency.
pub proof fn lemma_cyclic_plan_rejected(steps: Seq<Step>, n: usize, g: GraphError)
    requires
        all_references_resolve(steps),
        on_cycle(dependency_edges(steps), n),
        graph_error_matches(steps, g),
    ensures
        !acyclic(dependency_edges(steps)),
        g matches GraphError::Cycle { name } && graph_error_text(g)
            == "Could not build step graph: `"@ + name@ + "` has a circular dependency"@ && exists|
            m: usize,
        | m < steps.len() && steps[m as int].name@ == name@ && on_cycle(dependency_edges(steps), m),
{
    if let GraphError::Missing { name, step, source } = g {
        let v = choose|v: int|
            0 <= v < steps.len() && steps[v].name@ == step@ && references(steps, v, source, name@);
        assert(references_resolve(steps, v));
    }
}

/// A step completing or failing leaves no step held back without cause,
/// given that the steps its success made ready were handed out.
proof fn lemma_blocked_preserved(a: Scheduler, b: Scheduler, idx: int)
    requires
        a.wf(),
        a.unreached_blocked(),
        a.len() <= usize::MAX,
        a.edges() == b.edges(),
        a.len() == b.len(),
        forall|i: int| 0 <= i < a.len() && i != idx ==> b.status(i) == a.status(i),
        forall|i: int| 0 <= i < a.len() && a.was_dispatched(i) ==> b.was_dispatched(i),
        b.status(idx) == Status::Completed ==> forall|w: usize|
            #[trigger] a.edges().contains((idx as usize, w)) && !a.was_dispatched(w as int)
                && b.dependencies_met(w as int) ==> b.was_dispatched(w as int),
        0 <= idx < a.len(),
    ensures
        b.unreached_blocked(),
{
    assert forall|v: int| 0 <= v < b.len() && !#[trigger] b.was_dispatched(v) implies b.has_unmet_dependency(v) by {
        assert(!a.was_dispatched(v));
        let u = choose|u: usize|
            #[trigger] a.edges().contains((u, v as usize)) && a.status(u as int) != Status::Completed;
        assert(b.edges().contains((u, v as usize)));
        assert(u < a.len());
        if u as int == idx && b.status(idx) == Status::Completed {
            assert(a.edges().contains((idx as usize, v as usize)));
            assert((v as usize) as int == v);
            if b.dependencies_met(v) {
                assert(b.was_dispatched(v));
            }
        }
    }
}

/// Well-formedness depends on the fields, and not on `started` once set.
proof fn lemma_wf_frame(a: Scheduler, b: Scheduler)
    requires
        a.wf(),
        a.graph == b.graph,
        a.statuses@ == b.statuses@,
        a.dispatched@ == b.dispatched@,
        a.emitted@ == b.emitted@,
        b.started,
    ensures
        b.wf(),
{
    assert(a.edges() == b.edges());
    assert(a.len() == b.len());
    assert forall|e: (usize, usize)| #[trigger] b.edges().contains(e) implies e.0 < b.len() && e.1 < b.len() by {
        assert(a.edges().contains(e));
    }
    assert forall|i: int| 0 <= i < b.len() && #[trigger] b.dispatched@[i] implies b.dependencies_met(i) by {
        assert(a.dispatched@[i]);
        lemma_same_dependencies(a, b, i);
    }
}

proof fn lemma_same_dependencies(a: Scheduler, b: Scheduler, v: int)
    requires
        a.graph == b.graph,
        a.statuses@ == b.statuses@,
    ensures
        a.dependencies_met(v) == b.dependencies_met(v),
{
    assert(a.edges() == b.edges());
    assert forall|u: usize| true implies a.status(u as int) == b.status(u as int) by {}
}

proof fn lemma_push_contains(s: Seq<usize>, x: usize)
    ensures
        s.no_duplicates() && !s.contains(x) ==> s.push(x).no_duplicates(),
        forall|y: usize| #[trigger] s.push(x).contains(y) <==> s.contains(y) || y == x,
{
    if s.no_duplicates() && !s.contains(x) {
        assert forall|i: int, j: int|
            0 <= i < s.push(x).len() && 0 <= j < s.push(x).len() && i != j implies s.push(x)[i]
            != s.push(x)[j] by {
            if i < s.len() && j == s.len() {
                assert(s[i] != x);
            }
            if j < s.len() && i == s.len() {
                assert(s[j] != x);
            }
        }
    }
    assert forall|y: usize| #[trigger] s.push(x).contains(y) <==> s.contains(y) || y == x by {
        if s.contains(y) {
            let k = s.index_of(y);
            assert(s.push(x)[k] == y);
        }
        if y == x {
            assert(s.push(x)[s.len() as int] == y);
        }
        if s.push(x).contains(y) {
            let k = s.push(x).index_of(y);
            if k < s.len() {
                assert(s[k] == y);
            }
        }
    }
}

/// A step with an ancestor that did not succeed is never handed out: if
/// `a` failed or was skipped, or has not finished, and a walk of
/// dependencies leads from `a` to `v`, then `v` never ran.
pub proof fn lemma_failure_propagates(s: &Scheduler, a: usize, v: usize)
    requires
        s.wf(),
        a < s.len(),
        s.status(a as int) != Status::Completed,
        reaches(s.edges(), a, v),
    ensures
        !s.was_dispatched(v as int),
{
    let p = choose|p: Seq<usize>| is_path(s.edges(), p) && p[0] == a && p.last() == v;
    lemma_dispatched_path_completed(s, p, p.len() - 1);
}

/// Some step that failed leads to `v` through dependencies.
pub open spec fn has_failed_ancestor(s: Scheduler, v: usize) -> bool {
    exists|a: usize| a < s.len() && s.status(a as int) == Status::Error && reaches(s.edges(), a, v)
}

/// Once nothing runs, a step that was never handed out has an ancestor
/// that failed.
pub proof fn lemma_unreached_has_failed_ancestor(s: &Scheduler, v: usize)
    requires
        s.wf(),
        s.unreached_blocked(),
        forall|i: int| 0 <= i < s.len() ==> !s.running(i),
        v < s.len(),
        !s.was_dispatched(v as int),
    ensures
        has_failed_ancestor(*s, v),
{
    let order = choose|order: Seq<usize>|
        is_topological_order(graph_edges(s.graph), graph_nodes(s.graph), order);
    let a = lemma_failed_ancestor_in_order(s, order, v);
}

proof fn lemma_failed_ancestor_in_order(s: &Scheduler, order: Seq<usize>, v: usize) -> (a: usize)
    requires
        s.wf(),
        s.unreached_blocked(),
        forall|i: int| 0 <= i < s.len() ==> !s.running(i),
        v < s.len(),
        !s.was_dispatched(v as int),
        is_topological_order(graph_edges(s.graph), graph_nodes(s.graph), order),
    ensures
        a < s.len(),
        s.status(a as int) == Status::Error,
        reaches(s.edges(), a, v),
    decreases order.index_of(v),
{
    assert(s.has_unmet_dependency(v as int));
    let u = choose|u: usize|
        #[trigger] s.edges().contains((u, v as usize)) && s.status(u as int) != Status::Completed;
    assert(s.edges().contains((u, v)));
    assert(u < s.len());
    assert(graph_nodes(s.graph).contains(u) && graph_nodes(s.graph).contains(v));
    if s.status(u as int) == Status::Error {
        let p = seq![u, v];
        assert(is_path(s.edges(), p)) by {
            assert forall|k: int| 0 <= k < p.len() - 1 implies #[trigger] s.edges().contains((p[k], p[k + 1])) by {
                assert(k == 0);
            }
        }
        assert(p[0] == u && p.last() == v);
        u
    } else {
        assert(!s.emitted@[u as int]);
        assert(!s.running(u as int));
        assert(!s.was_dispatched(u as int));
        assert(order.contains(u) && order.contains(v));
        let i = order.index_of(u);
        let j = order.index_of(v);
        assert(s.edges().contains((order[i], order[j])));
        assert(i < j);
        let a = lemma_failed_ancestor_in_order(s, order, u);
        let p = choose|p: Seq<usize>| is_path(s.edges(), p) && p[0] == a && p.last() == u;
        let q = p.push(v);
        assert(is_path(s.edges(), q)) by {
            assert forall|k: int| 0 <= k < q.len() - 1 implies #[trigger] s.edges().contains((q[k], q[k + 1])) by {
                if k < p.len() - 1 {
                    assert(q[k] == p[k] && q[k + 1] == p[k + 1]);
                    assert(s.edges().contains((p[k], p[k + 1])));
                } else {
                    assert(q[k] == u && q[k + 1] == v);
                }
            }
        }
        assert(q[0] == a && q.last() == v);
        a
    }
}

/// Along a walk that ends in a handed-out step, every earlier step completed.
proof fn lemma_dispatched_path_completed(s: &Scheduler, p: Seq<usize>, k: int)
    requires
        s.wf(),
        is_path(s.edges(), p),
        0 <= k < p.len(),
    ensures
        s.was_dispatched(p[k] as int) ==> forall|j: int| 0 <= j < k ==> s.status(p[j] as int) == Status::Completed,
    decreases k,
{
    if k > 0 && s.was_dispatched(p[k] as int) {
        let k1 = k - 1;
        assert(s.edges().contains((p[k1], p[k1 + 1])));
        assert(p[k] < s.len());
        assert(s.dependencies_met(p[k] as int));
        assert(s.status(p[k1] as int) == Status::Completed);
        assert(p[k1] < s.len());
        assert(s.was_dispatched(p[k1] as int));
        lemma_dispatched_path_completed(s, p, k1);
    }
}

} // verus!
