use vstd::prelude::*;

use crate::step::{str_eq, RunType, Step};
use petgraph::graphmap::GraphMap;
use petgraph::Directed;

verus! {

/// The weight of a dependency edge: it carries no data.
#[derive(Clone, Copy, Debug, PartialEq, Eq)]
pub struct Require;

/// petgraph's `GraphMap`, held opaque: what it holds is `graph_edges` and
/// `graph_nodes`.
#[verifier::external_type_specification]
#[verifier::external_body]
#[verifier::reject_recursive_types(N)]
#[verifier::reject_recursive_types(E)]
#[verifier::reject_recursive_types(Ty)]
#[verifier::reject_recursive_types(S)]
pub struct ExGraphMap<N, E, Ty, S: core::hash::BuildHasher>(GraphMap<N, E, Ty, S>);

/// petgraph's marker for directed graphs.
#[verifier::external_type_specification]
#[verifier::external_body]
pub struct ExDirected(Directed);

/// The dependency graph over step indices: an edge `u -> v` means that `v`
/// runs only after `u` completed successfully.
pub type StepGraph = GraphMap<usize, Require, Directed>;

/// The edges that a graph holds.
pub uninterp spec fn graph_edges(g: StepGraph) -> Set<(usize, usize)>;

/// The nodes that a graph holds.
pub uninterp spec fn graph_nodes(g: StepGraph) -> Set<usize>;

/// Relies on petgraph's `GraphMap::new`: a graph without nodes or edges.
#[verifier::external_body]
fn new_graph() -> (g: StepGraph)
    ensures
        graph_edges(g) == Set::<(usize, usize)>::empty(),
        graph_nodes(g) == Set::<usize>::empty(),
{
    GraphMap::new()
}

/// Relies on petgraph's `GraphMap::add_edge`: the edge is added, with both
/// of its ends as nodes; an edge already there stays once.
#[verifier::external_body]
fn add_edge(g: &mut StepGraph, a: usize, b: usize)
    ensures
        graph_edges(*final(g)) == graph_edges(*old(g)).insert((a, b)),
        graph_nodes(*final(g)) == graph_nodes(*old(g)).insert(a).insert(b),
{
    g.add_edge(a, b, Require);
}

/// Relies on petgraph's `GraphMap::neighbors_directed` on a directed graph:
/// the targets of the edges from `v` (`outgoing`) or the sources of the
/// edges into `v`; nothing for a node that is not in the graph.
#[verifier::external_body]
pub(crate) fn neighbors_directed(g: &StepGraph, v: usize, outgoing: bool) -> (r: Vec<usize>)
    ensures
        forall|u: usize|
            r@.contains(u) <==> (if outgoing {
                graph_edges(*g).contains((v, u))
            } else {
                graph_edges(*g).contains((u, v))
            }),
{
    let dir = if outgoing {
        petgraph::Direction::Outgoing
    } else {
        petgraph::Direction::Incoming
    };
    g.neighbors_directed(v, dir).collect()
}

/// Relies on petgraph's `algo::toposort`: on an acyclic graph, every node
/// once, each before its successors; otherwise a node that lies on a cycle.
#[verifier::external_body]
fn toposort(g: &StepGraph) -> (r: Result<Vec<usize>, usize>)
    ensures
        r matches Ok(order) ==> is_topological_order(graph_edges(*g), graph_nodes(*g), order@),
        r matches Err(n) ==> graph_nodes(*g).contains(n) && on_cycle(graph_edges(*g), n),
{
    petgraph::algo::toposort(&*g, None).map_err(|c| c.node_id())
}

/// `order` lists each node once, and each edge's source before its target.
pub open spec fn is_topological_order(
    edges: Set<(usize, usize)>,
    nodes: Set<usize>,
    order: Seq<usize>,
) -> bool {
    &&& order.no_duplicates()
    &&& forall|n: usize| nodes.contains(n) <==> order.contains(n)
    &&& forall|i: int, j: int|
        0 <= i < order.len() && 0 <= j < order.len() && #[trigger] edges.contains(
            (order[i], order[j]),
        ) ==> i < j
}

/// Every edge's ends are nodes of the graph, and some order of the nodes
/// is topological.
pub open spec fn ordered_graph(g: StepGraph) -> bool {
    &&& forall|e: (usize, usize)|
        #[trigger] graph_edges(g).contains(e) ==> graph_nodes(g).contains(e.0) && graph_nodes(
            g,
        ).contains(e.1)
    &&& exists|order: Seq<usize>| is_topological_order(graph_edges(g), graph_nodes(g), order)
}

/// `p` is a walk of at least one edge.
pub open spec fn is_path(edges: Set<(usize, usize)>, p: Seq<usize>) -> bool {
    &&& p.len() >= 2
    &&& forall|k: int| 0 <= k < p.len() - 1 ==> #[trigger] edges.contains((p[k], p[k + 1]))
}

/// `u` is an ancestor of `v`: some walk leads from `u` to `v`.
pub open spec fn reaches(edges: Set<(usize, usize)>, u: usize, v: usize) -> bool {
    exists|p: Seq<usize>| is_path(edges, p) && p[0] == u && p.last() == v
}

/// `n` lies on a cycle.
pub open spec fn on_cycle(edges: Set<(usize, usize)>, n: usize) -> bool {
    reaches(edges, n, n)
}

pub open spec fn acyclic(edges: Set<(usize, usize)>) -> bool {
    forall|n: usize| !on_cycle(edges, n)
}

/// Along a walk, positions in a topological order grow.
proof fn lemma_path_ascends(
    edges: Set<(usize, usize)>,
    nodes: Set<usize>,
    order: Seq<usize>,
    p: Seq<usize>,
    k: int,
) -> (pos: (int, int))
    requires
        is_topological_order(edges, nodes, order),
        is_path(edges, p),
        forall|e: (usize, usize)| edges.contains(e) ==> nodes.contains(e.0) && nodes.contains(e.1),
        1 <= k < p.len(),
    ensures
        0 <= pos.0 < order.len(),
        0 <= pos.1 < order.len(),
        order[pos.0] == p[0],
        order[pos.1] == p[k],
        pos.0 < pos.1,
    decreases k,
{
    let k1 = k - 1;
    assert(edges.contains((p[k1], p[k1 + 1])));
    let j = order.index_of(p[k]);
    let i = order.index_of(p[k - 1]);
    assert(edges.contains((order[i], order[j])));
    if k == 1 {
        (i, j)
    } else {
        let prev = lemma_path_ascends(edges, nodes, order, p, k - 1);
        assert(order[prev.1] == order[i]);
        (prev.0, j)
    }
}

/// A graph with a topological order has no cycle.
pub proof fn lemma_ordered_graph_is_acyclic(
    edges: Set<(usize, usize)>,
    nodes: Set<usize>,
    order: Seq<usize>,
)
    requires
        is_topological_order(edges, nodes, order),
        forall|e: (usize, usize)| edges.contains(e) ==> nodes.contains(e.0) && nodes.contains(e.1),
    ensures
        acyclic(edges),
{
    assert forall|n: usize| !on_cycle(edges, n) by {
        if on_cycle(edges, n) {
            let p = choose|p: Seq<usize>| is_path(edges, p) && p[0] == n && p.last() == n;
            let pos = lemma_path_ascends(edges, nodes, order, p, p.len() - 1);
            assert(order[pos.0] == order[pos.1]);
        }
    }
}

/// A graph that has a cycle has no topological order: cyclic plans are
/// rejected before any step runs.
pub proof fn lemma_cycle_has_no_order(edges: Set<(usize, usize)>, nodes: Set<usize>, n: usize)
    requires
        on_cycle(edges, n),
        forall|e: (usize, usize)| edges.contains(e) ==> nodes.contains(e.0) && nodes.contains(e.1),
    ensures
        forall|order: Seq<usize>| !is_topological_order(edges, nodes, order),
{
    assert forall|order: Seq<usize>| !is_topological_order(edges, nodes, order) by {
        if is_topological_order(edges, nodes, order) {
            lemma_ordered_graph_is_acyclic(edges, nodes, order);
        }
    }
}


/// Where a step names the step it depends on.
#[derive(Clone, Copy, Debug, PartialEq, Eq)]
pub enum DependencySource {
    /// A step-reference action.
    RunType,
    Require,
    RequiredBy,
}

/// Why a plan's dependency graph could not be built.
#[derive(Clone, Debug, PartialEq, Eq)]
pub enum GraphError {
    /// `step` names `name` as a dependency, and no step has that name.
    Missing { name: String, step: String, source: DependencySource },
    /// The step `name` lies on a cycle of dependencies.
    Cycle { name: String },
}

pub open spec fn source_text(source: DependencySource) -> Seq<char> {
    match source {
        DependencySource::RunType => "step run type"@,
        DependencySource::Require => "`require`"@,
        DependencySource::RequiredBy => "`required_by`"@,
    }
}

pub open spec fn graph_error_text(e: GraphError) -> Seq<char> {
    match e {
        GraphError::Missing { name, step, source } => "Could not build step graph: `"@ + name@
            + "` can not be found. defined from "@ + source_text(source) + " on `"@ + step@
            + "`"@,
        GraphError::Cycle { name } => "Could not build step graph: `"@ + name@
            + "` has a circular dependency"@,
    }
}

impl GraphError {
    /// The error as text.
    pub fn message(&self) -> (r: String)
        ensures
            r@ == graph_error_text(*self),
    {
        let mut r = String::from_str("Could not build step graph: `");
        match self {
            GraphError::Missing { name, step, source } => {
                r.append(name.as_str());
                r.append("` can not be found. defined from ");
                match source {
                    DependencySource::RunType => r.append("step run type"),
                    DependencySource::Require => r.append("`require`"),
                    DependencySource::RequiredBy => r.append("`required_by`"),
                }
                r.append(" on `");
                r.append(step.as_str());
                r.append("`");
            },
            GraphError::Cycle { name } => {
                r.append(name.as_str());
                r.append("` has a circular dependency");
            },
        }
        r
    }
}

/// `u` is the first step named `name`.
pub open spec fn resolves_to(steps: Seq<Step>, name: Seq<char>, u: int) -> bool {
    &&& 0 <= u < steps.len()
    &&& steps[u].name@ == name
    &&& forall|j: int| 0 <= j < u ==> steps[j].name@ != name
}

/// Some step is named `name`.
pub open spec fn resolvable(steps: Seq<Step>, name: Seq<char>) -> bool {
    exists|j: int| 0 <= j < steps.len() && steps[j].name@ == name
}

/// Step `v` names `name` as a dependency, from `source`.
pub open spec fn references(
    steps: Seq<Step>,
    v: int,
    source: DependencySource,
    name: Seq<char>,
) -> bool {
    0 <= v < steps.len() && match source {
        DependencySource::RunType => steps[v].run matches RunType::Step(d) && d@ == name,
        DependencySource::Require => exists|j: int|
            0 <= j < steps[v].require@.len() && steps[v].require@[j]@ == name,
        DependencySource::RequiredBy => exists|j: int|
            0 <= j < steps[v].required_by@.len() && steps[v].required_by@[j]@ == name,
    }
}

/// Every name that step `v` depends on belongs to a step.
pub open spec fn references_resolve(steps: Seq<Step>, v: int) -> bool {
    forall|source: DependencySource, name: Seq<char>|
        references(steps, v, source, name) ==> resolvable(steps, name)
}

pub open spec fn all_references_resolve(steps: Seq<Step>) -> bool {
    forall|v: int| 0 <= v < steps.len() ==> references_resolve(steps, v)
}

/// The edge that step `v`'s reference action adds.
pub open spec fn run_edge(steps: Seq<Step>, v: int, e: (usize, usize)) -> bool {
    &&& steps[v].run matches RunType::Step(d)
    &&& resolves_to(steps, d@, e.0 as int)
    &&& e.1 == v
}

/// An edge that one of the first `k` `require` entries of step `v` adds.
pub open spec fn require_edge(steps: Seq<Step>, v: int, k: int, e: (usize, usize)) -> bool {
    exists|j: int| 0 <= j < k && resolves_to(steps, steps[v].require@[j]@, e.0 as int) && e.1 == v
}

/// An edge that one of the first `k` `required_by` entries of step `v` adds.
pub open spec fn required_by_edge(steps: Seq<Step>, v: int, k: int, e: (usize, usize)) -> bool {
    exists|j: int|
        0 <= j < k && e.0 == v && resolves_to(steps, steps[v].required_by@[j]@, e.1 as int)
}

/// An edge that step `v` adds.
pub open spec fn step_edge(steps: Seq<Step>, v: int, e: (usize, usize)) -> bool {
    ||| run_edge(steps, v, e)
    ||| require_edge(steps, v, steps[v].require@.len() as int, e)
    ||| required_by_edge(steps, v, steps[v].required_by@.len() as int, e)
}

/// The edges that the steps before index `n` add.
pub open spec fn edges_before(steps: Seq<Step>, n: int) -> Set<(usize, usize)> {
    Set::new(|e: (usize, usize)| exists|v: int| 0 <= v < n && step_edge(steps, v, e))
}

/// The dependency edges of a plan.
pub open spec fn dependency_edges(steps: Seq<Step>) -> Set<(usize, usize)> {
    edges_before(steps, steps.len() as int)
}

/// `e` is a true account of why the plan `steps` has no graph: a name that
/// a step depends on and no step has, or, all names resolving, a step on a
/// cycle.
pub open spec fn graph_error_matches(steps: Seq<Step>, e: GraphError) -> bool {
    match e {
        GraphError::Missing { name, step, source } => {
            &&& !resolvable(steps, name@)
            &&& exists|v: int|
                0 <= v < steps.len() && steps[v].name@ == step@ && references(
                    steps,
                    v,
                    source,
                    name@,
                )
        },
        GraphError::Cycle { name } => {
            &&& all_references_resolve(steps)
            &&& exists|n: usize|
                n < steps.len() && steps[n as int].name@ == name@ && on_cycle(
                    dependency_edges(steps),
                    n,
                )
        },
    }
}

/// The first step named `name`.
pub fn position(steps: &[Step], name: &String) -> (r: Option<usize>)
    ensures
        r matches Some(u) ==> resolves_to(steps@, name@, u as int),
        r is None ==> !resolvable(steps@, name@),
{
    let mut i: usize = 0;
    while i < steps.len()
        invariant
            i <= steps@.len(),
            forall|j: int| 0 <= j < i ==> steps@[j].name@ != name@,
        decreases steps@.len() - i,
    {
        if str_eq(steps[i].name.as_str(), name.as_str()) {
            return Some(i);
        }
        i = i + 1;
    }
    None
}

/// Invariant of the graph while it is built for the steps before `n`.
spec fn graph_so_far(g: StepGraph, steps: Seq<Step>, edges: Set<(usize, usize)>) -> bool {
    &&& graph_edges(g) == edges
    &&& forall|e: (usize, usize)|
        graph_edges(g).contains(e) ==> graph_nodes(g).contains(e.0) && graph_nodes(g).contains(
            e.1,
        )
    &&& forall|x: usize| graph_nodes(g).contains(x) ==> x < steps.len()
}

/// Builds the dependency graph of a plan: an edge from each step that
/// another depends on, through `require`, `required_by` or a reference
/// action, to the dependent step. Fails on a name that no step has, and
/// on a cycle.
pub fn create_graph(steps: &[Step]) -> (r: Result<StepGraph, GraphError>)
    ensures
        r is Ok <==> all_references_resolve(steps@) && acyclic(dependency_edges(steps@)),
        r matches Ok(g) ==> graph_edges(g) == dependency_edges(steps@),
        r matches Ok(g) ==> ordered_graph(g),
        r matches Err(e) ==> graph_error_matches(steps@, e),
{
    let mut g = new_graph();
    let n = steps.len();
    let mut v: usize = 0;
    assert(graph_edges(g) =~= edges_before(steps@, 0));
    while v < n
        invariant
            n == steps@.len(),
            v <= n,
            graph_so_far(g, steps@, edges_before(steps@, v as int)),
            forall|w: int| 0 <= w < v ==> references_resolve(steps@, w),
        decreases n - v,
    {
        let step = &steps[v];
        let ghost before = edges_before(steps@, v as int);
        if let RunType::Step(dep) = &step.run {
            match position(steps, dep) {
                Some(u) => add_edge(&mut g, u, v),
                None => {
                    let e = GraphError::Missing {
                        name: dep.clone(),
                        step: step.name.clone(),
                        source: DependencySource::RunType,
                    };
                    assert(references(steps@, v as int, DependencySource::RunType, dep@));
                    assert(!references_resolve(steps@, v as int));
                    return Err(e);
                },
            }
        }
        assert(graph_edges(g) =~= before.union(
            Set::new(
                |e: (usize, usize)|
                    run_edge(steps@, v as int, e) || require_edge(steps@, v as int, 0, e),
            ),
        ));
        let mut k: usize = 0;
        while k < step.require.len()
            invariant
                n == steps@.len(),
                v < n,
                step == steps@[v as int],
                k <= step.require@.len(),
                graph_so_far(
                    g,
                    steps@,
                    before.union(
                        Set::new(
                            |e: (usize, usize)|
                                run_edge(steps@, v as int, e) || require_edge(
                                    steps@,
                                    v as int,
                                    k as int,
                                    e,
                                ),
                        ),
                    ),
                ),
                forall|j: int| 0 <= j < k ==> resolvable(steps@, step.require@[j]@),
                step.run matches RunType::Step(d) ==> resolvable(steps@, d@),
            decreases step.require@.len() - k,
        {
            let dep = &step.require[k];
            match position(steps, dep) {
                Some(u) => {
                    add_edge(&mut g, u, v);
                    let ghost old_set = Set::new(
                        |e: (usize, usize)|
                            run_edge(steps@, v as int, e) || require_edge(
                                steps@,
                                v as int,
                                k as int,
                                e,
                            ),
                    );
                    let ghost new_set = Set::new(
                        |e: (usize, usize)|
                            run_edge(steps@, v as int, e) || require_edge(
                                steps@,
                                v as int,
                                k + 1,
                                e,
                            ),
                    );
                    assert forall|e: (usize, usize)| new_set.contains(e) implies old_set.insert(
                        (u, v),
                    ).contains(e) by {
                        if require_edge(steps@, v as int, k + 1, e) && !require_edge(
                            steps@,
                            v as int,
                            k as int,
                            e,
                        ) {
                            let j = choose|j: int|
                                0 <= j < k + 1 && resolves_to(
                                    steps@,
                                    steps@[v as int].require@[j]@,
                                    e.0 as int,
                                ) && e.1 == v;
                            assert(j == k);
                        }
                    }
                    assert(require_edge(steps@, v as int, k + 1, (u, v)));
                    assert(before.union(new_set) =~= before.union(old_set).insert((u, v)));
                },
                None => {
                    let e = GraphError::Missing {
                        name: dep.clone(),
                        step: step.name.clone(),
                        source: DependencySource::Require,
                    };
                    assert(references(steps@, v as int, DependencySource::Require, dep@));
                    assert(!references_resolve(steps@, v as int));
                    return Err(e);
                },
            }
            k = k + 1;
        }
        let ghost mid = before.union(
            Set::new(
                |e: (usize, usize)|
                    run_edge(steps@, v as int, e) || require_edge(
                        steps@,
                        v as int,
                        step.require@.len() as int,
                        e,
                    ),
            ),
        );
        assert(graph_edges(g) =~= mid.union(
            Set::new(|e: (usize, usize)| required_by_edge(steps@, v as int, 0, e)),
        ));
        let mut k: usize = 0;
        while k < step.required_by.len()
            invariant
                n == steps@.len(),
                v < n,
                step == steps@[v as int],
                k <= step.required_by@.len(),
                graph_so_far(
                    g,
                    steps@,
                    mid.union(
                        Set::new(
                            |e: (usize, usize)| required_by_edge(steps@, v as int, k as int, e),
                        ),
                    ),
                ),
                forall|j: int| 0 <= j < step.require@.len() ==> resolvable(steps@, step.require@[j]@),
                forall|j: int| 0 <= j < k ==> resolvable(steps@, step.required_by@[j]@),
                step.run matches RunType::Step(d) ==> resolvable(steps@, d@),
            decreases step.required_by@.len() - k,
        {
            let dep = &step.required_by[k];
            match position(steps, dep) {
                Some(u) => {
                    add_edge(&mut g, v, u);
                    let ghost old_set = Set::new(
                        |e: (usize, usize)| required_by_edge(steps@, v as int, k as int, e),
                    );
                    let ghost new_set = Set::new(
                        |e: (usize, usize)| required_by_edge(steps@, v as int, k + 1, e),
                    );
                    assert forall|e: (usize, usize)| new_set.contains(e) implies old_set.insert(
                        (v, u),
                    ).contains(e) by {
                        if !required_by_edge(steps@, v as int, k as int, e) {
                            let j = choose|j: int|
                                0 <= j < k + 1 && e.0 == v && resolves_to(
                                    steps@,
                                    steps@[v as int].required_by@[j]@,
                                    e.1 as int,
                                );
                            assert(j == k);
                        }
                    }
                    assert(required_by_edge(steps@, v as int, k + 1, (v, u)));
                    assert(mid.union(new_set) =~= mid.union(old_set).insert((v, u)));
                },
                None => {
                    let e = GraphError::Missing {
                        name: dep.clone(),
                        step: step.name.clone(),
                        source: DependencySource::RequiredBy,
                    };
                    assert(references(steps@, v as int, DependencySource::RequiredBy, dep@));
                    assert(!references_resolve(steps@, v as int));
                    return Err(e);
                },
            }
            k = k + 1;
        }
        proof {
            assert(graph_edges(g) =~= edges_before(steps@, v + 1)) by {
                assert forall|e: (usize, usize)|
                    edges_before(steps@, v + 1).contains(e) implies graph_edges(g).contains(e) by {
                    let w = choose|w: int| 0 <= w < v + 1 && step_edge(steps@, w, e);
                    if w < v {
                        assert(before.contains(e));
                    }
                }
                assert forall|e: (usize, usize)|
                    graph_edges(g).contains(e) implies edges_before(steps@, v + 1).contains(e) by {
                    if before.contains(e) {
                        let w = choose|w: int| 0 <= w < v && step_edge(steps@, w, e);
                        assert(0 <= w < v + 1 && step_edge(steps@, w, e));
                    } else {
                        assert(step_edge(steps@, v as int, e));
                    }
                }
            }
            assert(references_resolve(steps@, v as int)) by {
                assert forall|source: DependencySource, name: Seq<char>|
                    references(steps@, v as int, source, name) implies resolvable(
                    steps@,
                    name,
                ) by {
                    match source {
                        DependencySource::Require => {
                            let j = choose|j: int|
                                0 <= j < steps@[v as int].require@.len()
                                    && steps@[v as int].require@[j]@ == name;
                            assert(resolvable(steps@, step.require@[j]@));
                        },
                        DependencySource::RequiredBy => {
                            let j = choose|j: int|
                                0 <= j < steps@[v as int].required_by@.len()
                                    && steps@[v as int].required_by@[j]@ == name;
                            assert(resolvable(steps@, step.required_by@[j]@));
                        },
                        DependencySource::RunType => {},
                    }
                }
            }
        }
        v = v + 1;
    }
    match toposort(&g) {
        Ok(order) => {
            proof {
                lemma_ordered_graph_is_acyclic(graph_edges(g), graph_nodes(g), order@);
            }
            assert(is_topological_order(graph_edges(g), graph_nodes(g), order@));
            Ok(g)
        },
        Err(c) => {
            assert(!acyclic(dependency_edges(steps@)));
            Err(GraphError::Cycle { name: steps[c].name.clone() })
        },
    }
}

} // verus!
