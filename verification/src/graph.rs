//! The order in which datasets are generated: a directed graph of datasets, its topological
//! order, and the check that there is one.
use petgraph::algo::toposort;
use petgraph::graph::{DiGraph, Graph, NodeIndex};
use petgraph::visit::{Topo, Walker};
use vstd::prelude::*;

use crate::message::{join2, join4, problem, problem_of, said, PartModel, Problem};
use crate::models::{
    dataset_position, entries_model, find_dataset, DatasetEntry, DatasetEntryModel, Include,
    IncludeModel,
};

verus! {

/// `petgraph::graph::Graph`, here a directed graph whose nodes are numbered from zero.
#[verifier::external_type_specification]
#[verifier::external_body]
#[verifier::reject_recursive_types(N)]
#[verifier::reject_recursive_types(E)]
#[verifier::reject_recursive_types(Ty)]
#[verifier::reject_recursive_types(Ix)]
pub struct ExGraph<N, E, Ty, Ix>(petgraph::graph::Graph<N, E, Ty, Ix>);

/// `petgraph::Directed`, the marker of directed graphs.
#[verifier::external_type_specification]
#[verifier::external_body]
pub struct ExDirected(petgraph::Directed);

/// The number of nodes of a graph.
pub uninterp spec fn graph_nodes(g: Graph<usize, (), petgraph::Directed, u32>) -> nat;

/// The edges of a graph, from source to target, in the order in which they were added.
pub uninterp spec fn graph_edges(g: Graph<usize, (), petgraph::Directed, u32>) -> Seq<(int, int)>;

/// Calls `DiGraph::new`: a graph without nodes and edges.
#[verifier::external_body]
pub(crate) fn new_graph() -> (r: Graph<usize, (), petgraph::Directed, u32>)
    ensures
        graph_nodes(r) == 0,
        graph_edges(r) == Seq::<(int, int)>::empty(),
{
    DiGraph::new()
}

/// Calls `Graph::add_node`, which adds one node and panics when the index type is exhausted.
#[verifier::external_body]
pub(crate) fn add_node(g: &mut Graph<usize, (), petgraph::Directed, u32>, weight: usize)
    requires
        graph_nodes(*old(g)) < u32::MAX,
    ensures
        graph_nodes(*final(g)) == graph_nodes(*old(g)) + 1,
        graph_edges(*final(g)) == graph_edges(*old(g)),
{
    g.add_node(weight);
}

/// Calls `Graph::add_edge`, which adds one edge and panics when an end is not a node or the index
/// type is exhausted.
#[verifier::external_body]
pub(crate) fn add_edge(g: &mut Graph<usize, (), petgraph::Directed, u32>, a: usize, b: usize)
    requires
        a < graph_nodes(*old(g)),
        b < graph_nodes(*old(g)),
        graph_edges(*old(g)).len() < u32::MAX,
    ensures
        graph_nodes(*final(g)) == graph_nodes(*old(g)),
        graph_edges(*final(g)) == graph_edges(*old(g)).push((a as int, b as int)),
{
    g.add_edge(NodeIndex::new(a), NodeIndex::new(b), ());
}

/// Calls `Graph::contains_edge`: true when there is an edge from `a` to `b`.
#[verifier::external_body]
pub(crate) fn contains_edge(
    g: &Graph<usize, (), petgraph::Directed, u32>,
    a: usize,
    b: usize,
) -> (r: bool)
    requires
        a < graph_nodes(*g),
        b < graph_nodes(*g),
    ensures
        r == graph_edges(*g).contains((a as int, b as int)),
{
    g.contains_edge(NodeIndex::new(a), NodeIndex::new(b))
}

/// The order names nodes of the graph, none twice, and each behind all its predecessors.
pub open spec fn respects_edges(order: Seq<usize>, edges: Seq<(int, int)>, n: nat) -> bool {
    &&& order.no_duplicates()
    &&& forall|i: int| 0 <= i < order.len() ==> #[trigger] order[i] < n
    &&& forall|e: int, j: int|
        0 <= e < edges.len() && 0 <= j < order.len() && (#[trigger] edges[e]).1 == #[trigger] order[j]
            ==> exists|i: int| 0 <= i < j && #[trigger] order[i] == edges[e].0
}

/// The order is topological: it respects the edges and names every node.
pub open spec fn topological(order: Seq<usize>, edges: Seq<(int, int)>, n: nat) -> bool {
    &&& respects_edges(order, edges, n)
    &&& order.len() == n
}

/// The graph has a topological order.
pub open spec fn acyclic(edges: Seq<(int, int)>, n: nat) -> bool {
    exists|order: Seq<usize>| topological(order, edges, n)
}

/// Calls `petgraph::algo::toposort`: a topological order, or a node when the graph has a cycle.
/// Which of several orders comes out, and which node, is not stated.
#[verifier::external_body]
pub(crate) fn topological_order(g: &Graph<usize, (), petgraph::Directed, u32>) -> (r: Result<
    Vec<usize>,
    usize,
>)
    ensures
        match r {
            Ok(order) => topological(order@, graph_edges(*g), graph_nodes(*g)),
            Err(node) => node < graph_nodes(*g) && !acyclic(graph_edges(*g), graph_nodes(*g)),
        },
{
    match toposort(g, None) {
        Ok(order) => Ok(order.into_iter().map(|i| i.index()).collect()),
        Err(cycle) => Err(cycle.node_id().index()),
    }
}

/// Walks `petgraph::visit::Topo` to its end: every node behind all its predecessors, and every
/// node of an acyclic graph. Which of several orders comes out is not stated.
#[verifier::external_body]
pub(crate) fn topo_walk(g: &Graph<usize, (), petgraph::Directed, u32>) -> (r: Vec<usize>)
    ensures
        respects_edges(r@, graph_edges(*g), graph_nodes(*g)),
        acyclic(graph_edges(*g), graph_nodes(*g)) ==> r.len() == graph_nodes(*g),
{
    Topo::new(g).iter(g).map(|i| i.index()).collect()
}

/// The datasets as a graph: node `i` is dataset `i`.
#[derive(Debug)]
pub struct DatasetGraph {
    pub graph: Graph<usize, (), petgraph::Directed, u32>,
}

/// The edges with one more, unless it is there already.
pub open spec fn with_edge(edges: Seq<(int, int)>, a: int, b: int) -> Seq<(int, int)> {
    if edges.contains((a, b)) {
        edges
    } else {
        edges.push((a, b))
    }
}

/// The dataset that a reference of dataset `path` leads to, or the message that it leads nowhere.
pub open spec fn reference_target(
    all: Seq<DatasetEntryModel>,
    path: Seq<char>,
    inc: IncludeModel,
    missing: Seq<char>,
    unknown: Seq<char>,
) -> Result<int, Seq<PartModel>> {
    match inc.resolved {
        None => Err(said(path + missing + inc.file)),
        Some(p) => match dataset_position(all, p, 0) {
            Some(t) => Ok(t),
            None => Err(said(path + unknown + p + "' was not part of the traversal"@)),
        },
    }
}

/// The edges of a dataset's include: from the dataset to its parent.
pub open spec fn with_parent(
    all: Seq<DatasetEntryModel>,
    i: int,
    edges: Seq<(int, int)>,
) -> Result<Seq<(int, int)>, Seq<PartModel>> {
    match all[i].dataset.include_spec {
        None => Ok(edges),
        Some(inc) => match reference_target(
            all,
            all[i].path,
            inc,
            ": included file not found: "@,
            ": include '"@,
        ) {
            Ok(t) => Ok(with_edge(edges, i, t)),
            Err(m) => Err(m),
        },
    }
}

/// The edges of the first `l` links of a dataset: from the linked dataset to the dataset.
pub open spec fn with_links(
    all: Seq<DatasetEntryModel>,
    i: int,
    edges: Seq<(int, int)>,
    l: int,
) -> Result<Seq<(int, int)>, Seq<PartModel>>
    decreases l,
{
    if l <= 0 {
        Ok(edges)
    } else {
        match with_links(all, i, edges, l - 1) {
            Err(m) => Err(m),
            Ok(before) => match reference_target(
                all,
                all[i].path,
                all[i].dataset.links[l - 1],
                ": linked file not found: "@,
                ": link '"@,
            ) {
                Ok(t) => Ok(with_edge(before, t, i)),
                Err(m) => Err(m),
            },
        }
    }
}

/// The edges of the first `n` datasets, or the first reference that leads nowhere.
pub open spec fn dag_edges(all: Seq<DatasetEntryModel>, n: int) -> Result<
    Seq<(int, int)>,
    Seq<PartModel>,
>
    decreases n,
{
    if n <= 0 {
        Ok(Seq::empty())
    } else {
        match dag_edges(all, n - 1) {
            Err(m) => Err(m),
            Ok(before) => match with_parent(all, n - 1, before) {
                Err(m) => Err(m),
                Ok(mid) => with_links(all, n - 1, mid, all[n - 1].dataset.links.len() as int),
            },
        }
    }
}

/// An upper bound on the number of references of the first `n` datasets.
pub open spec fn reference_count(all: Seq<DatasetEntryModel>, n: int) -> int
    decreases n,
{
    if n <= 0 {
        0
    } else {
        reference_count(all, n - 1) + 1 + all[n - 1].dataset.links.len()
    }
}

proof fn lemma_reference_count_grows(all: Seq<DatasetEntryModel>, m: int, n: int)
    requires
        0 <= m <= n,
    ensures
        0 <= reference_count(all, m) <= reference_count(all, n),
    decreases n,
{
    if m < n {
        lemma_reference_count_grows(all, m, n - 1);
    } else if n > 0 {
        lemma_reference_count_grows(all, n - 1, n - 1);
    }
}

fn resolve_reference(
    all: &Vec<DatasetEntry>,
    path: &str,
    inc: &Include,
    missing: &str,
    unknown: &str,
) -> (r: Result<usize, Problem>)
    ensures
        match r {
            Ok(t) => t < all.len() && reference_target(
                entries_model(all@),
                path@,
                inc.model(),
                missing@,
                unknown@,
            ) == Ok::<int, Seq<PartModel>>(t as int),
            Err(p) => reference_target(
                entries_model(all@),
                path@,
                inc.model(),
                missing@,
                unknown@,
            ) == Err::<int, Seq<PartModel>>(p.model()),
        },
{
    match &inc.resolved {
        None => Err(problem(crate::message::join3(path, missing, &inc.file))),
        Some(p) => match find_dataset(all, p) {
            Some(t) => Ok(t),
            None => Err(problem(join4(path, unknown, p, "' was not part of the traversal"))),
        },
    }
}

/// Builds the graph of the datasets: every dataset before its parent, every linked dataset before
/// the datasets that draw from it.
pub fn build_dag(datasets: &Vec<DatasetEntry>) -> (r: Result<DatasetGraph, Problem>)
    requires
        datasets.len() < u32::MAX,
        reference_count(entries_model(datasets@), datasets.len() as int) < u32::MAX,
    ensures
        ({
            let all = entries_model(datasets@);
            let n = datasets.len();
            match dag_edges(all, n as int) {
                Err(m) => problem_of(r) == Some(m),
                Ok(edges) => if acyclic(edges, n as nat) {
                    r matches Ok(g) && graph_nodes(g.graph) == n && graph_edges(g.graph) == edges
                } else {
                    r matches Err(p) && exists|i: int|
                        0 <= i < n && p.model() == said(
                            "circular include detected involving: "@ + #[trigger] all[i].path,
                        )
                },
            }
        }),
{
    let ghost all = entries_model(datasets@);
    let n: usize = datasets.len();
    let mut graph = new_graph();
    let mut i: usize = 0;
    while i < n
        invariant
            i <= n,
            n < u32::MAX,
            graph_nodes(graph) == i,
            graph_edges(graph) == Seq::<(int, int)>::empty(),
        decreases n - i,
    {
        add_node(&mut graph, i);
        i += 1;
    }
    let mut i: usize = 0;
    while i < n
        invariant
            i <= n,
            n == datasets.len(),
            n < u32::MAX,
            all == entries_model(datasets@),
            graph_nodes(graph) == n,
            dag_edges(all, i as int) == Ok::<Seq<(int, int)>, Seq<PartModel>>(graph_edges(graph)),
            graph_edges(graph).len() <= reference_count(all, i as int),
            reference_count(all, n as int) < u32::MAX,
        decreases n - i,
    {
        let entry = &datasets[i];
        proof {
            assert(all[i as int] == entry.model());
            lemma_dag_error_stays(all, i + 1, n as int);
            lemma_reference_count_grows(all, i + 1, n as int);
        }
        if let Some(inc) = &entry.dataset.include_spec {
            match resolve_reference(
                datasets,
                &entry.path,
                inc,
                ": included file not found: ",
                ": include '",
            ) {
                Err(p) => {
                    return Err(p);
                },
                Ok(t) => {
                    if !contains_edge(&graph, i, t) {
                        add_edge(&mut graph, i, t);
                    }
                },
            }
        }
        let ghost mid = graph_edges(graph);
        assert(with_parent(all, i as int, dag_edges(all, i as int)->Ok_0) == Ok::<
            Seq<(int, int)>,
            Seq<PartModel>,
        >(mid));
        let links = &entry.dataset.links;
        let mut l: usize = 0;
        while l < links.len()
            invariant
                i < n,
                n == datasets.len(),
                all == entries_model(datasets@),
                entry == datasets[i as int],
                links == entry.dataset.links,
                all[i as int] == entry.model(),
                l <= links.len(),
                graph_nodes(graph) == n,
                with_links(all, i as int, mid, l as int) == Ok::<Seq<(int, int)>, Seq<PartModel>>(
                    graph_edges(graph),
                ),
                graph_edges(graph).len() <= reference_count(all, i as int) + 1 + l,
                reference_count(all, i as int) + 1 + links.len() < u32::MAX,
                dag_edges(all, i as int) is Ok,
                with_parent(all, i as int, dag_edges(all, i as int)->Ok_0) == Ok::<
                    Seq<(int, int)>,
                    Seq<PartModel>,
                >(mid),
                dag_edges(all, i + 1) is Err ==> dag_edges(all, n as int) == dag_edges(
                    all,
                    i + 1,
                ),
            decreases links.len() - l,
        {
            assert(all[i as int].dataset.links[l as int] == links[l as int].model());
            match resolve_reference(
                datasets,
                &entry.path,
                &links[l],
                ": linked file not found: ",
                ": link '",
            ) {
                Err(p) => {
                    proof {
                        lemma_links_error_stays(
                            all,
                            i as int,
                            mid,
                            l + 1,
                            links.len() as int,
                        );
                    }
                    return Err(p);
                },
                Ok(t) => {
                    if !contains_edge(&graph, t, i) {
                        add_edge(&mut graph, t, i);
                    }
                },
            }
            l += 1;
        }
        i += 1;
    }
    match topological_order(&graph) {
        Ok(order) => {
            assert(topological(order@, graph_edges(graph), n as nat));
            assert(acyclic(graph_edges(graph), n as nat));
            Ok(DatasetGraph { graph })
        },
        Err(node) => {
            assert(all[node as int] == datasets[node as int].model());
            let p = problem(join2("circular include detected involving: ", &datasets[node].path));
            assert(p.model() == said(
                "circular include detected involving: "@ + all[node as int].path,
            ));
            Err(p)
        },
    }
}

proof fn lemma_dag_error_stays(all: Seq<DatasetEntryModel>, m: int, n: int)
    requires
        0 <= m <= n,
    ensures
        dag_edges(all, m) is Err ==> dag_edges(all, n) == dag_edges(all, m),
    decreases n,
{
    if m < n {
        lemma_dag_error_stays(all, m, n - 1);
    }
}

proof fn lemma_links_error_stays(
    all: Seq<DatasetEntryModel>,
    i: int,
    edges: Seq<(int, int)>,
    m: int,
    n: int,
)
    requires
        0 <= m <= n,
    ensures
        with_links(all, i, edges, m) is Err ==> with_links(all, i, edges, n) == with_links(
            all,
            i,
            edges,
            m,
        ),
    decreases n,
{
    if m < n {
        lemma_links_error_stays(all, i, edges, m, n - 1);
    }
}

proof fn lemma_links_keep(
    all: Seq<DatasetEntryModel>,
    i: int,
    edges: Seq<(int, int)>,
    l: int,
    e: (int, int),
)
    requires
        with_links(all, i, edges, l) is Ok,
        edges.contains(e),
    ensures
        with_links(all, i, edges, l)->Ok_0.contains(e),
    decreases l,
{
    if l > 0 {
        lemma_links_keep(all, i, edges, l - 1, e);
        let before = with_links(all, i, edges, l - 1)->Ok_0;
        lemma_with_edge_keeps(before, e);
    }
}

proof fn lemma_with_edge_keeps(edges: Seq<(int, int)>, e: (int, int))
    requires
        edges.contains(e),
    ensures
        forall|a: int, b: int| #[trigger] with_edge(edges, a, b).contains(e),
{
    let k = choose|k: int| 0 <= k < edges.len() && edges[k] == e;
    assert forall|a: int, b: int| #[trigger] with_edge(edges, a, b).contains(e) by {
        assert(with_edge(edges, a, b)[k] == e);
    }
}

proof fn lemma_with_edge_adds(edges: Seq<(int, int)>, a: int, b: int)
    ensures
        with_edge(edges, a, b).contains((a, b)),
{
    if !edges.contains((a, b)) {
        assert(edges.push((a, b))[edges.len() as int] == (a, b));
    }
}

proof fn lemma_dag_keeps(all: Seq<DatasetEntryModel>, m: int, n: int, e: (int, int))
    requires
        0 <= m <= n,
        dag_edges(all, n) is Ok,
    ensures
        dag_edges(all, m) is Ok,
        dag_edges(all, m)->Ok_0.contains(e) ==> dag_edges(all, n)->Ok_0.contains(e),
    decreases n,
{
    if m < n {
        lemma_dag_keeps(all, m, n - 1, e);
        if dag_edges(all, m)->Ok_0.contains(e) {
            let before = dag_edges(all, n - 1)->Ok_0;
            lemma_with_edge_keeps(before, e);
            let mid = with_parent(all, n - 1, before)->Ok_0;
            lemma_links_keep(all, n - 1, mid, all[n - 1].dataset.links.len() as int, e);
        }
    }
}

/// The graph has an edge from every dataset to its parent.
pub proof fn law_child_points_to_parent(all: Seq<DatasetEntryModel>, i: int)
    requires
        0 <= i < all.len(),
        dag_edges(all, all.len() as int) is Ok,
        all[i].dataset.include_spec is Some,
    ensures
        crate::models::target_of(all, all[i].dataset.include_spec->0) is Some,
        dag_edges(all, all.len() as int)->Ok_0.contains(
            (i, crate::models::target_of(all, all[i].dataset.include_spec->0)->0),
        ),
{
    let n = all.len() as int;
    let t = crate::models::target_of(all, all[i].dataset.include_spec->0);
    lemma_dag_keeps(all, i + 1, n, (i, t->0));
    lemma_dag_keeps(all, i, n, (i, t->0));
    let before = dag_edges(all, i)->Ok_0;
    lemma_with_edge_adds(before, i, t->0);
    lemma_links_keep(
        all,
        i,
        with_parent(all, i, before)->Ok_0,
        all[i].dataset.links.len() as int,
        (i, t->0),
    );
}

/// The graph has an edge from every linked dataset to the dataset that draws from it.
pub proof fn law_link_points_to_user(all: Seq<DatasetEntryModel>, i: int, l: int)
    requires
        0 <= i < all.len(),
        dag_edges(all, all.len() as int) is Ok,
        0 <= l < all[i].dataset.links.len(),
    ensures
        crate::models::target_of(all, all[i].dataset.links[l]) is Some,
        dag_edges(all, all.len() as int)->Ok_0.contains(
            (crate::models::target_of(all, all[i].dataset.links[l])->0, i),
        ),
{
    let n = all.len() as int;
    let t = crate::models::target_of(all, all[i].dataset.links[l]);
    let count = all[i].dataset.links.len() as int;
    lemma_dag_keeps(all, i + 1, n, (t->0, i));
    let before = dag_edges(all, i)->Ok_0;
    let mid = with_parent(all, i, before)->Ok_0;
    lemma_links_error_stays(all, i, mid, l + 1, count);
    lemma_links_error_stays(all, i, mid, l, count);
    lemma_with_edge_adds(with_links(all, i, mid, l)->Ok_0, t->0, i);
    lemma_links_grow(all, i, mid, l + 1, count, (t->0, i));
}

proof fn lemma_links_grow(
    all: Seq<DatasetEntryModel>,
    i: int,
    edges: Seq<(int, int)>,
    m: int,
    n: int,
    e: (int, int),
)
    requires
        0 <= m <= n,
        with_links(all, i, edges, n) is Ok,
        with_links(all, i, edges, m) is Ok,
        with_links(all, i, edges, m)->Ok_0.contains(e),
    ensures
        with_links(all, i, edges, n)->Ok_0.contains(e),
    decreases n,
{
    if m < n {
        lemma_links_grow(all, i, edges, m, n - 1, e);
        lemma_with_edge_keeps(with_links(all, i, edges, n - 1)->Ok_0, e);
    }
}

/// In a topological order of the graph, what an edge leaves stands before what it enters: atoms
/// come first, children before their parents, and linked datasets before those that draw from
/// them.
pub proof fn law_sources_come_first(order: Seq<usize>, edges: Seq<(int, int)>, n: nat, a: int, b: int)
    requires
        topological(order, edges, n),
        edges.contains((a, b)),
        0 <= b < n,
        n <= usize::MAX,
    ensures
        exists|i: int, j: int|
            0 <= i < j < order.len() && #[trigger] order[i] == a && #[trigger] order[j] == b,
{
    let e = choose|e: int| 0 <= e < edges.len() && edges[e] == (a, b);
    lemma_full_order_names_all(order, n, b);
    let j = choose|j: int| 0 <= j < order.len() && #[trigger] order[j] == b;
    assert(edges[e].1 == order[j]);
}

proof fn lemma_full_order_names_all(order: Seq<usize>, n: nat, b: int)
    requires
        order.no_duplicates(),
        order.len() == n,
        forall|i: int| 0 <= i < order.len() ==> #[trigger] order[i] < n,
        0 <= b < n,
        n <= usize::MAX,
    ensures
        exists|j: int| 0 <= j < order.len() && #[trigger] order[j] == b,
{
    if !(exists|j: int| 0 <= j < order.len() && #[trigger] order[j] == b) {
        let ints = order.map_values(|x: usize| x as int);
        assert(ints.no_duplicates());
        ints.unique_seq_to_set();
        let whole = vstd::set_lib::set_int_range(0, n as int);
        vstd::set_lib::lemma_int_range(0, n as int);
        assert(ints.to_set().subset_of(whole.remove(b))) by {
            assert forall|x: int| ints.to_set().contains(x) implies whole.remove(b).contains(x) by {
                let j = choose|j: int| 0 <= j < ints.len() && ints[j] == x;
                assert(order[j] == x);
            }
        }
        vstd::set_lib::lemma_len_subset(ints.to_set(), whole.remove(b));
    }
}

} // verus!
