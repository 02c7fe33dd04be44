//! The boundary to `petgraph`: the graph type that holds persons and links,
//! and the few operations of it that the library calls. Nothing in this file
//! is proved; each contract states what the operation does as the source of
//! `petgraph` shows it.
use crate::person::{Kind, Link, Person};
use itertools::Itertools;
use petgraph::visit::EdgeRef;
use vstd::prelude::*;

verus! {

#[verifier::external_type_specification]
#[verifier::external_body]
#[verifier::reject_recursive_types(N)]
#[verifier::reject_recursive_types(E)]
#[verifier::reject_recursive_types(Ty)]
#[verifier::reject_recursive_types(Ix)]
pub struct ExGraph<N, E, Ty, Ix>(petgraph::graph::Graph<N, E, Ty, Ix>);

#[verifier::external_type_specification]
#[verifier::external_body]
pub struct ExDirected(petgraph::Directed);

/// The persons that a graph holds, in the order in which they were added. A
/// person's position in this sequence is its node index.
pub uninterp spec fn graph_persons(
    g: &petgraph::graph::Graph<Person, Kind, petgraph::Directed, usize>,
) -> Seq<Person>;

/// The links that a graph holds, in the order in which they were added.
pub uninterp spec fn graph_links(
    g: &petgraph::graph::Graph<Person, Kind, petgraph::Directed, usize>,
) -> Seq<Link>;

/// The links of `links` that leave `a`, the one added last first.
pub open spec fn out_links(links: Seq<Link>, a: usize) -> Seq<Link>
    decreases links.len(),
{
    if links.len() == 0 {
        Seq::empty()
    } else if links.last().source == a {
        seq![links.last()] + out_links(links.drop_last(), a)
    } else {
        out_links(links.drop_last(), a)
    }
}

/// The kinds of the links from `a` to `b`, the one added last first.
pub open spec fn kinds_between(links: Seq<Link>, a: usize, b: usize) -> Seq<Kind>
    decreases links.len(),
{
    if links.len() == 0 {
        Seq::empty()
    } else if links.last().source == a && links.last().target == b {
        seq![links.last().kind] + kinds_between(links.drop_last(), a, b)
    } else {
        kinds_between(links.drop_last(), a, b)
    }
}

/// Whether some link leads from `a` to `b`.
pub open spec fn joined(links: Seq<Link>, a: usize, b: usize) -> bool {
    exists|k: Kind| #[trigger] links.contains(Link { source: a, kind: k, target: b })
}

/// Whether `walk` lists the nodes of a path along the links from `from` to
/// `to` on which no node occurs twice.
pub open spec fn is_simple_walk(links: Seq<Link>, from: usize, to: usize, walk: Seq<usize>) -> bool {
    &&& walk.len() >= 2
    &&& walk.first() == from
    &&& walk.last() == to
    &&& forall|i: int, j: int| 0 <= i < j < walk.len() ==> walk[i] != walk[j]
    &&& forall|i: int| 0 <= i < walk.len() - 1 ==> #[trigger] joined(links, walk[i], walk[i + 1])
}

/// `Graph::default`: a graph without nodes and edges.
#[verifier::external_body]
pub(crate) fn empty_graph() -> (g: petgraph::graph::Graph<
    Person,
    Kind,
    petgraph::Directed,
    usize,
>)
    ensures
        graph_persons(&g) == Seq::<Person>::empty(),
        graph_links(&g) == Seq::<Link>::empty(),
{
    petgraph::graph::Graph::default()
}

/// `Graph::node_count`: the number of nodes.
#[verifier::external_body]
pub(crate) fn node_count(
    g: &petgraph::graph::Graph<Person, Kind, petgraph::Directed, usize>,
) -> (n: usize)
    ensures
        n == graph_persons(g).len(),
{
    g.node_count()
}

/// `Graph::add_node`: appends a node that carries `p` and returns its index,
/// the number of nodes before the call. The edges stay as they are.
#[verifier::external_body]
pub(crate) fn add_node(
    g: &mut petgraph::graph::Graph<Person, Kind, petgraph::Directed, usize>,
    p: Person,
) -> (ix: usize)
    ensures
        ix == graph_persons(old(g)).len(),
        graph_persons(final(g)) == graph_persons(old(g)).push(p),
        graph_links(final(g)) == graph_links(old(g)),
{
    g.add_node(p).index()
}

/// Indexing a graph by a node index (`Graph::index`): the weight of node
/// `ix`. It panics on an index that the graph does not have, so the contract
/// asks for one that it has.
#[verifier::external_body]
pub(crate) fn node_person(
    g: &petgraph::graph::Graph<Person, Kind, petgraph::Directed, usize>,
    ix: usize,
) -> (p: &Person)
    requires
        ix < graph_persons(g).len(),
    ensures
        *p == graph_persons(g)[ix as int],
{
    &g[petgraph::graph::NodeIndex::new(ix)]
}

/// `Graph::add_edge`: appends an edge from `a` to `b` of kind `k`. It panics
/// where a node is missing, so the contract asks for both. The nodes stay as
/// they are.
#[verifier::external_body]
pub(crate) fn add_edge(
    g: &mut petgraph::graph::Graph<Person, Kind, petgraph::Directed, usize>,
    a: usize,
    b: usize,
    k: Kind,
)
    requires
        a < graph_persons(old(g)).len(),
        b < graph_persons(old(g)).len(),
    ensures
        graph_persons(final(g)) == graph_persons(old(g)),
        graph_links(final(g)) == graph_links(old(g)).push(Link { source: a, kind: k, target: b }),
{
    g.add_edge(petgraph::graph::NodeIndex::new(a), petgraph::graph::NodeIndex::new(b), k);
}

/// `Graph::edges_directed` with `Outgoing`: the edges that leave `a`. The
/// graph chains the edges of a node so that the newest comes first. A node
/// that the graph does not have gives no edge.
#[verifier::external_body]
pub(crate) fn edges_from(
    g: &petgraph::graph::Graph<Person, Kind, petgraph::Directed, usize>,
    a: usize,
) -> (v: Vec<Link>)
    ensures
        v@ == out_links(graph_links(g), a),
{
    g.edges_directed(petgraph::graph::NodeIndex::new(a), petgraph::Direction::Outgoing).map(
        |e| Link { source: e.source().index(), kind: *e.weight(), target: e.target().index() },
    ).collect()
}

/// `Graph::edges_connecting`: the kinds of the edges from `a` to `b`, in
/// the order of `edges_directed`.
#[verifier::external_body]
pub(crate) fn edges_connecting(
    g: &petgraph::graph::Graph<Person, Kind, petgraph::Directed, usize>,
    a: usize,
    b: usize,
) -> (v: Vec<Kind>)
    ensures
        v@ == kinds_between(graph_links(g), a, b),
{
    g.edges_connecting(petgraph::graph::NodeIndex::new(a), petgraph::graph::NodeIndex::new(b)).map(
        |e| *e.weight(),
    ).collect()
}

/// `petgraph::algo::all_simple_paths` without a bound on the length: the
/// node sequences of the simple paths from `from` to `to`. A path may come
/// more than once where nodes are joined by several edges, and the order is
/// that of the search, so the contract states which sequences occur. The
/// call subtracts one from the number of nodes, and with `from == to` it
/// yields cycles; the contract leaves both out.
#[verifier::external_body]
pub(crate) fn all_simple_paths(
    g: &petgraph::graph::Graph<Person, Kind, petgraph::Directed, usize>,
    from: usize,
    to: usize,
) -> (v: Vec<Vec<usize>>)
    requires
        from != to,
        graph_persons(g).len() > 0,
    ensures
        forall|i: int| 0 <= i < v.len() ==> is_simple_walk(graph_links(g), from, to, (#[trigger] v[i])@),
        forall|walk: Seq<usize>|
            is_simple_walk(graph_links(g), from, to, walk) ==> exists|i: int|
                0 <= i < v.len() && (#[trigger] v[i])@ == walk,
{
    petgraph::algo::all_simple_paths::<Vec<_>, _>(
        g,
        petgraph::graph::NodeIndex::new(from),
        petgraph::graph::NodeIndex::new(to),
        0,
        None,
    ).map(|p: Vec<petgraph::graph::NodeIndex<usize>>| p.into_iter().map(|n| n.index()).collect())
        .collect()
}

/// `Itertools::tuple_windows` on the nodes of a walk: each node paired with
/// the one that follows it.
#[verifier::external_body]
pub(crate) fn tuple_windows(walk: &Vec<usize>) -> (v: Vec<(usize, usize)>)
    ensures
        v.len() == if walk.len() == 0 { 0 } else { walk.len() - 1 },
        forall|i: int| 0 <= i < v.len() ==> #[trigger] v[i] == (walk[i], walk[i + 1]),
{
    walk.iter().tuple_windows().map(|w: (&usize, &usize)| (*w.0, *w.1)).collect()
}

} // verus!
