//! The territory graph: a fixed, undirected world map held in a petgraph
//! `UnGraph` whose node weights are the territories' names.
use vstd::prelude::*;
use petgraph::graph::UnGraph;
use petgraph::graph::NodeIndex;

verus! {

#[verifier::external_type_specification]
#[verifier::external_body]
#[verifier::reject_recursive_types(N)]
#[verifier::reject_recursive_types(E)]
#[verifier::reject_recursive_types(Ty)]
#[verifier::reject_recursive_types(Ix)]
pub struct ExGraph<N, E, Ty, Ix>(petgraph::graph::Graph<N, E, Ty, Ix>);

#[verifier::external_type_specification]
#[verifier::external_body]
pub struct ExUndirected(petgraph::Undirected);

/// The names of a graph's nodes, in the order of their indices.
pub uninterp spec fn node_names(g: UnGraph<&'static str, ()>) -> Seq<Seq<char>>;

/// The endpoints of a graph's edges, in the order in which they were added.
pub uninterp spec fn edge_list(g: UnGraph<&'static str, ()>) -> Seq<(u32, u32)>;

/// The number of territories of a map.
pub open spec fn territory_count(g: UnGraph<&'static str, ()>) -> nat {
    node_names(g).len()
}

/// Two territories share a border (in either direction of an edge).
pub open spec fn adjacent(g: UnGraph<&'static str, ()>, a: u32, b: u32) -> bool {
    exists|i: int|
        0 <= i < edge_list(g).len() && (#[trigger] edge_list(g)[i] == (a, b) || edge_list(g)[i]
            == (b, a))
}

/// Relies on petgraph's `Graph::new_undirected`: a graph with no nodes and no edges.
#[verifier::external_body]
fn new_map() -> (g: UnGraph<&'static str, ()>)
    ensures
        node_names(g) == Seq::<Seq<char>>::empty(),
        edge_list(g) == Seq::<(u32, u32)>::empty(),
{
    UnGraph::<&'static str, ()>::new_undirected()
}

/// Relies on petgraph's `Graph::add_node`: the node is appended, its index is
/// the former node count, and the call panics only when the index would be
/// `u32::MAX`.
#[verifier::external_body]
fn add_territory(g: &mut UnGraph<&'static str, ()>, name: &'static str) -> (r: u32)
    requires
        node_names(*old(g)).len() < u32::MAX,
    ensures
        r == node_names(*old(g)).len(),
        node_names(*final(g)) == node_names(*old(g)).push(name@),
        edge_list(*final(g)) == edge_list(*old(g)),
{
    g.add_node(name).index() as u32
}

/// Relies on petgraph's `Graph::add_edge`: the edge is appended, and the call
/// panics only when an endpoint is not a node or the edge count reaches `u32::MAX`.
#[verifier::external_body]
fn add_border(g: &mut UnGraph<&'static str, ()>, a: u32, b: u32)
    requires
        a < node_names(*old(g)).len(),
        b < node_names(*old(g)).len(),
        edge_list(*old(g)).len() < u32::MAX,
    ensures
        node_names(*final(g)) == node_names(*old(g)),
        edge_list(*final(g)) == edge_list(*old(g)).push((a, b)),
{
    g.add_edge(NodeIndex::new(a as usize), NodeIndex::new(b as usize), ());
}

/// Relies on petgraph's `Graph::node_count`: the number of nodes.
#[verifier::external_body]
pub(crate) fn node_count(g: &UnGraph<&'static str, ()>) -> (r: usize)
    ensures
        r == node_names(*g).len(),
{
    g.node_count()
}

/// Relies on petgraph's `Graph::neighbors` on an undirected graph: the other
/// endpoint of every edge from or to `a` (empty when `a` is not a node).
#[verifier::external_body]
pub(crate) fn neighbor_list(g: &UnGraph<&'static str, ()>, a: u32) -> (r: Vec<u32>)
    ensures
        forall|b: u32| r@.contains(b) <==> adjacent(*g, a, b),
{
    g.neighbors(NodeIndex::new(a as usize)).map(|n| n.index() as u32).collect()
}


/// The names of the world map's territories, by index: Australia, then Asia.
pub open spec fn world_names() -> Seq<Seq<char>> {
    seq![
        "Western Australia"@,
        "Eastern Australia"@,
        "New Guinea"@,
        "Indonesia"@,
        "India"@,
        "China"@,
        "Siberia"@,
        "Mongolia"@,
        "Japan"@,
        "Yakutsk"@,
        "Irkutsk"@,
        "Afghanistan"@,
        "Middle East"@,
        "Southeast Asia"@,
        "Kamchatka"@,
        "Ural"@,
    ]
}

/// The borders of the world map, in the order in which they are drawn.
pub open spec fn world_borders() -> Seq<(u32, u32)> {
    seq![
        (0, 1), (0, 3), (1, 2), (2, 3), (3, 13),
        (13, 5), (13, 4), (4, 11), (4, 12), (4, 5),
        (12, 11), (5, 11), (5, 15), (5, 6), (5, 7),
        (11, 15), (8, 7), (8, 14), (7, 6), (7, 10),
        (7, 14), (6, 9), (6, 15), (6, 10), (14, 10),
        (14, 9), (9, 10),
    ]
}

/// Builds the world map: sixteen named territories in two clusters,
/// Australia and Asia, joined through Indonesia and Southeast Asia.
pub fn setup_territories() -> (g: UnGraph<&'static str, ()>)
    ensures
        node_names(g) == world_names(),
        edge_list(g) == world_borders(),
{
    let mut g = new_map();

    let aus_wa = add_territory(&mut g, "Western Australia");
    let aus_ea = add_territory(&mut g, "Eastern Australia");
    let aus_ng = add_territory(&mut g, "New Guinea");
    let aus_id = add_territory(&mut g, "Indonesia");

    add_border(&mut g, aus_wa, aus_ea);
    add_border(&mut g, aus_wa, aus_id);
    add_border(&mut g, aus_ea, aus_ng);
    add_border(&mut g, aus_ng, aus_id);

    let asia_in = add_territory(&mut g, "India");
    let asia_ch = add_territory(&mut g, "China");
    let asia_si = add_territory(&mut g, "Siberia");
    let asia_mo = add_territory(&mut g, "Mongolia");
    let asia_ja = add_territory(&mut g, "Japan");
    let asia_ya = add_territory(&mut g, "Yakutsk");
    let asia_ir = add_territory(&mut g, "Irkutsk");
    let asia_af = add_territory(&mut g, "Afghanistan");
    let asia_me = add_territory(&mut g, "Middle East");
    let asia_se = add_territory(&mut g, "Southeast Asia");
    let asia_ka = add_territory(&mut g, "Kamchatka");
    let asia_ur = add_territory(&mut g, "Ural");

    add_border(&mut g, aus_id, asia_se);
    add_border(&mut g, asia_se, asia_ch);
    add_border(&mut g, asia_se, asia_in);
    add_border(&mut g, asia_in, asia_af);
    add_border(&mut g, asia_in, asia_me);
    add_border(&mut g, asia_in, asia_ch);
    add_border(&mut g, asia_me, asia_af);
    add_border(&mut g, asia_ch, asia_af);
    add_border(&mut g, asia_ch, asia_ur);
    add_border(&mut g, asia_ch, asia_si);
    add_border(&mut g, asia_ch, asia_mo);
    add_border(&mut g, asia_af, asia_ur);
    add_border(&mut g, asia_ja, asia_mo);
    add_border(&mut g, asia_ja, asia_ka);
    add_border(&mut g, asia_mo, asia_si);
    add_border(&mut g, asia_mo, asia_ir);
    add_border(&mut g, asia_mo, asia_ka);
    add_border(&mut g, asia_si, asia_ya);
    add_border(&mut g, asia_si, asia_ur);
    add_border(&mut g, asia_si, asia_ir);
    add_border(&mut g, asia_ka, asia_ir);
    add_border(&mut g, asia_ka, asia_ya);
    add_border(&mut g, asia_ya, asia_ir);
    g
}

} // verus!
