//! What holds of the operations taken together.

use vstd::prelude::*;
use vstd::arithmetic::div_mod::{lemma_mod_self_0, lemma_small_mod};
use crate::edge::{EdgeType, EdgeView};
use crate::filter::{lemma_filter_all, lemma_filter_take_step};
use crate::model::{clear_of, other_than, untouched_by, GraphView};

verus! {

/// In a graph whose nodes carry their positions as ids there is no gap: the
/// next node gets the number of nodes as its id.
pub proof fn lemma_no_gap(g: GraphView, from: int)
    requires
        0 <= from <= g.nodes.len(),
        forall|i: int| 0 <= i < g.nodes.len() ==> (#[trigger] g.nodes[i]).id == i,
    ensures
        g.first_gap_from(from) == g.nodes.len(),
    decreases g.nodes.len() - from,
{
    if from < g.nodes.len() {
        lemma_no_gap(g, from + 1);
    }
}

/// The empty graph is consistent.
pub proof fn lemma_empty_consistent()
    ensures
        GraphView::empty().consistent(),
{
}

/// Adding a node to a consistent graph gives a consistent graph, and the new
/// node's id is its position.
pub proof fn lemma_add_node_consistent(g: GraphView)
    requires
        g.consistent(),
        g.nodes.len() <= usize::MAX,
    ensures
        g.add_node().consistent(),
        g.next_node_id() == g.nodes.len(),
        g.add_node().nodes.len() == g.nodes.len() + 1,
        g.add_node().edges == g.edges,
{
    lemma_no_gap(g, 0);
    let h = g.add_node();
    assert forall|i: int, k: int|
        0 <= i < h.nodes.len() && 0 <= k < h.nodes[i].edges.len() implies #[trigger] h.nodes[i].edges[k]
        < h.edges.len() by {
        assert(h.nodes[i] == g.nodes[i]);
        assert(g.nodes[i].edges[k] < g.edges.len());
    }
    assert forall|j: int| 0 <= j < h.edges.len() implies (#[trigger] h.edges[j]).source
        < h.nodes.len() && h.edges[j].target < h.nodes.len() by {
        assert(g.edges[j].source < g.nodes.len());
    }
}

/// Registering an edge id that is the position of an edge, on a node of the
/// graph, changes nothing but that node's incidence list.
pub proof fn lemma_attach(g: GraphView, n: int, e: usize)
    requires
        0 <= n < g.nodes.len(),
        e < g.edges.len(),
        g.incidence_in_range(),
    ensures
        g.attach(n, e).incidence_in_range(),
        g.attach(n, e).edges == g.edges,
        g.attach(n, e).nodes.len() == g.nodes.len(),
        forall|i: int|
            0 <= i < g.nodes.len() ==> (#[trigger] g.attach(n, e).nodes[i]).id == g.nodes[i].id,
        forall|i: int|
            0 <= i < g.nodes.len() ==> (#[trigger] g.attach(n, e).nodes[i]).edges.len()
                == g.nodes[i].edges.len() + if i == n { 1int } else { 0int },
{
    let h = g.attach(n, e);
    assert forall|i: int, k: int|
        0 <= i < h.nodes.len() && 0 <= k < h.nodes[i].edges.len() implies #[trigger] h.nodes[i].edges[k]
        < h.edges.len() by {
        if i == n {
            if k < g.nodes[n].edges.len() {
                assert(g.nodes[i].edges[k] < g.edges.len());
            }
        } else {
            assert(g.nodes[i].edges[k] < g.edges.len());
        }
    }
}

/// Adding an edge of either kind between two nodes of a consistent graph
/// gives a consistent graph with one edge more, which carries the kind and
/// the endpoints given.
pub proof fn lemma_add_edge_consistent(g: GraphView, edge_type: EdgeType, n1: usize, n2: usize)
    requires
        g.consistent(),
        g.edges.len() <= usize::MAX,
        n1 < g.nodes.len(),
        n2 < g.nodes.len(),
    ensures
        g.add_edge_of(edge_type, n1, n2).consistent(),
        g.add_edge_of(edge_type, n1, n2).nodes.len() == g.nodes.len(),
        g.add_edge_of(edge_type, n1, n2).edges == g.edges.push(
            EdgeView { source: n1, target: n2, id: g.edges.len() as usize, edge_type },
        ),
        forall|i: int|
            0 <= i < g.nodes.len() ==> (#[trigger] g.add_edge_of(edge_type, n1, n2).nodes[i]).edges.len()
                == g.nodes[i].edges.len() + (if i == n1 { 1int } else { 0int }) + (if i == n2
                && edge_type == EdgeType::Undirected { 1int } else { 0int }),
{
    let pushed = g.push_edge(n1, n2, edge_type);
    let id = g.edges.len() as usize;
    let once = pushed.attach(n1 as int, id);
    assert forall|i: int, k: int|
        0 <= i < pushed.nodes.len() && 0 <= k < pushed.nodes[i].edges.len() implies #[trigger] pushed.nodes[i].edges[k]
        < pushed.edges.len() by {
        assert(g.nodes[i].edges[k] < g.edges.len());
    }
    lemma_attach(pushed, n1 as int, id);
    lemma_attach(once, n2 as int, id);
    let h = g.add_edge_of(edge_type, n1, n2);
    assert(h.edges == pushed.edges);
    assert forall|j: int| 0 <= j < h.edges.len() implies (#[trigger] h.edges[j]).source
        < h.nodes.len() && h.edges[j].target < h.nodes.len() by {
        if j < g.edges.len() {
            assert(g.edges[j].source < g.nodes.len());
        }
    }
}

/// Adding nodes to a consistent graph keeps it consistent.
pub proof fn lemma_add_nodes_consistent(g: GraphView, k: nat)
    requires
        g.consistent(),
        g.nodes.len() + k <= usize::MAX,
    ensures
        g.add_nodes(k).consistent(),
        g.add_nodes(k).nodes.len() == g.nodes.len() + k,
        g.add_nodes(k).edges == g.edges,
        g.add_nodes(k).next_node_id() == g.nodes.len() + k,
        forall|i: int|
            g.nodes.len() <= i < g.nodes.len() + k ==> (#[trigger] g.add_nodes(k).nodes[i]).edges.len()
                == 0,
    decreases k,
{
    if k > 0 {
        lemma_add_nodes_consistent(g, (k - 1) as nat);
        lemma_add_node_consistent(g.add_nodes((k - 1) as nat));
    }
    lemma_no_gap(g.add_nodes(k), 0);
}

/// The first `k` edges of a cycle, added to `n` nodes without edges: the
/// graph stays consistent, edge `j` leads from node `j` to its successor and
/// has the kind asked for, and each node carries the number of edge ids that
/// `cycle_degree` gives.
pub proof fn lemma_cycle_edges(g: GraphView, n: nat, k: nat, edge_type: EdgeType)
    requires
        g.consistent(),
        g.nodes.len() == n,
        g.edges.len() == 0,
        forall|i: int| 0 <= i < n ==> (#[trigger] g.nodes[i]).edges.len() == 0,
        k <= n <= usize::MAX,
    ensures
        g.add_cycle_edges(n, k, edge_type).consistent(),
        g.add_cycle_edges(n, k, edge_type).nodes.len() == n,
        g.add_cycle_edges(n, k, edge_type).edges.len() == k,
        forall|i: int|
            0 <= i < n ==> (#[trigger] g.add_cycle_edges(n, k, edge_type).nodes[i]).edges.len()
                == GraphView::cycle_degree(n, k, i, edge_type),
        forall|j: int|
            0 <= j < k ==> (#[trigger] g.add_cycle_edges(n, k, edge_type).edges[j]) == (EdgeView {
                source: j as usize,
                target: ((j + 1) % (n as int)) as usize,
                id: j as usize,
                edge_type,
            }),
    decreases k,
{
    if k > 0 {
        let before = g.add_cycle_edges(n, (k - 1) as nat, edge_type);
        lemma_cycle_edges(g, n, (k - 1) as nat, edge_type);
        if k < n {
            lemma_small_mod(k, n);
        } else {
            lemma_mod_self_0(n as int);
        }
        lemma_add_edge_consistent(before, edge_type, (k - 1) as usize, (k % n) as usize);
    }
}

/// In a cycle of `n` nodes built from the empty graph, the graph has `n`
/// nodes and `n` edges, every edge has the kind asked for, and every node
/// carries exactly two edge ids where the edges are undirected, exactly one,
/// that of the edge leaving it, where they are directed.
pub proof fn lemma_cycle_degrees(n: nat, edge_type: EdgeType)
    requires
        n <= usize::MAX,
    ensures
        GraphView::cycle(n, edge_type).consistent(),
        GraphView::cycle(n, edge_type).nodes.len() == n,
        GraphView::cycle(n, edge_type).edges.len() == n,
        forall|j: int|
            0 <= j < n ==> (#[trigger] GraphView::cycle(n, edge_type).edges[j]).edge_type
                == edge_type,
        forall|i: int|
            0 <= i < n ==> (#[trigger] GraphView::cycle(n, edge_type).nodes[i]).edges.len() == (
            match edge_type {
                EdgeType::Directed => 1int,
                EdgeType::Undirected => 2int,
            }),
{
    let g = GraphView::empty().add_nodes(n);
    lemma_empty_consistent();
    lemma_add_nodes_consistent(GraphView::empty(), n);
    lemma_cycle_edges(g, n, n, edge_type);
}

/// Copying edges into a consistent graph, between nodes of that graph, keeps
/// it consistent.
pub proof fn lemma_import_edges_consistent(
    g: GraphView,
    src: GraphView,
    pairs: Seq<(usize, usize)>,
    k: nat,
)
    requires
        g.consistent(),
        src.endpoints_in_range(),
        pairs.len() == src.nodes.len(),
        forall|i: int| 0 <= i < pairs.len() ==> (#[trigger] pairs[i]).1 < g.nodes.len(),
        k <= src.edges.len(),
        g.edges.len() + k <= usize::MAX,
    ensures
        g.import_edges(src, pairs, k).consistent(),
    decreases k,
{
    if k > 0 {
        let before = g.import_edges(src, pairs, (k - 1) as nat);
        lemma_import_edges_consistent(g, src, pairs, (k - 1) as nat);
        g.lemma_import_edges(src, pairs, (k - 1) as nat);
        let e = src.edges[k - 1];
        assert(pairs[e.source as int].1 < g.nodes.len());
        assert(pairs[e.target as int].1 < g.nodes.len());
        lemma_add_edge_consistent(
            before,
            e.edge_type,
            pairs[e.source as int].1,
            pairs[e.target as int].1,
        );
    }
}

/// A merge appends one edge per edge of the source, in the source's order,
/// and each copy has the kind of the edge it was copied from: a directed edge
/// stays directed, an undirected edge undirected.
pub proof fn lemma_merge_keeps_kinds(dst: GraphView, src: GraphView)
    requires
        src.endpoints_in_range(),
    ensures
        dst.merge(src).nodes.len() == dst.nodes.len() + src.nodes.len(),
        dst.merge(src).edges.len() == dst.edges.len() + src.edges.len(),
        forall|j: int|
            0 <= j < dst.edges.len() ==> #[trigger] dst.merge(src).edges[j] == dst.edges[j],
        forall|p: int|
            dst.edges.len() <= p < dst.edges.len() + src.edges.len() ==> #[trigger] dst.merge(
                src,
            ).edges[p] == dst.merged_edge(src, p - dst.edges.len()),
        forall|p: int|
            dst.edges.len() <= p < dst.edges.len() + src.edges.len() ==> (#[trigger] dst.merge(
                src,
            ).edges[p]).edge_type == src.edges[p - dst.edges.len()].edge_type,
{
    let n = src.nodes.len();
    let grown = dst.add_nodes(n);
    let pairs = dst.node_pairs(src);
    dst.lemma_add_nodes(n);
    assert forall|i: int| 0 <= i < pairs.len() implies (#[trigger] pairs[i]).1
        < grown.nodes.len() by {
        dst.lemma_add_nodes(i as nat);
    }
    grown.lemma_import_edges(src, pairs, src.edges.len());
    assert forall|p: int|
        dst.edges.len() <= p < dst.edges.len() + src.edges.len() implies #[trigger] dst.merge(
        src,
    ).edges[p] == dst.merged_edge(src, p - dst.edges.len()) by {
        let j = p - dst.edges.len();
        assert(dst.merge(src).edges[grown.edges.len() + j] == dst.merged_edge(src, j));
    }
}

/// Merging a consistent graph into a consistent graph gives a consistent
/// graph. Node `i` of the source is copied to the position behind the
/// destination's nodes and `i` more, edge `j` to the position behind the
/// destination's edges and `j` more, and each copied edge connects the copies
/// of its endpoints.
pub proof fn lemma_merge_consistent(dst: GraphView, src: GraphView)
    requires
        dst.consistent(),
        src.consistent(),
        dst.nodes.len() + src.nodes.len() <= usize::MAX,
        dst.edges.len() + src.edges.len() <= usize::MAX,
    ensures
        dst.merge(src).consistent(),
        dst.merge(src).nodes.len() == dst.nodes.len() + src.nodes.len(),
        dst.merge(src).edges.len() == dst.edges.len() + src.edges.len(),
        dst.node_pairs(src) == Seq::new(
            src.nodes.len(),
            |i: int| (i as usize, (dst.nodes.len() + i) as usize),
        ),
        dst.edge_pairs(src) == Seq::new(
            src.edges.len(),
            |j: int| (j as usize, (dst.edges.len() + j) as usize),
        ),
        forall|p: int|
            dst.edges.len() <= p < dst.edges.len() + src.edges.len() ==> #[trigger] dst.merge(
                src,
            ).edges[p] == (EdgeView {
                source: (dst.nodes.len() + src.edges[p - dst.edges.len()].source) as usize,
                target: (dst.nodes.len() + src.edges[p - dst.edges.len()].target) as usize,
                id: p as usize,
                edge_type: src.edges[p - dst.edges.len()].edge_type,
            }),
{
    let n = src.nodes.len();
    let grown = dst.add_nodes(n);
    let pairs = dst.node_pairs(src);
    let shifted = Seq::new(n, |i: int| (i as usize, (dst.nodes.len() + i) as usize));
    lemma_add_nodes_consistent(dst, n);
    assert forall|i: int| 0 <= i < n implies pairs[i] == shifted[i] by {
        lemma_add_nodes_consistent(dst, i as nat);
    }
    assert(pairs =~= shifted);
    assert(dst.edge_pairs(src) =~= Seq::new(
        src.edges.len(),
        |j: int| (j as usize, (dst.edges.len() + j) as usize),
    ));
    lemma_import_edges_consistent(grown, src, pairs, src.edges.len());
    lemma_merge_keeps_kinds(dst, src);
    assert forall|p: int|
        dst.edges.len() <= p < dst.edges.len() + src.edges.len() implies #[trigger] dst.merge(
        src,
    ).edges[p] == (EdgeView {
        source: (dst.nodes.len() + src.edges[p - dst.edges.len()].source) as usize,
        target: (dst.nodes.len() + src.edges[p - dst.edges.len()].target) as usize,
        id: p as usize,
        edge_type: src.edges[p - dst.edges.len()].edge_type,
    }) by {
        let e = src.edges[p - dst.edges.len()];
        assert(e.source < n && e.target < n);
        assert(pairs[e.source as int] == shifted[e.source as int]);
        assert(pairs[e.target as int] == shifted[e.target as int]);
    }
}

/// The attributes `into` after the first `k` pairs have been applied: for
/// each pair, what `from` holds under the pair's first id is stored under its
/// second id.
pub open spec fn rekeyed<T>(
    into: Map<usize, T>,
    from: Map<usize, T>,
    pairs: Seq<(usize, usize)>,
    k: nat,
) -> Map<usize, T>
    decreases k,
{
    if k == 0 {
        into
    } else {
        rekeyed(into, from, pairs, (k - 1) as nat).insert(pairs[k - 1].1, from[pairs[k - 1].0])
    }
}

/// Re-keying with pairs that send id `i` to `base + i`, into attributes whose
/// keys all lie below `base`: every old entry stays, every entry of the first
/// `k` ids of `from` arrives under its new key, and no other key appears.
pub proof fn lemma_rekey_shifted<T>(
    into: Map<usize, T>,
    from: Map<usize, T>,
    pairs: Seq<(usize, usize)>,
    base: nat,
    k: nat,
)
    requires
        k <= pairs.len(),
        base + pairs.len() <= usize::MAX,
        forall|i: int|
            0 <= i < pairs.len() ==> #[trigger] pairs[i] == (i as usize, (base + i) as usize),
        forall|key: usize| #[trigger] into.contains_key(key) ==> key < base,
    ensures
        forall|key: usize|
            #[trigger] rekeyed(into, from, pairs, k).contains_key(key) <==> into.contains_key(key)
                || base <= key < base + k,
        forall|key: usize|
            into.contains_key(key) ==> #[trigger] rekeyed(into, from, pairs, k)[key] == into[key],
        forall|i: int|
            0 <= i < k ==> #[trigger] rekeyed(into, from, pairs, k)[(base + i) as usize]
                == from[i as usize],
    decreases k,
{
    if k > 0 {
        let before = rekeyed(into, from, pairs, (k - 1) as nat);
        let now = rekeyed(into, from, pairs, k);
        let new_key = (base + k - 1) as usize;
        lemma_rekey_shifted(into, from, pairs, base, (k - 1) as nat);
        assert(pairs[k - 1] == ((k - 1) as usize, new_key));
        assert(now == before.insert(new_key, from[(k - 1) as usize]));
        assert forall|key: usize| #[trigger] now.contains_key(key) <==> into.contains_key(key)
            || base <= key < base + k by {
            assert(before.contains_key(key) <==> into.contains_key(key) || base <= key < base + k
                - 1);
        }
        assert forall|key: usize| into.contains_key(key) implies #[trigger] now[key]
            == into[key] by {
            assert(before[key] == into[key]);
        }
        assert forall|i: int| 0 <= i < k implies #[trigger] now[(base + i) as usize]
            == from[i as usize] by {
            if i < k - 1 {
                assert(before[(base + i) as usize] == from[i as usize]);
            }
        }
    }
}

/// Re-keying after a merge of consistent graphs: when the attributes of the
/// destination are keyed by ids of its nodes and its edges, applying the
/// merge's pairs to the attributes of the source puts each of them under the
/// id of its copy. No entry of the destination is overwritten, no entry of
/// the source is lost, and the keys are those of the destination together
/// with the ids of the copies.
pub proof fn lemma_merge_rekeys<T>(
    dst: GraphView,
    src: GraphView,
    node_attrs: Map<usize, T>,
    src_node_attrs: Map<usize, T>,
    edge_attrs: Map<usize, T>,
    src_edge_attrs: Map<usize, T>,
)
    requires
        dst.consistent(),
        src.consistent(),
        dst.nodes.len() + src.nodes.len() <= usize::MAX,
        dst.edges.len() + src.edges.len() <= usize::MAX,
        forall|key: usize| #[trigger] node_attrs.contains_key(key) ==> key < dst.nodes.len(),
        forall|key: usize| #[trigger] edge_attrs.contains_key(key) ==> key < dst.edges.len(),
    ensures
        ({
            let nodes = rekeyed(node_attrs, src_node_attrs, dst.node_pairs(src), src.nodes.len());
            let edges = rekeyed(edge_attrs, src_edge_attrs, dst.edge_pairs(src), src.edges.len());
            &&& forall|key: usize| #[trigger]
                nodes.contains_key(key) <==> node_attrs.contains_key(key) || dst.nodes.len() <= key
                    < dst.merge(src).nodes.len()
            &&& forall|key: usize|
                node_attrs.contains_key(key) ==> #[trigger] nodes[key] == node_attrs[key]
            &&& forall|i: int|
                0 <= i < src.nodes.len() ==> #[trigger] nodes[(dst.nodes.len() + i) as usize]
                    == src_node_attrs[i as usize]
            &&& forall|key: usize| #[trigger]
                edges.contains_key(key) <==> edge_attrs.contains_key(key) || dst.edges.len() <= key
                    < dst.merge(src).edges.len()
            &&& forall|key: usize|
                edge_attrs.contains_key(key) ==> #[trigger] edges[key] == edge_attrs[key]
            &&& forall|j: int|
                0 <= j < src.edges.len() ==> #[trigger] edges[(dst.edges.len() + j) as usize]
                    == src_edge_attrs[j as usize]
        }),
{
    lemma_merge_consistent(dst, src);
    lemma_rekey_shifted(
        node_attrs,
        src_node_attrs,
        dst.node_pairs(src),
        dst.nodes.len(),
        src.nodes.len(),
    );
    lemma_rekey_shifted(
        edge_attrs,
        src_edge_attrs,
        dst.edge_pairs(src),
        dst.edges.len(),
        src.edges.len(),
    );
}

/// A list of edge ids that are all positions of edges can be walked to its
/// end.
pub proof fn lemma_scan_defined(g: GraphView, list: Seq<usize>, n: usize, from: int)
    requires
        forall|k: int| 0 <= k < list.len() ==> #[trigger] list[k] < g.edges.len(),
    ensures
        g.scan_defined(list, n, from),
    decreases list.len() - from,
{
    if 0 <= from < list.len() {
        lemma_scan_defined(g, list, n, from + 1);
    }
}

/// What the walk finds is the first id, at or after the start, whose edge
/// has `n` as an endpoint; it finds nothing only where there is no such id.
pub proof fn lemma_first_hit(g: GraphView, list: Seq<usize>, n: usize, from: int)
    requires
        0 <= from,
    ensures
        match g.first_hit(list, n, from) {
            Some(e) => exists|k: int|
                {
                    &&& from <= k < list.len()
                    &&& #[trigger] list[k] == e
                    &&& g.hits(e, n)
                    &&& forall|j: int| from <= j < k ==> !g.hits(#[trigger] list[j], n)
                },
            None => forall|k: int| from <= k < list.len() ==> !g.hits(#[trigger] list[k], n),
        },
    decreases list.len() - from,
{
    if from < list.len() {
        if g.hits(list[from], n) {
            assert(list[from] == list[from]);
        } else {
            lemma_first_hit(g, list, n, from + 1);
            match g.first_hit(list, n, from + 1) {
                Some(e) => {
                    let k = choose|k: int|
                        {
                            &&& from + 1 <= k < list.len()
                            &&& #[trigger] list[k] == e
                            &&& g.hits(e, n)
                            &&& forall|j: int| from + 1 <= j < k ==> !g.hits(#[trigger] list[j], n)
                        };
                    assert(from <= k < list.len() && list[k] == e);
                    assert forall|j: int| from <= j < k implies !g.hits(#[trigger] list[j], n) by {}
                },
                None => {
                    assert forall|k: int| from <= k < list.len() implies !g.hits(
                        #[trigger] list[k],
                        n,
                    ) by {}
                },
            }
        }
    }
}

/// In a consistent graph every lookup between two nodes, of which the first
/// is a node of the graph, and every removal of a node or an edge of the
/// graph is defined.
pub proof fn lemma_consistent_defines(g: GraphView)
    requires
        g.consistent(),
    ensures
        forall|n1: usize, n2: usize| n1 < g.nodes.len() ==> #[trigger] g.lookup_defined(n1, n2),
        forall|id: usize| id < g.nodes.len() ==> #[trigger] g.node_removal_defined(id),
        forall|id: usize| id < g.edges.len() ==> #[trigger] g.edge_removal_defined(id),
        forall|n1: usize, n2: usize|
            n1 < g.nodes.len() ==> (#[trigger] g.edge_between(n1, n2) matches Some(e)
                ==> g.edge_removal_defined(e)),
{
    assert forall|n1: usize, n2: usize| n1 < g.nodes.len() implies #[trigger] g.lookup_defined(
        n1,
        n2,
    ) by {
        let list = g.nodes[n1 as int].edges;
        assert forall|k: int| 0 <= k < list.len() implies #[trigger] list[k] < g.edges.len() by {
            assert(g.nodes[n1 as int].edges[k] < g.edges.len());
        }
        lemma_scan_defined(g, list, n2, 0);
    }
    assert forall|id: usize| id < g.edges.len() implies #[trigger] g.edge_removal_defined(id) by {
        assert(g.edges[id as int].source < g.nodes.len());
    }
    assert forall|n1: usize, n2: usize| n1 < g.nodes.len() implies (#[trigger] g.edge_between(
        n1,
        n2,
    ) matches Some(e) ==> g.edge_removal_defined(e)) by {
        lemma_first_hit(g, g.nodes[n1 as int].edges, n2, 0);
    }
}

/// Taking id `e` out of a list that holds only smaller ids, after `e` has
/// been appended to it once or twice, gives the list back.
pub proof fn lemma_filter_appended(list: Seq<usize>, e: usize)
    requires
        forall|k: int| 0 <= k < list.len() ==> #[trigger] list[k] < e,
    ensures
        list.filter(other_than(e)) == list,
        list.push(e).filter(other_than(e)) == list,
        list.push(e).push(e).filter(other_than(e)) == list,
{
    lemma_filter_all(list, other_than(e));
    let once = list.push(e);
    let twice = once.push(e);
    lemma_filter_take_step(once, other_than(e), list.len() as int);
    assert(once.take(list.len() as int) =~= list);
    assert(once.take(list.len() as int + 1) =~= once);
    lemma_filter_take_step(twice, other_than(e), once.len() as int);
    assert(twice.take(once.len() as int) =~= once);
    assert(twice.take(once.len() as int + 1) =~= twice);
}

/// Removing the edge that was added last to a consistent graph gives the
/// graph back as it was before the edge was added.
pub proof fn lemma_add_then_remove_edge(g: GraphView, edge_type: EdgeType, n1: usize, n2: usize)
    requires
        g.consistent(),
        g.edges.len() <= usize::MAX,
        n1 < g.nodes.len(),
        n2 < g.nodes.len(),
    ensures
        g.add_edge_of(edge_type, n1, n2).edge_removal_defined(g.edges.len() as usize),
        g.add_edge_of(edge_type, n1, n2).remove_edge(g.edges.len() as usize) == g,
{
    let id = g.edges.len() as usize;
    let h = g.add_edge_of(edge_type, n1, n2);
    let back = h.remove_edge(id);
    lemma_add_edge_consistent(g, edge_type, n1, n2);
    assert(back.edges =~= g.edges);
    assert forall|i: int| 0 <= i < g.nodes.len() implies #[trigger] back.nodes[i] == g.nodes[i] by {
        let list = g.nodes[i].edges;
        assert forall|k: int| 0 <= k < list.len() implies #[trigger] list[k] < id by {
            assert(g.nodes[i].edges[k] < g.edges.len());
        }
        lemma_filter_appended(list, id);
    }
    assert(back.nodes =~= g.nodes);
}

/// Removing the node that was added last to a consistent graph gives the
/// graph back as it was before the node was added.
pub proof fn lemma_add_then_remove_node(g: GraphView)
    requires
        g.consistent(),
        g.nodes.len() <= usize::MAX,
    ensures
        g.add_node().node_removal_defined(g.nodes.len() as usize),
        g.add_node().remove_node(g.nodes.len() as usize) == g,
{
    let id = g.nodes.len() as usize;
    let h = g.add_node();
    let back = h.remove_node(id);
    lemma_add_node_consistent(g);
    assert forall|j: int| 0 <= j < g.edges.len() implies untouched_by(id)(#[trigger] g.edges[j]) by {
        assert(g.edges[j].source < g.nodes.len());
    }
    lemma_filter_all(g.edges, untouched_by(id));
    assert(h.nodes.remove(id as int) =~= g.nodes);
    assert forall|i: int| 0 <= i < g.nodes.len() implies #[trigger] back.nodes[i] == g.nodes[i] by {
        let list = g.nodes[i].edges;
        assert forall|k: int| 0 <= k < list.len() implies clear_of(g.edges, id)(
            #[trigger] list[k],
        ) by {
            assert(g.nodes[i].edges[k] < g.edges.len());
            assert(g.edges[list[k] as int].source < g.nodes.len());
        }
        lemma_filter_all(list, clear_of(g.edges, id));
    }
    assert(back.nodes =~= g.nodes);
}

} // verus!
