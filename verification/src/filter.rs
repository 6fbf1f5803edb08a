//! Order-preserving removal from the graph's collections.

use vstd::prelude::*;
use crate::edge::{Edge, EdgeView};
use crate::model::{clear_of, other_than, untouched_by};

verus! {

/// The values of a sequence of edges, position by position.
pub open spec fn edge_views(s: Seq<Edge>) -> Seq<EdgeView> {
    s.map_values(|e: Edge| e@)
}

/// Filtering one element more either appends that element or changes nothing.
pub proof fn lemma_filter_take_step<A>(s: Seq<A>, keep: spec_fn(A) -> bool, k: int)
    requires
        0 <= k < s.len(),
    ensures
        s.take(k + 1).filter(keep) == if keep(s[k]) {
            s.take(k).filter(keep).push(s[k])
        } else {
            s.take(k).filter(keep)
        },
{
    reveal(Seq::filter);
    assert(s.take(k + 1).drop_last() =~= s.take(k));
}

/// Filtering a sequence whose elements all pass gives the sequence back.
pub proof fn lemma_filter_all<A>(s: Seq<A>, keep: spec_fn(A) -> bool)
    requires
        forall|i: int| 0 <= i < s.len() ==> keep(#[trigger] s[i]),
    ensures
        s.filter(keep) == s,
    decreases s.len(),
{
    reveal(Seq::filter);
    if s.len() > 0 {
        lemma_filter_all(s.drop_last(), keep);
        assert(s.drop_last().push(s.last()) =~= s);
    }
}

/// The ids of `list` other than `id`, in order.
pub fn without_id(list: &Vec<usize>, id: usize) -> (out: Vec<usize>)
    ensures
        out@ == list@.filter(other_than(id)),
{
    let mut out: Vec<usize> = Vec::new();
    let mut k: usize = 0;
    while k < list.len()
        invariant
            k <= list.len(),
            out@ == list@.take(k as int).filter(other_than(id)),
        decreases list.len() - k,
    {
        proof {
            lemma_filter_take_step(list@, other_than(id), k as int);
        }
        if list[k] != id {
            out.push(list[k]);
        }
        k += 1;
    }
    assert(list@.take(list.len() as int) =~= list@);
    out
}

/// The ids of `list` whose edge does not have node `n` as an endpoint, in
/// order. Every id must be the position of an edge.
pub fn without_edges_at(list: &Vec<usize>, edges: &Vec<Edge>, n: usize) -> (out: Vec<usize>)
    requires
        forall|k: int| 0 <= k < list.len() ==> list[k] < edges.len(),
    ensures
        out@ == list@.filter(clear_of(edge_views(edges@), n)),
{
    let ghost keep = clear_of(edge_views(edges@), n);
    let mut out: Vec<usize> = Vec::new();
    let mut k: usize = 0;
    while k < list.len()
        invariant
            k <= list.len(),
            forall|j: int| 0 <= j < list.len() ==> list[j] < edges.len(),
            keep == clear_of(edge_views(edges@), n),
            out@ == list@.take(k as int).filter(keep),
        decreases list.len() - k,
    {
        proof {
            lemma_filter_take_step(list@, keep, k as int);
        }
        let e = list[k];
        if !edges[e].touches(n) {
            out.push(e);
        }
        k += 1;
    }
    assert(list@.take(list.len() as int) =~= list@);
    out
}

/// The edges that do not have node `n` as an endpoint, in order.
pub fn edges_clear_of(edges: &Vec<Edge>, n: usize) -> (out: Vec<Edge>)
    ensures
        edge_views(out@) == edge_views(edges@).filter(untouched_by(n)),
{
    let ghost all = edge_views(edges@);
    let mut out: Vec<Edge> = Vec::new();
    let mut k: usize = 0;
    assert(edge_views(out@) =~= all.take(0).filter(untouched_by(n)));
    while k < edges.len()
        invariant
            k <= edges.len(),
            all == edge_views(edges@),
            edge_views(out@) == all.take(k as int).filter(untouched_by(n)),
        decreases edges.len() - k,
    {
        proof {
            lemma_filter_take_step(all, untouched_by(n), k as int);
        }
        if !edges[k].touches(n) {
            let ghost before = out@;
            out.push(edges[k]);
            assert(edge_views(out@) =~= edge_views(before).push(edges[k as int]@));
        }
        k += 1;
    }
    assert(all.take(edges.len() as int) =~= all);
    out
}

} // verus!
