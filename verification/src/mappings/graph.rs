//! The graph of naming schemes and the planner: a shortest path through the
//! available one-directional mappings, found by the `petgraph` crate's
//! A-star search over a directed graph map.
use vstd::prelude::*;

use crate::mappings::MappingType;
use crate::names::NamesType;
use crate::{ErrorKind, SPError};

verus! {

/// The scheme graph, held as the `petgraph` crate's directed graph map over
/// plain node and edge codes.
#[verifier::external_body]
pub struct SchemeGraph {
    inner: petgraph::graphmap::DiGraphMap<u8, u8>,
}

/// Names the edge set a scheme graph holds: edge label keyed by the ordered
/// node pair.
pub uninterp spec fn graph_edges(g: SchemeGraph) -> Map<(u8, u8), u8>;

impl View for SchemeGraph {
    type V = Map<(u8, u8), u8>;

    open spec fn view(&self) -> Map<(u8, u8), u8> {
        graph_edges(*self)
    }
}

/// The edge set of a graph no edge was added to.
pub open spec fn no_edges() -> Map<(u8, u8), u8> {
    Map::empty()
}

/// The edge set after one directed edge is added or relabelled.
pub open spec fn with_edge(m: Map<(u8, u8), u8>, a: u8, b: u8, w: u8) -> Map<(u8, u8), u8> {
    m.insert((a, b), w)
}

/// A walk through the edge set from `from` to `to`, node by node.
pub open spec fn is_path(edges: Map<(u8, u8), u8>, p: Seq<u8>, from: u8, to: u8) -> bool {
    &&& p.len() >= 1
    &&& p[0] == from
    &&& p[p.len() - 1] == to
    &&& forall|i: int| 0 <= i < p.len() - 1 ==> edges.contains_key((#[trigger] p[i], p[i + 1]))
}

/// Relies on `petgraph::graphmap::DiGraphMap::new`: an empty graph.
#[verifier::external_body]
fn graph_new() -> (r: SchemeGraph)
    ensures
        r@ == no_edges(),
{
    SchemeGraph { inner: petgraph::graphmap::DiGraphMap::new() }
}

/// Relies on `petgraph::graphmap::GraphMap::add_edge`: inserts the directed
/// edge and its endpoints, replacing any previous label of that edge.
#[verifier::external_body]
fn graph_add_edge(g: &mut SchemeGraph, a: u8, b: u8, w: u8)
    ensures
        final(g)@ == with_edge(old(g)@, a, b, w),
{
    g.inner.add_edge(a, b, w);
}

/// Relies on `petgraph::algo::astar` with unit edge cost and zero heuristic:
/// it returns a path with the fewest edges from `from` to `to` when one
/// exists, and nothing when none does.
#[verifier::external_body]
fn graph_shortest_path(g: &SchemeGraph, from: u8, to: u8) -> (r: Option<Vec<u8>>)
    ensures
        match r {
            Some(p) => is_path(graph_edges(*g), p@, from, to) && forall|q: Seq<u8>|
                is_path(graph_edges(*g), q, from, to) ==> p@.len() <= q.len(),
            None => forall|q: Seq<u8>| !is_path(graph_edges(*g), q, from, to),
        },
{
    petgraph::algo::astar(&g.inner, from, |n| n == to, |_| 1u32, |_| 0u32).map(|(_, p)| p)
}

/// The node code of a naming scheme.
pub open spec fn spec_names_code(n: NamesType) -> u8 {
    match n {
        NamesType::Obfuscated => 0,
        NamesType::Mojang => 1,
        NamesType::FabricIntermediary => 2,
    }
}

fn names_code(n: NamesType) -> (r: u8)
    ensures
        r == spec_names_code(n),
{
    match n {
        NamesType::Obfuscated => 0,
        NamesType::Mojang => 1,
        NamesType::FabricIntermediary => 2,
    }
}

/// The initial edge set: the two bidirectional pairs the loaders cover.
pub open spec fn scheme_edges() -> Map<(u8, u8), u8> {
    Map::<(u8, u8), u8>::empty().insert((0u8, 1u8), 0u8).insert((1u8, 0u8), 1u8).insert(
        (0u8, 2u8),
        2u8,
    ).insert((2u8, 0u8), 3u8)
}

/// The loader a graph edge stands for, or nothing off the edge set.
pub open spec fn spec_edge_loader(a: u8, b: u8) -> Option<MappingType> {
    if a == 0 && b == 1 {
        Some(MappingType::ObfToMojang)
    } else if a == 1 && b == 0 {
        Some(MappingType::MojangToObf)
    } else if a == 0 && b == 2 {
        Some(MappingType::ObfToFabricIntermediary)
    } else if a == 2 && b == 0 {
        Some(MappingType::FabricIntermediaryToObf)
    } else {
        None
    }
}

fn edge_loader(a: u8, b: u8) -> (r: Option<MappingType>)
    ensures
        r == spec_edge_loader(a, b),
{
    if a == 0 && b == 1 {
        Some(MappingType::ObfToMojang)
    } else if a == 1 && b == 0 {
        Some(MappingType::MojangToObf)
    } else if a == 0 && b == 2 {
        Some(MappingType::ObfToFabricIntermediary)
    } else if a == 2 && b == 0 {
        Some(MappingType::FabricIntermediaryToObf)
    } else {
        None
    }
}

/// Plan a conversion: the ordered loaders of a shortest path through the
/// scheme graph.  A conversion of a scheme to itself is rejected as
/// unsupported rather than answered with an identity mapper.
#[verifier::rlimit(50)]
pub fn plan_conversion(from: NamesType, to: NamesType) -> (r: Result<Vec<MappingType>, SPError>)
    ensures
        match r {
            Ok(plan) => {
                &&& from != to
                &&& 1 <= plan@.len() <= 2
                &&& plan@[0].spec_from() == from
                &&& plan@[plan@.len() - 1].spec_to() == to
                &&& forall|i: int|
                    0 <= i < plan@.len() - 1 ==> (#[trigger] plan@[i]).spec_to() == plan@[i
                        + 1].spec_from()
            },
            Err(e) => from == to && e.kind == ErrorKind::UnsupportedConversion,
        },
{
    if from == to {
        return Err(SPError::new(ErrorKind::UnsupportedConversion));
    }
    let mut g = graph_new();
    graph_add_edge(&mut g, 0, 1, 0);
    graph_add_edge(&mut g, 1, 0, 1);
    graph_add_edge(&mut g, 0, 2, 2);
    graph_add_edge(&mut g, 2, 0, 3);
    proof {
        assert(g@ == scheme_edges());
    }
    let a = names_code(from);
    let b = names_code(to);
    proof {
        lemma_pairs_connected(a, b);
    }
    let path = match graph_shortest_path(&g, a, b) {
        Some(p) => p,
        None => {
            // Unreachable: distinct schemes are always connected here.
            proof {
                let w = choose|q: Seq<u8>| is_path(scheme_edges(), q, a, b) && q.len() <= 3;
                assert(false);
            }
            return Err(SPError::new(ErrorKind::UnsupportedConversion));
        },
    };
    proof {
        let w = choose|q: Seq<u8>| is_path(scheme_edges(), q, a, b) && q.len() <= 3;
        assert(path@.len() <= w.len());
    }
    let mut plan: Vec<MappingType> = Vec::new();
    let mut i: usize = 0;
    while i + 1 < path.len()
        invariant
            path@.len() >= 1,
            path@.len() <= 3,
            i <= path@.len() - 1,
            plan@.len() == i,
            is_path(scheme_edges(), path@, spec_names_code(from), spec_names_code(to)),
            forall|k: int|
                0 <= k < i ==> spec_edge_loader(path@[k], path@[k + 1]) == Some(
                    #[trigger] plan@[k],
                ),
        decreases path@.len() - i,
    {
        proof {
            assert(scheme_edges().contains_key((path@[i as int], path@[i + 1])));
        }
        match edge_loader(path[i], path[i + 1]) {
            Some(m) => {
                plan.push(m);
            },
            None => {
                // Unreachable: every edge of the path is in the edge set.
                proof {
                    assert(false);
                }
                return Err(SPError::new(ErrorKind::UnsupportedConversion));
            },
        }
        i += 1;
    }
    proof {
        assert(plan@.len() == path@.len() - 1);
        assert(path@.len() >= 2) by {
            if path@.len() == 1 {
                assert(path@[0] == spec_names_code(from) && path@[0] == spec_names_code(to));
            }
        }
        assert(plan@[0].spec_from() == from) by {
            assert(spec_edge_loader(path@[0], path@[1]) == Some(plan@[0]));
        }
        assert(plan@[plan@.len() - 1].spec_to() == to) by {
            assert(spec_edge_loader(path@[plan@.len() - 1], path@[plan@.len() as int]) == Some(
                plan@[plan@.len() - 1],
            ));
        }
        assert forall|k: int| 0 <= k < plan@.len() - 1 implies (#[trigger] plan@[k]).spec_to()
            == plan@[k + 1].spec_from() by {
            assert(spec_edge_loader(path@[k], path@[k + 1]) == Some(plan@[k]));
            assert(spec_edge_loader(path@[k + 1], path@[k + 2]) == Some(plan@[k + 1]));
        }
    }
    Ok(plan)
}

/// Between any two distinct schemes there is a walk of at most three nodes:
/// the direct edge over the obfuscated hub, or the two-edge route through
/// it.
proof fn lemma_pairs_connected(a: u8, b: u8)
    requires
        a < 3,
        b < 3,
        a != b,
    ensures
        exists|q: Seq<u8>| is_path(scheme_edges(), q, a, b) && q.len() <= 3,
{
    if a == 0 || b == 0 {
        let w = seq![a, b];
        assert(is_path(scheme_edges(), w, a, b));
    } else {
        let w = seq![a, 0u8, b];
        assert(is_path(scheme_edges(), w, a, b));
    }
}

} // verus!
