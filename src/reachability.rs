//! Saturation-based reachability: the least set that contains a seed and is closed under
//! the one-step successors (or predecessors) by every variable, optionally within a bound.
//!
//! After every productive step the scan over the variables starts again from the first one,
//! which keeps the symbolic sets small in practice; the result does not depend on it.

use vstd::prelude::*;
use biodivine_lib_param_bn::symbolic_async_graph::{GraphColoredVertices, SymbolicAsyncGraph};
use crate::symbolic::{
    Pairs, Transitions, colored_vertices, copy_vertices, in_graph, intersect, is_empty, minus,
    num_vars, post_image, pre_image, transitions, union, valuations, var_count, var_post,
    var_pre, vertex_space, well_formed,
};

verus! {

/// One step along the transitions of variable `v`: forward to the successors, or backward to
/// the predecessors.
pub open spec fn image(t: Transitions, v: nat, x: Pairs, forward: bool) -> Pairs {
    if forward {
        post_image(t, v, x)
    } else {
        pre_image(t, v, x)
    }
}

/// `s` within the bound, when there is one.
pub open spec fn bounded(s: Pairs, bound: Option<Pairs>) -> Pairs {
    match bound {
        Some(b) => s.intersect(b),
        None => s,
    }
}

/// Every step from `x` by one of the first `n` variables that stays within the bound ends
/// in `x`.
pub open spec fn closed_under(t: Transitions, n: nat, x: Pairs, bound: Option<Pairs>, forward: bool) -> bool {
    forall|v: nat| v < n ==> #[trigger] bounded(image(t, v, x, forward), bound).subset_of(x)
}

/// `r` is the least set that contains `seed` and is closed under the steps.
pub open spec fn least_closed(
    t: Transitions,
    n: nat,
    seed: Pairs,
    bound: Option<Pairs>,
    forward: bool,
    r: Pairs,
) -> bool {
    &&& seed.subset_of(r)
    &&& closed_under(t, n, r, bound, forward)
    &&& forall|y: Pairs|
        seed.subset_of(y) && #[trigger] closed_under(t, n, y, bound, forward) ==> r.subset_of(y)
}

/// A step from a larger set reaches at least as much.
pub proof fn lemma_image_monotone(t: Transitions, v: nat, a: Pairs, b: Pairs, forward: bool)
    requires
        a.subset_of(b),
    ensures
        image(t, v, a, forward).subset_of(image(t, v, b, forward)),
{
    assert forall|p: (Seq<bool>, Seq<bool>)| image(t, v, a, forward).contains(p) implies image(
        t,
        v,
        b,
        forward,
    ).contains(p) by {
        if forward {
            let s = choose|s: Seq<bool>| #[trigger] a.contains((s, p.1)) && t.contains((v, s, p.0, p.1));
            assert(b.contains((s, p.1)));
        } else {
            let s = choose|s: Seq<bool>| #[trigger] a.contains((s, p.1)) && t.contains((v, p.0, s, p.1));
            assert(b.contains((s, p.1)));
        }
    }
}

/// Adding a non-empty set of new elements of a finite space leaves fewer elements of the
/// space outside.
pub proof fn lemma_growth_shrinks_rest(space: Pairs, x: Pairs, u: Pairs)
    requires
        space.finite(),
        u.subset_of(space),
        u.disjoint(x),
        u != Set::<(Seq<bool>, Seq<bool>)>::empty(),
    ensures
        space.difference(x.union(u)).len() < space.difference(x).len(),
{
    let p = u.choose();
    assert(u.contains(p)) by {
        assert(!(u =~= Set::<(Seq<bool>, Seq<bool>)>::empty()));
    }
    let rest = space.difference(x);
    assert(space.difference(x.union(u)).subset_of(rest.remove(p)));
    vstd::set_lib::lemma_len_subset(space.difference(x.union(u)), rest.remove(p));
    assert(rest.contains(p));
}

/// The new elements that one step from `set` brings, by the first variable that brings
/// any; `None` when no variable does, that is when `set` is closed.
pub fn next_update(
    graph: &SymbolicAsyncGraph,
    set: &GraphColoredVertices,
    bound: Option<&GraphColoredVertices>,
    forward: bool,
) -> (r: Option<GraphColoredVertices>)
    requires
        in_graph(*set, *graph),
        well_formed(*set),
        bound matches Some(b) ==> in_graph(*b, *graph),
    ensures
        r is None ==> closed_under(
            transitions(*graph),
            var_count(*graph),
            colored_vertices(*set),
            bound_pairs(bound),
            forward,
        ),
        r matches Some(u) ==> in_graph(u, *graph) && well_formed(u) && colored_vertices(u)
            != Set::<(Seq<bool>, Seq<bool>)>::empty() && colored_vertices(u).disjoint(
            colored_vertices(*set),
        ) && exists|v: nat|
            v < var_count(*graph) && colored_vertices(u).subset_of(
                #[trigger] bounded(
                    image(transitions(*graph), v, colored_vertices(*set), forward),
                    bound_pairs(bound),
                ),
            ),
{
    let ghost t = transitions(*graph);
    let ghost x = colored_vertices(*set);
    let n = num_vars(graph);
    let mut i: usize = 0;
    while i < n
        invariant
            n == var_count(*graph),
            t == transitions(*graph),
            x == colored_vertices(*set),
            in_graph(*set, *graph),
            well_formed(*set),
            bound matches Some(b) ==> in_graph(*b, *graph),
            i <= n,
            forall|v: nat| v < i ==> #[trigger] bounded(image(t, v, x, forward), bound_pairs(bound)).subset_of(x),
        decreases n - i,
    {
        let step = if forward {
            var_post(graph, i, set)
        } else {
            var_pre(graph, i, set)
        };
        let within = match bound {
            Some(b) => intersect(&step, b),
            None => step,
        };
        let update = minus(&within, set);
        if !is_empty(&update) {
            proof {
                assert(colored_vertices(update).subset_of(bounded(image(t, i as nat, x, forward), bound_pairs(bound))));
            }
            return Some(update);
        }
        proof {
            assert(bounded(image(t, i as nat, x, forward), bound_pairs(bound)).subset_of(x)) by {
                assert forall|p| bounded(image(t, i as nat, x, forward), bound_pairs(bound)).contains(p) implies x.contains(p) by {
                    assert(colored_vertices(within).contains(p));
                    if !x.contains(p) {
                        assert(colored_vertices(update).contains(p));
                    }
                }
            }
        }
        i = i + 1;
    }
    None
}

/// The pairs of an optional bound.
pub open spec fn bound_pairs(bound: Option<&GraphColoredVertices>) -> Option<Pairs> {
    match bound {
        Some(b) => Some(colored_vertices(*b)),
        None => None,
    }
}

/// The least superset of `initial` closed under the steps by every variable (forward or
/// backward), counting only the steps that stay within `bound` when there is one.
pub fn saturate(
    graph: &SymbolicAsyncGraph,
    initial: &GraphColoredVertices,
    bound: Option<&GraphColoredVertices>,
    forward: bool,
) -> (r: GraphColoredVertices)
    requires
        in_graph(*initial, *graph),
        well_formed(*initial),
        bound matches Some(b) ==> in_graph(*b, *graph),
    ensures
        in_graph(r, *graph),
        well_formed(r),
        least_closed(
            transitions(*graph),
            var_count(*graph),
            colored_vertices(*initial),
            bound_pairs(bound),
            forward,
            colored_vertices(r),
        ),
        colored_vertices(r).subset_of(colored_vertices(*initial).union(
            match bound_pairs(bound) {
                Some(b) => b,
                None => valuations(*graph),
            },
        )),
{
    let ghost t = transitions(*graph);
    let ghost n = var_count(*graph);
    let ghost seed = colored_vertices(*initial);
    let ghost bp = bound_pairs(bound);
    let ghost space = valuations(*graph);
    let ghost limit = match bp {
        Some(b) => b,
        None => space,
    };
    let mut result = copy_vertices(initial);
    loop
        invariant
            t == transitions(*graph),
            n == var_count(*graph),
            space == valuations(*graph),
            seed == colored_vertices(*initial),
            bp == bound_pairs(bound),
            limit == match bp {
                Some(b) => b,
                None => space,
            },
            bound matches Some(b) ==> in_graph(*b, *graph),
            in_graph(result, *graph),
            well_formed(result),
            seed.subset_of(colored_vertices(result)),
            colored_vertices(result).subset_of(seed.union(limit)),
            forall|y: Pairs|
                seed.subset_of(y) && #[trigger] closed_under(t, n, y, bp, forward)
                    ==> colored_vertices(result).subset_of(y),
        ensures
            closed_under(t, n, colored_vertices(result), bp, forward),
        decreases space.difference(colored_vertices(result)).len(),
    {
        match next_update(graph, &result, bound, forward) {
            None => {
                break;
            },
            Some(update) => {
                let ghost x = colored_vertices(result);
                let ghost u = colored_vertices(update);
                proof {
                    let v = choose|v: nat|
                        v < n && u.subset_of(#[trigger] bounded(image(t, v, x, forward), bp));
                    assert forall|y: Pairs|
                        seed.subset_of(y) && #[trigger] closed_under(t, n, y, bp, forward)
                        implies x.union(u).subset_of(y) by {
                        lemma_image_monotone(t, v, x, y, forward);
                        assert(bounded(image(t, v, y, forward), bp).subset_of(y));
                    }
                    assert(u.subset_of(limit)) by {
                        assert forall|p| u.contains(p) implies limit.contains(p) by {
                            assert(bounded(image(t, v, x, forward), bp).contains(p));
                            assert(vertex_space(update) == space);
                        }
                    }
                    assert(u.subset_of(space));
                    lemma_growth_shrinks_rest(space, x, u);
                }
                result = union(&result, &update);
            },
        }
    }
    result
}

/// The states reachable forward from `initial`, for the same colors: the least superset of
/// `initial` closed under the successors by every variable.
pub fn fwd_saturated(graph: &SymbolicAsyncGraph, initial: &GraphColoredVertices) -> (r:
    GraphColoredVertices)
    requires
        in_graph(*initial, *graph),
        well_formed(*initial),
    ensures
        in_graph(r, *graph),
        well_formed(r),
        least_closed(
            transitions(*graph),
            var_count(*graph),
            colored_vertices(*initial),
            None,
            true,
            colored_vertices(r),
        ),
{
    saturate(graph, initial, None, true)
}

/// The states of `universe` from which `initial` can be reached within `universe`, for the
/// same colors, together with `initial`: the least superset of `initial` closed under the
/// predecessors in `universe` by every variable.
pub fn bwd_saturated(
    graph: &SymbolicAsyncGraph,
    initial: &GraphColoredVertices,
    universe: &GraphColoredVertices,
) -> (r: GraphColoredVertices)
    requires
        in_graph(*initial, *graph),
        well_formed(*initial),
        in_graph(*universe, *graph),
    ensures
        in_graph(r, *graph),
        well_formed(r),
        least_closed(
            transitions(*graph),
            var_count(*graph),
            colored_vertices(*initial),
            Some(colored_vertices(*universe)),
            false,
            colored_vertices(r),
        ),
        colored_vertices(r).subset_of(colored_vertices(*initial).union(
            colored_vertices(*universe),
        )),
{
    saturate(graph, initial, Some(universe), false)
}

/// The result of forward saturation is closed under the successors by every variable.
pub proof fn lemma_forward_saturation_closed(t: Transitions, n: nat, seed: Pairs, r: Pairs)
    requires
        least_closed(t, n, seed, None, true, r),
    ensures
        forall|v: nat| v < n ==> #[trigger] post_image(t, v, r).subset_of(r),
{
    assert forall|v: nat| v < n implies #[trigger] post_image(t, v, r).subset_of(r) by {
        assert(bounded(image(t, v, r, true), None).subset_of(r));
    }
}

} // verus!
