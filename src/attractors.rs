//! Attractor search by the pivot (Xie-Beerel) algorithm: pick pivots, compute their basin,
//! grow the pivot component forward while dropping every color that leaves the basin, and
//! remove the basin from the universe; repeat until the universe is empty.

use vstd::prelude::*;
use std::sync::atomic::{AtomicBool, Ordering};
use biodivine_lib_param_bn::symbolic_async_graph::{GraphColoredVertices, SymbolicAsyncGraph};
use crate::symbolic::{
    Pairs, Transitions, colored_vertices, colors, colors_of, copy_vertices, in_graph, is_empty,
    minus, minus_colors, pick_vertex, post_image, pre_image, transitions, union, valuations,
    var_count, vertex_space, well_formed, with_colors,
};
use crate::reachability::{
    bounded, bwd_saturated, closed_under, image, least_closed, lemma_growth_shrinks_rest,
    lemma_image_monotone,
    next_update,
};

verus! {

/// Every successor of `x` that lies in `universe` lies in `x`.
pub open spec fn closed_within(t: Transitions, n: nat, x: Pairs, universe: Pairs) -> bool {
    forall|v: nat| v < n ==> #[trigger] post_image(t, v, x).intersect(universe).subset_of(x)
}

/// The union of a sequence of sets.
pub open spec fn union_all(sets: Seq<Pairs>) -> Pairs
    decreases sets.len(),
{
    if sets.len() == 0 {
        Set::empty()
    } else {
        union_all(sets.drop_last()).union(sets.last())
    }
}

/// The pairs of each set of a list.
pub open spec fn pairs_of_all(sets: Seq<GraphColoredVertices>) -> Seq<Pairs> {
    sets.map_values(|s: GraphColoredVertices| colored_vertices(s))
}

/// Dropping whole colors from a set closed within a universe keeps it closed.
pub proof fn lemma_drop_colors_keeps_closed(t: Transitions, n: nat, x: Pairs, u: Pairs, keep: Set<Seq<bool>>)
    requires
        closed_under(t, n, x, Some(u), true),
    ensures
        closed_under(t, n, with_colors(x, keep), Some(u), true),
{
    let y = with_colors(x, keep);
    assert forall|v: nat| v < n implies #[trigger] bounded(image(t, v, y, true), Some(u)).subset_of(y) by {
        assert(bounded(image(t, v, x, true), Some(u)).subset_of(x));
        assert forall|p| bounded(image(t, v, y, true), Some(u)).contains(p) implies y.contains(p) by {
            let s = choose|s: Seq<bool>| #[trigger] y.contains((s, p.1)) && t.contains((v, s, p.0, p.1));
            assert(x.contains((s, p.1)));
            assert(bounded(image(t, v, x, true), Some(u)).contains(p));
        }
    }
}

/// The colors of a subset of a finite set are finitely many.
proof fn lemma_colors_finite(x: Pairs, space: Pairs)
    requires
        x.subset_of(space),
        space.finite(),
    ensures
        colors_of(x).finite(),
{
    vstd::set_lib::lemma_len_subset(x, space);
    x.lemma_map_finite(|p: (Seq<bool>, Seq<bool>)| p.1);
}

/// The least superset of `seed` closed under the successors within `u`.
pub open spec fn forward_closure(t: Transitions, n: nat, seed: Pairs, u: Pairs) -> Pairs {
    Set::new(
        |p: (Seq<bool>, Seq<bool>)|
            forall|y: Pairs|
                seed.subset_of(y) && #[trigger] closed_under(t, n, y, Some(u), true) ==> y.contains(p),
    )
}

/// The forward closure is the least closed superset of the seed.
pub proof fn lemma_forward_closure_least(t: Transitions, n: nat, seed: Pairs, u: Pairs)
    ensures
        least_closed(t, n, seed, Some(u), true, forward_closure(t, n, seed, u)),
{
    let f = forward_closure(t, n, seed, u);
    assert forall|v: nat| v < n implies #[trigger] bounded(image(t, v, f, true), Some(u)).subset_of(f) by {
        assert forall|p| bounded(image(t, v, f, true), Some(u)).contains(p) implies f.contains(p) by {
            assert forall|y: Pairs| seed.subset_of(y) && #[trigger] closed_under(t, n, y, Some(u), true) implies y.contains(p) by {
                assert(f.subset_of(y));
                lemma_image_monotone(t, v, f, y, true);
                assert(bounded(image(t, v, y, true), Some(u)).subset_of(y));
            }
        }
    }
}

/// Every colored vertex of `reach` with color `c` lies in `basin`.
pub open spec fn stays_in(reach: Pairs, basin: Pairs, c: Seq<bool>) -> bool {
    forall|q: (Seq<bool>, Seq<bool>)| reach.contains(q) && q.1 == c ==> #[trigger] basin.contains(q)
}

/// The pivot component: the pivots' forward closure within `u`, for the colors whose
/// closure stays within `basin`.
pub open spec fn pivot_component(t: Transitions, n: nat, pivots: Pairs, u: Pairs, basin: Pairs) -> Pairs {
    let f = forward_closure(t, n, pivots, u);
    f.filter(|p: (Seq<bool>, Seq<bool>)| stays_in(f, basin, p.1))
}

/// The vertices of `x` all have one color.
pub open spec fn one_color(x: Pairs) -> bool {
    forall|p: (Seq<bool>, Seq<bool>), q: (Seq<bool>, Seq<bool>)|
        #[trigger] x.contains(p) && #[trigger] x.contains(q) ==> p.1 == q.1
}

/// `pivots` has at most one vertex of each color.
pub open spec fn one_per_color(pivots: Pairs) -> bool {
    forall|p: (Seq<bool>, Seq<bool>), q: (Seq<bool>, Seq<bool>)|
        #[trigger] pivots.contains(p) && #[trigger] pivots.contains(q) && p.1 == q.1 ==> p == q
}

/// `a` is a trap of one color in `u`: a non-empty set of vertices of `u` of one color that
/// no step within `u` leaves. Every such set holds an attractor of that color.
pub open spec fn one_color_trap(t: Transitions, n: nat, a: Pairs, u: Pairs) -> bool {
    &&& a != Set::<(Seq<bool>, Seq<bool>)>::empty()
    &&& a.subset_of(u)
    &&& one_color(a)
    &&& closed_within(t, n, a, u)
}

/// One round of the search keeps every trap of the whole universe in reach: a trap that
/// meets the round's universe meets the round's component or what the round leaves.
proof fn lemma_round_meets_trap(
    t: Transitions,
    n: nat,
    u0: Pairs,
    rem: Pairs,
    pivots: Pairs,
    basin: Pairs,
    a: Pairs,
)
    requires
        one_color_trap(t, n, a, u0),
        !a.disjoint(rem),
        rem.subset_of(u0),
        pivots.subset_of(rem),
        colors_of(pivots) == colors_of(rem),
        one_per_color(pivots),
        least_closed(t, n, pivots, Some(rem), false, basin),
    ensures
        !pivot_component(t, n, pivots, rem, basin).disjoint(a) || !rem.difference(basin).disjoint(a),
{
    let x0 = choose|x: (Seq<bool>, Seq<bool>)| a.contains(x) && rem.contains(x);
    assert(a.contains(x0) && rem.contains(x0));
    if a.disjoint(basin) {
        assert(rem.difference(basin).contains(x0));
        return;
    }
    let x1 = choose|x: (Seq<bool>, Seq<bool>)| a.contains(x) && basin.contains(x);
    assert(a.contains(x1) && basin.contains(x1));
    let c = x1.1;
    assert(closed_under(t, n, rem, Some(rem), false));
    assert(basin.subset_of(rem));
    assert(colors_of(pivots).contains(c)) by {
        assert(rem.contains(x1));
        assert(colors_of(rem).contains(c));
    }
    let p = choose|p: (Seq<bool>, Seq<bool>)| pivots.contains(p) && p.1 == c;
    assert(pivots.contains(p) && p.1 == c);
    // The pivot of the trap's color lies in the trap.
    if !a.contains(p) {
        let y = basin.difference(a);
        assert forall|q| pivots.contains(q) implies y.contains(q) by {
            if a.contains(q) {
                assert(q.1 == x1.1);
            }
        }
        assert forall|v: nat| v < n implies #[trigger] bounded(image(t, v, y, false), Some(rem)).subset_of(y) by {
            lemma_image_monotone(t, v, y, basin, false);
            assert(bounded(image(t, v, basin, false), Some(rem)).subset_of(basin));
            assert forall|x| bounded(image(t, v, y, false), Some(rem)).contains(x) implies y.contains(x) by {
                let s = choose|s: Seq<bool>| #[trigger] y.contains((s, x.1)) && t.contains((v, x.0, s, x.1));
                if a.contains(x) {
                    assert(post_image(t, v, a).contains((s, x.1)));
                    assert(u0.contains((s, x.1)));
                    assert(post_image(t, v, a).intersect(u0).subset_of(a));
                }
            }
        }
        assert(closed_under(t, n, y, Some(rem), false));
        assert(basin.subset_of(y));
        assert(false);
    }
    let f = forward_closure(t, n, pivots, rem);
    lemma_forward_closure_least(t, n, pivots, rem);
    // The closure lies in the round's universe.
    assert(closed_under(t, n, rem, Some(rem), true));
    assert(f.subset_of(rem));
    // Its part of the trap's color lies in the trap.
    let yc = f.filter(|q: (Seq<bool>, Seq<bool>)| q.1 != c || a.contains(q));
    assert forall|q| pivots.contains(q) implies yc.contains(q) by {
        if q.1 == c {
            assert(q == p);
        }
    }
    assert forall|v: nat| v < n implies #[trigger] bounded(image(t, v, yc, true), Some(rem)).subset_of(yc) by {
        lemma_image_monotone(t, v, yc, f, true);
        assert(bounded(image(t, v, f, true), Some(rem)).subset_of(f));
        assert forall|x| bounded(image(t, v, yc, true), Some(rem)).contains(x) implies yc.contains(x) by {
            let s = choose|s: Seq<bool>| #[trigger] yc.contains((s, x.1)) && t.contains((v, s, x.0, x.1));
            if x.1 == c {
                assert(a.contains((s, x.1)));
                assert(post_image(t, v, a).contains(x));
                assert(post_image(t, v, a).intersect(u0).subset_of(a));
            }
        }
    }
    assert(closed_under(t, n, yc, Some(rem), true));
    assert(f.subset_of(yc));
    if stays_in(f, basin, c) {
        assert(pivot_component(t, n, pivots, rem, basin).contains(p));
    } else {
        let q = choose|q: (Seq<bool>, Seq<bool>)| f.contains(q) && q.1 == c && !basin.contains(q);
        assert(yc.contains(q));
        assert(rem.difference(basin).contains(q));
    }
}

/// Every colored vertex of `universe` with color `c` lies in `basin`.
pub open spec fn covered(universe: Pairs, basin: Pairs, c: Seq<bool>) -> bool {
    forall|p: (Seq<bool>, Seq<bool>)| universe.contains(p) && p.1 == c ==> #[trigger] basin.contains(p)
}

/// One round of the search on a non-empty universe. Returns the pivot component and the
/// pivots' basin: the basin holds the pivots and is closed backward within the universe;
/// the component lies in the basin and is closed forward within the universe, so for each
/// of its colors it is a terminal strongly connected part of the universe.
pub fn attractor_step(graph: &SymbolicAsyncGraph, universe: &GraphColoredVertices) -> (r: (
    GraphColoredVertices,
    GraphColoredVertices,
))
    requires
        in_graph(*universe, *graph),
        well_formed(*universe),
        colored_vertices(*universe) != Set::<(Seq<bool>, Seq<bool>)>::empty(),
    ensures
        in_graph(r.0, *graph),
        well_formed(r.0),
        in_graph(r.1, *graph),
        well_formed(r.1),
        colored_vertices(r.0).subset_of(colored_vertices(r.1)),
        colored_vertices(r.1).subset_of(colored_vertices(*universe)),
        colored_vertices(r.1) != Set::<(Seq<bool>, Seq<bool>)>::empty(),
        closed_under(
            transitions(*graph),
            var_count(*graph),
            colored_vertices(r.1),
            Some(colored_vertices(*universe)),
            false,
        ),
        closed_under(
            transitions(*graph),
            var_count(*graph),
            colored_vertices(r.0),
            Some(colored_vertices(*universe)),
            true,
        ),
        colors_of(colored_vertices(r.1)) == colors_of(colored_vertices(*universe)),
        exists|pivots: Pairs|
            pivots.subset_of(colored_vertices(*universe)) && colors_of(pivots) == colors_of(
                colored_vertices(*universe),
            ) && one_per_color(pivots) && least_closed(
                transitions(*graph),
                var_count(*graph),
                pivots,
                Some(colored_vertices(*universe)),
                false,
                colored_vertices(r.1),
            ) && colored_vertices(r.0) == #[trigger] pivot_component(
                transitions(*graph),
                var_count(*graph),
                pivots,
                colored_vertices(*universe),
                colored_vertices(r.1),
            ),
        forall|c: Seq<bool>|
            #[trigger] covered(colored_vertices(*universe), colored_vertices(r.1), c)
                && colors_of(colored_vertices(*universe)).contains(c) ==> colors_of(
                colored_vertices(r.0),
            ).contains(c),
{
    let ghost t = transitions(*graph);
    let ghost n = var_count(*graph);
    let ghost uni = colored_vertices(*universe);
    let ghost space = valuations(*graph);
    let pivots = pick_vertex(universe);
    proof {
        let p = uni.choose();
        assert(uni.contains(p)) by {
            assert(!(uni =~= Set::<(Seq<bool>, Seq<bool>)>::empty()));
        }
        assert(colors_of(uni).contains(p.1));
        assert(colors_of(colored_vertices(pivots)).contains(p.1));
        assert(colored_vertices(pivots) != Set::<(Seq<bool>, Seq<bool>)>::empty());
    }
    let basin = bwd_saturated(graph, &pivots, universe);
    let ghost b = colored_vertices(basin);
    let ghost pv = colored_vertices(pivots);
    assert(b.subset_of(uni));
    proof {
        assert(colors_of(b) =~= colors_of(uni)) by {
            assert forall|c| colors_of(uni).contains(c) implies colors_of(b).contains(c) by {
                assert(colors_of(pv).contains(c));
                let p = choose|p: (Seq<bool>, Seq<bool>)| pv.contains(p) && p.1 == c;
                assert(b.contains(p));
            }
            assert forall|c| colors_of(b).contains(c) implies colors_of(uni).contains(c) by {
                let p = choose|p: (Seq<bool>, Seq<bool>)| b.contains(p) && p.1 == c;
                assert(uni.contains(p));
            }
        }
    }
    let ghost f = forward_closure(t, n, pv, uni);
    let ghost mut removed: Set<Seq<bool>> = Set::empty();
    proof {
        lemma_forward_closure_least(t, n, pv, uni);
    }
    let mut component = copy_vertices(&pivots);
    loop
        invariant
            t == transitions(*graph),
            n == var_count(*graph),
            uni == colored_vertices(*universe),
            space == valuations(*graph),
            b == colored_vertices(basin),
            in_graph(*universe, *graph),
            in_graph(basin, *graph),
            in_graph(component, *graph),
            well_formed(component),
            colored_vertices(component).subset_of(b),
            b.subset_of(uni),
            pv == colored_vertices(pivots),
            f == forward_closure(t, n, pv, uni),
            least_closed(t, n, pv, Some(uni), true, f),
            colored_vertices(component).subset_of(f),
            forall|c: Seq<bool>| #[trigger] removed.contains(c) ==> !stays_in(f, b, c),
            forall|p: (Seq<bool>, Seq<bool>)|
                pv.contains(p) && !removed.contains(p.1) ==> #[trigger] colored_vertices(
                    component,
                ).contains(p),
            forall|p: (Seq<bool>, Seq<bool>)|
                #[trigger] colored_vertices(component).contains(p) ==> !removed.contains(p.1),
            forall|p: (Seq<bool>, Seq<bool>)|
                pv.contains(p) && covered(uni, b, p.1) ==> #[trigger] colored_vertices(
                    component,
                ).contains(p),
        ensures
            closed_under(t, n, colored_vertices(component), Some(uni), true),
        decreases colors_of(colored_vertices(component)).len(), space.difference(
            colored_vertices(component),
        ).len(),
    {
        let ghost x0 = colored_vertices(component);
        proof {
            lemma_colors_finite(x0, space);
        }
        let update = next_update(graph, &component, Some(universe), true);
        let done = update.is_none();
        if let Some(u) = update {
            proof {
                let uu = colored_vertices(u);
                assert(uu.subset_of(space));
                lemma_growth_shrinks_rest(space, x0, uu);
                let v = choose|v: nat|
                    v < n && uu.subset_of(#[trigger] bounded(image(t, v, x0, true), Some(uni)));
                assert(colors_of(x0.union(uu)) =~= colors_of(x0)) by {
                    assert forall|c| colors_of(x0.union(uu)).contains(c) implies colors_of(x0).contains(c) by {
                        let p = choose|p: (Seq<bool>, Seq<bool>)| x0.union(uu).contains(p) && p.1 == c;
                        if uu.contains(p) {
                            assert(bounded(image(t, v, x0, true), Some(uni)).contains(p));
                            let s = choose|s: Seq<bool>| #[trigger] x0.contains((s, p.1)) && t.contains((v, s, p.0, p.1));
                            assert(x0.contains((s, c)));
                        }
                    }
                    assert forall|c| colors_of(x0).contains(c) implies colors_of(x0.union(uu)).contains(c) by {
                        let p = choose|p: (Seq<bool>, Seq<bool>)| x0.contains(p) && p.1 == c;
                        assert(x0.union(uu).contains(p));
                    }
                }
                lemma_image_monotone(t, v, x0, f, true);
                assert(bounded(image(t, v, f, true), Some(uni)).subset_of(f));
                assert(uu.subset_of(f));
                assert forall|p: (Seq<bool>, Seq<bool>)| uu.contains(p) implies !removed.contains(p.1) by {
                    assert(colors_of(x0.union(uu)).contains(p.1));
                    let q = choose|q: (Seq<bool>, Seq<bool>)| x0.contains(q) && q.1 == p.1;
                    assert(x0.contains(q));
                }
            }
            component = union(&component, &u);
        }
        let ghost x1 = colored_vertices(component);
        proof {
            if done {
                assert(x1 == x0);
            }
        }
        let escaped = minus(&component, &basin);
        if !is_empty(&escaped) {
            let gone = colors(&escaped);
            let ghost keep = colors_of(x1).difference(colors_of(colored_vertices(escaped)));
            component = minus_colors(&component, &gone);
            proof {
                let x2 = colored_vertices(component);
                let e = colored_vertices(escaped);
                let old_removed = removed;
                removed = removed.union(colors_of(e));
                assert forall|c: Seq<bool>| #[trigger] removed.contains(c) implies !stays_in(f, b, c) by {
                    if !old_removed.contains(c) {
                        let w = choose|w: (Seq<bool>, Seq<bool>)| e.contains(w) && w.1 == c;
                        assert(x1.contains(w) && !b.contains(w));
                        assert(f.contains(w));
                    }
                }
                assert forall|q: (Seq<bool>, Seq<bool>)|
                    pv.contains(q) && !removed.contains(q.1) implies #[trigger] x2.contains(q) by {
                    assert(x1.contains(q));
                    assert(keep.contains(q.1));
                }
                assert forall|q: (Seq<bool>, Seq<bool>)| #[trigger] x2.contains(q) implies !removed.contains(q.1) by {
                    assert(x1.contains(q));
                    assert(keep.contains(q.1));
                }
                assert(x2.subset_of(b)) by {
                    assert forall|p| x2.contains(p) implies b.contains(p) by {
                        if !b.contains(p) {
                            assert(e.contains(p));
                            assert(colors_of(e).contains(p.1));
                        }
                    }
                }
                if done {
                    lemma_drop_colors_keeps_closed(t, n, x1, uni, keep);
                }
                assert forall|q: (Seq<bool>, Seq<bool>)|
                    pv.contains(q) && covered(uni, b, q.1) implies #[trigger] x2.contains(q) by {
                    assert(x1.contains(q));
                    if colors_of(e).contains(q.1) {
                        let w = choose|w: (Seq<bool>, Seq<bool>)| e.contains(w) && w.1 == q.1;
                        assert(x1.contains(w));
                        assert(uni.contains(w));
                        assert(b.contains(w));
                    }
                    assert(keep.contains(q.1));
                }
                lemma_colors_finite(x1, space);
                let p = e.choose();
                assert(e.contains(p)) by {
                    assert(!(e =~= Set::<(Seq<bool>, Seq<bool>)>::empty()));
                }
                assert(colors_of(x1).contains(p.1));
                assert(colors_of(x2).subset_of(colors_of(x1).remove(p.1))) by {
                    assert forall|c| colors_of(x2).contains(c) implies colors_of(x1).remove(p.1).contains(c) by {
                        let q = choose|q: (Seq<bool>, Seq<bool>)| x2.contains(q) && q.1 == c;
                        assert(keep.contains(c));
                        assert(colors_of(e).contains(p.1));
                    }
                }
                vstd::set_lib::lemma_len_subset(colors_of(x2), colors_of(x1).remove(p.1));
            }
        } else {
            proof {
                assert(x1.subset_of(b)) by {
                    assert forall|p| x1.contains(p) implies b.contains(p) by {
                        if !b.contains(p) {
                            assert(colored_vertices(escaped).contains(p));
                        }
                    }
                }
            }
        }
        if done {
            break;
        }
    }
    proof {
        let x = colored_vertices(component);
        let y = x.union(with_colors(f, removed));
        assert forall|v: nat| v < n implies #[trigger] bounded(image(t, v, y, true), Some(uni)).subset_of(y) by {
            assert(bounded(image(t, v, x, true), Some(uni)).subset_of(x));
            assert(bounded(image(t, v, f, true), Some(uni)).subset_of(f));
            assert forall|p| bounded(image(t, v, y, true), Some(uni)).contains(p) implies y.contains(p) by {
                let s = choose|s: Seq<bool>| #[trigger] y.contains((s, p.1)) && t.contains((v, s, p.0, p.1));
                if x.contains((s, p.1)) {
                    assert(bounded(image(t, v, x, true), Some(uni)).contains(p));
                } else {
                    assert(f.contains((s, p.1)));
                    assert(bounded(image(t, v, f, true), Some(uni)).contains(p));
                }
            }
        }
        assert(closed_under(t, n, y, Some(uni), true));
        assert(pv.subset_of(y)) by {
            assert forall|p| pv.contains(p) implies y.contains(p) by {
                assert(f.contains(p));
            }
        }
        assert(f.subset_of(y));
        assert forall|p: (Seq<bool>, Seq<bool>)| x.contains(p) implies stays_in(f, b, p.1) by {
            assert forall|q: (Seq<bool>, Seq<bool>)| f.contains(q) && q.1 == p.1 implies #[trigger] b.contains(q) by {
                assert(y.contains(q));
                assert(!removed.contains(q.1));
                assert(x.contains(q));
            }
        }
        assert(x =~= pivot_component(t, n, pv, uni, b)) by {
            assert forall|p: (Seq<bool>, Seq<bool>)| f.contains(p) && stays_in(f, b, p.1) implies x.contains(p) by {
                assert(!removed.contains(p.1));
                assert(y.contains(p));
            }
        }
        assert(least_closed(t, n, pv, Some(uni), false, b));
        assert(one_per_color(pv));
        assert(pv.subset_of(uni));
        assert forall|c: Seq<bool>|
            #[trigger] covered(uni, b, c) && colors_of(uni).contains(c) implies colors_of(
            colored_vertices(component),
        ).contains(c) by {
            assert(colors_of(pv).contains(c));
            let p = choose|p: (Seq<bool>, Seq<bool>)| pv.contains(p) && p.1 == c;
            assert(colored_vertices(component).contains(p));
        }
    }
    (component, basin)
}

/// `c` is the pivot component of a round on a part `u` of `universe`: the forward closure of
/// pivots (one per color of `u`) within `u`, for the colors whose closure stays within the
/// pivots' basin, the backward closure of the pivots within `u`.
pub open spec fn round_component(g: SymbolicAsyncGraph, c: Pairs, universe: Pairs) -> bool {
    exists|pivots: Pairs, u: Pairs, basin: Pairs|
        u.subset_of(universe) && pivots.subset_of(u) && colors_of(pivots) == colors_of(u)
            && least_closed(transitions(g), var_count(g), pivots, Some(u), false, basin) && c
            == #[trigger] pivot_component(transitions(g), var_count(g), pivots, u, basin)
}

/// A component found by the search in `universe`: a non-empty set of the graph, within the
/// universe, that no step within the universe leaves, and the pivot component of its round.
pub open spec fn is_attractor_of(g: SymbolicAsyncGraph, c: GraphColoredVertices, universe: Pairs) -> bool {
    &&& round_component(g, colored_vertices(c), universe)
    &&& in_graph(c, g)
    &&& colored_vertices(c) != Set::<(Seq<bool>, Seq<bool>)>::empty()
    &&& colored_vertices(c).subset_of(universe)
    &&& closed_within(transitions(g), var_count(g), colored_vertices(c), universe)
}

/// `components` are the attractors that a complete search of `universe` finds: each is
/// non-empty, within the universe and closed within it; together they hold at least one
/// colored vertex of every color of the universe, and they meet every trap of one color in
/// the universe, so no attractor of any color is missed.
pub open spec fn attractors_of(g: SymbolicAsyncGraph, universe: Pairs, components: Seq<GraphColoredVertices>) -> bool {
    &&& forall|i: int| 0 <= i < components.len() ==> is_attractor_of(g, #[trigger] components[i], universe)
    &&& colors_of(union_all(pairs_of_all(components))) == colors_of(universe)
    &&& forall|a: Pairs|
        #[trigger] one_color_trap(transitions(g), var_count(g), a, universe) ==> !union_all(
            pairs_of_all(components),
        ).disjoint(a)
}

/// The outcome of an attractor search: the attractors found, and the basins removed from
/// the universe one round after another.
pub struct AttractorSearch {
    pub components: Vec<GraphColoredVertices>,
    pub basins: Vec<GraphColoredVertices>,
    /// Whether the search used up the universe (it was not cancelled before).
    pub complete: bool,
}

/// Reads the cancellation flag, when there is one.
fn is_cancelled(cancelled: Option<&AtomicBool>) -> (r: bool)
    ensures
        cancelled is None ==> !r,
{
    match cancelled {
        Some(flag) => flag.load(Ordering::Relaxed),
        None => false,
    }
}

/// Finds the attractors of the colored vertices of `universe`: runs rounds of the search
/// until the universe is used up. Every component found is non-empty and closed within the
/// universe (each step from it that stays in the universe stays in it), the components hold
/// every color of the universe, and the basins of the rounds together make up the universe.
pub fn xie_beerel_attractors(graph: &SymbolicAsyncGraph, universe: &GraphColoredVertices) -> (r:
    AttractorSearch)
    requires
        in_graph(*universe, *graph),
        well_formed(*universe),
    ensures
        r.complete,
        union_all(pairs_of_all(r.basins@)) == colored_vertices(*universe),
        attractors_of(*graph, colored_vertices(*universe), r.components@),
{
    search(graph, universe, None)
}

/// The search of `xie_beerel_attractors`, which checks `cancelled` before every round and
/// stops when it is set. What it returns holds of the rounds run so far: the components are
/// attractors of the universe and the basins lie in it; when the search was not cancelled
/// (`complete`), it is the full outcome.
pub fn xie_beerel_attractors_cancellable(
    graph: &SymbolicAsyncGraph,
    universe: &GraphColoredVertices,
    cancelled: &AtomicBool,
) -> (r: AttractorSearch)
    requires
        in_graph(*universe, *graph),
        well_formed(*universe),
    ensures
        union_all(pairs_of_all(r.basins@)).subset_of(colored_vertices(*universe)),
        forall|i: int|
            0 <= i < r.components@.len() ==> is_attractor_of(
                *graph,
                #[trigger] r.components@[i],
                colored_vertices(*universe),
            ),
        r.complete ==> union_all(pairs_of_all(r.basins@)) == colored_vertices(*universe)
            && attractors_of(*graph, colored_vertices(*universe), r.components@),
        colored_vertices(*universe) == Set::<(Seq<bool>, Seq<bool>)>::empty() ==> r.complete,
{
    search(graph, universe, Some(cancelled))
}

fn search(
    graph: &SymbolicAsyncGraph,
    universe: &GraphColoredVertices,
    cancelled: Option<&AtomicBool>,
) -> (r: AttractorSearch)
    requires
        in_graph(*universe, *graph),
        well_formed(*universe),
    ensures
        cancelled is None ==> r.complete,
        colored_vertices(*universe) == Set::<(Seq<bool>, Seq<bool>)>::empty() ==> r.complete,
        union_all(pairs_of_all(r.basins@)).subset_of(colored_vertices(*universe)),
        forall|i: int|
            0 <= i < r.components@.len() ==> is_attractor_of(
                *graph,
                #[trigger] r.components@[i],
                colored_vertices(*universe),
            ),
        r.complete ==> union_all(pairs_of_all(r.basins@)) == colored_vertices(*universe)
            && attractors_of(*graph, colored_vertices(*universe), r.components@),
{
    let ghost t = transitions(*graph);
    let ghost n = var_count(*graph);
    let ghost u0 = colored_vertices(*universe);
    let ghost space = valuations(*graph);
    let mut components: Vec<GraphColoredVertices> = Vec::new();
    let mut basins: Vec<GraphColoredVertices> = Vec::new();
    let mut remaining = copy_vertices(universe);
    proof {
        assert(union_all(pairs_of_all(basins@)) =~= Set::<(Seq<bool>, Seq<bool>)>::empty());
        assert forall|a: Pairs| #[trigger] one_color_trap(t, n, a, u0) implies !colored_vertices(
            remaining,
        ).disjoint(a) by {
            let x = a.choose();
            assert(a.contains(x)) by {
                assert(!(a =~= Set::<(Seq<bool>, Seq<bool>)>::empty()));
            }
            assert(colored_vertices(remaining).contains(x));
        }
    }
    while !is_empty(&remaining) && !is_cancelled(cancelled)
        invariant
            t == transitions(*graph),
            n == var_count(*graph),
            u0 == colored_vertices(*universe),
            space == valuations(*graph),
            in_graph(remaining, *graph),
            well_formed(remaining),
            colored_vertices(remaining).subset_of(u0),
            union_all(pairs_of_all(basins@)).union(colored_vertices(remaining)) == u0,
            union_all(pairs_of_all(components@)).subset_of(u0),
            forall|a: Pairs|
                #[trigger] one_color_trap(t, n, a, u0) ==> !union_all(pairs_of_all(components@)).disjoint(a)
                    || !colored_vertices(remaining).disjoint(a),
            colors_of(u0).difference(colors_of(colored_vertices(remaining))).subset_of(
                colors_of(union_all(pairs_of_all(components@))),
            ),
            closed_within(t, n, colored_vertices(remaining), u0),
            forall|i: int|
                0 <= i < components@.len() ==> is_attractor_of(
                    *graph,
                    #[trigger] components@[i],
                    u0,
                ),
        decreases colored_vertices(remaining).len(),
    {
        let ghost rem = colored_vertices(remaining);
        let (component, basin) = attractor_step(graph, &remaining);
        let ghost c = colored_vertices(component);
        let ghost b = colored_vertices(basin);
        let ghost old_cu = union_all(pairs_of_all(components@));
        let ghost pivs = choose|pivots: Pairs|
            pivots.subset_of(rem) && colors_of(pivots) == colors_of(rem) && one_per_color(pivots)
                && least_closed(t, n, pivots, Some(rem), false, b) && c == #[trigger] pivot_component(
                t,
                n,
                pivots,
                rem,
                b,
            );
        if !is_empty(&component) {
            proof {
                let pv = choose|pivots: Pairs|
                    pivots.subset_of(rem) && colors_of(pivots) == colors_of(rem) && least_closed(
                        t,
                        n,
                        pivots,
                        Some(rem),
                        false,
                        b,
                    ) && c == #[trigger] pivot_component(t, n, pivots, rem, b);
                assert(pivot_component(t, n, pv, rem, b) == c);
                assert(round_component(*graph, c, u0));
                assert forall|v: nat| v < n implies #[trigger] post_image(t, v, c).intersect(u0).subset_of(c) by {
                    lemma_image_monotone(t, v, c, rem, true);
                    assert(post_image(t, v, rem).intersect(u0).subset_of(rem));
                    assert(bounded(image(t, v, c, true), Some(rem)).subset_of(c));
                }
            }
            proof {
                let old_c = pairs_of_all(components@);
                assert(pairs_of_all(components@.push(component)) =~= old_c.push(c));
                assert(old_c.push(c).drop_last() =~= old_c);
            }
            components.push(component);
        }
        let next = minus(&remaining, &basin);
        proof {
            let rest = colored_vertices(next);
            let cu = union_all(pairs_of_all(components@));
            assert(old_cu.subset_of(cu));
            assert forall|a: Pairs| #[trigger] one_color_trap(t, n, a, u0) implies !cu.disjoint(a)
                || !rest.disjoint(a) by {
                if !old_cu.disjoint(a) {
                    let x = choose|x: (Seq<bool>, Seq<bool>)| old_cu.contains(x) && a.contains(x);
                    assert(cu.contains(x));
                } else {
                    lemma_round_meets_trap(t, n, u0, rem, pivs, b, a);
                    if !c.disjoint(a) {
                        let x = choose|x: (Seq<bool>, Seq<bool>)| c.contains(x) && a.contains(x);
                        assert(c != Set::<(Seq<bool>, Seq<bool>)>::empty()) by {
                            assert(c.contains(x));
                        }
                        assert(cu.contains(x));
                    } else {
                        let x = choose|x: (Seq<bool>, Seq<bool>)|
                            rem.difference(b).contains(x) && a.contains(x);
                        assert(rest.contains(x));
                    }
                }
            }
            assert forall|col| colors_of(u0).difference(colors_of(rest)).contains(col) implies colors_of(
                cu,
            ).contains(col) by {
                assert(old_cu.subset_of(cu));
                if !colors_of(rem).contains(col) {
                    assert(colors_of(old_cu).contains(col));
                    let p = choose|p: (Seq<bool>, Seq<bool>)| old_cu.contains(p) && p.1 == col;
                    assert(cu.contains(p));
                } else {
                    assert(covered(rem, b, col)) by {
                        assert forall|p: (Seq<bool>, Seq<bool>)| rem.contains(p) && p.1 == col implies #[trigger] b.contains(p) by {
                            if !b.contains(p) {
                                assert(rest.contains(p));
                                assert(colors_of(rest).contains(col));
                            }
                        }
                    }
                    assert(colors_of(c).contains(col));
                    let p = choose|p: (Seq<bool>, Seq<bool>)| c.contains(p) && p.1 == col;
                    assert(c != Set::<(Seq<bool>, Seq<bool>)>::empty()) by {
                        assert(c.contains(p));
                    }
                    assert(cu.contains(p));
                }
            }
        }
        proof {
            let rest = colored_vertices(next);
            assert forall|v: nat| v < n implies #[trigger] post_image(t, v, rest).intersect(u0).subset_of(rest) by {
                assert(post_image(t, v, rem).intersect(u0).subset_of(rem));
                assert(bounded(image(t, v, b, false), Some(rem)).subset_of(b));
                assert forall|p| post_image(t, v, rest).intersect(u0).contains(p) implies rest.contains(p) by {
                    let s = choose|s: Seq<bool>| #[trigger] rest.contains((s, p.1)) && t.contains((v, s, p.0, p.1));
                    assert(post_image(t, v, rem).contains(p));
                    if b.contains(p) {
                        assert(pre_image(t, v, b).contains((s, p.1)));
                        assert(bounded(image(t, v, b, false), Some(rem)).contains((s, p.1)));
                    }
                }
            }
            let old_basins = pairs_of_all(basins@);
            assert(pairs_of_all(basins@.push(basin)) =~= old_basins.push(b));
            assert(old_basins.push(b).drop_last() =~= old_basins);
            assert(union_all(old_basins.push(b)).union(rest) =~= u0);
            vstd::set_lib::lemma_len_subset(rem, space);
            lemma_growth_shrinks_rest(rem, rest, b);
            assert(rem.difference(rest.union(b)) =~= Set::<(Seq<bool>, Seq<bool>)>::empty());
            assert(rem.difference(rest) =~= b);
            vstd::set_lib::lemma_len_subset(rest, rem);
            assert(rest.union(b) =~= rem);
            assert(rest.disjoint(b));
            vstd::set_lib::lemma_set_disjoint_lens(rest, b);
            assert(b.len() > 0) by {
                let p = b.choose();
                assert(b.contains(p)) by {
                    assert(!(b =~= Set::<(Seq<bool>, Seq<bool>)>::empty()));
                }
            }
        }
        basins.push(basin);
        remaining = next;
    }
    let complete = is_empty(&remaining);
    proof {
        if u0 == Set::<(Seq<bool>, Seq<bool>)>::empty() {
            assert(colored_vertices(remaining) =~= Set::<(Seq<bool>, Seq<bool>)>::empty());
        }
        assert(union_all(pairs_of_all(basins@)).subset_of(u0));
    }
    if !complete {
        return AttractorSearch { components, basins, complete };
    }
    proof {
        assert(colored_vertices(remaining) =~= Set::<(Seq<bool>, Seq<bool>)>::empty());
        assert(union_all(pairs_of_all(basins@)) =~= u0);
        let cu = union_all(pairs_of_all(components@));
        assert(colors_of(colored_vertices(remaining)) =~= Set::<Seq<bool>>::empty());
        assert(colors_of(cu) =~= colors_of(u0)) by {
            assert forall|col| colors_of(cu).contains(col) implies colors_of(u0).contains(col) by {
                let p = choose|p: (Seq<bool>, Seq<bool>)| cu.contains(p) && p.1 == col;
                assert(u0.contains(p));
            }
            assert forall|col| colors_of(u0).contains(col) implies colors_of(cu).contains(col) by {
                assert(colors_of(u0).difference(colors_of(colored_vertices(remaining))).contains(col));
            }
        }
    }
    AttractorSearch { components, basins, complete }
}

/// A component closed within a universe that no step leaves is closed: one more step by any
/// variable adds nothing to it.
pub proof fn lemma_component_is_terminal(t: Transitions, n: nat, component: Pairs, universe: Pairs)
    requires
        component.subset_of(universe),
        closed_within(t, n, component, universe),
        forall|v: nat| v < n ==> #[trigger] post_image(t, v, universe).subset_of(universe),
    ensures
        forall|v: nat| v < n ==> #[trigger] post_image(t, v, component).subset_of(component),
{
    assert forall|v: nat| v < n implies #[trigger] post_image(t, v, component).subset_of(
        component,
    ) by {
        lemma_image_monotone(t, v, component, universe, true);
        assert(post_image(t, v, universe).subset_of(universe));
        assert(post_image(t, v, component).intersect(universe).subset_of(component));
    }
}

} // verus!
