//! Inference from measured attractor states through the attractor search: a candidate
//! network is consistent when each measured state lies in one of its attractors.

use vstd::prelude::*;
use vstd::string::*;
use biodivine_lib_param_bn::symbolic_async_graph::{
    GraphColoredVertices, GraphColors, SymbolicAsyncGraph,
};
use crate::symbolic::{
    Pairs, accepted, color_set, color_space, colors_well_formed, colored_vertices, colors, colors_of, in_graph, intersect,
    intersect_color_sets, mk_empty_colored_vertices, mk_unit_colored_vertices, mk_unit_colors,
    model_check_formula, satisfying_set, union, unit_set, valuations, well_formed,
};
use crate::attractors::{attractors_of, is_attractor_of, pairs_of_all, union_all, xie_beerel_attractors};

verus! {

/// The colors of `base` under which every measured set meets `attractors`.
pub open spec fn colors_meeting_all(base: Set<Seq<bool>>, attractors: Pairs, measured: Seq<Pairs>) -> Set<Seq<bool>>
    decreases measured.len(),
{
    if measured.len() == 0 {
        base
    } else {
        colors_meeting_all(base, attractors, measured.drop_last()).intersect(
            colors_of(attractors.intersect(measured.last())),
        )
    }
}

/// The colors of the graph under which each measured set meets one of the given attractors.
pub fn colors_with_attractor_states(
    graph: &SymbolicAsyncGraph,
    components: &Vec<GraphColoredVertices>,
    measured_attractor_states: &Vec<GraphColoredVertices>,
) -> (r: GraphColors)
    requires
        forall|i: int| 0 <= i < components@.len() ==> #[trigger] in_graph(components@[i], *graph),
        forall|i: int|
            0 <= i < measured_attractor_states@.len() ==> #[trigger] in_graph(
                measured_attractor_states@[i],
                *graph,
            ),
    ensures
        color_space(r) == valuations(*graph),
        colors_well_formed(r),
        color_set(r) == colors_meeting_all(
            colors_of(unit_set(*graph)),
            union_all(pairs_of_all(components@)),
            pairs_of_all(measured_attractor_states@),
        ),
{
    let ghost comps = pairs_of_all(components@);
    let mut attractors = mk_empty_colored_vertices(graph);
    let mut k: usize = 0;
    assert(comps.take(0) =~= Seq::<Pairs>::empty());
    while k < components.len()
        invariant
            comps == pairs_of_all(components@),
            k <= components@.len(),
            forall|i: int| 0 <= i < components@.len() ==> #[trigger] in_graph(components@[i], *graph),
            in_graph(attractors, *graph),
            colored_vertices(attractors) == union_all(comps.take(k as int)),
        decreases components@.len() - k,
    {
        assert(in_graph(components@[k as int], *graph));
        attractors = union(&attractors, &components[k]);
        proof {
            assert(comps.take(k + 1).drop_last() =~= comps.take(k as int));
            assert(comps.take(k + 1).last() == colored_vertices(components@[k as int]));
        }
        k = k + 1;
    }
    assert(comps.take(comps.len() as int) =~= comps);
    let ghost ms = pairs_of_all(measured_attractor_states@);
    let ghost att = colored_vertices(attractors);
    let mut found = mk_unit_colors(graph);
    let mut i: usize = 0;
    assert(ms.take(0) =~= Seq::<Pairs>::empty());
    while i < measured_attractor_states.len()
        invariant
            ms == pairs_of_all(measured_attractor_states@),
            att == colored_vertices(attractors),
            i <= ms.len(),
            forall|j: int|
                0 <= j < measured_attractor_states@.len() ==> #[trigger] in_graph(
                    measured_attractor_states@[j],
                    *graph,
                ),
            in_graph(attractors, *graph),
            color_space(found) == valuations(*graph),
            colors_well_formed(found),
            color_set(found) == colors_meeting_all(colors_of(unit_set(*graph)), att, ms.take(i as int)),
        decreases ms.len() - i,
    {
        assert(in_graph(measured_attractor_states@[i as int], *graph));
        let hit = intersect(&attractors, &measured_attractor_states[i]);
        let hit_colors = colors(&hit);
        found = intersect_color_sets(&found, &hit_colors);
        proof {
            assert(ms.take(i + 1).drop_last() =~= ms.take(i as int));
            assert(ms.take(i + 1).last() == colored_vertices(measured_attractor_states@[i as int]));
        }
        i = i + 1;
    }
    assert(ms.take(ms.len() as int) =~= ms);
    found
}

/// The colors of the graph under which each measured set lies, at least in part, in an
/// attractor found by searching the whole graph.
pub fn infer_nw(graph: &SymbolicAsyncGraph, measured_attractor_states: &Vec<GraphColoredVertices>) -> (r: GraphColors)
    requires
        forall|i: int|
            0 <= i < measured_attractor_states@.len() ==> #[trigger] in_graph(
                measured_attractor_states@[i],
                *graph,
            ),
    ensures
        color_space(r) == valuations(*graph),
        colors_well_formed(r),
        exists|components: Seq<GraphColoredVertices>|
            #[trigger] attractors_of(*graph, unit_set(*graph), components) && color_set(r)
                == colors_meeting_all(
                colors_of(unit_set(*graph)),
                union_all(pairs_of_all(components)),
                pairs_of_all(measured_attractor_states@),
            ),
{
    let universe = mk_unit_colored_vertices(graph);
    let search = xie_beerel_attractors(graph, &universe);
    let components = search.components;
    proof {
        assert forall|i: int| 0 <= i < components@.len() implies #[trigger] in_graph(components@[i], *graph) by {
            assert(is_attractor_of(*graph, components@[i], unit_set(*graph)));
        }
        assert(attractors_of(*graph, unit_set(*graph), components@));
    }
    let r = colors_with_attractor_states(graph, &components, measured_attractor_states);
    r
}

/// The non-empty formulas of a list, in order.
pub open spec fn nonempty_formulas(fs: Seq<Seq<char>>) -> Seq<Seq<char>>
    decreases fs.len(),
{
    if fs.len() == 0 {
        Seq::empty()
    } else if fs.last().len() == 0 {
        nonempty_formulas(fs.drop_last())
    } else {
        nonempty_formulas(fs.drop_last()).push(fs.last())
    }
}

/// The colored vertices satisfying each formula on the graph.
pub open spec fn satisfying_sets(fs: Seq<Seq<char>>, g: SymbolicAsyncGraph) -> Seq<Pairs> {
    Seq::new(fs.len(), |i: int| satisfying_set(fs[i], g))
}

/// The candidates of the graph under which each measured attractor state, given as a state
/// formula (`a & ~b & ...`), lies in an attractor. Empty formulas are skipped; a formula that
/// cannot be evaluated gives the model checker's message.
pub fn parse_and_infer_gradually(graph: &SymbolicAsyncGraph, attractor_state_formulas: Vec<String>) -> (r:
    Result<GraphColors, String>)
    ensures
        r is Ok <==> forall|i: int|
            0 <= i < attractor_state_formulas@.len() && attractor_state_formulas@[i]@.len() > 0
                ==> accepted(#[trigger] attractor_state_formulas@[i]@, *graph),
        r matches Ok(c) ==> color_space(c) == valuations(*graph) && colors_well_formed(c),
        r matches Ok(c) ==> exists|components: Seq<GraphColoredVertices>|
            #[trigger] attractors_of(*graph, unit_set(*graph), components) && color_set(c)
                == colors_meeting_all(
                colors_of(unit_set(*graph)),
                union_all(pairs_of_all(components)),
                satisfying_sets(nonempty_formulas(attractor_state_formulas.deep_view()), *graph),
            ),
{
    let ghost fs = attractor_state_formulas.deep_view();
    let mut measured: Vec<GraphColoredVertices> = Vec::new();
    let mut i: usize = 0;
    assert(fs.take(0) =~= Seq::<Seq<char>>::empty());
    assert(pairs_of_all(measured@) =~= satisfying_sets(nonempty_formulas(fs.take(0)), *graph));
    while i < attractor_state_formulas.len()
        invariant
            fs == attractor_state_formulas.deep_view(),
            i <= fs.len(),
            pairs_of_all(measured@) == satisfying_sets(nonempty_formulas(fs.take(i as int)), *graph),
            forall|j: int| 0 <= j < measured@.len() ==> #[trigger] in_graph(measured@[j], *graph),
            forall|j: int|
                0 <= j < i && attractor_state_formulas@[j]@.len() > 0 ==> accepted(
                    #[trigger] attractor_state_formulas@[j]@,
                    *graph,
                ),
        decreases fs.len() - i,
    {
        assert(fs.take(i + 1).drop_last() =~= fs.take(i as int));
        assert(fs.take(i + 1).last() == attractor_state_formulas[i as int]@);
        if attractor_state_formulas[i].as_str().unicode_len() > 0 {
            let states = match model_check_formula(&attractor_state_formulas[i], graph) {
                Ok(s) => s,
                Err(e) => {
                    return Err(e);
                },
            };
            let ghost before = measured@;
            measured.push(states);
            proof {
                assert(pairs_of_all(measured@) =~= pairs_of_all(before).push(colored_vertices(states)));
                assert(pairs_of_all(measured@) =~= satisfying_sets(nonempty_formulas(fs.take(i + 1)), *graph));
            }
        }
        i = i + 1;
    }
    assert(fs.take(fs.len() as int) =~= fs);
    Ok(infer_nw(graph, &measured))
}

} // verus!
