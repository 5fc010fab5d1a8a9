//! The constraint pipeline: dynamic properties are evaluated one after another, and after
//! each the graph is restricted to the colors that satisfy it, so that later properties are
//! evaluated over fewer candidate networks.

use vstd::prelude::*;
use vstd::string::*;
use biodivine_lib_param_bn::BooleanNetwork;
use biodivine_lib_param_bn::symbolic_async_graph::{GraphColors, SymbolicAsyncGraph};
use crate::symbolic::{
    Pairs, Transitions, color_set, color_space, colored_vertices, colors, colors_of,
    accepted, intersect_colors, is_color_subset, keeps_network, mk_subnetwork_colors,
    mk_unit_colored_vertices, model_check_formula, network_of, parse_network, restrict,
    fits, parsed_network, parses, satisfying_set, subnetwork_colors, transitions, transitions_within, unit_set, valuations,
    var_count, with_colors,
};

verus! {

/// `h` is `g` restricted to the colors `cs`: its colored vertices are those of `g` with one
/// of the colors, and its transitions those of `g` within them.
pub open spec fn restriction_of(h: SymbolicAsyncGraph, g: SymbolicAsyncGraph, cs: Set<Seq<bool>>) -> bool {
    &&& unit_set(h) == with_colors(unit_set(g), cs)
    &&& transitions(h) == transitions_within(transitions(g), unit_set(h))
    &&& valuations(h) == valuations(g)
    &&& var_count(h) == var_count(g)
    &&& keeps_network(h) == keeps_network(g)
    &&& forall|f: Seq<char>| #[trigger] accepted(f, h) == accepted(f, g)
}

/// The graph with only the given colors left: its colored vertices are those of `graph`
/// with one of the colors, and its transitions those that stay within them.
pub fn restrict_colors(graph: &SymbolicAsyncGraph, colors: &GraphColors) -> (r: SymbolicAsyncGraph)
    requires
        color_space(*colors) == valuations(*graph),
    ensures
        restriction_of(r, *graph, color_set(*colors)),
{
    let unit = mk_unit_colored_vertices(graph);
    let kept = intersect_colors(&unit, colors);
    restrict(graph, &kept)
}

/// The colors of the colored vertices with one of the colors `cs` are the colors of all of
/// them that are in `cs`.
pub proof fn lemma_colors_of_with_colors(x: Pairs, cs: Set<Seq<bool>>)
    ensures
        colors_of(with_colors(x, cs)) == colors_of(x).intersect(cs),
{
    assert forall|c| colors_of(x).intersect(cs).contains(c) implies colors_of(with_colors(x, cs)).contains(c) by {
        let p = choose|p: (Seq<bool>, Seq<bool>)| x.contains(p) && p.1 == c;
        assert(with_colors(x, cs).contains(p));
    }
    assert(colors_of(with_colors(x, cs)) =~= colors_of(x).intersect(cs));
}

/// Restricting to more colors leaves at least the colors that restricting to fewer leaves.
pub proof fn lemma_restriction_monotone(
    g: SymbolicAsyncGraph,
    ha: SymbolicAsyncGraph,
    hb: SymbolicAsyncGraph,
    a: Set<Seq<bool>>,
    b: Set<Seq<bool>>,
)
    requires
        b.subset_of(a),
        restriction_of(ha, g, a),
        restriction_of(hb, g, b),
    ensures
        colors_of(unit_set(hb)).subset_of(colors_of(unit_set(ha))),
{
    lemma_colors_of_with_colors(unit_set(g), a);
    lemma_colors_of_with_colors(unit_set(g), b);
}

/// `r` is `g` restricted to the colors that satisfy the formula `f` on `g`.
pub open spec fn constrained_by(g: SymbolicAsyncGraph, f: Seq<char>, r: SymbolicAsyncGraph) -> bool {
    restriction_of(r, g, colors_of(satisfying_set(f, g)))
}

/// `gs` are the graphs that applying the formulas `fs` one after another to `g` goes
/// through: each formula is evaluated on the graph that the ones before it left.
pub open spec fn pipeline_steps(g: SymbolicAsyncGraph, fs: Seq<Seq<char>>, gs: Seq<SymbolicAsyncGraph>) -> bool {
    &&& gs.len() == fs.len() + 1
    &&& gs[0] == g
    &&& forall|i: int| 0 <= i < fs.len() ==> #[trigger] constrained_by(gs[i], fs[i], gs[i + 1])
}

/// `r` comes from `g` by applying the formulas `fs` one after another.
pub open spec fn pipeline(g: SymbolicAsyncGraph, fs: Seq<Seq<char>>, r: SymbolicAsyncGraph) -> bool {
    exists|gs: Seq<SymbolicAsyncGraph>| #[trigger] pipeline_steps(g, fs, gs) && gs.last() == r
}

/// Every formula of the list is accepted by the model checker on the graph.
pub open spec fn all_accepted(fs: Seq<Seq<char>>, g: SymbolicAsyncGraph) -> bool {
    forall|i: int| 0 <= i < fs.len() ==> accepted(#[trigger] fs[i], g)
}

/// Applies the dynamic properties `formulae` in order: each is evaluated on the current
/// graph, which is then restricted to the colors that satisfy it. Succeeds exactly when the
/// model checker accepts every formula, and otherwise fails with its message on the first
/// formula it rejects. The result keeps the network and the symbolic context, and its colors
/// are among those of `graph`.
pub fn apply_constraints_and_restrict(formulae: Vec<String>, graph: SymbolicAsyncGraph) -> (r:
    Result<SymbolicAsyncGraph, String>)
    ensures
        r is Ok <==> all_accepted(formulae.deep_view(), graph),
        r matches Ok(h) ==> pipeline(graph, formulae.deep_view(), h),
        r matches Ok(h) ==> keeps_network(h) == keeps_network(graph) && valuations(h)
            == valuations(graph) && colors_of(unit_set(h)).subset_of(colors_of(unit_set(graph)))
            && (forall|f: Seq<char>| #[trigger] accepted(f, h) == accepted(f, graph)),
{
    let ghost fs = formulae.deep_view();
    let ghost g0 = graph;
    let ghost mut gs = seq![graph];
    let mut graph = graph;
    let mut failure: Option<String> = None;
    let mut i: usize = 0;
    while i < formulae.len() && failure.is_none()
        invariant
            fs == formulae.deep_view(),
            i <= fs.len(),
            pipeline_steps(g0, fs.take(i as int), gs),
            gs.last() == graph,
            keeps_network(graph) == keeps_network(g0),
            valuations(graph) == valuations(g0),
            colors_of(unit_set(graph)).subset_of(colors_of(unit_set(g0))),
            forall|f: Seq<char>| #[trigger] accepted(f, graph) == accepted(f, g0),
            failure is None ==> all_accepted(fs.take(i as int), g0),
            failure is Some ==> i < fs.len() && !accepted(fs[i as int], g0),
        decreases fs.len() - i, if failure is None { 1int } else { 0int },
    {
        match model_check_formula(&formulae[i], &graph) {
            Ok(satisfying) => {
                let satisfying_colors = colors(&satisfying);
                let ghost mid = graph;
                graph = restrict_colors(&graph, &satisfying_colors);
                proof {
                    lemma_colors_of_with_colors(unit_set(mid), color_set(satisfying_colors));
                    let prev = gs;
                    gs = gs.push(graph);
                    assert(fs.take(i + 1)[i as int] == formulae[i as int]@);
                    assert forall|k: int| 0 <= k < i + 1 implies #[trigger] constrained_by(
                        gs[k],
                        fs.take(i + 1)[k],
                        gs[k + 1],
                    ) by {
                        if k < i {
                            assert(constrained_by(prev[k], fs.take(i as int)[k], prev[k + 1]));
                        }
                    }
                    assert forall|k: int| 0 <= k < i + 1 implies accepted(
                        #[trigger] fs.take(i + 1)[k],
                        g0,
                    ) by {
                        if k < i {
                            assert(fs.take(i as int)[k] == fs.take(i + 1)[k]);
                        }
                    }
                }
                i = i + 1;
            },
            Err(e) => {
                assert(formulae[i as int]@ == fs[i as int]);
                failure = Some(e);
            },
        }
    }
    match failure {
        Some(e) => Err(e),
        None => {
            assert(fs.take(fs.len() as int) =~= fs);
            assert(pipeline_steps(g0, fs, gs));
            Ok(graph)
        },
    }
}

/// Evaluating `f` is local to colors: on a graph restricted to some colors, the satisfying
/// colors are those on the whole graph that the restriction kept.
pub open spec fn color_local(f: Seq<char>) -> bool {
    forall|g: SymbolicAsyncGraph, h: SymbolicAsyncGraph, cs: Set<Seq<bool>>|
        #[trigger] restriction_of(h, g, cs) ==> colors_of(satisfying_set(f, h)) == colors_of(
            satisfying_set(f, g),
        ).intersect(colors_of(unit_set(h)))
}

/// The colors of `g` that satisfy every formula of `fs` on `g` itself.
pub open spec fn common_colors(g: SymbolicAsyncGraph, fs: Seq<Seq<char>>) -> Set<Seq<bool>>
    decreases fs.len(),
{
    if fs.len() == 0 {
        colors_of(unit_set(g))
    } else {
        common_colors(g, fs.drop_last()).intersect(colors_of(satisfying_set(fs.last(), g)))
    }
}

/// Restricting twice is restricting once, to the colors kept by both.
proof fn lemma_restriction_twice(
    g: SymbolicAsyncGraph,
    mid: SymbolicAsyncGraph,
    r: SymbolicAsyncGraph,
    a: Set<Seq<bool>>,
    b: Set<Seq<bool>>,
)
    requires
        restriction_of(mid, g, a),
        restriction_of(r, mid, b),
    ensures
        restriction_of(r, g, a.intersect(b)),
{
    assert(unit_set(r) =~= with_colors(unit_set(g), a.intersect(b)));
    assert(transitions(r) =~= transitions_within(transitions(g), unit_set(r)));
}

/// Each graph of the pipeline is the first one, or a restriction of it; its colors are
/// those that satisfy the formulas applied so far, on the first graph.
proof fn lemma_pipeline_prefix(
    g: SymbolicAsyncGraph,
    fs: Seq<Seq<char>>,
    gs: Seq<SymbolicAsyncGraph>,
    k: int,
)
    requires
        pipeline_steps(g, fs, gs),
        0 <= k <= fs.len(),
        forall|i: int| 0 <= i < fs.len() ==> color_local(#[trigger] fs[i]),
    ensures
        gs[k] == g || exists|cs: Set<Seq<bool>>| #[trigger] restriction_of(gs[k], g, cs),
        colors_of(unit_set(gs[k])) == common_colors(g, fs.take(k)),
    decreases k,
{
    if k == 0 {
        assert(fs.take(0) =~= Seq::<Seq<char>>::empty());
    } else {
        lemma_pipeline_prefix(g, fs, gs, k - 1);
        let mid = gs[k - 1];
        let f = fs[k - 1];
        let r = gs[k];
        assert(constrained_by(gs[k - 1], fs[k - 1], gs[k - 1 + 1]));
        let b = colors_of(satisfying_set(f, mid));
        if mid != g {
            let a = choose|cs: Set<Seq<bool>>| #[trigger] restriction_of(mid, g, cs);
            lemma_restriction_twice(g, mid, r, a, b);
            assert(color_local(fs[k - 1]));
            assert(colors_of(satisfying_set(f, mid)) == colors_of(satisfying_set(f, g)).intersect(
                colors_of(unit_set(mid)),
            ));
        } else {
            assert(restriction_of(r, g, b));
        }
        lemma_colors_of_with_colors(unit_set(mid), b);
        assert(fs.take(k).drop_last() =~= fs.take(k - 1));
        assert(fs.take(k).last() == f);
        assert(colors_of(unit_set(r)) =~= common_colors(g, fs.take(k)));
    }
}

/// Applying properties one after another is their conjunction: when evaluation is local to
/// colors, the colors left after the pipeline are exactly the colors of the graph that
/// satisfy every property on the original graph.
pub proof fn lemma_pipeline_is_conjunction(
    g: SymbolicAsyncGraph,
    fs: Seq<Seq<char>>,
    r: SymbolicAsyncGraph,
)
    requires
        pipeline(g, fs, r),
        forall|i: int| 0 <= i < fs.len() ==> color_local(#[trigger] fs[i]),
    ensures
        colors_of(unit_set(r)) == common_colors(g, fs),
{
    let gs = choose|gs: Seq<SymbolicAsyncGraph>| #[trigger] pipeline_steps(g, fs, gs) && gs.last() == r;
    lemma_pipeline_prefix(g, fs, gs, fs.len() as int);
    assert(fs.take(fs.len() as int) =~= fs);
}

/// A color satisfies the conjunction exactly when it is a color of the graph that satisfies
/// each formula on it; so the order of the formulas does not change the result.
pub proof fn lemma_common_colors_members(g: SymbolicAsyncGraph, fs: Seq<Seq<char>>, c: Seq<bool>)
    ensures
        common_colors(g, fs).contains(c) <==> colors_of(unit_set(g)).contains(c) && forall|i: int|
            0 <= i < fs.len() ==> colors_of(satisfying_set(#[trigger] fs[i], g)).contains(c),
    decreases fs.len(),
{
    if fs.len() > 0 {
        let front = fs.drop_last();
        lemma_common_colors_members(g, front, c);
        if colors_of(unit_set(g)).contains(c) && forall|i: int|
            0 <= i < fs.len() ==> colors_of(satisfying_set(#[trigger] fs[i], g)).contains(c) {
            assert forall|i: int| 0 <= i < front.len() implies colors_of(
                satisfying_set(#[trigger] front[i], g),
            ).contains(c) by {
                assert(front[i] == fs[i]);
            }
            assert(colors_of(satisfying_set(fs[fs.len() - 1], g)).contains(c));
        }
        if common_colors(g, fs).contains(c) {
            assert forall|i: int| 0 <= i < fs.len() implies colors_of(
                satisfying_set(#[trigger] fs[i], g),
            ).contains(c) by {
                if i < fs.len() - 1 {
                    assert(front[i] == fs[i]);
                }
            }
        }
    }
}

/// How a goal network relates to a set of inferred candidates.
pub enum GoalCheck {
    /// Every instantiation of the goal is among the candidates.
    Included,
    /// Some instantiation of the goal is not among the candidates.
    Excluded,
    /// The goal cannot be compared with the graph's candidates, for the given reason.
    NotComparable(String),
}

/// The goal text can be compared with the graph: the graph keeps its network, the text is a
/// network, and that network fits the graph's.
pub open spec fn goal_comparable(g: SymbolicAsyncGraph, goal: Seq<char>) -> bool {
    keeps_network(g) && parses(goal) && fits(g, parsed_network(goal))
}

/// All instantiations of the goal network are among the inferred colors.
pub open spec fn goal_included(g: SymbolicAsyncGraph, goal: Seq<char>, inferred: Set<Seq<bool>>) -> bool {
    subnetwork_colors(g, parsed_network(goal)).subset_of(inferred)
}

/// Compares a goal network, given in aeon format, with the inferred colors of the graph:
/// `Included` or `Excluded` when it can be compared, `NotComparable` with the reason when not.
pub fn check_goal(graph: &SymbolicAsyncGraph, goal_aeon_string: &str, inferred_colors: &GraphColors) -> (r:
    GoalCheck)
    requires
        color_space(*inferred_colors) == valuations(*graph),
    ensures
        r is Included <==> goal_comparable(*graph, goal_aeon_string@) && goal_included(
            *graph,
            goal_aeon_string@,
            color_set(*inferred_colors),
        ),
        r is Excluded <==> goal_comparable(*graph, goal_aeon_string@) && !goal_included(
            *graph,
            goal_aeon_string@,
            color_set(*inferred_colors),
        ),
        r is NotComparable <==> !goal_comparable(*graph, goal_aeon_string@),
{
    if network_of(graph).is_none() {
        return GoalCheck::NotComparable(String::from_str("The graph keeps no network to compare with."));
    }
    let goal = match parse_network(goal_aeon_string) {
        Ok(n) => n,
        Err(e) => {
            return GoalCheck::NotComparable(e);
        },
    };
    match mk_subnetwork_colors(graph, &goal) {
        Ok(goal_colors) => if is_color_subset(&goal_colors, inferred_colors) {
            GoalCheck::Included
        } else {
            GoalCheck::Excluded
        },
        Err(e) => GoalCheck::NotComparable(e),
    }
}

/// Whether all instantiations of the goal network are among the inferred colors; false also
/// when the goal cannot be compared with the graph.
pub fn check_if_result_contains_goal_unsafe(
    graph: SymbolicAsyncGraph,
    goal_aeon_string: String,
    inferred_colors: GraphColors,
) -> (r: bool)
    requires
        color_space(inferred_colors) == valuations(graph),
    ensures
        r <==> goal_comparable(graph, goal_aeon_string@) && goal_included(
            graph,
            goal_aeon_string@,
            color_set(inferred_colors),
        ),
{
    match check_goal(&graph, goal_aeon_string.as_str(), &inferred_colors) {
        GoalCheck::Included => true,
        _ => false,
    }
}

} // verus!
