//! The colored state-transition graph of a partially specified Boolean network, as the
//! symbolic graph of `biodivine_lib_param_bn` provides it, and the model of its sets that
//! the contracts of this library are stated in.
//!
//! A colored vertex is a pair `(state, color)`: `state` is the valuation of the network's
//! variables and `color` the valuation of every other symbolic variable of the graph's
//! context (the parameters, and the extra variables of the model checker). A transition
//! `(v, x, y, c)` says that under color `c` the update of variable `v` leads from state `x`
//! to state `y`.

use vstd::prelude::*;
use biodivine_lib_param_bn::symbolic_async_graph::{
    GraphColoredVertices, GraphColors, SymbolicAsyncGraph,
};
use biodivine_lib_param_bn::{BooleanNetwork, VariableId};

verus! {

#[verifier::external_type_specification]
#[verifier::external_body]
pub struct ExSymbolicAsyncGraph(SymbolicAsyncGraph);

#[verifier::external_type_specification]
#[verifier::external_body]
pub struct ExGraphColoredVertices(GraphColoredVertices);

#[verifier::external_type_specification]
#[verifier::external_body]
pub struct ExGraphColors(GraphColors);

/// The `(state, color)` pairs of a colored vertex set.
pub uninterp spec fn colored_vertices(s: GraphColoredVertices) -> Set<(Seq<bool>, Seq<bool>)>;

/// The colors of a color set.
pub uninterp spec fn color_set(c: GraphColors) -> Set<Seq<bool>>;

/// The colored vertices that make up a graph (its unit set).
pub uninterp spec fn unit_set(g: SymbolicAsyncGraph) -> Set<(Seq<bool>, Seq<bool>)>;

/// The transitions `(variable, source, target, color)` of a graph.
pub uninterp spec fn transitions(g: SymbolicAsyncGraph) -> Set<(nat, Seq<bool>, Seq<bool>, Seq<bool>)>;

/// All valuations of the graph's symbolic context, as `(state, color)` pairs.
pub uninterp spec fn valuations(g: SymbolicAsyncGraph) -> Set<(Seq<bool>, Seq<bool>)>;

/// All valuations of the symbolic variables that a colored vertex set is built over, as
/// `(state, color)` pairs. Two sets can be combined only when these agree.
pub uninterp spec fn vertex_space(s: GraphColoredVertices) -> Set<(Seq<bool>, Seq<bool>)>;

/// All valuations of the symbolic variables that a color set is built over, as
/// `(state, color)` pairs.
pub uninterp spec fn color_space(c: GraphColors) -> Set<(Seq<bool>, Seq<bool>)>;

/// The number of network variables of a graph.
pub uninterp spec fn var_count(g: SymbolicAsyncGraph) -> nat;

/// The colored vertices that satisfy a formula on a graph, as the model checker computes
/// them.
pub uninterp spec fn satisfying_set(formula: Seq<char>, g: SymbolicAsyncGraph) -> Set<(Seq<bool>, Seq<bool>)>;

/// A colored vertex set of the graph `g`: built over the graph's context.
pub open spec fn in_graph(s: GraphColoredVertices, g: SymbolicAsyncGraph) -> bool {
    vertex_space(s) == valuations(g)
}

/// A colored vertex set is made of valuations of its symbolic variables, of which there
/// are finitely many.
pub open spec fn well_formed(s: GraphColoredVertices) -> bool {
    colored_vertices(s).subset_of(vertex_space(s)) && vertex_space(s).finite()
}

/// Whether the model checker accepts a formula on a graph: it parses against the graph's
/// symbolic context and uses no more quantified variables than the graph supports.
pub uninterp spec fn accepted(formula: Seq<char>, g: SymbolicAsyncGraph) -> bool;

/// Whether the model checker accepts an extended formula on a graph when the sets for the
/// given names are substituted: it parses and validates as `accepted` requires, and each of
/// its `%name%` placeholders is one of `names`.
pub uninterp spec fn extended_accepted(formula: Seq<char>, g: SymbolicAsyncGraph, names: Set<Seq<char>>) -> bool;

/// The values that a color gives to the parameter variables of a color set: the parameter
/// part of the color, which determines one candidate network. (The other variables of a color
/// are those the model checker adds.)
pub uninterp spec fn parameter_values(c: GraphColors, color: Seq<bool>) -> Seq<bool>;

/// The colors of `c` whose parameter part is `p`: one candidate network.
pub open spec fn candidate_colors(c: GraphColors, p: Seq<bool>) -> Set<Seq<bool>> {
    color_set(c).filter(|x: Seq<bool>| parameter_values(c, x) == p)
}

/// The color sets `a` and `b` have the same parameter variables.
pub open spec fn same_parameters(a: GraphColors, b: GraphColors) -> bool {
    forall|x: Seq<bool>| #[trigger] parameter_values(a, x) == parameter_values(b, x)
}

/// A color set is made of the colors of valuations of its symbolic variables, of which there
/// are finitely many.
pub open spec fn colors_well_formed(c: GraphColors) -> bool {
    color_set(c).subset_of(colors_of(color_space(c))) && color_space(c).finite()
}

/// A set of colored vertices.
pub type Pairs = Set<(Seq<bool>, Seq<bool>)>;

/// A set of transitions.
pub type Transitions = Set<(nat, Seq<bool>, Seq<bool>, Seq<bool>)>;

/// The colors that occur in a set of colored vertices.
pub open spec fn colors_of(s: Pairs) -> Set<Seq<bool>> {
    s.map(|p: (Seq<bool>, Seq<bool>)| p.1)
}

/// The colored vertices of `s` whose color is in `colors`.
pub open spec fn with_colors(s: Pairs, colors: Set<Seq<bool>>) -> Pairs {
    s.filter(|p: (Seq<bool>, Seq<bool>)| colors.contains(p.1))
}

/// The successors of `x` by updating variable `v`.
pub open spec fn post_image(t: Transitions, v: nat, x: Pairs) -> Pairs {
    Set::new(
        |p: (Seq<bool>, Seq<bool>)|
            exists|s: Seq<bool>| #[trigger] x.contains((s, p.1)) && t.contains((v, s, p.0, p.1)),
    )
}

/// The predecessors of `x` by updating variable `v`.
pub open spec fn pre_image(t: Transitions, v: nat, x: Pairs) -> Pairs {
    Set::new(
        |p: (Seq<bool>, Seq<bool>)|
            exists|s: Seq<bool>| #[trigger] x.contains((s, p.1)) && t.contains((v, p.0, s, p.1)),
    )
}

/// The transitions of `t` that start and end in `s`.
pub open spec fn transitions_within(t: Transitions, s: Pairs) -> Transitions {
    t.filter(
        |e: (nat, Seq<bool>, Seq<bool>, Seq<bool>)| s.contains((e.1, e.3)) && s.contains((e.2, e.3)),
    )
}

/// Relies on `Clone` of `GraphColoredVertices`: the copy holds the same pairs.
#[verifier::external_body]
pub(crate) fn copy_vertices(s: &GraphColoredVertices) -> (r: GraphColoredVertices)
    ensures
        colored_vertices(r) == colored_vertices(*s),
        vertex_space(r) == vertex_space(*s),
        well_formed(r),
{
    s.clone()
}

/// Relies on `Set::union` of `GraphColoredVertices`.
#[verifier::external_body]
pub(crate) fn union(a: &GraphColoredVertices, b: &GraphColoredVertices) -> (r: GraphColoredVertices)
    requires
        vertex_space(*a) == vertex_space(*b),
    ensures
        colored_vertices(r) == colored_vertices(*a).union(colored_vertices(*b)),
        vertex_space(r) == vertex_space(*a),
        well_formed(r),
{
    biodivine_lib_param_bn::biodivine_std::traits::Set::union(a, b)
}

/// Relies on `Set::intersect` of `GraphColoredVertices`.
#[verifier::external_body]
pub(crate) fn intersect(a: &GraphColoredVertices, b: &GraphColoredVertices) -> (r: GraphColoredVertices)
    requires
        vertex_space(*a) == vertex_space(*b),
    ensures
        colored_vertices(r) == colored_vertices(*a).intersect(colored_vertices(*b)),
        vertex_space(r) == vertex_space(*a),
        well_formed(r),
{
    biodivine_lib_param_bn::biodivine_std::traits::Set::intersect(a, b)
}

/// Relies on `Set::minus` of `GraphColoredVertices`.
#[verifier::external_body]
pub(crate) fn minus(a: &GraphColoredVertices, b: &GraphColoredVertices) -> (r: GraphColoredVertices)
    requires
        vertex_space(*a) == vertex_space(*b),
    ensures
        colored_vertices(r) == colored_vertices(*a).difference(colored_vertices(*b)),
        vertex_space(r) == vertex_space(*a),
        well_formed(r),
{
    biodivine_lib_param_bn::biodivine_std::traits::Set::minus(a, b)
}

/// Relies on `Set::is_empty` of `GraphColoredVertices`.
#[verifier::external_body]
pub(crate) fn is_empty(s: &GraphColoredVertices) -> (r: bool)
    ensures
        r == (colored_vertices(*s) == Set::<(Seq<bool>, Seq<bool>)>::empty()),
{
    biodivine_lib_param_bn::biodivine_std::traits::Set::is_empty(s)
}

/// Relies on `GraphColoredVertices::colors`: the colors that occur in the set.
#[verifier::external_body]
pub(crate) fn colors(s: &GraphColoredVertices) -> (r: GraphColors)
    ensures
        color_set(r) == colors_of(colored_vertices(*s)),
        color_space(r) == vertex_space(*s),
        colors_well_formed(r),
{
    s.colors()
}

/// Relies on `GraphColoredVertices::minus_colors`: drops every pair with one of the colors.
#[verifier::external_body]
pub(crate) fn minus_colors(s: &GraphColoredVertices, c: &GraphColors) -> (r: GraphColoredVertices)
    requires
        color_space(*c) == vertex_space(*s),
    ensures
        vertex_space(r) == vertex_space(*s),
        colored_vertices(r) == with_colors(
            colored_vertices(*s),
            colors_of(colored_vertices(*s)).difference(color_set(*c)),
        ),
        well_formed(r),
{
    s.minus_colors(c)
}

/// Relies on `GraphColoredVertices::intersect_colors`: keeps the pairs with one of the colors.
#[verifier::external_body]
pub(crate) fn intersect_colors(s: &GraphColoredVertices, c: &GraphColors) -> (r: GraphColoredVertices)
    requires
        color_space(*c) == vertex_space(*s),
    ensures
        vertex_space(r) == vertex_space(*s),
        colored_vertices(r) == with_colors(colored_vertices(*s), color_set(*c)),
        well_formed(r),
{
    s.intersect_colors(c)
}

/// Relies on `GraphColoredVertices::pick_vertex`: for every color of the set, exactly one of
/// its vertices.
#[verifier::external_body]
pub(crate) fn pick_vertex(s: &GraphColoredVertices) -> (r: GraphColoredVertices)
    ensures
        colored_vertices(r).subset_of(colored_vertices(*s)),
        colors_of(colored_vertices(r)) == colors_of(colored_vertices(*s)),
        vertex_space(r) == vertex_space(*s),
        forall|p: (Seq<bool>, Seq<bool>), q: (Seq<bool>, Seq<bool>)|
            #[trigger] colored_vertices(r).contains(p) && #[trigger] colored_vertices(r).contains(q)
                && p.1 == q.1 ==> p == q,
        well_formed(r),
{
    s.pick_vertex()
}

/// Relies on `SymbolicAsyncGraph::num_vars`.
#[verifier::external_body]
pub(crate) fn num_vars(g: &SymbolicAsyncGraph) -> (r: usize)
    ensures
        r == var_count(*g),
{
    g.num_vars()
}

/// Relies on `SymbolicAsyncGraph::var_post`: the successors of `s` by updating variable
/// `v`, within the valuations of the graph's context, of which there are finitely many.
#[verifier::external_body]
pub(crate) fn var_post(g: &SymbolicAsyncGraph, v: usize, s: &GraphColoredVertices) -> (r:
    GraphColoredVertices)
    requires
        v < var_count(*g),
        in_graph(*s, *g),
    ensures
        colored_vertices(r) == post_image(transitions(*g), v as nat, colored_vertices(*s)),
        vertex_space(r) == valuations(*g),
        well_formed(r),
{
    g.var_post(VariableId::from_index(v), s)
}

/// Relies on `SymbolicAsyncGraph::var_pre`: the predecessors of `s` by updating variable
/// `v`, within the valuations of the graph's context, of which there are finitely many.
#[verifier::external_body]
pub(crate) fn var_pre(g: &SymbolicAsyncGraph, v: usize, s: &GraphColoredVertices) -> (r:
    GraphColoredVertices)
    requires
        v < var_count(*g),
        in_graph(*s, *g),
    ensures
        colored_vertices(r) == pre_image(transitions(*g), v as nat, colored_vertices(*s)),
        vertex_space(r) == valuations(*g),
        well_formed(r),
{
    g.var_pre(VariableId::from_index(v), s)
}

/// Relies on `SymbolicAsyncGraph::mk_unit_colored_vertices`: all colored vertices of the
/// graph.
#[verifier::external_body]
pub(crate) fn mk_unit_colored_vertices(g: &SymbolicAsyncGraph) -> (r: GraphColoredVertices)
    ensures
        colored_vertices(r) == unit_set(*g),
        vertex_space(r) == valuations(*g),
        well_formed(r),
{
    g.mk_unit_colored_vertices()
}

/// Relies on `SymbolicAsyncGraph::mk_unit_colors`: the colors of the graph's colored
/// vertices.
#[verifier::external_body]
pub(crate) fn mk_unit_colors(g: &SymbolicAsyncGraph) -> (r: GraphColors)
    ensures
        color_set(r) == colors_of(unit_set(*g)),
        color_space(r) == valuations(*g),
        colors_well_formed(r),
{
    g.mk_unit_colors()
}

/// Relies on `SymbolicAsyncGraph::restrict`: the same network and context, with the given
/// set as its colored vertices and only the transitions that stay within it.
#[verifier::external_body]
pub(crate) fn restrict(g: &SymbolicAsyncGraph, s: &GraphColoredVertices) -> (r: SymbolicAsyncGraph)
    requires
        in_graph(*s, *g),
    ensures
        unit_set(r) == colored_vertices(*s),
        transitions(r) == transitions_within(transitions(*g), colored_vertices(*s)),
        valuations(r) == valuations(*g),
        var_count(r) == var_count(*g),
        keeps_network(r) == keeps_network(*g),
        forall|f: Seq<char>| #[trigger] accepted(f, r) == accepted(f, *g),
{
    g.restrict(s)
}

/// Relies on `model_check_formula_dirty` of `biodivine_hctl_model_checker`: the colored
/// vertices satisfying the formula, in the graph's own context; or the reason why the
/// formula cannot be evaluated.
#[verifier::external_body]
pub(crate) fn model_check_formula(formula: &String, g: &SymbolicAsyncGraph) -> (r: Result<
    GraphColoredVertices,
    String,
>)
    ensures
        r is Ok <==> accepted(formula@, *g),
        r matches Ok(s) ==> colored_vertices(s) == satisfying_set(formula@, *g) && in_graph(
            s,
            *g,
        ) && well_formed(s),
{
    biodivine_hctl_model_checker::model_checking::model_check_formula_dirty(formula.clone(), g)
}

/// Relies on `SymbolicAsyncGraph::mk_empty_colored_vertices`.
#[verifier::external_body]
pub(crate) fn mk_empty_colored_vertices(g: &SymbolicAsyncGraph) -> (r: GraphColoredVertices)
    ensures
        colored_vertices(r) == Set::<(Seq<bool>, Seq<bool>)>::empty(),
        vertex_space(r) == valuations(*g),
        well_formed(r),
{
    g.mk_empty_colored_vertices()
}

/// Relies on `Set::intersect` of `GraphColors`.
#[verifier::external_body]
pub(crate) fn intersect_color_sets(a: &GraphColors, b: &GraphColors) -> (r: GraphColors)
    requires
        color_space(*a) == color_space(*b),
    ensures
        color_set(r) == color_set(*a).intersect(color_set(*b)),
        color_space(r) == color_space(*a),
        colors_well_formed(r),
{
    biodivine_lib_param_bn::biodivine_std::traits::Set::intersect(a, b)
}

#[verifier::external_type_specification]
#[verifier::external_body]
pub struct ExBooleanNetwork(BooleanNetwork);

/// Whether a graph keeps the Boolean network it was built from.
pub uninterp spec fn keeps_network(g: SymbolicAsyncGraph) -> bool;

/// The colors of a graph that stand for the instantiations of another network, as
/// `SymbolicAsyncGraph::mk_subnetwork_colors` computes them.
pub uninterp spec fn subnetwork_colors(g: SymbolicAsyncGraph, n: BooleanNetwork) -> Set<Seq<bool>>;

/// Whether a text is a Boolean network in aeon format, as `BooleanNetwork::try_from` reads it.
pub uninterp spec fn parses(text: Seq<char>) -> bool;

/// The network that `BooleanNetwork::try_from` reads from a text.
pub uninterp spec fn parsed_network(text: Seq<char>) -> BooleanNetwork;

/// Whether a network can be compared with the graph's own network, as
/// `SymbolicAsyncGraph::mk_subnetwork_colors` checks it (the same variables and regulations,
/// and functions that fit the graph's).
pub uninterp spec fn fits(g: SymbolicAsyncGraph, n: BooleanNetwork) -> bool;

/// Relies on `SymbolicAsyncGraph::as_network`: the network the graph was built from, if it
/// keeps one.
#[verifier::external_body]
pub(crate) fn network_of(g: &SymbolicAsyncGraph) -> (r: Option<BooleanNetwork>)
    ensures
        r is Some <==> keeps_network(*g),
{
    g.as_network().cloned()
}

/// Relies on `TryFrom<&str>` of `BooleanNetwork`: reads a network in aeon format.
#[verifier::external_body]
pub(crate) fn parse_network(text: &str) -> (r: Result<BooleanNetwork, String>)
    ensures
        r is Ok <==> parses(text@),
        r matches Ok(n) ==> n == parsed_network(text@),
{
    BooleanNetwork::try_from(text)
}

/// Relies on `SymbolicAsyncGraph::mk_subnetwork_colors`, which needs the graph's own network:
/// the colors of the graph that instantiate `n`, or why `n` does not fit the graph.
#[verifier::external_body]
pub(crate) fn mk_subnetwork_colors(g: &SymbolicAsyncGraph, n: &BooleanNetwork) -> (r: Result<
    GraphColors,
    String,
>)
    requires
        keeps_network(*g),
    ensures
        r is Ok <==> fits(*g, *n),
        r matches Ok(c) ==> color_set(c) == subnetwork_colors(*g, *n) && color_space(c)
            == valuations(*g),
{
    g.mk_subnetwork_colors(n)
}

/// Relies on `Set::is_subset` of `GraphColors`.
#[verifier::external_body]
pub(crate) fn is_color_subset(a: &GraphColors, b: &GraphColors) -> (r: bool)
    requires
        color_space(*a) == color_space(*b),
    ensures
        r == color_set(*a).subset_of(color_set(*b)),
{
    biodivine_lib_param_bn::biodivine_std::traits::Set::is_subset(a, b)
}

/// The colored vertices that satisfy an extended formula on a graph, where each `%name%` in
/// the formula stands for the set paired with `name` in the context, as the model checker
/// computes them.
pub uninterp spec fn extended_satisfying_set(
    formula: Seq<char>,
    g: SymbolicAsyncGraph,
    context: Seq<(Seq<char>, Set<(Seq<bool>, Seq<bool>)>)>,
) -> Set<(Seq<bool>, Seq<bool>)>;

/// The names of a substitution context.
pub open spec fn context_names(context: Seq<(Seq<char>, Pairs)>) -> Set<Seq<char>> {
    Set::new(|n: Seq<char>| exists|i: int| 0 <= i < context.len() && #[trigger] context[i].0 == n)
}

/// The names and sets of a substitution context.
pub open spec fn context_view(context: Seq<(String, GraphColoredVertices)>) -> Seq<(Seq<char>, Pairs)> {
    context.map_values(|p: (String, GraphColoredVertices)| (p.0@, colored_vertices(p.1)))
}

/// Relies on `model_check_extended_formula_dirty` of `biodivine_hctl_model_checker`: the
/// colored vertices satisfying a formula in which `%name%` stands for a given set, in the
/// graph's own context; or the reason why the formula cannot be evaluated.
#[verifier::external_body]
pub(crate) fn model_check_extended_formula(
    formula: &str,
    g: &SymbolicAsyncGraph,
    context: &Vec<(String, GraphColoredVertices)>,
) -> (r: Result<GraphColoredVertices, String>)
    ensures
        r is Ok <==> extended_accepted(formula@, *g, context_names(context_view(context@))),
        r matches Ok(s) ==> colored_vertices(s) == extended_satisfying_set(
            formula@,
            *g,
            context_view(context@),
        ) && in_graph(s, *g) && well_formed(s),
{
    biodivine_hctl_model_checker::model_checking::model_check_extended_formula_dirty(
        formula.to_string(),
        g,
        context.iter().cloned().collect(),
    )
}

/// Relies on `GraphColors::pick_singleton`: one instantiation of the parameters out of a
/// non-empty set, with all colors of the set that share it; nothing out of an empty one.
#[verifier::external_body]
pub(crate) fn pick_singleton_colors(c: &GraphColors) -> (r: GraphColors)
    ensures
        color_set(r).subset_of(color_set(*c)),
        same_parameters(r, *c),
        color_set(r) != Set::<Seq<bool>>::empty() ==> exists|p: Seq<bool>|
            color_set(r) == #[trigger] candidate_colors(*c, p),
        color_set(r) == Set::<Seq<bool>>::empty() <==> color_set(*c) == Set::<Seq<bool>>::empty(),
        color_space(r) == color_space(*c),
        colors_well_formed(r),
{
    c.pick_singleton()
}

/// Relies on `Set::minus` of `GraphColors`.
#[verifier::external_body]
pub(crate) fn minus_color_sets(a: &GraphColors, b: &GraphColors) -> (r: GraphColors)
    requires
        color_space(*a) == color_space(*b),
    ensures
        color_set(r) == color_set(*a).difference(color_set(*b)),
        color_space(r) == color_space(*a),
        colors_well_formed(r),
        same_parameters(r, *a),
{
    biodivine_lib_param_bn::biodivine_std::traits::Set::minus(a, b)
}

/// Relies on `Set::is_empty` of `GraphColors`.
#[verifier::external_body]
pub(crate) fn is_empty_colors(c: &GraphColors) -> (r: bool)
    ensures
        r == (color_set(*c) == Set::<Seq<bool>>::empty()),
{
    biodivine_lib_param_bn::biodivine_std::traits::Set::is_empty(c)
}

/// Relies on `Clone` of `GraphColors`: the copy holds the same colors.
#[verifier::external_body]
pub(crate) fn copy_colors(c: &GraphColors) -> (r: GraphColors)
    ensures
        color_set(r) == color_set(*c),
        color_space(r) == color_space(*c),
        forall|x: Seq<bool>| #[trigger] parameter_values(r, x) == parameter_values(*c, x),
{
    c.clone()
}

} // verus!
