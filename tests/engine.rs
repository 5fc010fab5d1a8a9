use boolean_network_sketches::candidates::enumerate_candidates;
use boolean_network_sketches::attractors::xie_beerel_attractors_cancellable;
use std::sync::atomic::AtomicBool;
use boolean_network_sketches::hctl_with_holes::{
    general_to_specific_precomp_eval, naive_eval, specific_to_general_eval, two_hole_analysis,
};
use biodivine_hctl_model_checker::model_checking::model_check_formula_dirty;
use boolean_network_sketches::inference_attractor_data::perform_inference_with_attractors_specific;
use boolean_network_sketches::gradual_inference::parse_and_infer_gradually;
use boolean_network_sketches::utils::{check_goal, check_if_result_contains_goal_unsafe, GoalCheck};
use biodivine_hctl_model_checker::mc_utils::get_extended_symbolic_graph;
use biodivine_lib_param_bn::symbolic_async_graph::{GraphColoredVertices, SymbolicAsyncGraph};
use biodivine_lib_param_bn::BooleanNetwork;
use boolean_network_sketches::attractors::{attractor_step, xie_beerel_attractors};
use boolean_network_sketches::inference_formulae::{
    mk_formula_attractor_specific, mk_formula_fixed_point_specific,
    mk_formula_forbid_other_attractors, mk_formula_reachability_pair,
};
use boolean_network_sketches::reachability::{bwd_saturated, fwd_saturated};
use boolean_network_sketches::utils::{apply_constraints_and_restrict, restrict_colors};

/// Two variables: `a` can only switch on (when `p` holds), `b` follows an unknown function
/// `f` of `a`; two choices of `p` times four of `f` give eight candidate networks.
const MODEL: &str = r"
a -?? a
a -?? b
$a: p | a
$b: f(a)
";

fn graph() -> SymbolicAsyncGraph {
    let bn = BooleanNetwork::try_from(MODEL).unwrap();
    get_extended_symbolic_graph(&bn, 1).unwrap()
}

fn is_subset(a: &GraphColoredVertices, b: &GraphColoredVertices) -> bool {
    biodivine_lib_param_bn::biodivine_std::traits::Set::is_subset(a, b)
}

fn is_empty(a: &GraphColoredVertices) -> bool {
    biodivine_lib_param_bn::biodivine_std::traits::Set::is_empty(a)
}

fn union(a: &GraphColoredVertices, b: &GraphColoredVertices) -> GraphColoredVertices {
    biodivine_lib_param_bn::biodivine_std::traits::Set::union(a, b)
}

#[test]
fn steady_state_inference_halves_the_candidates() {
    let g = graph();
    assert_eq!(g.mk_unit_colors().approx_cardinality(), 8.0);
    let f = mk_formula_fixed_point_specific("a & b".to_string());
    let restricted = apply_constraints_and_restrict(vec![f], g).unwrap();
    assert_eq!(restricted.mk_unit_colors().approx_cardinality(), 4.0);
}

#[test]
fn forbidding_other_attractors_narrows_further() {
    let g = graph();
    let exists = mk_formula_attractor_specific("a & b".to_string());
    let after_exists = apply_constraints_and_restrict(vec![exists], g).unwrap();
    let stage_one = after_exists.mk_unit_colors().approx_cardinality();
    assert_eq!(stage_one, 4.0);
    let forbid = mk_formula_forbid_other_attractors(vec!["a & b".to_string()]);
    let after_forbid = apply_constraints_and_restrict(vec![forbid], after_exists).unwrap();
    let stage_two = after_forbid.mk_unit_colors().approx_cardinality();
    assert_eq!(stage_two, 2.0);
    assert!(stage_two < stage_one && stage_one < 8.0);
}

#[test]
fn pipeline_result_does_not_depend_on_order() {
    let f1 = mk_formula_fixed_point_specific("a & b".to_string());
    let f2 = mk_formula_reachability_pair("~a & ~b".to_string(), "a".to_string(), false);
    let one = apply_constraints_and_restrict(vec![f1.clone(), f2.clone()], graph()).unwrap();
    let two = apply_constraints_and_restrict(vec![f2, f1], graph()).unwrap();
    assert_eq!(
        one.mk_unit_colors().approx_cardinality(),
        two.mk_unit_colors().approx_cardinality()
    );
    assert_eq!(one.mk_unit_colors().approx_cardinality(), 2.0);
}

#[test]
fn malformed_formula_is_an_error() {
    assert!(apply_constraints_and_restrict(vec!["(a &".to_string()], graph()).is_err());
}

#[test]
fn empty_pipeline_keeps_all_candidates() {
    let g = apply_constraints_and_restrict(vec![], graph()).unwrap();
    assert_eq!(g.mk_unit_colors().approx_cardinality(), 8.0);
}

#[test]
fn restriction_to_more_colors_keeps_more() {
    let g = graph();
    let all = g.mk_unit_colors();
    let some = g
        .mk_unit_colored_vertices()
        .fix_network_variable(g.variables().next().unwrap(), true)
        .pick_singleton()
        .colors();
    let wide = restrict_colors(&g, &all);
    let narrow = restrict_colors(&g, &some);
    assert_eq!(wide.mk_unit_colors().approx_cardinality(), 8.0);
    assert_eq!(narrow.mk_unit_colors().approx_cardinality(), 1.0);
}

#[test]
fn forward_saturation_is_closed() {
    let g = graph();
    let seed = g.mk_unit_colored_vertices().pick_vertex();
    let reach = fwd_saturated(&g, &seed);
    assert!(is_subset(&seed, &reach));
    for v in g.variables() {
        assert!(is_subset(&g.var_post(v, &reach), &reach));
    }
}

#[test]
fn backward_saturation_stays_in_universe() {
    let g = graph();
    let universe = g.mk_unit_colored_vertices();
    let seed = universe.pick_vertex();
    let basin = bwd_saturated(&g, &seed, &universe);
    assert!(is_subset(&seed, &basin));
    assert!(is_subset(&basin, &universe));
    for v in g.variables() {
        let back = biodivine_lib_param_bn::biodivine_std::traits::Set::intersect(
            &g.var_pre(v, &basin),
            &universe,
        );
        assert!(is_subset(&back, &basin));
    }
}

#[test]
fn attractors_are_terminal_and_basins_cover_the_universe() {
    let g = graph();
    let universe = g.mk_unit_colored_vertices();
    let search = xie_beerel_attractors(&g, &universe);
    assert!(!search.components.is_empty());
    for component in &search.components {
        assert!(!is_empty(component));
        for v in g.variables() {
            assert!(is_subset(&g.var_post(v, component), component));
        }
    }
    let mut covered = g.mk_empty_colored_vertices();
    for basin in &search.basins {
        covered = union(&covered, basin);
    }
    assert!(is_subset(&universe, &covered) && is_subset(&covered, &universe));
}

#[test]
fn one_round_of_the_search() {
    let g = graph();
    let universe = g.mk_unit_colored_vertices();
    let (component, basin) = attractor_step(&g, &universe);
    assert!(is_subset(&component, &basin));
    assert!(is_subset(&basin, &universe));
    assert!(!is_empty(&basin));
}

#[test]
fn attractor_data_inference_in_two_stages() {
    let states = vec!["a & b".to_string(), "".to_string()];
    let exist_only =
        perform_inference_with_attractors_specific(states.clone(), graph(), false, false).unwrap();
    assert_eq!(exist_only.approx_cardinality(), 4.0);
    let states = vec!["a & b".to_string()];
    let with_forbid =
        perform_inference_with_attractors_specific(states.clone(), graph(), false, true).unwrap();
    assert_eq!(with_forbid.approx_cardinality(), 2.0);
    let fixed =
        perform_inference_with_attractors_specific(states, graph(), true, true).unwrap();
    assert_eq!(fixed.approx_cardinality(), 2.0);
}

#[test]
fn measured_states_in_attractors() {
    let g = graph();
    let colors =
        parse_and_infer_gradually(&g, vec!["a & b".to_string(), "".to_string()]).unwrap();
    assert_eq!(colors.approx_cardinality(), 4.0);
    let none = parse_and_infer_gradually(&g, vec![]).unwrap();
    assert_eq!(none.approx_cardinality(), 8.0);
    assert!(parse_and_infer_gradually(&g, vec!["a &".to_string()]).is_err());
}

const OPEN_MODEL: &str = r"
a -?? b
b -? a
";

const GOAL_MODEL: &str = r"
a -?? b
b -? a
$a: b
$b: a
";

#[test]
fn goal_network_membership() {
    let bn = BooleanNetwork::try_from(OPEN_MODEL).unwrap();
    let g = SymbolicAsyncGraph::new(&bn).unwrap();
    let all = g.mk_unit_colors();
    let none = g.mk_empty_colors();
    assert!(matches!(check_goal(&g, GOAL_MODEL, &all), GoalCheck::Included));
    assert!(matches!(check_goal(&g, GOAL_MODEL, &none), GoalCheck::Excluded));
    assert!(matches!(check_goal(&g, "x -> y", &all), GoalCheck::NotComparable(_)));
    assert!(matches!(check_goal(&g, "a -> ", &all), GoalCheck::NotComparable(_)));
    assert!(check_if_result_contains_goal_unsafe(g.clone(), GOAL_MODEL.to_string(), all));
    assert!(!check_if_result_contains_goal_unsafe(g, GOAL_MODEL.to_string(), none));
}

#[test]
fn best_weight_of_a_reachable_observation() {
    let g = graph();
    let init = model_check_formula_dirty("~a & ~b".to_string(), &g).unwrap();
    let pairs = vec![("(a & ~a)".to_string(), 0), ("(true)".to_string(), 2)];
    assert_eq!(general_to_specific_precomp_eval(&g, &init, pairs).unwrap(), Some(2));
    let pairs = vec![("(a & b)".to_string(), 0), ("(a)".to_string(), 1), ("(true)".to_string(), 2)];
    assert_eq!(general_to_specific_precomp_eval(&g, &init, pairs).unwrap(), Some(0));
    assert_eq!(general_to_specific_precomp_eval(&g, &init, vec![]).unwrap(), None);
}

#[test]
fn best_weight_of_two_partly_known_observations() {
    let g = graph();
    let first = vec![("(~a & ~b)".to_string(), 0)];
    let second = vec![("(a & ~a)".to_string(), 0), ("(a & b)".to_string(), 1)];
    assert_eq!(two_hole_analysis(&g, first.clone(), second).unwrap(), Some(1));
    assert_eq!(two_hole_analysis(&g, first, vec![]).unwrap(), None);
    assert!(two_hole_analysis(&g, vec![("(a &".to_string(), 0)], vec![]).is_err());
}

#[test]
fn naive_and_reusing_evaluations_agree() {
    let g = graph();
    let init = model_check_formula_dirty("~a & ~b".to_string(), &g).unwrap();
    let pairs = vec![("(a & ~a)".to_string(), 0), ("(true)".to_string(), 2)];
    assert_eq!(naive_eval(&g, &init, pairs.clone()).unwrap(), Some(2));
    assert_eq!(specific_to_general_eval(&g, &init, pairs).unwrap(), Some(2));
    let pairs = vec![("(a & b)".to_string(), 0), ("(a)".to_string(), 1), ("(true)".to_string(), 2)];
    assert_eq!(naive_eval(&g, &init, pairs.clone()).unwrap(), Some(0));
    assert_eq!(specific_to_general_eval(&g, &init, pairs).unwrap(), Some(0));
    let unreachable = vec![("(a & ~a)".to_string(), 0)];
    assert_eq!(naive_eval(&g, &init, unreachable.clone()).unwrap(), None);
    assert_eq!(specific_to_general_eval(&g, &init, unreachable).unwrap(), None);
}

#[test]
fn cancelled_search_stops_early() {
    let g = graph();
    let universe = g.mk_unit_colored_vertices();
    let stop = AtomicBool::new(true);
    let search = xie_beerel_attractors_cancellable(&g, &universe, &stop);
    assert!(!search.complete);
    assert!(search.components.is_empty() && search.basins.is_empty());
    let go = AtomicBool::new(false);
    let search = xie_beerel_attractors_cancellable(&g, &universe, &go);
    assert!(search.complete);
    assert!(!search.components.is_empty());
    assert!(xie_beerel_attractors(&g, &universe).complete);
}

#[test]
fn every_color_has_an_attractor() {
    let g = graph();
    let universe = g.mk_unit_colored_vertices();
    let search = xie_beerel_attractors(&g, &universe);
    let mut covered = g.mk_empty_colored_vertices();
    for component in &search.components {
        covered = union(&covered, component);
    }
    assert_eq!(covered.colors().approx_cardinality(), 8.0);
}

#[test]
fn candidates_one_at_a_time() {
    let g = graph();
    let all = g.mk_unit_colors();
    let picked = enumerate_candidates(&all, usize::MAX);
    assert_eq!(picked.len(), 8);
    for c in &picked {
        assert_eq!(c.approx_cardinality(), 1.0);
    }
    assert_eq!(enumerate_candidates(&all, 3).len(), 3);
    assert!(enumerate_candidates(&g.mk_empty_colors(), 5).is_empty());
}

#[test]
fn cancelled_search_of_nothing_is_complete() {
    let g = graph();
    let stop = AtomicBool::new(true);
    let search = xie_beerel_attractors_cancellable(&g, &g.mk_empty_colored_vertices(), &stop);
    assert!(search.complete);
    assert!(search.components.is_empty());
}
