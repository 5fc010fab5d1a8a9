use boolean_network_sketches::create_inference_formulae::{
    encode_binary_vector, mk_attractor_formula_nonspecific, mk_attractor_formula_nonspecific_aeon,
    mk_attractor_formula_specific, mk_forbid_other_attractors_formula,
    mk_forbid_other_steady_states_formula, mk_reachability_chain_formula,
    mk_reachability_pair_formula, mk_steady_state_formula_combined,
    mk_steady_state_formula_nonspecific, mk_steady_state_formula_specific, mk_trap_space_formula,
};
use boolean_network_sketches::inference_formulae::{
    mk_formula_attractor, mk_formula_attractor_aeon, mk_formula_attractor_set,
    mk_formula_attractor_specific, mk_formula_attractors_combined, mk_formula_fixed_point,
    mk_formula_fixed_point_set, mk_formula_fixed_point_specific, mk_formula_fixed_points_combined,
    mk_formula_forbid_other_attractors, mk_formula_forbid_other_fixed_points,
    mk_formula_reachability_chain, mk_formula_reachability_pair,
};

#[test]
/// Test encoding of Boolean vector to formula.
fn create_inference_formulae_test_observation_encoding() {
    let values = vec![false, true, false, true];
    let prop_names = vec!["A", "B", "C", "D"];

    assert_eq!(
        encode_binary_vector(values, prop_names),
        "(~A & B & ~C & D)".to_string()
    );
}

#[test]
/// Test generating of different kinds of general attractor formulae.
fn test_attractor_encodings() {
    let attr_states = vec!["a & b & ~c".to_string(), "a & b & c".to_string()];

    assert_eq!(
        mk_formula_attractor_specific(attr_states[0].clone()),
        "(3{x}: (@{x}: (a & b & ~c & (AG EF (a & b & ~c)))))".to_string(),
    );
    assert_eq!(
        mk_formula_attractor_aeon(attr_states[0].clone()),
        "(3{x}: (@{x}: (a & b & ~c & (!{y}: AG EF {y}))))".to_string(),
    );
    assert_eq!(
        mk_formula_attractor(attr_states[0].clone()),
        "(3{x}: (@{x}: (a & b & ~c & (AG EF (a & b & ~c & {x})))))".to_string(),
    );
    assert_eq!(
        mk_formula_forbid_other_attractors(attr_states.clone()),
        "~(3{x}: (@{x}: ~(AG EF ((a & b & ~c) | (a & b & c) | false ))))".to_string(),
    );
}

#[test]
/// Test generating of different kinds of steady state formulae.
fn test_steady_state_encodings() {
    let attr_states = vec!["a & b & ~c".to_string(), "a & b & c".to_string()];

    assert_eq!(
        mk_formula_fixed_point_specific(attr_states[0].clone()),
        "(3{x}: (@{x}: (a & b & ~c & (AX (a & b & ~c)))))".to_string(),
    );
    assert_eq!(
        mk_formula_fixed_point(attr_states[0].clone()),
        "(3{x}: (@{x}: (a & b & ~c & (AX (a & b & ~c & {x})))))".to_string(),
    );
    assert_eq!(
        mk_formula_forbid_other_fixed_points(attr_states.clone()),
        "~(3{x}: (@{x}: ~(a & b & ~c) & ~(a & b & c) & (AX {x})))".to_string(),
    );
    assert_eq!(
        mk_formula_fixed_points_combined(attr_states.clone()),
        "(3{x}: (@{x}: (a & b & ~c & (AX (a & b & ~c & {x}))))) & (3{x}: (@{x}: (a & b & c & (AX (a & b & c & {x}))))) & ~(3{x}: (@{x}: ~(a & b & ~c) & ~(a & b & c) & (AX {x})))".to_string(),
    );
}

#[test]
/// Test generating reachability formulae.
fn test_reachability_encoding() {
    let states = vec![
        "a & b & ~c".to_string(),
        "a & b & c".to_string(),
        "~a & b & c".to_string(),
    ];

    assert_eq!(
        mk_formula_reachability_pair(states[0].clone(), states[1].clone(), true),
        "(3{x}: (@{x}: a & b & ~c & (~EF (a & b & c))))".to_string(),
    );
    assert_eq!(
        mk_formula_reachability_pair(states[0].clone(), states[1].clone(), false),
        "(3{x}: (@{x}: a & b & ~c & (EF (a & b & c))))".to_string(),
    );
    assert_eq!(
        mk_formula_reachability_chain(states),
        "(3{x}: (@{x}: (a & b & ~c) & EF ((a & b & c) & EF (~a & b & c))))".to_string(),
    );
}

#[test]
fn binary_vector_with_single_and_no_propositions() {
    assert_eq!(encode_binary_vector(vec![true], vec!["x"]), "(x)".to_string());
    assert_eq!(encode_binary_vector(vec![false], vec!["x"]), "(~x)".to_string());
    assert_eq!(encode_binary_vector(vec![], vec![]), "()".to_string());
}

#[test]
fn attractor_and_fixed_point_sets() {
    let states = vec!["a".to_string(), "~b".to_string()];
    assert_eq!(
        mk_formula_attractor_set(states.clone()),
        "(3{x}: (@{x}: (a & (AG EF (a & {x}))))) & (3{x}: (@{x}: (~b & (AG EF (~b & {x}))))) & true"
            .to_string(),
    );
    assert_eq!(
        mk_formula_fixed_point_set(states.clone()),
        "(3{x}: (@{x}: (a & (AX (a & {x}))))) & (3{x}: (@{x}: (~b & (AX (~b & {x}))))) & true"
            .to_string(),
    );
    assert_eq!(mk_formula_attractor_set(vec![]), "true".to_string());
    assert_eq!(
        mk_formula_attractors_combined(vec!["a".to_string()]),
        "(3{x}: (@{x}: (a & (AG EF (a & {x}))))) & ~(3{x}: (@{x}: ~(AG EF ((a) | false ))))"
            .to_string(),
    );
    assert_eq!(
        mk_formula_forbid_other_attractors(vec![]),
        "~(3{x}: (@{x}: ~(AG EF (false ))))".to_string(),
    );
}

#[test]
fn single_state_chain_has_two_closing_parentheses() {
    assert_eq!(
        mk_formula_reachability_chain(vec!["a".to_string()]),
        "(3{x}: (@{x}: a))".to_string(),
    );
}

#[test]
fn first_generation_templates() {
    let s = "a & ~b".to_string();
    assert_eq!(
        mk_attractor_formula_specific(s.clone()),
        mk_formula_attractor_specific(s.clone())
    );
    assert_eq!(
        mk_attractor_formula_nonspecific(s.clone()),
        "(3{x}: (@{x}: (a & ~b & (AG EF (a & ~b & {x})))))".to_string(),
    );
    assert_eq!(
        mk_attractor_formula_nonspecific_aeon(s.clone()),
        "(3{x}: (@{x}: (a & ~b & (!{y}: AG EF {y}))))".to_string(),
    );
    assert_eq!(
        mk_steady_state_formula_specific(s.clone()),
        "(3{x}: (@{x}: (a & ~b & (AX (a & ~b)))))".to_string(),
    );
    assert_eq!(
        mk_steady_state_formula_nonspecific(s.clone()),
        "(3{x}: (@{x}: (a & ~b & (AX (a & ~b & {x})))))".to_string(),
    );
    assert_eq!(
        mk_forbid_other_attractors_formula(vec![s.clone()]),
        "~(3{x}: (@{x}: ~(AG EF ((a & ~b) | false ))))".to_string(),
    );
    assert_eq!(
        mk_forbid_other_steady_states_formula(vec![s.clone()]),
        "~(3{x}: (@{x}: ~(a & ~b) & (AX {x})))".to_string(),
    );
    assert_eq!(
        mk_trap_space_formula(s.clone()),
        "(3{x}: (@{x}: a & ~b & (AG (a & ~b))))".to_string(),
    );
    assert_eq!(
        mk_steady_state_formula_combined(vec!["a".to_string(), "b".to_string()]),
        "(3{x}: (@{x}: a & (AX {x}))) & (3{x}: (@{x}: b & (AX {x}))) & ~(3{x}: (@{x}: ~( a )  & ~( b )  & (AX {x})))"
            .to_string(),
    );
    assert_eq!(
        mk_reachability_chain_formula(vec!["a".to_string(), "b".to_string()]),
        "(3{x}: (@{x}: (a) & EF (b)))".to_string(),
    );
}

#[test]
fn reachability_pair_variants() {
    let from = "a".to_string();
    let to = "b".to_string();
    assert_eq!(
        mk_reachability_pair_formula(from.clone(), to.clone(), true, false),
        "(3{x}: (@{x}: a & (AF (b))))".to_string(),
    );
    assert_eq!(
        mk_reachability_pair_formula(from.clone(), to.clone(), false, true),
        "(3{x}: (@{x}: a & (~EF (b))))".to_string(),
    );
    assert_eq!(
        mk_reachability_pair_formula(from, to, false, false),
        "(3{x}: (@{x}: a & (EF (b))))".to_string(),
    );
}
