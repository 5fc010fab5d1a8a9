//! The first generation of formula templates, kept under their established names. Where a
//! template coincides with one of `inference_formulae`, the builder there is used.

use vstd::prelude::*;
use crate::text::{push_char, push_str};
use crate::inference_formulae::{
    Piece, all_nonempty, attractor_aeon_text, attractor_specific_text, attractor_text,
    fixed_point_specific_text, fixed_point_text, forbid_other_attractors_text,
    forbid_other_fixed_points_text, mk_formula_attractor, mk_formula_attractor_aeon,
    mk_formula_attractor_specific, mk_formula_fixed_point, mk_formula_fixed_point_specific,
    mk_formula_forbid_other_attractors, mk_formula_forbid_other_fixed_points,
    mk_formula_reachability_chain, pieces_text, push_pieces, reachability_chain_text,
};

verus! {

/// The literal of proposition `i`: `~P` when its value is false, `P` otherwise, followed by
/// ` & ` unless `i` is the last index of `values`.
pub open spec fn binary_literal_text(values: Seq<bool>, props: Seq<Seq<char>>, i: int) -> Seq<
    char,
> {
    (if values[i] {
        Seq::empty()
    } else {
        seq!['~']
    }) + props[i] + (if i != values.len() - 1 {
        " & "@
    } else {
        Seq::empty()
    })
}

/// The literals of the first `n` propositions, concatenated.
pub open spec fn binary_literals_text(values: Seq<bool>, props: Seq<Seq<char>>, n: int) -> Seq<
    char,
>
    decreases n,
{
    if n <= 0 {
        Seq::empty()
    } else {
        binary_literals_text(values, props, n - 1) + binary_literal_text(values, props, n - 1)
    }
}

/// `(L1 & L2 & ... & Ln)` for the propositions and their Boolean values.
pub open spec fn binary_vector_text(values: Seq<bool>, props: Seq<Seq<char>>) -> Seq<char> {
    seq!['('] + binary_literals_text(values, props, props.len() as int) + seq![')']
}

/// Encodes a Boolean vector as the conjunction of literals over the given propositions.
pub fn encode_binary_vector(values: Vec<bool>, prop_names: Vec<&str>) -> (r: String)
    requires
        prop_names@.len() <= values@.len(),
    ensures
        r@ == binary_vector_text(values@, prop_names@.map_values(|p: &str| p@)),
{
    let ghost props = prop_names@.map_values(|p: &str| p@);
    let mut f = String::new();
    push_char(&mut f, '(');
    let mut i: usize = 0;
    while i < prop_names.len()
        invariant
            prop_names@.len() <= values@.len(),
            props == prop_names@.map_values(|p: &str| p@),
            i <= prop_names@.len(),
            f@ == seq!['('] + binary_literals_text(values@, props, i as int),
        decreases prop_names@.len() - i,
    {
        let ghost before = f@;
        if !values[i] {
            push_char(&mut f, '~');
        }
        push_str(&mut f, prop_names[i]);
        if i != values.len() - 1 {
            push_str(&mut f, " & ");
        }
        proof {
            assert(props[i as int] == prop_names@[i as int]@);
            assert(f@ =~= before + binary_literal_text(values@, props, i as int));
        }
        i = i + 1;
    }
    push_char(&mut f, ')');
    f
}

/// Formula stating the existence of an attractor containing the given fully specified state.
pub fn mk_attractor_formula_specific(attractor_state: String) -> (r: String)
    requires
        attractor_state@.len() > 0,
    ensures
        r@ == attractor_specific_text(attractor_state@),
{
    mk_formula_attractor_specific(attractor_state)
}

/// Formula stating the existence of an attractor containing the given (partial) state, in
/// the shape that lets the model checker use its attractor algorithms.
pub fn mk_attractor_formula_nonspecific_aeon(attractor_state: String) -> (r: String)
    requires
        attractor_state@.len() > 0,
    ensures
        r@ == attractor_aeon_text(attractor_state@),
{
    mk_formula_attractor_aeon(attractor_state)
}

/// Formula stating the existence of an attractor containing the given (partial) state.
pub fn mk_attractor_formula_nonspecific(attractor_state: String) -> (r: String)
    requires
        attractor_state@.len() > 0,
    ensures
        r@ == attractor_text(attractor_state@),
{
    mk_formula_attractor(attractor_state)
}

/// Formula forbidding every attractor that contains none of the given states.
pub fn mk_forbid_other_attractors_formula(attractor_state_set: Vec<String>) -> (r: String)
    requires
        all_nonempty(attractor_state_set.deep_view()),
    ensures
        r@ == forbid_other_attractors_text(attractor_state_set.deep_view()),
{
    mk_formula_forbid_other_attractors(attractor_state_set)
}

/// Formula stating the existence of the given fully specified steady state.
pub fn mk_steady_state_formula_specific(steady_state: String) -> (r: String)
    requires
        steady_state@.len() > 0,
    ensures
        r@ == fixed_point_specific_text(steady_state@),
{
    mk_formula_fixed_point_specific(steady_state)
}

/// Formula stating the existence of a steady state matching the given (partial) state.
pub fn mk_steady_state_formula_nonspecific(steady_state: String) -> (r: String)
    requires
        steady_state@.len() > 0,
    ensures
        r@ == fixed_point_text(steady_state@),
{
    mk_formula_fixed_point(steady_state)
}

/// Formula forbidding every steady state other than the given states.
pub fn mk_forbid_other_steady_states_formula(steady_state_set: Vec<String>) -> (r: String)
    requires
        all_nonempty(steady_state_set.deep_view()),
    ensures
        r@ == forbid_other_fixed_points_text(steady_state_set.deep_view()),
{
    mk_formula_forbid_other_fixed_points(steady_state_set)
}

/// `(3{x}: (@{x}: S1 & (AX {x}))) & ... & ~(3{x}: (@{x}: ~( S1 )  & ... & (AX {x})))`
pub open spec fn steady_state_combined_text(states: Seq<Seq<char>>) -> Seq<char> {
    pieces_text(Piece::SteadyState, states) + "~(3{x}: (@{x}: "@ + pieces_text(
        Piece::ForbiddenSteadyState,
        states,
    ) + "(AX {x})))"@
}

/// Formula requiring each given state to be a steady state and no other state to be one,
/// phrased so that the model checker evaluates `AX {x}` once.
pub fn mk_steady_state_formula_combined(steady_state_set: Vec<String>) -> (r: String)
    requires
        all_nonempty(steady_state_set.deep_view()),
    ensures
        r@ == steady_state_combined_text(steady_state_set.deep_view()),
{
    let mut f = String::new();
    push_pieces(&mut f, Piece::SteadyState, &steady_state_set, steady_state_set.len());
    push_str(&mut f, "~(3{x}: (@{x}: ");
    push_pieces(&mut f, Piece::ForbiddenSteadyState, &steady_state_set, steady_state_set.len());
    push_str(&mut f, "(AX {x})))");
    proof {
        assert(steady_state_set.deep_view().take(steady_state_set@.len() as int)
            =~= steady_state_set.deep_view());
    }
    f
}

/// `(3{x}: (@{x}: S & (AG (S))))`
pub open spec fn trap_space_text(s: Seq<char>) -> Seq<char> {
    "(3{x}: (@{x}: "@ + s + " & (AG ("@ + s + "))))"@
}

/// Formula stating the existence of the given trap space (a part of the state space that
/// cannot be left).
pub fn mk_trap_space_formula(trap_space: String) -> (r: String)
    requires
        trap_space@.len() > 0,
    ensures
        r@ == trap_space_text(trap_space@),
{
    let mut f = String::new();
    push_str(&mut f, "(3{x}: (@{x}: ");
    push_str(&mut f, trap_space.as_str());
    push_str(&mut f, " & (AG (");
    push_str(&mut f, trap_space.as_str());
    push_str(&mut f, "))))");
    f
}

/// `(3{x}: (@{x}: FROM & (OP (TO))))` with `OP` being `AF` when universal, `~EF` when
/// negative, and `EF` otherwise.
pub open spec fn reachability_pair_formula_text(
    from: Seq<char>,
    to: Seq<char>,
    is_universal: bool,
    is_negative: bool,
) -> Seq<char> {
    let op = if is_universal {
        "AF"@
    } else if is_negative {
        "~EF"@
    } else {
        "EF"@
    };
    "(3{x}: (@{x}: "@ + from + " & ("@ + op + " ("@ + to + "))))"@
}

/// Formula stating reachability between two (partial) states: along all paths when
/// `is_universal`, its absence when `is_negative`, along some path otherwise.
pub fn mk_reachability_pair_formula(
    from_state: String,
    to_state: String,
    is_universal: bool,
    is_negative: bool,
) -> (r: String)
    requires
        !(is_negative && is_universal),
        from_state@.len() > 0,
        to_state@.len() > 0,
    ensures
        r@ == reachability_pair_formula_text(from_state@, to_state@, is_universal, is_negative),
{
    let mut f = String::new();
    push_str(&mut f, "(3{x}: (@{x}: ");
    push_str(&mut f, from_state.as_str());
    push_str(&mut f, " & (");
    if is_universal {
        push_str(&mut f, "AF");
    } else if is_negative {
        push_str(&mut f, "~EF");
    } else {
        push_str(&mut f, "EF");
    }
    push_str(&mut f, " (");
    push_str(&mut f, to_state.as_str());
    push_str(&mut f, "))))");
    f
}

/// Formula stating that each state of the sequence can reach the next one.
pub fn mk_reachability_chain_formula(states_sequence: Vec<String>) -> (r: String)
    requires
        states_sequence@.len() > 0,
        all_nonempty(states_sequence.deep_view()),
    ensures
        r@ == reachability_chain_text(states_sequence.deep_view()),
{
    mk_formula_reachability_chain(states_sequence)
}

} // verus!
