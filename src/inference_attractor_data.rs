//! Inference from attractor data: first the properties that require each observed state to
//! lie in an attractor (or to be a fixed point) restrict the candidates one by one; only then
//! the single expensive property that forbids any other attractor is evaluated, over the few
//! candidates that are left.

use vstd::prelude::*;
use vstd::string::*;
use biodivine_lib_param_bn::symbolic_async_graph::{GraphColors, SymbolicAsyncGraph};
use crate::inference_formulae::{
    all_nonempty, attractor_specific_text, fixed_point_specific_text,
    forbid_other_attractors_text, forbid_other_fixed_points_text, mk_formula_attractor_specific,
    mk_formula_fixed_point_specific, mk_formula_forbid_other_attractors,
    mk_formula_forbid_other_fixed_points,
};
use crate::symbolic::{
    accepted, color_set, color_space, colors_well_formed, colors, colors_of, mk_unit_colors, model_check_formula,
    satisfying_set, unit_set, valuations,
};
use crate::utils::{all_accepted, apply_constraints_and_restrict, pipeline};

verus! {

/// The existence property of one fully specified state: a fixed point or an attractor.
pub open spec fn specific_existence_text(s: Seq<char>, use_fixed_points: bool) -> Seq<char> {
    if use_fixed_points {
        fixed_point_specific_text(s)
    } else {
        attractor_specific_text(s)
    }
}

/// The existence properties of the non-empty states, in order.
pub open spec fn existence_formulas(states: Seq<Seq<char>>, use_fixed_points: bool) -> Seq<Seq<char>>
    decreases states.len(),
{
    if states.len() == 0 {
        Seq::empty()
    } else {
        let front = existence_formulas(states.drop_last(), use_fixed_points);
        if states.last().len() == 0 {
            front
        } else {
            front.push(specific_existence_text(states.last(), use_fixed_points))
        }
    }
}

/// The property that forbids every attractor (or fixed point) other than the given states.
pub open spec fn forbid_text(states: Seq<Seq<char>>, use_fixed_points: bool) -> Seq<char> {
    if use_fixed_points {
        forbid_other_fixed_points_text(states)
    } else {
        forbid_other_attractors_text(states)
    }
}

/// The existence property of each non-empty state.
fn mk_existence_formulas(attr_set: &Vec<String>, use_fixed_points: bool) -> (r: Vec<String>)
    ensures
        r.deep_view() == existence_formulas(attr_set.deep_view(), use_fixed_points),
{
    let ghost sv = attr_set.deep_view();
    let mut formulas: Vec<String> = Vec::new();
    let mut i: usize = 0;
    assert(sv.take(0) =~= Seq::<Seq<char>>::empty());
    assert(formulas.deep_view() =~= Seq::<Seq<char>>::empty());
    while i < attr_set.len()
        invariant
            sv == attr_set.deep_view(),
            i <= sv.len(),
            formulas.deep_view() == existence_formulas(sv.take(i as int), use_fixed_points),
        decreases sv.len() - i,
    {
        assert(sv.take(i + 1).drop_last() =~= sv.take(i as int));
        assert(sv.take(i + 1).last() == attr_set[i as int]@);
        let state = attr_set[i].as_str();
        if state.unicode_len() > 0 {
            let f = if use_fixed_points {
                mk_formula_fixed_point_specific(attr_set[i].clone())
            } else {
                mk_formula_attractor_specific(attr_set[i].clone())
            };
            let ghost before = formulas.deep_view();
            formulas.push(f);
            assert(formulas.deep_view() =~= before.push(f@));
        }
        i = i + 1;
    }
    assert(sv.take(sv.len() as int) =~= sv);
    formulas
}

/// The candidates consistent with attractor data given as fully specified states (`a & ~b &
/// ...`, one literal per variable): each non-empty state must lie in an attractor (or be a
/// fixed point, with `use_fixed_points`), and with `forbid_extra_attr` no other attractor (or
/// fixed point) may exist. Succeeds exactly when the model checker accepts all these
/// properties. The existence properties restrict the graph one after another; the
/// forbidding property is then evaluated on the graph they leave. Fails with the model
/// checker's message when a property cannot be evaluated.
pub fn perform_inference_with_attractors_specific(
    attr_set: Vec<String>,
    graph: SymbolicAsyncGraph,
    use_fixed_points: bool,
    forbid_extra_attr: bool,
) -> (r: Result<GraphColors, String>)
    requires
        forbid_extra_attr ==> all_nonempty(attr_set.deep_view()),
    ensures
        r is Ok <==> all_accepted(existence_formulas(attr_set.deep_view(), use_fixed_points), graph)
            && (forbid_extra_attr ==> accepted(
            forbid_text(attr_set.deep_view(), use_fixed_points),
            graph,
        )),
        r matches Ok(c) ==> color_space(c) == valuations(graph) && colors_well_formed(c),
        r matches Ok(c) ==> exists|h: SymbolicAsyncGraph|
            #[trigger] pipeline(
                graph,
                existence_formulas(attr_set.deep_view(), use_fixed_points),
                h,
            ) && color_set(c) == if forbid_extra_attr {
                colors_of(satisfying_set(forbid_text(attr_set.deep_view(), use_fixed_points), h))
            } else {
                colors_of(unit_set(h))
            },
{
    let formulas = mk_existence_formulas(&attr_set, use_fixed_points);
    let restricted = match apply_constraints_and_restrict(formulas, graph) {
        Ok(h) => h,
        Err(e) => {
            return Err(e);
        },
    };
    if !forbid_extra_attr {
        return Ok(mk_unit_colors(&restricted));
    }
    let formula = if use_fixed_points {
        mk_formula_forbid_other_fixed_points(attr_set)
    } else {
        mk_formula_forbid_other_attractors(attr_set)
    };
    match model_check_formula(&formula, &restricted) {
        Ok(s) => Ok(colors(&s)),
        Err(e) => Err(e),
    }
}

} // verus!
