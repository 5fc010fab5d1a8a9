//! Encoding observations as propositional formulas, and lists of observations as a single
//! dynamic property whose template depends on the kind of data.

use vstd::prelude::*;
use vstd::string::*;
use crate::text::{push_char, push_str, join_with};
use crate::observations::{Observation, ObservationList, ObservationType, VarValue};
use crate::inference_formulae::{
    all_nonempty, attractor_text, fixed_point_text, mk_formula_attractor, mk_formula_fixed_point,
    mk_formula_reachability_chain, reachability_chain_text,
};

verus! {

/// The literal for a proposition with a value: `P` when true, `~P` when false, none when
/// unknown.
pub open spec fn literal(v: VarValue, prop: Seq<char>) -> Option<Seq<char>> {
    match v {
        VarValue::True => Some(prop),
        VarValue::False => Some(seq!['~'] + prop),
        VarValue::Any => None,
    }
}

/// The literals for the first `n` values, in order.
pub open spec fn literals(vals: Seq<VarValue>, props: Seq<Seq<char>>, n: int) -> Seq<Seq<char>>
    decreases n,
{
    if n <= 0 {
        Seq::empty()
    } else {
        let prev = literals(vals, props, n - 1);
        match literal(vals[n - 1], props[n - 1]) {
            Some(l) => prev.push(l),
            None => prev,
        }
    }
}

/// `(L1 & L2 & ... & Lk)` over the literals of the known values, or `(true)` when no value
/// is known.
pub open spec fn observation_formula_text(vals: Seq<VarValue>, props: Seq<Seq<char>>) -> Seq<char> {
    let lits = literals(vals, props, vals.len() as int);
    seq!['('] + (if lits.len() == 0 {
        "true"@
    } else {
        join_with(lits, " & "@)
    }) + seq![')']
}

/// The message for an observation whose length differs from the number of propositions.
pub open spec fn length_mismatch_message() -> Seq<char> {
    "Numbers of observation's values and propositions differs."@
}

/// Encodes an observation as the conjunction of the literals of its known values over the
/// given proposition names. Fails when the numbers of values and names differ.
pub fn encode_observation(observation: &Observation, prop_names: &[String]) -> (r: Result<
    String,
    String,
>)
    ensures
        observation.values@.len() == prop_names@.len() ==> (r matches Ok(f) && f@
            == observation_formula_text(observation.values@, prop_names.deep_view())),
        observation.values@.len() != prop_names@.len() ==> (r matches Err(e) && e@
            == length_mismatch_message()),
{
    if observation.num_values() != prop_names.len() {
        return Err(String::from_str("Numbers of observation's values and propositions differs."));
    }
    let ghost vals = observation.values@;
    let ghost props = prop_names.deep_view();
    let mut body = String::new();
    let mut count: usize = 0;
    let mut i: usize = 0;
    while i < prop_names.len()
        invariant
            vals == observation.values@,
            props == prop_names.deep_view(),
            vals.len() == props.len(),
            i <= vals.len(),
            count == literals(vals, props, i as int).len(),
            body@ == join_with(literals(vals, props, i as int), " & "@),
            count <= i,
        decreases vals.len() - i,
    {
        let ghost prev = literals(vals, props, i as int);
        let v = observation.values[i];
        let prop = prop_names[i].as_str();
        assert(props[i as int] == prop@);
        if v != VarValue::Any {
            if count > 0 {
                push_str(&mut body, " & ");
            }
            if v == VarValue::False {
                push_char(&mut body, '~');
            }
            push_str(&mut body, prop);
            count = count + 1;
            proof {
                let l = literal(vals[i as int], props[i as int])->Some_0;
                let next = prev.push(l);
                assert(next.drop_last() =~= prev);
                if prev.len() == 0 {
                    assert(next =~= seq![l]);
                }
                assert(body@ =~= join_with(next, " & "@));
            }
        }
        i = i + 1;
    }
    let mut f = String::new();
    push_char(&mut f, '(');
    if count == 0 {
        push_str(&mut f, "true");
    } else {
        push_str(&mut f, body.as_str());
    }
    push_char(&mut f, ')');
    Ok(f)
}

/// An observation with no known value is encoded as `(true)`, whatever the propositions.
pub proof fn lemma_unknown_observation_is_true(vals: Seq<VarValue>, props: Seq<Seq<char>>)
    requires
        vals.len() == props.len(),
        forall|i: int| 0 <= i < vals.len() ==> vals[i] == VarValue::Any,
    ensures
        observation_formula_text(vals, props) == "(true)"@,
{
    lemma_no_literals(vals, props, vals.len() as int);
    reveal_strlit("(true)");
    reveal_strlit("true");
    assert(observation_formula_text(vals, props) =~= "(true)"@);
}

proof fn lemma_no_literals(vals: Seq<VarValue>, props: Seq<Seq<char>>, n: int)
    requires
        n <= vals.len(),
        forall|i: int| 0 <= i < vals.len() ==> vals[i] == VarValue::Any,
    ensures
        literals(vals, props, n).len() == 0,
    decreases n,
{
    if n > 0 {
        lemma_no_literals(vals, props, n - 1);
    }
}

/// The formulas of all observations, or the error if some observation does not fit.
pub open spec fn observations_formulas_text(obs: Seq<Seq<VarValue>>, props: Seq<Seq<char>>) -> Result<
    Seq<Seq<char>>,
    Seq<char>,
> {
    if forall|i: int| 0 <= i < obs.len() ==> #[trigger] obs[i].len() == props.len() {
        Ok(obs.map_values(|vals: Seq<VarValue>| observation_formula_text(vals, props)))
    } else {
        Err(length_mismatch_message())
    }
}

/// Encodes several observations one by one, failing if any of them does not fit the
/// propositions.
pub fn encode_multiple_observations(observations: &[Observation], prop_names: &[String]) -> (r:
    Result<Vec<String>, String>)
    ensures
        match observations_formulas_text(
            observations@.map_values(|o: Observation| o.values@),
            prop_names.deep_view(),
        ) {
            Ok(fs) => r matches Ok(v) && v.deep_view() == fs,
            Err(msg) => r matches Err(e) && e@ == msg,
        },
{
    let ghost obs = observations@.map_values(|o: Observation| o.values@);
    let ghost props = prop_names.deep_view();
    let mut formulas: Vec<String> = Vec::new();
    let mut i: usize = 0;
    while i < observations.len()
        invariant
            obs == observations@.map_values(|o: Observation| o.values@),
            props == prop_names.deep_view(),
            i <= obs.len(),
            formulas@.len() == i,
            forall|j: int| 0 <= j < i ==> #[trigger] obs[j].len() == props.len(),
            forall|j: int|
                0 <= j < i ==> #[trigger] formulas.deep_view()[j] == observation_formula_text(
                    obs[j],
                    props,
                ),
        decreases obs.len() - i,
    {
        assert(obs[i as int] == observations[i as int].values@);
        match encode_observation(&observations[i], prop_names) {
            Ok(f) => {
                let ghost before = formulas.deep_view();
                formulas.push(f);
                assert(formulas.deep_view() =~= before.push(f@));
            },
            Err(e) => {
                return Err(e);
            },
        }
        i = i + 1;
    }
    assert(formulas.deep_view() =~= obs.map_values(
        |vals: Seq<VarValue>| observation_formula_text(vals, props),
    ));
    Ok(formulas)
}

/// `(P1 & P2 & ... & Pn)`, or `(true)` when there are no pieces.
pub open spec fn conjunction_text(pieces: Seq<Seq<char>>) -> Seq<char> {
    if pieces.len() == 0 {
        "(true)"@
    } else {
        seq!['('] + join_with(pieces, " & "@) + seq![')']
    }
}

/// The attractor formula (or, with `fixed_points`, the fixed-point formula) of a state.
pub open spec fn existence_text(s: Seq<char>, fixed_points: bool) -> Seq<char> {
    if fixed_points {
        fixed_point_text(s)
    } else {
        attractor_text(s)
    }
}

/// The existence formulas of all states.
pub open spec fn existence_pieces(states: Seq<Seq<char>>, fixed_points: bool) -> Seq<Seq<char>> {
    states.map_values(|s: Seq<char>| existence_text(s, fixed_points))
}

/// The conjunction of the existence formulas of the given states: an attractor, or a fixed
/// point, for each of them.
fn mk_existence_conjunction(states: &Vec<String>, fixed_points: bool) -> (r: String)
    requires
        all_nonempty(states.deep_view()),
    ensures
        r@ == conjunction_text(existence_pieces(states.deep_view(), fixed_points)),
{
    if states.len() == 0 {
        return String::from_str("(true)");
    }
    let ghost sv = states.deep_view();
    let ghost pieces = existence_pieces(sv, fixed_points);
    let mut f = String::new();
    push_char(&mut f, '(');
    let ghost start = f@;
    let mut i: usize = 0;
    assert(pieces.take(0) =~= Seq::<Seq<char>>::empty());
    while i < states.len()
        invariant
            sv == states.deep_view(),
            pieces == existence_pieces(sv, fixed_points),
            all_nonempty(sv),
            i <= sv.len(),
            f@ == start + join_with(pieces.take(i as int), " & "@),
        decreases sv.len() - i,
    {
        assert(sv[i as int] == states[i as int]@);
        assert(sv[i as int].len() > 0);
        if i > 0 {
            push_str(&mut f, " & ");
        }
        let piece = if fixed_points {
            mk_formula_fixed_point(states[i].clone())
        } else {
            mk_formula_attractor(states[i].clone())
        };
        push_str(&mut f, piece.as_str());
        proof {
            let next = pieces.take(i + 1);
            assert(next.drop_last() =~= pieces.take(i as int));
            assert(next.last() == pieces[i as int]);
            if i == 0 {
                assert(next =~= seq![pieces[0]]);
            }
            assert(f@ =~= start + join_with(next, " & "@));
        }
        i = i + 1;
    }
    assert(pieces.take(sv.len() as int) =~= pieces);
    push_char(&mut f, ')');
    f
}

/// The single property encoding a list of observations: an attractor (or fixed point) for
/// each observation, or a reachability chain through them for a time series.
pub open spec fn observation_list_formula_text(l: ObservationList) -> Result<Seq<char>, Seq<char>> {
    match observations_formulas_text(
        l.observations@.map_values(|o: Observation| o.values@),
        l.var_names.deep_view(),
    ) {
        Err(e) => Err(e),
        Ok(fs) => match l.data_type {
            ObservationType::Attractor => Ok(conjunction_text(existence_pieces(fs, false))),
            ObservationType::FixedPoint => Ok(conjunction_text(existence_pieces(fs, true))),
            ObservationType::TimeSeries => Ok(reachability_chain_text(fs)),
            ObservationType::Unspecified => Err("Cannot encode data with unspecified type"@),
        },
    }
}

/// Encodes an ordered list of observations as one formula, with the template chosen by the
/// kind of the data. A time series must hold at least one observation; a list of attractors
/// or fixed points without observations is `(true)`.
pub fn encode_observation_list_hctl(observation_list: ObservationList) -> (r: Result<
    String,
    String,
>)
    requires
        observation_list.data_type == ObservationType::TimeSeries
            ==> observation_list.observations@.len() > 0,
    ensures
        match observation_list_formula_text(observation_list) {
            Ok(f) => r matches Ok(s) && s@ == f,
            Err(msg) => r matches Err(e) && e@ == msg,
        },
{
    let encoded = match encode_multiple_observations(
        observation_list.observations.as_slice(),
        observation_list.var_names.as_slice(),
    ) {
        Ok(v) => v,
        Err(e) => {
            return Err(e);
        },
    };
    assert(encoded@.len() == observation_list.observations@.len());
    assert(all_nonempty(encoded.deep_view())) by {
        assert forall|i: int| 0 <= i < encoded.deep_view().len() implies #[trigger] encoded.deep_view()[i].len() > 0 by {
            assert(encoded.deep_view()[i][0] == '(');
        }
    }
    match observation_list.data_type {
        ObservationType::Attractor => Ok(mk_existence_conjunction(&encoded, false)),
        ObservationType::FixedPoint => Ok(mk_existence_conjunction(&encoded, true)),
        ObservationType::TimeSeries => Ok(mk_formula_reachability_chain(encoded)),
        ObservationType::Unspecified => Err(
            String::from_str("Cannot encode data with unspecified type"),
        ),
    }
}

} // verus!
