//! Helpers for reachability between observations that are only partly known: a sequence of
//! ever looser observations, each weighted by the number of its unknown values.

use vstd::prelude::*;
use vstd::string::*;
use crate::text::push_char;
use crate::observations::{Observation, VarValue, char_value, parse_values, observation_from_text};
use crate::data_encoding::{encode_observation, observation_formula_text};
use biodivine_lib_param_bn::symbolic_async_graph::{GraphColoredVertices, SymbolicAsyncGraph};
use crate::symbolic::{
    Pairs, colored_vertices, context_view, copy_vertices, extended_satisfying_set, in_graph,
    intersect, is_empty, mk_empty_colored_vertices, model_check_extended_formula,
    model_check_formula, satisfying_set, transitions, union, var_count, well_formed, accepted,
    extended_accepted, context_names,
};
use crate::reachability::{fwd_saturated, least_closed};

verus! {

/// Keeps the better (smaller) of an optional weight and a new one; on a tie the new one.
pub fn update_weight(original: Option<usize>, new: usize) -> (r: Option<usize>)
    ensures
        r == match original {
            Some(val) => if val < new {
                Some(val)
            } else {
                Some(new)
            },
            None => Some(new),
        },
{
    match original {
        Some(val) if val < new => original,
        _ => Some(new),
    }
}

/// The text of the observation with `n - i` fixed values (`1` when `use_ones`, else `0`)
/// followed by `i` unknown ones.
pub open spec fn loosened_text(n: nat, i: nat, use_ones: bool) -> Seq<char> {
    Seq::new(
        n,
        |j: int|
            if j < n - i {
                if use_ones {
                    '1'
                } else {
                    '0'
                }
            } else {
                '-'
            },
    )
}

/// The values of a text made of value characters only.
pub open spec fn text_values(s: Seq<char>) -> Seq<VarValue> {
    s.map_values(|c: char| char_value(c)->Some_0)
}

/// A text made of value characters only is read character by character.
pub proof fn lemma_parse_value_chars(s: Seq<char>)
    requires
        forall|j: int| 0 <= j < s.len() ==> #[trigger] char_value(s[j]) is Some,
    ensures
        parse_values(s) == Ok::<Seq<VarValue>, char>(text_values(s)),
    decreases s.len(),
{
    if s.len() > 0 {
        let p = s.drop_last();
        assert forall|j: int| 0 <= j < p.len() implies #[trigger] char_value(p[j]) is Some by {
            assert(p[j] == s[j]);
        }
        lemma_parse_value_chars(p);
        assert(char_value(s[s.len() - 1]) is Some);
        let v = char_value(s.last())->Some_0;
        assert(char_value(s.last()) == Some(v));
        assert(text_values(p).push(v) =~= text_values(s));
        assert(parse_values(p) == Ok::<Seq<VarValue>, char>(text_values(p)));
        assert(parse_values(s) == Ok::<Seq<VarValue>, char>(text_values(p).push(v)));
    } else {
        assert(text_values(s) =~= Seq::<VarValue>::empty());
    }
}

/// The formulas of the ever looser observations over `props`, each with its number of
/// unknown values.
pub open spec fn weighted_formulas(props: Seq<Seq<char>>, use_ones: bool) -> Seq<(Seq<char>, nat)> {
    Seq::new(
        props.len() + 1,
        |i: int|
            (
                observation_formula_text(
                    text_values(loosened_text(props.len(), i as nat, use_ones)),
                    props,
                ),
                i as nat,
            ),
    )
}

/// Encodes the sequence of observations that starts at the state with all propositions true
/// (or all false) and frees one more proposition at each step, from the last one back:
/// for four propositions `1111, 111-, 11--, 1---, ----`. Each formula is paired with the
/// number of its free propositions. Fails when there are no propositions.
pub fn encode_obs_weight_pairs(prop_names: &[String], use_ones: bool) -> (r: Result<
    Vec<(String, usize)>,
    String,
>)
    requires
        prop_names@.len() < usize::MAX,
    ensures
        prop_names@.len() == 0 ==> (r matches Err(e) && e@ == "Observation can't be empty."@),
        prop_names@.len() > 0 ==> (r matches Ok(v) && v@.len() == prop_names@.len() + 1
            && forall|i: int|
            0 <= i < v@.len() ==> (#[trigger] v@[i]).0@ == weighted_formulas(
                prop_names.deep_view(),
                use_ones,
            )[i].0 && v@[i].1 == i),
{
    let ghost props = prop_names.deep_view();
    let n = prop_names.len();
    let mut pairs: Vec<(String, usize)> = Vec::new();
    let mut i: usize = 0;
    while i <= n
        invariant
            n == prop_names@.len(),
            n < usize::MAX,
            props == prop_names.deep_view(),
            i <= n + 1,
            pairs@.len() == i,
            n == 0 ==> i == 0,
            forall|k: int|
                0 <= k < i ==> (#[trigger] pairs@[k]).0@ == weighted_formulas(props, use_ones)[k].0
                    && pairs@[k].1 == k,
        decreases n + 1 - i,
    {
        let ghost target = loosened_text(n as nat, i as nat, use_ones);
        let mut obs_str = String::new();
        let mut j: usize = 0;
        while j < n - i
            invariant
                i <= n,
                j <= n - i,
                target == loosened_text(n as nat, i as nat, use_ones),
                obs_str@ == target.take(j as int),
            decreases n - i - j,
        {
            push_char(&mut obs_str, if use_ones { '1' } else { '0' });
            assert(obs_str@ =~= target.take(j + 1));
            j = j + 1;
        }
        while j < n
            invariant
                i <= n,
                n - i <= j <= n,
                target == loosened_text(n as nat, i as nat, use_ones),
                obs_str@ == target.take(j as int),
            decreases n - j,
        {
            push_char(&mut obs_str, '-');
            assert(obs_str@ =~= target.take(j + 1));
            j = j + 1;
        }
        proof {
            assert(obs_str@ =~= target);
            lemma_parse_value_chars(target);
        }
        let observation = match Observation::try_from_str(obs_str) {
            Ok(o) => o,
            Err(e) => {
                return Err(e);
            },
        };
        let formula = match encode_observation(&observation, prop_names) {
            Ok(f) => f,
            Err(e) => {
                return Err(e);
            },
        };
        pairs.push((formula, i));
        i = i + 1;
    }
    Ok(pairs)
}

/// The model checker accepts the formula of every weighted observation.
pub open spec fn all_pairs_accepted(pairs: Seq<(String, usize)>, g: SymbolicAsyncGraph) -> bool {
    forall|m: int| 0 <= m < pairs.len() ==> accepted(#[trigger] pairs[m].0@, g)
}

/// The names of a context of two sets.
pub proof fn lemma_context_names_pair(a: Seq<char>, b: Seq<char>, x: Pairs, y: Pairs)
    ensures
        context_names(seq![(a, x), (b, y)]) == set![a, b],
{
    let c = seq![(a, x), (b, y)];
    assert(c[0].0 == a && c[1].0 == b);
    assert(context_names(c) =~= set![a, b]);
}

/// The names of a context of one set.
pub proof fn lemma_context_names_single(a: Seq<char>, x: Pairs)
    ensures
        context_names(seq![(a, x)]) == set![a],
{
    let c = seq![(a, x)];
    assert(c[0].0 == a);
    assert(context_names(c) =~= set![a]);
}

/// `update_weight` on weights as numbers.
pub open spec fn updated(best: Option<nat>, w: nat) -> Option<nat> {
    match best {
        Some(v) => if v < w {
            Some(v)
        } else {
            Some(w)
        },
        None => Some(w),
    }
}

/// The formulas of weighted observations, with their weights as numbers.
pub open spec fn weighted_view(pairs: Seq<(String, usize)>) -> Seq<(Seq<char>, nat)> {
    pairs.map_values(|p: (String, usize)| (p.0@, p.1 as nat))
}

/// The best (smallest) weight of an observation, taken in order, whose states meet `reach`.
pub open spec fn best_weight(pairs: Seq<(Seq<char>, nat)>, reach: Pairs, g: SymbolicAsyncGraph) -> Option<nat>
    decreases pairs.len(),
{
    if pairs.len() == 0 {
        None
    } else {
        let b = best_weight(pairs.drop_last(), reach, g);
        if satisfying_set(pairs.last().0, g).intersect(reach) != Set::<(Seq<bool>, Seq<bool>)>::empty() {
            updated(b, pairs.last().1)
        } else {
            b
        }
    }
}

/// The weight as a number.
pub open spec fn weight_view(w: Option<usize>) -> Option<nat> {
    match w {
        Some(v) => Some(v as nat),
        None => None,
    }
}

/// The best weight of a second observation reachable from the first one: computes the states
/// reachable from `init_observation` once, then goes through the variants of the second
/// observation from the last (the most general) to the first, keeping the smallest weight of
/// a variant that some reachable state satisfies. Fails with the model checker's message
/// when a formula cannot be evaluated.
pub fn general_to_specific_precomp_eval(
    stg: &SymbolicAsyncGraph,
    init_observation: &GraphColoredVertices,
    second_observation_weight_pairs: Vec<(String, usize)>,
) -> (r: Result<Option<usize>, String>)
    requires
        in_graph(*init_observation, *stg),
        well_formed(*init_observation),
    ensures
        r is Ok <==> all_pairs_accepted(second_observation_weight_pairs@, *stg),
        r matches Ok(b) ==> exists|reach: Pairs|
            #[trigger] least_closed(
                transitions(*stg),
                var_count(*stg),
                colored_vertices(*init_observation),
                None,
                true,
                reach,
            ) && weight_view(b) == best_weight(
                weighted_view(second_observation_weight_pairs@).reverse(),
                reach,
                *stg,
            ),
{
    let ghost ps = weighted_view(second_observation_weight_pairs@).reverse();
    let fwd_set_from_initial = fwd_saturated(stg, init_observation);
    let ghost reach = colored_vertices(fwd_set_from_initial);
    let n = second_observation_weight_pairs.len();
    let mut best_weight_so_far: Option<usize> = None;
    let mut j: usize = 0;
    assert(ps.take(0) =~= Seq::<(Seq<char>, nat)>::empty());
    while j < n
        invariant
            n == second_observation_weight_pairs@.len(),
            ps == weighted_view(second_observation_weight_pairs@).reverse(),
            reach == colored_vertices(fwd_set_from_initial),
            in_graph(fwd_set_from_initial, *stg),
            j <= n,
            forall|m: int|
                n - j <= m < n ==> accepted(#[trigger] second_observation_weight_pairs@[m].0@, *stg),
            weight_view(best_weight_so_far) == best_weight(ps.take(j as int), reach, *stg),
        decreases n - j,
    {
        let k = n - 1 - j;
        let formula = &second_observation_weight_pairs[k].0;
        let weight = second_observation_weight_pairs[k].1;
        let second_observation = match model_check_formula(formula, stg) {
            Ok(s) => s,
            Err(e) => {
                return Err(e);
            },
        };
        let hit = intersect(&fwd_set_from_initial, &second_observation);
        proof {
            assert(ps.take(j + 1).drop_last() =~= ps.take(j as int));
            assert(ps.take(j + 1).last() == (formula@, weight as nat));
            assert(colored_vertices(hit) =~= satisfying_set(formula@, *stg).intersect(reach));
        }
        if !is_empty(&hit) {
            best_weight_so_far = update_weight(best_weight_so_far, weight);
        }
        j = j + 1;
    }
    assert(ps.take(n as int) =~= ps);
    Ok(best_weight_so_far)
}

/// The weights of pairs of variants, the second list for each variant of the first, whose
/// second variant meets the states reached from the first; `reaches[k]` is what is reached
/// from the `k`-th variant of the first observation.
pub open spec fn best_pair_weight(
    first: Seq<(Seq<char>, nat)>,
    second: Seq<(Seq<char>, nat)>,
    reaches: Seq<Pairs>,
    g: SymbolicAsyncGraph,
    k: int,
    j: int,
) -> Option<nat>
    decreases k, j,
{
    if k <= 0 {
        None
    } else if j <= 0 {
        best_pair_weight(first, second, reaches, g, k - 1, second.len() as int)
    } else {
        let b = best_pair_weight(first, second, reaches, g, k, j - 1);
        if satisfying_set(second[j - 1].0, g).intersect(reaches[k - 1]) != Set::<
            (Seq<bool>, Seq<bool>),
        >::empty() {
            updated(b, first[k - 1].1 + second[j - 1].1)
        } else {
            b
        }
    }
}

/// The best pair weight over the first `k` variants reads only the first `k` reached sets.
proof fn lemma_best_pair_weight_prefix(
    first: Seq<(Seq<char>, nat)>,
    second: Seq<(Seq<char>, nat)>,
    r1: Seq<Pairs>,
    r2: Seq<Pairs>,
    g: SymbolicAsyncGraph,
    k: int,
    j: int,
)
    requires
        k <= r1.len(),
        k <= r2.len(),
        forall|i: int| 0 <= i < k ==> r1[i] == r2[i],
    ensures
        best_pair_weight(first, second, r1, g, k, j) == best_pair_weight(first, second, r2, g, k, j),
    decreases k, j,
{
    if k <= 0 {
    } else if j <= 0 {
        lemma_best_pair_weight_prefix(first, second, r1, r2, g, k - 1, second.len() as int);
    } else {
        lemma_best_pair_weight_prefix(first, second, r1, r2, g, k, j - 1);
        assert(r1[k - 1] == r2[k - 1]);
    }
}

/// `reach` is what is reached from the `k`-th variant of the first observation together with
/// everything reached before it (`reaches[k - 1]`).
pub open spec fn reach_step(
    first: Seq<(Seq<char>, nat)>,
    reaches: Seq<Pairs>,
    g: SymbolicAsyncGraph,
    k: int,
    reach: Pairs,
) -> bool {
    least_closed(
        transitions(g),
        var_count(g),
        satisfying_set(first[k].0, g).union(
            if k == 0 {
                Set::<(Seq<bool>, Seq<bool>)>::empty()
            } else {
                reaches[k - 1]
            },
        ),
        None,
        true,
        reach,
    )
}

/// `reaches[k]` is reached from the `k`-th variant of the first observation together with
/// everything reached before it.
pub open spec fn cumulative_reaches(
    first: Seq<(Seq<char>, nat)>,
    reaches: Seq<Pairs>,
    g: SymbolicAsyncGraph,
) -> bool {
    &&& reaches.len() == first.len()
    &&& forall|k: int| 0 <= k < first.len() ==> #[trigger] reach_step(first, reaches, g, k, reaches[k])
}

/// The best sum of weights of a variant of the first observation and a variant of the second
/// one that is reachable from it. The variants of the first observation are taken from the
/// most specific on, and the states reached from each are kept as a seed for the next.
/// Fails with the model checker's message when a formula cannot be evaluated.
pub fn two_hole_analysis(
    stg: &SymbolicAsyncGraph,
    observation1_weight_pairs: Vec<(String, usize)>,
    observation2_weight_pairs: Vec<(String, usize)>,
) -> (r: Result<Option<usize>, String>)
    requires
        forall|a: int, b: int|
            0 <= a < observation1_weight_pairs@.len() && 0 <= b
                < observation2_weight_pairs@.len() ==> #[trigger] observation1_weight_pairs@[a].1
                + #[trigger] observation2_weight_pairs@[b].1 <= usize::MAX,
    ensures
        r is Ok <==> all_pairs_accepted(observation1_weight_pairs@, *stg) && (
        observation1_weight_pairs@.len() > 0 ==> all_pairs_accepted(
            observation2_weight_pairs@,
            *stg,
        )),
        r matches Ok(best) ==> exists|reaches: Seq<Pairs>|
            #[trigger] cumulative_reaches(weighted_view(observation1_weight_pairs@), reaches, *stg)
                && weight_view(best) == best_pair_weight(
                weighted_view(observation1_weight_pairs@),
                weighted_view(observation2_weight_pairs@),
                reaches,
                *stg,
                observation1_weight_pairs@.len() as int,
                observation2_weight_pairs@.len() as int,
            ),
{
    let ghost first = weighted_view(observation1_weight_pairs@);
    let ghost second = weighted_view(observation2_weight_pairs@);
    let n1 = observation1_weight_pairs.len();
    let n2 = observation2_weight_pairs.len();
    let mut best: Option<usize> = None;
    let mut last_fwd_result = mk_empty_colored_vertices(stg);
    let ghost mut reaches: Seq<Pairs> = Seq::empty();
    let mut k: usize = 0;
    while k < n1
        invariant
            n1 == observation1_weight_pairs@.len(),
            n2 == observation2_weight_pairs@.len(),
            first == weighted_view(observation1_weight_pairs@),
            second == weighted_view(observation2_weight_pairs@),
            forall|a: int, b: int|
                0 <= a < observation1_weight_pairs@.len() && 0 <= b
                    < observation2_weight_pairs@.len() ==> #[trigger] observation1_weight_pairs@[a].1
                    + #[trigger] observation2_weight_pairs@[b].1 <= usize::MAX,
            k <= n1,
            reaches.len() == k,
            forall|m: int| 0 <= m < k ==> accepted(#[trigger] observation1_weight_pairs@[m].0@, *stg),
            k > 0 ==> all_pairs_accepted(observation2_weight_pairs@, *stg),
            cumulative_reaches(first.take(k as int), reaches, *stg),
            in_graph(last_fwd_result, *stg),
            well_formed(last_fwd_result),
            colored_vertices(last_fwd_result) == if k == 0 {
                Set::<(Seq<bool>, Seq<bool>)>::empty()
            } else {
                reaches[k - 1]
            },
            weight_view(best) == best_pair_weight(first, second, reaches, *stg, k as int, n2 as int),
        decreases n1 - k,
    {
        let formula1 = &observation1_weight_pairs[k].0;
        let weight1 = observation1_weight_pairs[k].1;
        let raw_observation1 = match model_check_formula(formula1, stg) {
            Ok(s) => s,
            Err(e) => {
                return Err(e);
            },
        };
        let fwd_seed_set = union(&raw_observation1, &last_fwd_result);
        let fwd_set = fwd_saturated(stg, &fwd_seed_set);
        let ghost prev_reaches = reaches;
        proof {
            reaches = reaches.push(colored_vertices(fwd_set));
            assert(first[k as int] == (formula1@, weight1 as nat));
            assert forall|a: int| 0 <= a < first.take(k + 1).len() implies #[trigger] reach_step(
                first.take(k + 1),
                reaches,
                *stg,
                a,
                reaches[a],
            ) by {
                if a < k {
                    assert(first.take(k as int)[a] == first.take(k + 1)[a]);
                    assert(reach_step(first.take(k as int), prev_reaches, *stg, a, prev_reaches[a]));
                } else {
                    assert(first.take(k + 1)[a] == first[k as int]);
                }
            }
            lemma_best_pair_weight_prefix(first, second, prev_reaches, reaches, *stg, k as int, n2 as int);
        }
        let mut j: usize = 0;
        while j < n2
            invariant
                n1 == observation1_weight_pairs@.len(),
                n2 == observation2_weight_pairs@.len(),
                first == weighted_view(observation1_weight_pairs@),
                second == weighted_view(observation2_weight_pairs@),
                forall|a: int, b: int|
                    0 <= a < observation1_weight_pairs@.len() && 0 <= b
                        < observation2_weight_pairs@.len() ==> #[trigger] observation1_weight_pairs@[a].1
                        + #[trigger] observation2_weight_pairs@[b].1 <= usize::MAX,
                k < n1,
                forall|m: int| 0 <= m <= k ==> accepted(#[trigger] observation1_weight_pairs@[m].0@, *stg),
                forall|m: int| 0 <= m < j ==> accepted(#[trigger] observation2_weight_pairs@[m].0@, *stg),
                weight1 == observation1_weight_pairs@[k as int].1,
                reaches.len() == k + 1,
                reaches[k as int] == colored_vertices(fwd_set),
                in_graph(fwd_set, *stg),
                j <= n2,
                weight_view(best) == best_pair_weight(first, second, reaches, *stg, k + 1, j as int),
            decreases n2 - j,
        {
            let formula2 = &observation2_weight_pairs[j].0;
            let weight2 = observation2_weight_pairs[j].1;
            let raw_observation2 = match model_check_formula(formula2, stg) {
                Ok(s) => s,
                Err(e) => {
                    return Err(e);
                },
            };
            let hit = intersect(&fwd_set, &raw_observation2);
            proof {
                assert(second[j as int] == (formula2@, weight2 as nat));
                assert(first[k as int].1 == weight1 as nat);
                assert(colored_vertices(hit) =~= satisfying_set(formula2@, *stg).intersect(
                    reaches[k as int],
                ));
            }
            if !is_empty(&hit) {
                best = update_weight(best, weight1 + weight2);
            }
            j = j + 1;
        }
        last_fwd_result = fwd_set;
        k = k + 1;
    }
    assert(first.take(n1 as int) =~= first);
    Ok(best)
}

/// Whether some state of `init` can reach a state satisfying the formula `f`, as the naive
/// evaluation decides it: directly, or by the extended formula `3{x}: @{x}: (%initial% & EF
/// %second%)`.
pub open spec fn naive_hit(f: Seq<char>, init: Pairs, g: SymbolicAsyncGraph) -> bool {
    let second = satisfying_set(f, g);
    init.intersect(second) != Set::<(Seq<bool>, Seq<bool>)>::empty() || extended_satisfying_set(
        "3{x}: @{x}: (%initial% & EF %second%)"@,
        g,
        seq![("initial"@, init), ("second"@, second)],
    ) != Set::<(Seq<bool>, Seq<bool>)>::empty()
}

/// The model checker accepts what the naive evaluation asks of the formula `f`: the formula,
/// and, when the initial states do not meet it directly, the reachability template.
pub open spec fn naive_accepted(f: Seq<char>, init: Pairs, g: SymbolicAsyncGraph) -> bool {
    accepted(f, g) && (init.intersect(satisfying_set(f, g)) == Set::<(Seq<bool>, Seq<bool>)>::empty()
        ==> extended_accepted(
        "3{x}: @{x}: (%initial% & EF %second%)"@,
        g,
        set!["initial"@, "second"@],
    ))
}

/// The best weight among the observations, taken in order, that the naive evaluation hits.
pub open spec fn naive_best(pairs: Seq<(Seq<char>, nat)>, init: Pairs, g: SymbolicAsyncGraph) -> Option<nat>
    decreases pairs.len(),
{
    if pairs.len() == 0 {
        None
    } else {
        let b = naive_best(pairs.drop_last(), init, g);
        if naive_hit(pairs.last().0, init, g) {
            updated(b, pairs.last().1)
        } else {
            b
        }
    }
}

/// The best weight of a second observation reachable from the first one, evaluating the
/// reachability property anew for every variant of the second observation. Fails with the
/// model checker's message when a formula cannot be evaluated.
pub fn naive_eval(
    stg: &SymbolicAsyncGraph,
    init_observation: &GraphColoredVertices,
    second_observation_weight_pairs: Vec<(String, usize)>,
) -> (r: Result<Option<usize>, String>)
    requires
        in_graph(*init_observation, *stg),
    ensures
        r is Ok <==> forall|m: int|
            0 <= m < second_observation_weight_pairs@.len() ==> naive_accepted(
                #[trigger] second_observation_weight_pairs@[m].0@,
                colored_vertices(*init_observation),
                *stg,
            ),
        r matches Ok(b) ==> weight_view(b) == naive_best(
            weighted_view(second_observation_weight_pairs@),
            colored_vertices(*init_observation),
            *stg,
        ),
{
    let ghost ps = weighted_view(second_observation_weight_pairs@);
    let ghost init = colored_vertices(*init_observation);
    let mut best: Option<usize> = None;
    let mut i: usize = 0;
    assert(ps.take(0) =~= Seq::<(Seq<char>, nat)>::empty());
    while i < second_observation_weight_pairs.len()
        invariant
            ps == weighted_view(second_observation_weight_pairs@),
            init == colored_vertices(*init_observation),
            in_graph(*init_observation, *stg),
            i <= ps.len(),
            weight_view(best) == naive_best(ps.take(i as int), init, *stg),
            forall|m: int|
                0 <= m < i ==> naive_accepted(#[trigger] second_observation_weight_pairs@[m].0@, init, *stg),
        decreases ps.len() - i,
    {
        let formula = &second_observation_weight_pairs[i].0;
        let weight = second_observation_weight_pairs[i].1;
        proof {
            assert(ps.take(i + 1).drop_last() =~= ps.take(i as int));
            assert(ps.take(i + 1).last() == (formula@, weight as nat));
        }
        let second = match model_check_formula(formula, stg) {
            Ok(s) => s,
            Err(e) => {
                return Err(e);
            },
        };
        let direct = intersect(init_observation, &second);
        if !is_empty(&direct) {
            best = update_weight(best, weight);
        } else {
            let context = vec![
                (String::from_str("initial"), copy_vertices(init_observation)),
                (String::from_str("second"), second),
            ];
            let template = "3{x}: @{x}: (%initial% & EF %second%)";
            proof {
                assert(context_view(context@) =~= seq![
                    ("initial"@, init),
                    ("second"@, satisfying_set(formula@, *stg)),
                ]);
                lemma_context_names_pair("initial"@, "second"@, init, satisfying_set(formula@, *stg));
            }
            let result = match model_check_extended_formula(template, stg, &context) {
                Ok(s) => s,
                Err(e) => {
                    return Err(e);
                },
            };
            if !is_empty(&result) {
                best = update_weight(best, weight);
            }
        }
        i = i + 1;
    }
    assert(ps.take(ps.len() as int) =~= ps);
    Ok(best)
}

/// The model checker accepts what the reusing evaluation asks of the formula `f`: the
/// formula, and, when the initial states do not meet it directly, both templates.
pub open spec fn reuse_accepted(f: Seq<char>, init: Pairs, g: SymbolicAsyncGraph) -> bool {
    accepted(f, g) && (init.intersect(satisfying_set(f, g)) == Set::<(Seq<bool>, Seq<bool>)>::empty()
        ==> extended_accepted("EF %extended_observation%"@, g, set!["extended_observation"@])
        && extended_accepted(
        "3{x}: @{x}: (%initial% & %ef_observation%)"@,
        g,
        set!["initial"@, "ef_observation"@],
    ))
}

/// One step of the evaluation that reuses the `EF` result of the previous variants: for a
/// variant that the initial states do not meet directly, `EF` of the variant together with
/// the previous `EF` result.
pub open spec fn ef_step(f: Seq<char>, init: Pairs, last_ef: Pairs, g: SymbolicAsyncGraph) -> Pairs {
    extended_satisfying_set(
        "EF %extended_observation%"@,
        g,
        seq![("extended_observation"@, satisfying_set(f, g).union(last_ef))],
    )
}

/// The best weight and the last `EF` result after the first variants, taken in order.
pub open spec fn reuse_state(pairs: Seq<(Seq<char>, nat)>, init: Pairs, g: SymbolicAsyncGraph) -> (Option<nat>, Pairs)
    decreases pairs.len(),
{
    if pairs.len() == 0 {
        (None, Set::empty())
    } else {
        let (b, last_ef) = reuse_state(pairs.drop_last(), init, g);
        let (f, w) = pairs.last();
        if init.intersect(satisfying_set(f, g)) != Set::<(Seq<bool>, Seq<bool>)>::empty() {
            (updated(b, w), last_ef)
        } else {
            let ef = ef_step(f, init, last_ef, g);
            let hit = extended_satisfying_set(
                "3{x}: @{x}: (%initial% & %ef_observation%)"@,
                g,
                seq![("initial"@, init), ("ef_observation"@, ef)],
            ) != Set::<(Seq<bool>, Seq<bool>)>::empty();
            (if hit { updated(b, w) } else { b }, ef)
        }
    }
}

/// The best weight of a second observation reachable from the first one, going from the most
/// specific variant of the second observation to the most general and reusing the `EF`
/// result of the previous variants in each step. Fails with the model checker's message when
/// a formula cannot be evaluated.
pub fn specific_to_general_eval(
    stg: &SymbolicAsyncGraph,
    init_observation: &GraphColoredVertices,
    second_observation_weight_pairs: Vec<(String, usize)>,
) -> (r: Result<Option<usize>, String>)
    requires
        in_graph(*init_observation, *stg),
    ensures
        r is Ok <==> forall|m: int|
            0 <= m < second_observation_weight_pairs@.len() ==> reuse_accepted(
                #[trigger] second_observation_weight_pairs@[m].0@,
                colored_vertices(*init_observation),
                *stg,
            ),
        r matches Ok(b) ==> weight_view(b) == reuse_state(
            weighted_view(second_observation_weight_pairs@),
            colored_vertices(*init_observation),
            *stg,
        ).0,
{
    let ghost ps = weighted_view(second_observation_weight_pairs@);
    let ghost init = colored_vertices(*init_observation);
    let mut best: Option<usize> = None;
    let mut last_ef_result = mk_empty_colored_vertices(stg);
    let mut i: usize = 0;
    assert(ps.take(0) =~= Seq::<(Seq<char>, nat)>::empty());
    while i < second_observation_weight_pairs.len()
        invariant
            ps == weighted_view(second_observation_weight_pairs@),
            init == colored_vertices(*init_observation),
            in_graph(*init_observation, *stg),
            in_graph(last_ef_result, *stg),
            i <= ps.len(),
            weight_view(best) == reuse_state(ps.take(i as int), init, *stg).0,
            colored_vertices(last_ef_result) == reuse_state(ps.take(i as int), init, *stg).1,
            forall|m: int|
                0 <= m < i ==> reuse_accepted(#[trigger] second_observation_weight_pairs@[m].0@, init, *stg),
        decreases ps.len() - i,
    {
        let formula = &second_observation_weight_pairs[i].0;
        let weight = second_observation_weight_pairs[i].1;
        proof {
            assert(ps.take(i + 1).drop_last() =~= ps.take(i as int));
            assert(ps.take(i + 1).last() == (formula@, weight as nat));
        }
        let second = match model_check_formula(formula, stg) {
            Ok(s) => s,
            Err(e) => {
                return Err(e);
            },
        };
        let direct = intersect(init_observation, &second);
        if !is_empty(&direct) {
            best = update_weight(best, weight);
        } else {
            let extended_observation = union(&second, &last_ef_result);
            let ef_context = vec![(String::from_str("extended_observation"), extended_observation)];
            proof {
                assert(context_view(ef_context@) =~= seq![
                    ("extended_observation"@, satisfying_set(formula@, *stg).union(
                        reuse_state(ps.take(i as int), init, *stg).1,
                    )),
                ]);
                lemma_context_names_single("extended_observation"@, satisfying_set(formula@, *stg).union(
                    reuse_state(ps.take(i as int), init, *stg).1,
                ));
            }
            last_ef_result = match model_check_extended_formula(
                "EF %extended_observation%",
                stg,
                &ef_context,
            ) {
                Ok(s) => s,
                Err(e) => {
                    return Err(e);
                },
            };
            let context = vec![
                (String::from_str("initial"), copy_vertices(init_observation)),
                (String::from_str("ef_observation"), copy_vertices(&last_ef_result)),
            ];
            proof {
                assert(context_view(context@) =~= seq![
                    ("initial"@, init),
                    ("ef_observation"@, colored_vertices(last_ef_result)),
                ]);
                lemma_context_names_pair("initial"@, "ef_observation"@, init, colored_vertices(last_ef_result));
            }
            let result = match model_check_extended_formula(
                "3{x}: @{x}: (%initial% & %ef_observation%)",
                stg,
                &context,
            ) {
                Ok(s) => s,
                Err(e) => {
                    return Err(e);
                },
            };
            if !is_empty(&result) {
                best = update_weight(best, weight);
            }
        }
        i = i + 1;
    }
    assert(ps.take(ps.len() as int) =~= ps);
    Ok(best)
}

} // verus!
