//! Going through the candidate networks of a color set one at a time, without replacement.

use vstd::prelude::*;
use biodivine_lib_param_bn::symbolic_async_graph::GraphColors;
use crate::symbolic::{
    candidate_colors, color_set, color_space, colors_of, colors_well_formed, copy_colors,
    is_empty_colors, minus_color_sets, parameter_values, pick_singleton_colors, same_parameters,
};

verus! {

/// The union of a list of color sets.
pub open spec fn colors_union(sets: Seq<Set<Seq<bool>>>) -> Set<Seq<bool>>
    decreases sets.len(),
{
    if sets.len() == 0 {
        Set::empty()
    } else {
        colors_union(sets.drop_last()).union(sets.last())
    }
}

/// The colors of each set of a list.
pub open spec fn color_sets_of(sets: Seq<GraphColors>) -> Seq<Set<Seq<bool>>> {
    sets.map_values(|c: GraphColors| color_set(c))
}

/// The parameter parts of the colors of `s`, with the parameter variables of `c`.
pub open spec fn parameter_parts(s: Set<Seq<bool>>, c: GraphColors) -> Set<Seq<bool>> {
    s.map(|x: Seq<bool>| parameter_values(c, x))
}

/// The candidate networks of a color set: the parameter parts of its colors.
pub open spec fn candidates(c: GraphColors) -> Set<Seq<bool>> {
    parameter_parts(color_set(c), c)
}

/// Picks candidates out of `colors` one at a time, each time removing the picked one from
/// what is left, until nothing is left or `limit` candidates were picked. Each pick holds the
/// colors of exactly one candidate network (one parameter part); the picks are disjoint;
/// when fewer than `limit` were picked, there was one pick per candidate of `colors` and
/// together they make up all of `colors`.
pub fn enumerate_candidates(colors: &GraphColors, limit: usize) -> (r: Vec<GraphColors>)
    requires
        colors_well_formed(*colors),
    ensures
        r@.len() <= limit,
        forall|i: int|
            0 <= i < r@.len() ==> color_set(#[trigger] r@[i]) != Set::<Seq<bool>>::empty()
                && color_set(r@[i]).subset_of(color_set(*colors)) && color_space(r@[i])
                == color_space(*colors),
        forall|i: int, j: int|
            0 <= i < j < r@.len() ==> color_set(#[trigger] r@[i]).disjoint(color_set(#[trigger] r@[j])),
        r@.len() < limit ==> colors_union(color_sets_of(r@)) == color_set(*colors),
        forall|i: int|
            0 <= i < r@.len() ==> exists|p: Seq<bool>|
                color_set(#[trigger] r@[i]) == candidate_colors(*colors, p),
        r@.len() < limit ==> r@.len() == candidates(*colors).len(),
{
    let ghost all = color_set(*colors);
    let ghost space = colors_of(color_space(*colors));
    proof {
        color_space(*colors).lemma_map_finite(|p: (Seq<bool>, Seq<bool>)| p.1);
    }
    let mut picked: Vec<GraphColors> = Vec::new();
    let mut left = copy_colors(colors);
    let ghost mut ps: Seq<Seq<bool>> = Seq::empty();
    assert(parameter_parts(color_set(left), *colors) =~= candidates(*colors));
    assert(colors_union(color_sets_of(picked@)) =~= Set::<Seq<bool>>::empty());
    while picked.len() < limit && !is_empty_colors(&left)
        invariant
            all == color_set(*colors),
            space == colors_of(color_space(*colors)),
            space.finite(),
            picked@.len() <= limit,
            color_space(left) == color_space(*colors),
            color_set(left).subset_of(all),
            same_parameters(left, *colors),
            forall|x: Seq<bool>, y: Seq<bool>|
                all.contains(x) && all.contains(y) && parameter_values(*colors, x)
                    == parameter_values(*colors, y) && #[trigger] color_set(left).contains(x)
                    ==> #[trigger] color_set(left).contains(y),
            ps.len() == picked@.len(),
            ps.no_duplicates(),
            ps.to_set() == candidates(*colors).difference(parameter_parts(color_set(left), *colors)),
            forall|i: int|
                0 <= i < picked@.len() ==> color_set(#[trigger] picked@[i]) == candidate_colors(
                    *colors,
                    ps[i],
                ),
            colors_union(color_sets_of(picked@)).union(color_set(left)) == all,
            colors_union(color_sets_of(picked@)).disjoint(color_set(left)),
            forall|i: int|
                0 <= i < picked@.len() ==> color_set(#[trigger] picked@[i]) != Set::<
                    Seq<bool>,
                >::empty() && color_set(picked@[i]).subset_of(all) && color_space(picked@[i])
                    == color_space(*colors),
            forall|i: int, j: int|
                0 <= i < j < picked@.len() ==> color_set(#[trigger] picked@[i]).disjoint(
                    color_set(#[trigger] picked@[j]),
                ),
        decreases color_set(left).len(),
    {
        let one = pick_singleton_colors(&left);
        let next = minus_color_sets(&left, &one);
        proof {
            let l = color_set(left);
            let o = color_set(one);
            assert(!(l =~= Set::<Seq<bool>>::empty()));
            let p = choose|p: Seq<bool>| o == #[trigger] candidate_colors(left, p);
            assert(o =~= candidate_colors(*colors, p)) by {
                let x0 = o.choose();
                assert(o.contains(x0)) by {
                    assert(!(o =~= Set::<Seq<bool>>::empty()));
                }
                assert(parameter_values(left, x0) == parameter_values(*colors, x0));
                assert forall|x: Seq<bool>| candidate_colors(*colors, p).contains(x) implies o.contains(x) by {
                    assert(l.contains(x));
                    assert(parameter_values(left, x) == parameter_values(*colors, x));
                }
                assert forall|x: Seq<bool>| o.contains(x) implies candidate_colors(*colors, p).contains(x) by {
                    assert(parameter_values(left, x) == parameter_values(*colors, x));
                }
            }
            let x0 = o.choose();
            assert(o.contains(x0)) by {
                assert(!(o =~= Set::<Seq<bool>>::empty()));
            }
            assert(parameter_parts(l, *colors).contains(p)) by {
                assert(l.contains(x0));
            }
            assert(!ps.to_set().contains(p));
            let nl = color_set(next);
            assert(nl =~= l.filter(|x: Seq<bool>| parameter_values(*colors, x) != p)) by {
                assert forall|x: Seq<bool>| nl.contains(x) implies parameter_values(*colors, x) != p by {
                    assert(parameter_values(left, x) == parameter_values(*colors, x));
                }
            }
            assert(parameter_parts(nl, *colors) =~= parameter_parts(l, *colors).remove(p)) by {
                assert forall|q: Seq<bool>| parameter_parts(l, *colors).contains(q) && q != p implies parameter_parts(nl, *colors).contains(q) by {
                    let x = choose|x: Seq<bool>| l.contains(x) && parameter_values(*colors, x) == q;
                    assert(nl.contains(x));
                }
            }
            let ps2 = ps.push(p);
            assert(ps2.no_duplicates()) by {
                assert forall|a: int, b: int| 0 <= a < b < ps2.len() implies ps2[a] != ps2[b] by {
                    if b == ps.len() {
                        assert(ps.to_set().contains(ps[a]));
                    }
                }
            }
            ps.lemma_push_to_set_commute(p);
            assert(ps2.to_set() =~= ps.to_set().insert(p));
            assert(ps2.to_set() =~= candidates(*colors).difference(parameter_parts(nl, *colors)));
            ps = ps2;
            let l = color_set(left);
            let o = color_set(one);
            let u = colors_union(color_sets_of(picked@));
            assert(color_sets_of(picked@.push(one)) =~= color_sets_of(picked@).push(o));
            assert(color_sets_of(picked@).push(o).drop_last() =~= color_sets_of(picked@));
            assert forall|i: int| 0 <= i < picked@.len() implies color_set(#[trigger] picked@[i]).disjoint(o) by {
                assert forall|c| color_set(picked@[i]).contains(c) implies !o.contains(c) by {
                    assert(color_sets_of(picked@)[i] == color_set(picked@[i]));
                    lemma_union_contains(color_sets_of(picked@), i, c);
                }
            }
            vstd::set_lib::lemma_len_subset(l, space);
            let c = o.choose();
            assert(o.contains(c)) by {
                assert(!(o =~= Set::<Seq<bool>>::empty()));
            }
            assert(color_set(next).subset_of(l.remove(c)));
            vstd::set_lib::lemma_len_subset(color_set(next), l.remove(c));
            assert(u.union(o).union(color_set(next)) =~= all);
        }
        picked.push(one);
        left = next;
    }
    proof {
        if picked@.len() < limit {
            assert(color_set(left) =~= Set::<Seq<bool>>::empty());
            assert(colors_union(color_sets_of(picked@)) =~= all);
            assert(parameter_parts(color_set(left), *colors) =~= Set::<Seq<bool>>::empty());
            assert(ps.to_set() =~= candidates(*colors));
            ps.unique_seq_to_set();
        }
        assert forall|i: int| 0 <= i < picked@.len() implies exists|p: Seq<bool>|
            color_set(#[trigger] picked@[i]) == candidate_colors(*colors, p) by {
            assert(color_set(picked@[i]) == candidate_colors(*colors, ps[i]));
        }
    }
    picked
}

/// A set of a list lies in the union of the list.
proof fn lemma_union_contains(sets: Seq<Set<Seq<bool>>>, i: int, c: Seq<bool>)
    requires
        0 <= i < sets.len(),
        sets[i].contains(c),
    ensures
        colors_union(sets).contains(c),
    decreases sets.len(),
{
    if i < sets.len() - 1 {
        assert(sets.drop_last()[i] == sets[i]);
        lemma_union_contains(sets.drop_last(), i, c);
    }
}

} // verus!
