//! Formula templates for common dynamic properties: attractors, fixed points and
//! reachability between (partial) states.
//!
//! Each state argument is a propositional formula describing a (partial) state, such as
//! `a & ~b & c`. Several templates exist for one property because each lets the model
//! checker take a different shortcut.

use vstd::prelude::*;
use crate::text::push_str;

verus! {

/// `(3{x}: (@{x}: (S & (AG EF (S)))))`
pub open spec fn attractor_specific_text(s: Seq<char>) -> Seq<char> {
    "(3{x}: (@{x}: ("@ + s + " & (AG EF ("@ + s + ")))))"@
}

/// `(3{x}: (@{x}: (S & (!{y}: AG EF {y}))))`
pub open spec fn attractor_aeon_text(s: Seq<char>) -> Seq<char> {
    "(3{x}: (@{x}: ("@ + s + " & (!{y}: AG EF {y}))))"@
}

/// `(3{x}: (@{x}: (S & (AG EF (S & {x})))))`
pub open spec fn attractor_text(s: Seq<char>) -> Seq<char> {
    "(3{x}: (@{x}: ("@ + s + " & (AG EF ("@ + s + " & {x})))))"@
}

/// `(3{x}: (@{x}: (S & (AX (S)))))`
pub open spec fn fixed_point_specific_text(s: Seq<char>) -> Seq<char> {
    "(3{x}: (@{x}: ("@ + s + " & (AX ("@ + s + ")))))"@
}

/// `(3{x}: (@{x}: (S & (AX (S & {x})))))`
pub open spec fn fixed_point_text(s: Seq<char>) -> Seq<char> {
    "(3{x}: (@{x}: ("@ + s + " & (AX ("@ + s + " & {x})))))"@
}

/// The repeated pieces from which the list templates are assembled.
pub enum Piece {
    /// `attractor_text(S) & `
    Attractor,
    /// `fixed_point_text(S) & `
    FixedPoint,
    /// `(S) | `
    AllowedAttractor,
    /// `~(S) & `
    ForbiddenFixedPoint,
    /// `(3{x}: (@{x}: S & (AX {x}))) & `
    SteadyState,
    /// `~( S )  & `
    ForbiddenSteadyState,
    /// `(S) & EF (`
    ChainLink,
}

/// The text of one piece for the state formula `s`.
pub open spec fn piece_text(k: Piece, s: Seq<char>) -> Seq<char> {
    match k {
        Piece::Attractor => attractor_text(s) + " & "@,
        Piece::FixedPoint => fixed_point_text(s) + " & "@,
        Piece::AllowedAttractor => "("@ + s + ") | "@,
        Piece::ForbiddenFixedPoint => "~("@ + s + ") & "@,
        Piece::SteadyState => "(3{x}: (@{x}: "@ + s + " & (AX {x}))) & "@,
        Piece::ForbiddenSteadyState => "~( "@ + s + " )  & "@,
        Piece::ChainLink => "("@ + s + ") & EF ("@,
    }
}

/// The pieces of kind `k` for all `states`, concatenated in order.
pub open spec fn pieces_text(k: Piece, states: Seq<Seq<char>>) -> Seq<char>
    decreases states.len(),
{
    if states.len() == 0 {
        Seq::empty()
    } else {
        pieces_text(k, states.drop_last()) + piece_text(k, states.last())
    }
}

/// Taking one more state adds that state's piece at the end.
pub proof fn lemma_pieces_take_step(k: Piece, states: Seq<Seq<char>>, i: int)
    requires
        0 <= i < states.len(),
    ensures
        pieces_text(k, states.take(i + 1)) == pieces_text(k, states.take(i)) + piece_text(
            k,
            states[i],
        ),
{
    assert(states.take(i + 1).drop_last() =~= states.take(i));
}

/// All state formulas of the list are non-empty.
pub open spec fn all_nonempty(states: Seq<Seq<char>>) -> bool {
    forall|i: int| 0 <= i < states.len() ==> #[trigger] states[i].len() > 0
}

/// `attractor_text(S1) & ... & attractor_text(Sn) & true`
pub open spec fn attractor_set_text(states: Seq<Seq<char>>) -> Seq<char> {
    pieces_text(Piece::Attractor, states) + "true"@
}

/// `~(3{x}: (@{x}: ~(AG EF ((S1) | ... | (Sn) | false ))))`
pub open spec fn forbid_other_attractors_text(states: Seq<Seq<char>>) -> Seq<char> {
    "~(3{x}: (@{x}: ~(AG EF ("@ + pieces_text(Piece::AllowedAttractor, states)
        + "false ))))"@
}

/// `attractor_text(S1) & ... & attractor_text(Sn) & forbid_other_attractors_text(S1..Sn)`
pub open spec fn attractors_combined_text(states: Seq<Seq<char>>) -> Seq<char> {
    pieces_text(Piece::Attractor, states) + forbid_other_attractors_text(states)
}

/// `fixed_point_text(S1) & ... & fixed_point_text(Sn) & true`
pub open spec fn fixed_point_set_text(states: Seq<Seq<char>>) -> Seq<char> {
    pieces_text(Piece::FixedPoint, states) + "true"@
}

/// `~(3{x}: (@{x}: ~(S1) & ... & ~(Sn) & (AX {x})))`
pub open spec fn forbid_other_fixed_points_text(states: Seq<Seq<char>>) -> Seq<char> {
    "~(3{x}: (@{x}: "@ + pieces_text(Piece::ForbiddenFixedPoint, states) + "(AX {x})))"@
}

/// `fixed_point_text(S1) & ... & fixed_point_text(Sn) & forbid_other_fixed_points_text(S1..Sn)`
pub open spec fn fixed_points_combined_text(states: Seq<Seq<char>>) -> Seq<char> {
    pieces_text(Piece::FixedPoint, states) + forbid_other_fixed_points_text(states)
}

/// `(3{x}: (@{x}: FROM & (EF (TO))))`, or with `~EF` when `negative`.
pub open spec fn reachability_pair_text(from: Seq<char>, to: Seq<char>, negative: bool) -> Seq<
    char,
> {
    if negative {
        "(3{x}: (@{x}: "@ + from + " & (~EF ("@ + to + "))))"@
    } else {
        "(3{x}: (@{x}: "@ + from + " & (EF ("@ + to + "))))"@
    }
}

/// `n` closing parentheses.
pub open spec fn closing(n: nat) -> Seq<char> {
    Seq::new(n, |i: int| ')')
}

/// `(3{x}: (@{x}: (S1) & EF ((S2) & EF (... Sn)...)`, with `n + 1` closing parentheses.
pub open spec fn reachability_chain_text(states: Seq<Seq<char>>) -> Seq<char>
    recommends
        states.len() > 0,
{
    "(3{x}: (@{x}: "@ + pieces_text(Piece::ChainLink, states.drop_last()) + states.last()
        + closing(states.len() + 1)
}

/// Formula stating the existence of an attractor containing the given fully specified state.
pub fn mk_formula_attractor_specific(attractor_state: String) -> (r: String)
    requires
        attractor_state@.len() > 0,
    ensures
        r@ == attractor_specific_text(attractor_state@),
{
    let mut f = String::new();
    push_str(&mut f, "(3{x}: (@{x}: (");
    push_str(&mut f, attractor_state.as_str());
    push_str(&mut f, " & (AG EF (");
    push_str(&mut f, attractor_state.as_str());
    push_str(&mut f, ")))))");
    f
}

/// Formula stating the existence of an attractor containing the given (partial) state, in
/// the shape that lets the model checker use its attractor algorithms.
pub fn mk_formula_attractor_aeon(attractor_state: String) -> (r: String)
    requires
        attractor_state@.len() > 0,
    ensures
        r@ == attractor_aeon_text(attractor_state@),
{
    let mut f = String::new();
    push_str(&mut f, "(3{x}: (@{x}: (");
    push_str(&mut f, attractor_state.as_str());
    push_str(&mut f, " & (!{y}: AG EF {y}))))");
    f
}

/// Formula stating the existence of an attractor containing the given (partial) state.
pub fn mk_formula_attractor(attractor_state: String) -> (r: String)
    requires
        attractor_state@.len() > 0,
    ensures
        r@ == attractor_text(attractor_state@),
{
    let mut f = String::new();
    push_str(&mut f, "(3{x}: (@{x}: (");
    push_str(&mut f, attractor_state.as_str());
    push_str(&mut f, " & (AG EF (");
    push_str(&mut f, attractor_state.as_str());
    push_str(&mut f, " & {x})))))");
    f
}

/// Formula stating the existence of the given fully specified steady state.
pub fn mk_formula_fixed_point_specific(steady_state: String) -> (r: String)
    requires
        steady_state@.len() > 0,
    ensures
        r@ == fixed_point_specific_text(steady_state@),
{
    let mut f = String::new();
    push_str(&mut f, "(3{x}: (@{x}: (");
    push_str(&mut f, steady_state.as_str());
    push_str(&mut f, " & (AX (");
    push_str(&mut f, steady_state.as_str());
    push_str(&mut f, ")))))");
    f
}

/// Formula stating the existence of a steady state matching the given (partial) state.
pub fn mk_formula_fixed_point(steady_state: String) -> (r: String)
    requires
        steady_state@.len() > 0,
    ensures
        r@ == fixed_point_text(steady_state@),
{
    let mut f = String::new();
    push_str(&mut f, "(3{x}: (@{x}: (");
    push_str(&mut f, steady_state.as_str());
    push_str(&mut f, " & (AX (");
    push_str(&mut f, steady_state.as_str());
    push_str(&mut f, " & {x})))))");
    f
}

/// Appends the pieces of kind `k` for the first `end` states to `f`.
pub(crate) fn push_pieces(f: &mut String, k: Piece, states: &Vec<String>, end: usize)
    requires
        end <= states@.len(),
        all_nonempty(states.deep_view()),
    ensures
        final(f)@ == old(f)@ + pieces_text(k, states.deep_view().take(end as int)),
{
    let ghost start = f@;
    let ghost sv = states.deep_view();
    let mut i: usize = 0;
    assert(sv.take(0) =~= Seq::<Seq<char>>::empty());
    assert(start + Seq::<char>::empty() =~= start);
    while i < end
        invariant
            end <= states@.len(),
            sv == states.deep_view(),
            all_nonempty(sv),
            i <= end,
            f@ == start + pieces_text(k, sv.take(i as int)),
        decreases end - i,
    {
        let s = states[i].as_str();
        assert(sv[i as int] == s@);
        assert(sv[i as int].len() > 0);
        let ghost before = f@;
        match k {
            Piece::Attractor => {
                let a = mk_formula_attractor(states[i].clone());
                push_str(f, a.as_str());
                push_str(f, " & ");
            },
            Piece::FixedPoint => {
                let a = mk_formula_fixed_point(states[i].clone());
                push_str(f, a.as_str());
                push_str(f, " & ");
            },
            Piece::AllowedAttractor => {
                push_str(f, "(");
                push_str(f, s);
                push_str(f, ") | ");
            },
            Piece::ForbiddenFixedPoint => {
                push_str(f, "~(");
                push_str(f, s);
                push_str(f, ") & ");
            },
            Piece::SteadyState => {
                push_str(f, "(3{x}: (@{x}: ");
                push_str(f, s);
                push_str(f, " & (AX {x}))) & ");
            },
            Piece::ForbiddenSteadyState => {
                push_str(f, "~( ");
                push_str(f, s);
                push_str(f, " )  & ");
            },
            Piece::ChainLink => {
                push_str(f, "(");
                push_str(f, s);
                push_str(f, ") & EF (");
            },
        }
        proof {
            lemma_pieces_take_step(k, sv, i as int);
            assert(f@ =~= before + piece_text(k, sv[i as int]));
        }
        i = i + 1;
    }
}

/// Conjunction of attractor-existence formulas for all given states, ended by `true`.
pub fn mk_formula_attractor_set(attractor_state_set: Vec<String>) -> (r: String)
    requires
        all_nonempty(attractor_state_set.deep_view()),
    ensures
        r@ == attractor_set_text(attractor_state_set.deep_view()),
{
    let mut f = String::new();
    push_pieces(&mut f, Piece::Attractor, &attractor_state_set, attractor_state_set.len());
    push_str(&mut f, "true");
    proof {
        assert(attractor_state_set.deep_view().take(attractor_state_set@.len() as int)
            =~= attractor_state_set.deep_view());
    }
    f
}

/// Formula forbidding every attractor that contains none of the given states.
pub fn mk_formula_forbid_other_attractors(attractor_state_set: Vec<String>) -> (r: String)
    requires
        all_nonempty(attractor_state_set.deep_view()),
    ensures
        r@ == forbid_other_attractors_text(attractor_state_set.deep_view()),
{
    let mut f = String::new();
    push_str(&mut f, "~(3{x}: (@{x}: ~(AG EF (");
    push_pieces(&mut f, Piece::AllowedAttractor, &attractor_state_set, attractor_state_set.len());
    push_str(&mut f, "false ))))");
    proof {
        assert(attractor_state_set.deep_view().take(attractor_state_set@.len() as int)
            =~= attractor_state_set.deep_view());
    }
    f
}

/// Formula requiring an attractor for each given state and forbidding all other attractors.
pub fn mk_formula_attractors_combined(attractor_state_set: Vec<String>) -> (r: String)
    requires
        all_nonempty(attractor_state_set.deep_view()),
    ensures
        r@ == attractors_combined_text(attractor_state_set.deep_view()),
{
    let mut f = String::new();
    push_pieces(&mut f, Piece::Attractor, &attractor_state_set, attractor_state_set.len());
    let forbid = mk_formula_forbid_other_attractors(attractor_state_set.clone());
    push_str(&mut f, forbid.as_str());
    proof {
        assert(attractor_state_set.deep_view().take(attractor_state_set@.len() as int)
            =~= attractor_state_set.deep_view());
    }
    f
}

/// Conjunction of fixed-point-existence formulas for all given states, ended by `true`.
pub fn mk_formula_fixed_point_set(steady_state_set: Vec<String>) -> (r: String)
    requires
        all_nonempty(steady_state_set.deep_view()),
    ensures
        r@ == fixed_point_set_text(steady_state_set.deep_view()),
{
    let mut f = String::new();
    push_pieces(&mut f, Piece::FixedPoint, &steady_state_set, steady_state_set.len());
    push_str(&mut f, "true");
    proof {
        assert(steady_state_set.deep_view().take(steady_state_set@.len() as int)
            =~= steady_state_set.deep_view());
    }
    f
}

/// Formula forbidding every fixed point other than the given states.
pub fn mk_formula_forbid_other_fixed_points(steady_state_set: Vec<String>) -> (r: String)
    requires
        all_nonempty(steady_state_set.deep_view()),
    ensures
        r@ == forbid_other_fixed_points_text(steady_state_set.deep_view()),
{
    let mut f = String::new();
    push_str(&mut f, "~(3{x}: (@{x}: ");
    push_pieces(&mut f, Piece::ForbiddenFixedPoint, &steady_state_set, steady_state_set.len());
    push_str(&mut f, "(AX {x})))");
    proof {
        assert(steady_state_set.deep_view().take(steady_state_set@.len() as int)
            =~= steady_state_set.deep_view());
    }
    f
}

/// Formula requiring each given state to be a fixed point, and no other state to be one.
pub fn mk_formula_fixed_points_combined(steady_state_set: Vec<String>) -> (r: String)
    requires
        all_nonempty(steady_state_set.deep_view()),
    ensures
        r@ == fixed_points_combined_text(steady_state_set.deep_view()),
{
    let mut f = String::new();
    push_pieces(&mut f, Piece::FixedPoint, &steady_state_set, steady_state_set.len());
    let forbid = mk_formula_forbid_other_fixed_points(steady_state_set.clone());
    push_str(&mut f, forbid.as_str());
    proof {
        assert(steady_state_set.deep_view().take(steady_state_set@.len() as int)
            =~= steady_state_set.deep_view());
    }
    f
}

/// Formula stating that some state matching `from_state` can reach (or, when `is_negative`,
/// cannot reach) a state matching `to_state`.
pub fn mk_formula_reachability_pair(from_state: String, to_state: String, is_negative: bool) -> (r:
    String)
    requires
        from_state@.len() > 0,
        to_state@.len() > 0,
    ensures
        r@ == reachability_pair_text(from_state@, to_state@, is_negative),
{
    let mut f = String::new();
    push_str(&mut f, "(3{x}: (@{x}: ");
    push_str(&mut f, from_state.as_str());
    if is_negative {
        push_str(&mut f, " & (~EF (");
    } else {
        push_str(&mut f, " & (EF (");
    }
    push_str(&mut f, to_state.as_str());
    push_str(&mut f, "))))");
    f
}

/// Formula stating that each state of the sequence can reach the next one, starting from
/// the first (a time series `s0 -> s1 -> ... -> sN`).
pub fn mk_formula_reachability_chain(states_sequence: Vec<String>) -> (r: String)
    requires
        states_sequence@.len() > 0,
        all_nonempty(states_sequence.deep_view()),
    ensures
        r@ == reachability_chain_text(states_sequence.deep_view()),
{
    let ghost sv = states_sequence.deep_view();
    let num_states = states_sequence.len();
    let mut f = String::new();
    push_str(&mut f, "(3{x}: (@{x}: ");
    push_pieces(&mut f, Piece::ChainLink, &states_sequence, num_states - 1);
    push_str(&mut f, states_sequence[num_states - 1].as_str());
    let ghost before = f@;
    push_str(&mut f, ")");
    proof {
        reveal_strlit(")");
        assert(f@ =~= before + closing(1));
    }
    let mut i: usize = 0;
    while i < num_states
        invariant
            num_states == states_sequence@.len(),
            i <= num_states,
            f@ == before + closing((i + 1) as nat),
        decreases num_states - i,
    {
        push_str(&mut f, ")");
        proof {
            reveal_strlit(")");
            assert(closing((i + 2) as nat) =~= closing((i + 1) as nat).push(')'));
        }
        i = i + 1;
    }
    proof {
        assert(sv.take(num_states - 1) =~= sv.drop_last());
        assert(sv.last() == states_sequence[num_states - 1]@);
    }
    f
}

} // verus!
